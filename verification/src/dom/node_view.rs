//! What a tree of nodes is, seen from outside, and what the passes over
//! it make of it.

use vstd::prelude::*;
use crate::application::elem_table::Item;
use crate::event::hub::EventDispatcher;
use crate::primitive::{region_contains, Point, Region};

verus! {

/// What a node is, seen from outside.
pub struct NodeView {
    /// The bus scope of the node.
    pub emitter: EventDispatcher,
    /// The region that the parent gave to the node, if it gave one.
    pub draw_region: Option<Region>,
    /// Where the node reacted to the pointer when it was last rendered.
    pub interact_region: Option<Region>,
    /// Whether the last pointer event found the pointer on the node or on
    /// a node below it.
    pub entered: bool,
    /// The nodes directly below.
    pub children: Seq<NodeView>,
}

/// A pointer at `position` is in `region`.
pub open spec fn pointer_in(region: Option<Region>, position: Option<Point>) -> bool {
    &&& region matches Some(r)
    &&& position matches Some(p)
    &&& region_contains(r, p)
}

/// A pointer at `position` is on `node` or on a node below it.
pub open spec fn node_entered(node: NodeView, position: Option<Point>) -> bool
    decreases node,
{
    pointer_in(node.interact_region, position) || any_entered(node.children, position)
}

/// A pointer at `position` is on one of `nodes` or on a node below one.
pub open spec fn any_entered(nodes: Seq<NodeView>, position: Option<Point>) -> bool
    decreases nodes,
{
    if nodes.len() == 0 {
        false
    } else {
        any_entered(nodes.drop_last(), position) || node_entered(nodes.last(), position)
    }
}

/// `node` after it was told of a pointer at `position`.
pub open spec fn node_told(node: NodeView, position: Option<Point>) -> NodeView
    decreases node,
{
    NodeView {
        entered: node_entered(node, position),
        children: all_told(node.children, position),
        ..node
    }
}

/// `nodes` after each was told of a pointer at `position`.
pub open spec fn all_told(nodes: Seq<NodeView>, position: Option<Point>) -> Seq<NodeView>
    decreases nodes,
{
    if nodes.len() == 0 {
        Seq::empty()
    } else {
        all_told(nodes.drop_last(), position).push(node_told(nodes.last(), position))
    }
}

/// `nodes` after `regions` were handed to them, the first region to the
/// first node. Nodes for which no region is left keep what they had.
pub open spec fn laid_out(nodes: Seq<NodeView>, regions: Seq<Region>) -> Seq<NodeView> {
    Seq::new(
        nodes.len(),
        |i: int|
            if i < regions.len() {
                NodeView { draw_region: Some(regions[i]), ..nodes[i] }
            } else {
                nodes[i]
            },
    )
}

/// The entries that rendering `node` appends to a hit-test table that
/// holds `base` entries: its own, below `parent`, then those of the nodes
/// below it.
pub open spec fn node_entries(node: NodeView, parent: Option<usize>, base: int) -> Seq<Item>
    decreases node,
{
    seq![Item { event_emitter: node.emitter, interact_region: node.interact_region, parent }]
        + all_entries(node.children, Some(base as usize), base + 1)
}

/// The entries that rendering `nodes`, one after the other, appends to a
/// hit-test table that holds `base` entries.
pub open spec fn all_entries(nodes: Seq<NodeView>, parent: Option<usize>, base: int) -> Seq<Item>
    decreases nodes,
{
    if nodes.len() == 0 {
        Seq::empty()
    } else {
        let before = all_entries(nodes.drop_last(), parent, base);
        before + node_entries(nodes.last(), parent, base + before.len())
    }
}

/// `after` is the node `before`, but for the regions in it: it has the
/// scope and the pointer flag of `before`, and below it the same nodes.
pub open spec fn same_node(before: NodeView, after: NodeView) -> bool
    decreases before,
{
    &&& after.emitter == before.emitter
    &&& after.entered == before.entered
    &&& same_nodes(before.children, after.children)
}

/// `after` are the nodes `before`, but for the regions in them.
pub open spec fn same_nodes(before: Seq<NodeView>, after: Seq<NodeView>) -> bool
    decreases before,
{
    if before.len() == 0 {
        after.len() == 0
    } else {
        &&& after.len() == before.len()
        &&& same_nodes(before.drop_last(), after.drop_last())
        &&& same_node(before.last(), after.last())
    }
}

/// What a render pass leaves of `before`: the same nodes, each at the top
/// with the region that it had.
pub open spec fn rendered(before: Seq<NodeView>, after: Seq<NodeView>) -> bool {
    &&& same_nodes(before, after)
    &&& forall|i: int|
        0 <= i < before.len() ==> (#[trigger] after[i]).draw_region == before[i].draw_region
}

/// `n`, or the largest `usize` where `n` is beyond it.
pub open spec fn capped(n: nat) -> usize {
    if n <= usize::MAX {
        n as usize
    } else {
        usize::MAX
    }
}

/// What is left of `regions` after `n` of them were handed out, or after
/// all of them were where there are fewer.
pub open spec fn regions_after(regions: Seq<Region>, n: int) -> Seq<Region> {
    if 0 <= n <= regions.len() {
        regions.skip(n)
    } else {
        Seq::empty()
    }
}

/// A pointer is on one of two runs of nodes when it is on one of the
/// first run or on one of the second.
pub proof fn lemma_any_entered_concat(
    first: Seq<NodeView>,
    second: Seq<NodeView>,
    position: Option<Point>,
)
    ensures
        any_entered(first + second, position) == (any_entered(first, position) || any_entered(
            second,
            position,
        )),
    decreases second.len(),
{
    if second.len() == 0 {
        assert(first + second =~= first);
    } else {
        assert((first + second).drop_last() =~= first + second.drop_last());
        assert((first + second).last() == second.last());
        lemma_any_entered_concat(first, second.drop_last(), position);
    }
}

/// Telling two runs of nodes of a pointer event, one after the other, is
/// telling the whole run.
pub proof fn lemma_all_told_concat(
    first: Seq<NodeView>,
    second: Seq<NodeView>,
    position: Option<Point>,
)
    ensures
        all_told(first + second, position) == all_told(first, position) + all_told(
            second,
            position,
        ),
    decreases second.len(),
{
    if second.len() == 0 {
        assert(first + second =~= first);
        assert(all_told(first, position) + all_told(second, position) =~= all_told(
            first,
            position,
        ));
    } else {
        assert((first + second).drop_last() =~= first + second.drop_last());
        assert((first + second).last() == second.last());
        lemma_all_told_concat(first, second.drop_last(), position);
        assert(all_told(first + second, position) =~= all_told(first, position) + all_told(
            second,
            position,
        ));
    }
}

/// Handing out regions gives the first region to the first node, the
/// second to the second, and so on, and changes nothing else. With as
/// many regions as nodes every node has its region and none is left; with
/// more, those beyond the last node are left; with fewer, the nodes for
/// which none is left keep the region that they had.
pub proof fn lemma_laid_out(nodes: Seq<NodeView>, regions: Seq<Region>)
    ensures
        laid_out(nodes, regions).len() == nodes.len(),
        forall|i: int|
            0 <= i < nodes.len() ==> #[trigger] laid_out(nodes, regions)[i] == (NodeView {
                draw_region: if i < regions.len() {
                    Some(regions[i])
                } else {
                    nodes[i].draw_region
                },
                ..nodes[i]
            }),
        regions.len() >= nodes.len() ==> regions_after(regions, nodes.len() as int)
            == regions.skip(nodes.len() as int),
        regions.len() <= nodes.len() ==> regions_after(regions, nodes.len() as int).len() == 0,
{
}

/// Handing regions to two runs of nodes, one after the other, is handing
/// them to the whole run.
pub proof fn lemma_laid_out_concat(
    first: Seq<NodeView>,
    second: Seq<NodeView>,
    regions: Seq<Region>,
)
    ensures
        laid_out(first + second, regions) == laid_out(first, regions) + laid_out(
            second,
            regions_after(regions, first.len() as int),
        ),
{
    assert(laid_out(first + second, regions) =~= laid_out(first, regions) + laid_out(
        second,
        regions_after(regions, first.len() as int),
    ));
}

/// Rendering two runs of nodes, one after the other, appends the entries
/// of the first and then, counted from where they end, those of the
/// second.
pub proof fn lemma_all_entries_concat(
    first: Seq<NodeView>,
    second: Seq<NodeView>,
    parent: Option<usize>,
    base: int,
)
    ensures
        all_entries(first + second, parent, base) == all_entries(first, parent, base)
            + all_entries(second, parent, base + all_entries(first, parent, base).len()),
    decreases second.len(),
{
    let head = all_entries(first, parent, base);
    if second.len() == 0 {
        assert(first + second =~= first);
        assert(head + Seq::<Item>::empty() =~= head);
    } else {
        assert((first + second).drop_last() =~= first + second.drop_last());
        assert((first + second).last() == second.last());
        lemma_all_entries_concat(first, second.drop_last(), parent, base);
        assert(all_entries(first + second, parent, base) =~= head + all_entries(
            second,
            parent,
            base + head.len(),
        ));
    }
}

/// Every node is itself, regions and all.
pub proof fn lemma_same_node_refl(node: NodeView)
    ensures
        same_node(node, node),
    decreases node,
{
    lemma_same_nodes_refl(node.children);
}

/// Every run of nodes is itself, regions and all.
pub proof fn lemma_same_nodes_refl(nodes: Seq<NodeView>)
    ensures
        same_nodes(nodes, nodes),
        rendered(nodes, nodes),
    decreases nodes,
{
    if nodes.len() > 0 {
        lemma_same_nodes_refl(nodes.drop_last());
        lemma_same_node_refl(nodes.last());
    }
}

/// Being the same node but for regions carries over two steps.
pub proof fn lemma_same_node_trans(a: NodeView, b: NodeView, c: NodeView)
    requires
        same_node(a, b),
        same_node(b, c),
    ensures
        same_node(a, c),
    decreases a,
{
    lemma_same_nodes_trans(a.children, b.children, c.children);
}

/// Being the same nodes but for regions carries over two steps.
pub proof fn lemma_same_nodes_trans(a: Seq<NodeView>, b: Seq<NodeView>, c: Seq<NodeView>)
    requires
        same_nodes(a, b),
        same_nodes(b, c),
    ensures
        same_nodes(a, c),
    decreases a,
{
    if a.len() > 0 {
        lemma_same_nodes_trans(a.drop_last(), b.drop_last(), c.drop_last());
        lemma_same_node_trans(a.last(), b.last(), c.last());
    }
}

/// Two runs that a render pass left as they are make a run that it left
/// as it is.
pub proof fn lemma_rendered_concat(
    first: Seq<NodeView>,
    second: Seq<NodeView>,
    first_after: Seq<NodeView>,
    second_after: Seq<NodeView>,
)
    requires
        rendered(first, first_after),
        rendered(second, second_after),
    ensures
        rendered(first + second, first_after + second_after),
    decreases second.len(),
{
    lemma_same_nodes_len(first, first_after);
    lemma_same_nodes_len(second, second_after);
    if second.len() == 0 {
        assert(first + second =~= first);
        assert(first_after + second_after =~= first_after);
    } else {
        assert((first + second).drop_last() =~= first + second.drop_last());
        assert((first_after + second_after).drop_last() =~= first_after
            + second_after.drop_last());
        let front = second.drop_last();
        let front_after = second_after.drop_last();
        assert forall|i: int| 0 <= i < front.len() implies (#[trigger] front_after[i]).draw_region
            == front[i].draw_region by {
            assert(second_after[i].draw_region == second[i].draw_region);
        }
        lemma_rendered_concat(first, second.drop_last(), first_after, second_after.drop_last());
        assert forall|i: int| 0 <= i < (first + second).len() implies (#[trigger] (first_after
            + second_after)[i]).draw_region == (first + second)[i].draw_region by {
            if i < first.len() {
                assert(first_after[i].draw_region == first[i].draw_region);
            } else {
                assert(second_after[i - first.len()].draw_region == second[i
                    - first.len()].draw_region);
            }
        }
    }
}

/// Runs that are the same nodes are equally long.
pub proof fn lemma_same_nodes_len(before: Seq<NodeView>, after: Seq<NodeView>)
    requires
        same_nodes(before, after),
    ensures
        before.len() == after.len(),
{
}

/// Handing out regions changes no node but for its region.
pub proof fn lemma_same_nodes_laid_out(nodes: Seq<NodeView>, regions: Seq<Region>)
    ensures
        same_nodes(nodes, laid_out(nodes, regions)),
    decreases nodes.len(),
{
    if nodes.len() > 0 {
        let out = laid_out(nodes, regions);
        lemma_same_nodes_laid_out(nodes.drop_last(), regions);
        assert(out.drop_last() =~= laid_out(nodes.drop_last(), regions));
        lemma_same_nodes_refl(nodes.last().children);
        assert(out.last() == out[nodes.len() - 1]);
        assert(out.last().children == nodes.last().children);
        assert(same_node(nodes.last(), out.last()));
    }
}

} // verus!
