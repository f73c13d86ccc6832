//! One node of the tree.

use vstd::prelude::*;
use std::time::Duration;
use crate::application::elem_table::Builder;
use crate::application::event_comp::NewPointerEvent;
use crate::application::elem_table::Item;
use crate::dom::node_view::{
    all_entries,
    all_told,
    any_entered,
    laid_out,
    lemma_same_nodes_laid_out,
    lemma_same_nodes_refl,
    lemma_same_nodes_trans,
    node_entered,
    rendered,
    node_entries,
    node_told,
    pointer_in,
    same_node,
    same_nodes,
    NodeView,
};
use crate::dom::children::{render_after, RenderMultiple};
use crate::element::{Element, Error, RegionIter, RenderContent};
use crate::event::hub::EventDispatcher;
use crate::primitive::{contains, Region};

verus! {

/// An element in the tree, with what the tree keeps for it.
pub struct ElementModel<El, Sc> {
    el: El,
    children: Sc,
    event_dispatcher: EventDispatcher,
    draw_region: Option<Region>,
    interact_region: Option<Region>,
    entered: bool,
}

impl<El: Element, Sc: RenderMultiple> View for ElementModel<El, Sc> {
    type V = NodeView;

    closed spec fn view(&self) -> NodeView {
        NodeView {
            emitter: self.event_dispatcher,
            draw_region: self.draw_region,
            interact_region: self.interact_region,
            entered: self.entered,
            children: self.children.nodes(),
        }
    }
}

impl<El: Element, Sc: RenderMultiple> ElementModel<El, Sc> {
    /// The element of the node.
    pub closed spec fn spec_element(&self) -> El {
        self.el
    }

    /// Whether every node below this one is stored exclusively.
    pub closed spec fn exclusive_below(&self) -> bool {
        self.children.exclusive()
    }

    /// A node that has not been laid out, rendered or told of the pointer.
    pub fn new(el: El, children: Sc, event_dispatcher: EventDispatcher) -> (node: Self)
        ensures
            node@ == (NodeView {
                emitter: event_dispatcher,
                draw_region: None,
                interact_region: None,
                entered: false,
                children: children.nodes(),
            }),
            node.exclusive_below() == children.exclusive(),
            node.spec_element() == el,
    {
        ElementModel {
            el,
            children,
            event_dispatcher,
            draw_region: None,
            interact_region: None,
            entered: false,
        }
    }

    /// The element.
    pub fn element(&self) -> (el: &El)
        ensures
            *el == self.spec_element(),
    {
        &self.el
    }

    /// The nodes below.
    pub fn children(&self) -> (children: &Sc)
        ensures
            children.nodes() == self@.children,
            children.exclusive() == self.exclusive_below(),
    {
        &self.children
    }

    pub fn event_dispatcher(&self) -> (ed: EventDispatcher)
        ensures
            ed == self@.emitter,
    {
        self.event_dispatcher
    }

    pub fn draw_region(&self) -> (region: Option<Region>)
        ensures
            region == self@.draw_region,
    {
        self.draw_region
    }

    pub fn interact_region(&self) -> (region: Option<Region>)
        ensures
            region == self@.interact_region,
    {
        self.interact_region
    }

    pub fn is_entered(&self) -> (entered: bool)
        ensures
            entered == self@.entered,
    {
        self.entered
    }

    /// Gives the node its region.
    pub fn layout(&mut self, region: Region)
        ensures
            final(self)@ == (NodeView { draw_region: Some(region), ..old(self)@ }),
            final(self).exclusive_below() == old(self).exclusive_below(),
            final(self).spec_element() == old(self).spec_element(),
    {
        self.draw_region = Some(region);
    }

    /// Renders the node: opens its entry in the hit-test table, lets the
    /// element draw, and goes on as [`Self::complete`] says. The first
    /// failure ends the pass; the entry is closed all the same.
    pub fn render(&mut self, builder: &mut Builder<'_>, interval: Duration) -> (r: Result<
        (),
        Error,
    >)
        requires
            old(builder).wf(),
        ensures
            final(builder).wf(),
            final(builder).stack() == old(builder).stack(),
            old(builder).entries().len() <= final(builder).entries().len(),
            final(builder).entries().take(old(builder).entries().len() as int) == old(
                builder,
            ).entries(),
            *final(final(builder).table) == *final(old(builder).table),
            final(self).exclusive_below() == old(self).exclusive_below(),
            final(self)@.emitter == old(self)@.emitter,
            final(self)@.draw_region == old(self)@.draw_region,
            final(self)@.entered == old(self)@.entered,
            final(self)@.children.len() == old(self)@.children.len(),
            r is Ok ==> {
                &&& final(builder).entries().len() > old(builder).entries().len()
                    + old(self)@.children.len()
                &&& final(builder).entries()[old(builder).entries().len() as int] == (Item {
                    event_emitter: old(self)@.emitter,
                    interact_region: final(self)@.interact_region,
                    parent: old(builder)@.top(),
                })
            },
            old(self).exclusive_below() ==> {
                &&& same_node(old(self)@, final(self)@)
                &&& r is Ok ==> final(builder).entries() == old(builder).entries() + node_entries(
                    final(self)@,
                    old(builder)@.top(),
                    old(builder).entries().len() as int,
                )
            },
    {
        let ghost before = builder.entries();
        let ghost top = builder@.top();
        let index = builder.push(self.event_dispatcher);
        let mut content = RenderContent::new(
            index,
            interval,
            self.draw_region,
            self.children.node_count(),
        );
        let drawn = self.el.render(&mut content);
        let ghost opened = builder@;
        let ghost reacts = content.interact_region;
        let ghost regions = content.child_regions@;
        let r = self.complete(builder, index, drawn, content, interval);
        proof {
            let after = builder.entries();
            assert(opened.entries.take(index as int) =~= before);
            assert(builder.stack() =~= old(builder).stack());
            lemma_same_nodes_refl(old(self)@.children);
            lemma_same_nodes_laid_out(old(self)@.children, regions);
            if old(self).exclusive_below() && drawn is Ok && regions.len() >= old(
                self,
            )@.children.len() {
                lemma_same_nodes_trans(
                    old(self)@.children,
                    laid_out(old(self)@.children, regions),
                    self@.children,
                );
                if r is Ok {
                    assert(opened.set_region(index, reacts).entries =~= before + seq![
                        Item {
                            event_emitter: self.event_dispatcher,
                            interact_region: reacts,
                            parent: top,
                        },
                    ]);
                    assert(after =~= before + node_entries(self@, top, before.len() as int));
                }
            }
        }
        r
    }

    /// Takes what the element of the node left in `content` when it drew:
    /// entry `index`, which is that of the node, and the node itself take
    /// the region in which the element reacts, and the nodes below are
    /// handed the regions that the element placed. Fails where those are
    /// too few, or where a shared node below is in use elsewhere.
    pub fn register(
        &mut self,
        builder: &mut Builder<'_>,
        index: usize,
        content: RenderContent,
    ) -> (placed: Result<(), Error>)
        requires
            index < old(builder).entries().len(),
        ensures
            final(builder)@ == old(builder)@.set_region(index, content.interact_region),
            old(builder).wf() ==> final(builder).wf(),
            *final(final(builder).table) == *final(old(builder).table),
            final(self)@.interact_region == content.interact_region,
            final(self)@.emitter == old(self)@.emitter,
            final(self)@.draw_region == old(self)@.draw_region,
            final(self)@.entered == old(self)@.entered,
            final(self)@.children.len() == old(self)@.children.len(),
            final(self).exclusive_below() == old(self).exclusive_below(),
            final(self).spec_element() == old(self).spec_element(),
            placed is Ok ==> content.child_regions@.len() >= old(self)@.children.len(),
            placed matches Err(e) ==> e is NotEnoughRegions || e is Borrowed,
            placed == Err::<(), Error>(Error::NotEnoughRegions) ==> content.child_regions@.len()
                < old(self)@.children.len(),
            placed == Err::<(), Error>(Error::Borrowed) ==> !old(self).exclusive_below(),
            old(self)@.children.len() == 0 ==> placed is Ok,
            old(self).exclusive_below() ==> {
                &&& placed is Ok <==> content.child_regions@.len() >= old(self)@.children.len()
                &&& final(self)@.children == laid_out(
                    old(self)@.children,
                    content.child_regions@,
                )
            },
    {
        builder.set_interact_region_for(index, content.interact_region);
        self.interact_region = content.interact_region;
        let mut iter = RegionIter::new(content.child_regions);
        self.children.layout(&mut iter)
    }

    /// Goes on with the render pass of the node once its element has
    /// drawn. `index` is the entry of the node, which is open and the last
    /// one; `drawn` is what the element returned and `content` what it
    /// left.
    ///
    /// Where the element failed, its error is handed on and nothing is
    /// registered. Otherwise what the element left is taken as
    /// [`Self::register`] says, and the nodes below are rendered below the
    /// entry as [`render_after`] says. In every case the entry is closed
    /// at the end.
    pub fn complete(
        &mut self,
        builder: &mut Builder<'_>,
        index: usize,
        drawn: Result<(), Error>,
        content: RenderContent,
        interval: Duration,
    ) -> (r: Result<(), Error>)
        requires
            old(builder).wf(),
            old(builder).entries().len() == index + 1,
            old(builder)@.top() == Some(index),
        ensures
            final(builder).wf(),
            final(builder).stack() == old(builder).stack().drop_last(),
            old(builder).entries().len() <= final(builder).entries().len(),
            final(builder).entries().take(index as int) == old(builder).entries().take(
                index as int,
            ),
            *final(final(builder).table) == *final(old(builder).table),
            final(self).exclusive_below() == old(self).exclusive_below(),
            final(self)@.emitter == old(self)@.emitter,
            final(self)@.draw_region == old(self)@.draw_region,
            final(self)@.entered == old(self)@.entered,
            final(self)@.children.len() == old(self)@.children.len(),
            drawn matches Err(e) ==> {
                &&& r == Err::<(), Error>(e)
                &&& final(self)@ == old(self)@
                &&& final(builder)@ == old(builder)@.finish()
            },
            drawn is Ok ==> {
                &&& final(self)@.interact_region == content.interact_region
                &&& final(builder).entries()[index as int] == old(builder)@.set_region(
                    index,
                    content.interact_region,
                ).entries[index as int]
            },
            drawn is Ok && old(self)@.children.len() == 0 ==> r is Ok,
            r is Ok ==> {
                &&& drawn is Ok
                &&& content.child_regions@.len() >= old(self)@.children.len()
                &&& final(builder).entries().len() > index + old(self)@.children.len()
            },
            drawn is Ok && old(self).exclusive_below() ==> {
                let registered = old(builder)@.set_region(index, content.interact_region);
                let laid = laid_out(old(self)@.children, content.child_regions@);
                if content.child_regions@.len() < old(self)@.children.len() {
                    &&& r == Err::<(), Error>(Error::NotEnoughRegions)
                    &&& final(self)@.children == laid
                    &&& final(builder)@ == registered.finish()
                } else {
                    &&& rendered(laid, final(self)@.children)
                    &&& r is Ok ==> final(builder).entries() == registered.entries + all_entries(
                        final(self)@.children,
                        Some(index),
                        index + 1,
                    )
                }
            },
    {
        let ghost opened = builder@;
        let result = match drawn {
            Err(e) => Err(e),
            Ok(()) => {
                let placed = self.register(builder, index, content);
                render_after(placed, &mut self.children, builder, interval)
            },
        };
        builder.finish();
        proof {
            let after = builder.entries();
            assert(after.take(index as int) =~= opened.entries.take(index as int)) by {
                assert(after.take(index as int + 1).take(index as int) =~= after.take(
                    index as int,
                ));
            }
        }
        result
    }

    /// Gives the node the next region of `iter`. Where none is left, the
    /// node and `iter` stay as they are and the shortage is reported.
    pub fn layout_next(&mut self, iter: &mut RegionIter) -> (r: Result<(), Error>)
        ensures
            r is Ok <==> old(iter)@.len() > 0,
            r is Ok ==> {
                &&& final(self)@ == (NodeView { draw_region: Some(old(iter)@[0]), ..old(self)@ })
                &&& final(iter)@ == old(iter)@.skip(1)
            },
            r is Err ==> {
                &&& r == Err::<(), Error>(Error::NotEnoughRegions)
                &&& final(self)@ == old(self)@
                &&& final(iter)@ == old(iter)@
            },
            final(self).exclusive_below() == old(self).exclusive_below(),
            final(self).spec_element() == old(self).spec_element(),
    {
        match iter.next() {
            Some(region) => {
                self.layout(region);
                Ok(())
            },
            None => Err(Error::NotEnoughRegions),
        }
    }

    /// Tells the node, and every node below it, of a pointer event.
    /// Returns whether the pointer is on the node or on a node below it.
    pub fn emit_event(&mut self, npe: &NewPointerEvent) -> (entered: bool)
        ensures
            final(self).exclusive_below() == old(self).exclusive_below(),
            final(self).spec_element() == old(self).spec_element(),
            final(self)@.emitter == old(self)@.emitter,
            final(self)@.draw_region == old(self)@.draw_region,
            final(self)@.interact_region == old(self)@.interact_region,
            final(self)@.children.len() == old(self)@.children.len(),
            final(self)@.entered == entered,
            pointer_in(old(self)@.interact_region, npe.position) ==> entered,
            old(self).exclusive_below() ==> {
                &&& entered == node_entered(old(self)@, npe.position)
                &&& final(self)@ == node_told(old(self)@, npe.position)
            },
    {
        let children_entered = self.children.emit_event(npe);
        let on_self = match (self.interact_region, npe.position) {
            (Some(region), Some(position)) => contains(&region, position),
            _ => false,
        };
        self.entered = on_self || children_entered;
        self.entered
    }
}

impl<El: Element, Sc: RenderMultiple> RenderMultiple for ElementModel<El, Sc> {
    open spec fn nodes(&self) -> Seq<NodeView> {
        seq![self@]
    }

    open spec fn exclusive(&self) -> bool {
        self.exclusive_below()
    }

    fn node_count(&self) -> (n: usize) {
        1
    }

    fn render(&mut self, builder: &mut Builder<'_>, interval: Duration) -> (r: Result<(), Error>)
        ensures
            r is Ok ==> final(builder).entries()[old(builder).entries().len() as int] == (Item {
                event_emitter: old(self)@.emitter,
                interact_region: final(self)@.interact_region,
                parent: old(builder)@.top(),
            }),
    {
        let r = ElementModel::render(self, builder, interval);
        proof {
            reveal_with_fuel(all_entries, 2);
            reveal_with_fuel(same_nodes, 2);
            assert(seq![self@].drop_last() =~= Seq::<NodeView>::empty());
            assert(seq![old(self)@].drop_last() =~= Seq::<NodeView>::empty());
            assert(Seq::<Item>::empty() + node_entries(
                self@,
                old(builder)@.top(),
                old(builder).entries().len() as int,
            ) =~= node_entries(self@, old(builder)@.top(), old(builder).entries().len() as int));
        }
        r
    }

    fn layout(&mut self, iter: &mut RegionIter) -> (r: Result<(), Error>) {
        let r = self.layout_next(iter);
        assert(self.nodes() =~= laid_out(old(self).nodes(), old(iter)@));
        r
    }

    fn emit_event(&mut self, npe: &NewPointerEvent) -> (entered: bool) {
        let entered = ElementModel::emit_event(self, npe);
        proof {
            reveal_with_fuel(any_entered, 2);
            reveal_with_fuel(all_told, 2);
            assert(seq![old(self)@].drop_last() =~= Seq::<NodeView>::empty());
            if old(self).exclusive() {
                assert(self.nodes() =~= all_told(old(self).nodes(), npe.position));
            }
        }
        entered
    }
}

} // verus!
