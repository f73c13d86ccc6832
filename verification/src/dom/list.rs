//! Lists of child structures.

use vstd::prelude::*;
use std::time::Duration;
use crate::application::elem_table::{Builder, Item};
use crate::application::event_comp::NewPointerEvent;
use crate::dom::children::{layout_after, render_after, RenderMultiple};
use crate::dom::node_view::{
    all_entries,
    all_told,
    any_entered,
    capped,
    laid_out,
    lemma_all_entries_concat,
    lemma_all_told_concat,
    lemma_any_entered_concat,
    lemma_laid_out_concat,
    lemma_rendered_concat,
    regions_after,
    rendered,
    NodeView,
};
use crate::element::{Error, RegionIter};

verus! {

/// The nodes of a list of structures: those of the first structure, then
/// those of the second, and so on.
pub open spec fn nodes_of<T: RenderMultiple>(items: Seq<T>) -> Seq<NodeView>
    decreases items.len(),
{
    if items.len() == 0 {
        Seq::empty()
    } else {
        nodes_of(items.drop_last()) + items.last().nodes()
    }
}

/// Every structure of the list holds exclusively stored nodes only.
pub open spec fn all_exclusive<T: RenderMultiple>(items: Seq<T>) -> bool {
    forall|i: int| 0 <= i < items.len() ==> (#[trigger] items[i]).exclusive()
}

/// Structure `j` holds as many nodes in `new` as in `old`, stored in the
/// same way.
pub open spec fn same_shape_at<T: RenderMultiple>(new: Seq<T>, old: Seq<T>, j: int) -> bool {
    &&& new[j].nodes().len() == old[j].nodes().len()
    &&& new[j].exclusive() == old[j].exclusive()
}

/// The lists are equally long and agree, structure by structure, on how
/// many nodes there are and on how they are stored.
pub open spec fn same_shape<T: RenderMultiple>(new: Seq<T>, old: Seq<T>) -> bool {
    &&& new.len() == old.len()
    &&& forall|j: int| 0 <= j < old.len() ==> #[trigger] same_shape_at(new, old, j)
}

/// What a pass over a list has done when it comes to structure `i`: it
/// has kept the shape of the list and has not touched what is ahead.
pub open spec fn walked_to<T: RenderMultiple>(now: Seq<T>, old: Seq<T>, i: int) -> bool {
    &&& same_shape(now, old)
    &&& forall|j: int| i <= j < old.len() ==> #[trigger] now[j] == old[j]
}

/// The nodes of the first `k + 1` structures are those of the first `k`
/// and those of structure `k`.
pub proof fn lemma_nodes_of_step<T: RenderMultiple>(items: Seq<T>, k: int)
    requires
        0 <= k < items.len(),
    ensures
        nodes_of(items.take(k + 1)) == nodes_of(items.take(k)) + items[k].nodes(),
{
    assert(items.take(k + 1).drop_last() =~= items.take(k));
}

/// A pass that has kept the shape of structure `i` and has changed no
/// other has come to structure `i + 1`.
pub proof fn lemma_walk_on<T: RenderMultiple>(after: Seq<T>, before: Seq<T>, old: Seq<T>, i: int)
    requires
        walked_to(before, old, i),
        0 <= i < old.len(),
        after.len() == before.len(),
        forall|j: int| 0 <= j < before.len() && j != i ==> #[trigger] after[j] == before[j],
        same_shape_at(after, before, i),
    ensures
        walked_to(after, old, i + 1),
        after.take(i) == before.take(i),
{
    assert forall|j: int| 0 <= j < old.len() implies #[trigger] same_shape_at(after, old, j) by {
        assert(same_shape_at(before, old, j));
    }
    assert(after.take(i) =~= before.take(i));
}

/// Lists of the same shape hold equally many nodes, as a whole and up to
/// any point, and agree on whether all nodes are stored exclusively. The
/// nodes of a part are no more than the nodes of the whole.
pub proof fn lemma_same_shape<T: RenderMultiple>(new: Seq<T>, old: Seq<T>, k: int)
    requires
        same_shape(new, old),
        0 <= k <= old.len(),
    ensures
        nodes_of(new.take(k)).len() == nodes_of(old.take(k)).len(),
        nodes_of(old.take(k)).len() <= nodes_of(old).len(),
        nodes_of(new).len() == nodes_of(old).len(),
        all_exclusive(new) == all_exclusive(old),
    decreases old.len() - k,
{
    lemma_prefix_len(new, old, k);
    if k == old.len() {
        assert(old.take(k) =~= old);
        assert(new.take(k) =~= new);
    } else {
        lemma_same_shape(new, old, k + 1);
        lemma_nodes_of_step(old, k);
    }
    if all_exclusive(new) {
        assert forall|j: int| 0 <= j < old.len() implies (#[trigger] old[j]).exclusive() by {
            assert(same_shape_at(new, old, j));
            assert(new[j].exclusive());
        }
    }
    if all_exclusive(old) {
        assert forall|j: int| 0 <= j < new.len() implies (#[trigger] new[j]).exclusive() by {
            assert(same_shape_at(new, old, j));
            assert(old[j].exclusive());
        }
    }
}

proof fn lemma_prefix_len<T: RenderMultiple>(new: Seq<T>, old: Seq<T>, k: int)
    requires
        same_shape(new, old),
        0 <= k <= old.len(),
    ensures
        nodes_of(new.take(k)).len() == nodes_of(old.take(k)).len(),
    decreases k,
{
    if k > 0 {
        lemma_prefix_len(new, old, k - 1);
        lemma_nodes_of_step(new, k - 1);
        lemma_nodes_of_step(old, k - 1);
        assert(same_shape_at(new, old, k - 1));
    }
}

/// A list that holds no node holds none in any of its structures.
pub proof fn lemma_nodes_of_none<T: RenderMultiple>(items: Seq<T>, k: int)
    requires
        0 <= k < items.len(),
        nodes_of(items).len() == 0,
    ensures
        items[k].nodes().len() == 0,
    decreases items.len(),
{
    if k < items.len() - 1 {
        lemma_nodes_of_none(items.drop_last(), k);
    }
}

/// A list of structures of one shape.
impl<T: RenderMultiple> RenderMultiple for Vec<T> {
    open spec fn nodes(&self) -> Seq<NodeView> {
        nodes_of(self@)
    }

    open spec fn exclusive(&self) -> bool {
        all_exclusive(self@)
    }

    fn node_count(&self) -> (n: usize) {
        let mut n: usize = 0;
        let mut i: usize = 0;
        assert(self@.take(0) =~= Seq::<T>::empty());
        while i < self.len()
            invariant
                i <= self@.len(),
                n == capped(nodes_of(self@.take(i as int)).len()),
            decreases self@.len() - i,
        {
            let more = self[i].node_count();
            proof {
                lemma_nodes_of_step(self@, i as int);
            }
            n = if n > usize::MAX - more {
                usize::MAX
            } else {
                n + more
            };
            i = i + 1;
        }
        assert(self@.take(self@.len() as int) =~= self@);
        n
    }

    fn render(&mut self, builder: &mut Builder<'_>, interval: Duration) -> (r: Result<(), Error>) {
        let ghost before = builder.entries();
        let ghost top = builder@.top();
        let mut r: Result<(), Error> = Ok(());
        let mut i: usize = 0;
        proof {
            assert(before.take(before.len() as int) =~= before);
            assert(self@.take(0) =~= Seq::<T>::empty());
            assert(before + Seq::<Item>::empty() =~= before);
        }
        while i < self.len()
            invariant
                i <= self@.len(),
                walked_to(self@, old(self)@, i as int),
                builder.wf(),
                builder.stack() == old(builder).stack(),
                before == old(builder).entries(),
                top == old(builder)@.top(),
                before.len() <= builder.entries().len(),
                builder.entries().take(before.len() as int) == before,
                *final(builder.table) == *final(old(builder).table),
                nodes_of(old(self)@).len() == 0 ==> r is Ok,
                r is Ok ==> builder.entries().len() >= before.len() + nodes_of(
                    old(self)@.take(i as int),
                ).len(),
                all_exclusive(old(self)@) ==> {
                    &&& rendered(
                        nodes_of(old(self)@.take(i as int)),
                        nodes_of(self@.take(i as int)),
                    )
                    &&& r is Ok ==> builder.entries() == before + all_entries(
                        nodes_of(self@.take(i as int)),
                        top,
                        before.len() as int,
                    )
                },
            decreases self@.len() - i,
        {
            let ghost between = builder.entries();
            let ghost items = self@;
            proof {
                if nodes_of(old(self)@).len() == 0 {
                    lemma_nodes_of_none(old(self)@, i as int);
                }
            }
            r = render_after(r, &mut self[i], builder, interval);
            proof {
                assert(builder.entries().take(before.len() as int) =~= before) by {
                    assert(builder.entries().take(between.len() as int).take(before.len() as int)
                        =~= builder.entries().take(before.len() as int));
                }
                lemma_walk_on(self@, items, old(self)@, i as int);
                lemma_nodes_of_step(self@, i as int);
                lemma_nodes_of_step(old(self)@, i as int);
                if all_exclusive(old(self)@) {
                    lemma_rendered_concat(
                        nodes_of(old(self)@.take(i as int)),
                        old(self)@[i as int].nodes(),
                        nodes_of(self@.take(i as int)),
                        self@[i as int].nodes(),
                    );
                    if r is Ok {
                        lemma_all_entries_concat(
                            nodes_of(self@.take(i as int)),
                            self@[i as int].nodes(),
                            top,
                            before.len() as int,
                        );
                        assert(builder.entries() =~= before + all_entries(
                            nodes_of(self@.take(i as int + 1)),
                            top,
                            before.len() as int,
                        ));
                    }
                }
            }
            i = i + 1;
        }
        proof {
            assert(self@.take(self@.len() as int) =~= self@);
            assert(old(self)@.take(self@.len() as int) =~= old(self)@);
            lemma_same_shape(self@, old(self)@, 0);
        }
        r
    }

    fn layout(&mut self, iter: &mut RegionIter) -> (r: Result<(), Error>) {
        let ghost regions = iter@;
        let mut r: Result<(), Error> = Ok(());
        let mut i: usize = 0;
        proof {
            assert(self@.take(0) =~= Seq::<T>::empty());
            assert(regions.skip(0) =~= regions);
            assert(laid_out(Seq::<NodeView>::empty(), regions) =~= Seq::<NodeView>::empty());
        }
        while i < self.len()
            invariant
                i <= self@.len(),
                walked_to(self@, old(self)@, i as int),
                regions == old(iter)@,
                nodes_of(old(self)@).len() == 0 ==> r is Ok,
                r matches Err(e) ==> e is NotEnoughRegions || e is Borrowed,
                r is Ok ==> {
                    &&& nodes_of(old(self)@.take(i as int)).len() <= regions.len()
                    &&& iter@ == regions.skip(nodes_of(old(self)@.take(i as int)).len() as int)
                },
                r == Err::<(), Error>(Error::NotEnoughRegions) ==> {
                    &&& iter@.len() == 0
                    &&& regions.len() < nodes_of(old(self)@.take(i as int)).len()
                },
                r == Err::<(), Error>(Error::Borrowed) ==> !all_exclusive(old(self)@),
                all_exclusive(old(self)@) ==> nodes_of(self@.take(i as int)) == laid_out(
                    nodes_of(old(self)@.take(i as int)),
                    regions,
                ),
            decreases self@.len() - i,
        {
            let ghost items = self@;
            let ghost done = nodes_of(old(self)@.take(i as int));
            let ghost left = iter@;
            let ghost so_far = r;
            proof {
                if nodes_of(old(self)@).len() == 0 {
                    lemma_nodes_of_none(old(self)@, i as int);
                }
            }
            r = layout_after(r, &mut self[i], iter);
            proof {
                lemma_walk_on(self@, items, old(self)@, i as int);
                lemma_nodes_of_step(self@, i as int);
                lemma_nodes_of_step(old(self)@, i as int);
                lemma_laid_out_concat(done, old(self)@[i as int].nodes(), regions);
                if so_far is Ok {
                    assert(regions_after(regions, done.len() as int) == left);
                    if r is Ok {
                        assert(regions.skip(done.len() as int).skip(
                            old(self)@[i as int].nodes().len() as int,
                        ) =~= regions.skip(
                            (done.len() + old(self)@[i as int].nodes().len()) as int,
                        ));
                    }
                } else if all_exclusive(old(self)@) {
                    assert(laid_out(
                        old(self)@[i as int].nodes(),
                        regions_after(regions, done.len() as int),
                    ) =~= old(self)@[i as int].nodes());
                }
            }
            i = i + 1;
        }
        proof {
            assert(self@.take(self@.len() as int) =~= self@);
            assert(old(self)@.take(self@.len() as int) =~= old(self)@);
            lemma_same_shape(self@, old(self)@, 0);
        }
        r
    }

    fn emit_event(&mut self, npe: &NewPointerEvent) -> (entered: bool) {
        let mut entered = false;
        let mut i: usize = 0;
        proof {
            assert(self@.take(0) =~= Seq::<T>::empty());
        }
        while i < self.len()
            invariant
                i <= self@.len(),
                walked_to(self@, old(self)@, i as int),
                all_exclusive(old(self)@) ==> {
                    &&& entered == any_entered(nodes_of(old(self)@.take(i as int)), npe.position)
                    &&& nodes_of(self@.take(i as int)) == all_told(
                        nodes_of(old(self)@.take(i as int)),
                        npe.position,
                    )
                },
            decreases self@.len() - i,
        {
            let ghost items = self@;
            let here = self[i].emit_event(npe);
            proof {
                lemma_walk_on(self@, items, old(self)@, i as int);
                lemma_nodes_of_step(self@, i as int);
                lemma_nodes_of_step(old(self)@, i as int);
                lemma_any_entered_concat(
                    nodes_of(old(self)@.take(i as int)),
                    old(self)@[i as int].nodes(),
                    npe.position,
                );
                lemma_all_told_concat(
                    nodes_of(old(self)@.take(i as int)),
                    old(self)@[i as int].nodes(),
                    npe.position,
                );
            }
            entered = entered || here;
            i = i + 1;
        }
        proof {
            assert(self@.take(self@.len() as int) =~= self@);
            assert(old(self)@.take(self@.len() as int) =~= old(self)@);
            lemma_same_shape(self@, old(self)@, 0);
        }
        entered
    }
}

} // verus!
