//! One way to walk child structures of every shape.
//!
//! What an element holds as children differs from element to element: one
//! node, none, two structures side by side, a list, something that may be
//! absent. Whatever the shape, it can be rendered, laid out and told of a
//! pointer event, and in each case the nodes it holds at its top are
//! visited in order.

use vstd::prelude::*;
use std::time::Duration;
use crate::application::elem_table::{Builder, Item};
use crate::application::event_comp::NewPointerEvent;
use crate::dom::node_view::{
    all_entries,
    all_told,
    any_entered,
    capped,
    laid_out,
    lemma_all_entries_concat,
    lemma_all_told_concat,
    lemma_any_entered_concat,
    lemma_laid_out_concat,
    lemma_rendered_concat,
    lemma_same_nodes_refl,
    rendered,
    NodeView,
};
use crate::element::{Error, RegionIter};
use crate::primitive::Region;

verus! {

/// A structure of child nodes.
pub trait RenderMultiple {
    /// The nodes at the top of the structure, first to last.
    spec fn nodes(&self) -> Seq<NodeView>;

    /// Whether every node in the structure is stored exclusively. Of a
    /// node in shared storage nothing is known from outside but that it is
    /// there.
    spec fn exclusive(&self) -> bool;

    /// How many nodes are at the top of the structure; `usize::MAX` stands
    /// for that many or more.
    fn node_count(&self) -> (n: usize)
        ensures
            n == capped(self.nodes().len());

    /// Renders the nodes in order. Each opens its entry in the hit-test
    /// table, draws, registers where it reacts, renders what is below it,
    /// and closes its entry. The first failure ends the pass: the nodes
    /// after it are not rendered, and what was appended stays. Whatever
    /// happens, the entries that were there stay as they were and no entry
    /// is left open. A pass that succeeds has appended an entry for each
    /// node, at least. What happens to the parts of a structure one after
    /// the other is said by [`render_after`].
    fn render(&mut self, builder: &mut Builder<'_>, interval: Duration) -> (r: Result<(), Error>)
        requires
            old(builder).wf(),
        ensures
            final(builder).wf(),
            final(builder).stack() == old(builder).stack(),
            old(builder).entries().len() <= final(builder).entries().len(),
            final(builder).entries().take(old(builder).entries().len() as int) == old(
                builder,
            ).entries(),
            *final(final(builder).table) == *final(old(builder).table),
            final(self).exclusive() == old(self).exclusive(),
            final(self).nodes().len() == old(self).nodes().len(),
            old(self).nodes().len() == 0 ==> r is Ok,
            r is Ok ==> final(builder).entries().len() >= old(builder).entries().len() + old(
                self,
            ).nodes().len(),
            old(self).exclusive() ==> {
                &&& rendered(old(self).nodes(), final(self).nodes())
                &&& r is Ok ==> final(builder).entries() == old(builder).entries() + all_entries(
                    final(self).nodes(),
                    old(builder)@.top(),
                    old(builder).entries().len() as int,
                )
            },
    ;

    /// Hands one region to each node, in order. Fails where the regions
    /// run out first, and where it comes to a shared node that is in use
    /// elsewhere; regions that are left over stay in `iter`. What happens
    /// to the parts of a structure one after the other is said by
    /// [`layout_after`].
    fn layout(&mut self, iter: &mut RegionIter) -> (r: Result<(), Error>)
        ensures
            final(self).exclusive() == old(self).exclusive(),
            final(self).nodes().len() == old(self).nodes().len(),
            r is Ok ==> old(iter)@.len() >= old(self).nodes().len() && final(iter)@ == old(
                iter,
            )@.skip(old(self).nodes().len() as int),
            r matches Err(e) ==> e is NotEnoughRegions || e is Borrowed,
            r == Err::<(), Error>(Error::NotEnoughRegions) ==> {
                &&& old(iter)@.len() < old(self).nodes().len()
                &&& final(iter)@.len() == 0
            },
            r == Err::<(), Error>(Error::Borrowed) ==> !old(self).exclusive(),
            old(self).nodes().len() == 0 ==> r is Ok,
            old(self).exclusive() ==> {
                &&& r is Ok <==> old(iter)@.len() >= old(self).nodes().len()
                &&& r matches Err(e) ==> e is NotEnoughRegions && final(iter)@.len() == 0
                &&& final(self).nodes() == laid_out(old(self).nodes(), old(iter)@)
            },
    ;

    /// Tells every node of a pointer event and returns whether the
    /// pointer is on any of them, or on a node below one.
    fn emit_event(&mut self, npe: &NewPointerEvent) -> (entered: bool)
        ensures
            final(self).exclusive() == old(self).exclusive(),
            final(self).nodes().len() == old(self).nodes().len(),
            old(self).exclusive() ==> {
                &&& entered == any_entered(old(self).nodes(), npe.position)
                &&& final(self).nodes() == all_told(old(self).nodes(), npe.position)
            },
    ;
}

/// The next part of a render pass, where `so_far` is what the parts before
/// it returned. After a failure the pass does not go on: the failure is
/// handed on as it is, and `next` and the table stay as they are.
/// Otherwise `next` is rendered, and what that returns is the result.
pub fn render_after<T: RenderMultiple>(
    so_far: Result<(), Error>,
    next: &mut T,
    builder: &mut Builder<'_>,
    interval: Duration,
) -> (r: Result<(), Error>)
    requires
        old(builder).wf(),
    ensures
        so_far matches Err(e) ==> {
            &&& r == Err::<(), Error>(e)
            &&& *final(next) == *old(next)
            &&& final(builder)@ == old(builder)@
        },
        final(builder).wf(),
        final(builder).stack() == old(builder).stack(),
        old(builder).entries().len() <= final(builder).entries().len(),
        final(builder).entries().take(old(builder).entries().len() as int) == old(
            builder,
        ).entries(),
        *final(final(builder).table) == *final(old(builder).table),
        final(next).exclusive() == old(next).exclusive(),
        final(next).nodes().len() == old(next).nodes().len(),
        so_far is Ok && old(next).nodes().len() == 0 ==> r is Ok,
        r is Ok ==> so_far is Ok && final(builder).entries().len() >= old(builder).entries().len()
            + old(next).nodes().len(),
        old(next).exclusive() ==> {
            &&& rendered(old(next).nodes(), final(next).nodes())
            &&& r is Ok ==> final(builder).entries() == old(builder).entries() + all_entries(
                final(next).nodes(),
                old(builder)@.top(),
                old(builder).entries().len() as int,
            )
        },
{
    match so_far {
        Err(e) => {
            proof {
                lemma_same_nodes_refl(next.nodes());
                assert(builder.entries().take(builder.entries().len() as int)
                    =~= builder.entries());
            }
            Err(e)
        },
        Ok(()) => next.render(builder, interval),
    }
}

/// The next part of a layout pass, where `so_far` is what the parts before
/// it returned. After a failure the pass does not go on: the failure is
/// handed on as it is, and `next` and the regions stay as they are.
/// Otherwise `next` is laid out, and what that returns is the result.
pub fn layout_after<T: RenderMultiple>(
    so_far: Result<(), Error>,
    next: &mut T,
    iter: &mut RegionIter,
) -> (r: Result<(), Error>)
    ensures
        so_far matches Err(e) ==> {
            &&& r == Err::<(), Error>(e)
            &&& *final(next) == *old(next)
            &&& final(iter)@ == old(iter)@
        },
        final(next).exclusive() == old(next).exclusive(),
        final(next).nodes().len() == old(next).nodes().len(),
        r is Ok ==> {
            &&& so_far is Ok
            &&& old(iter)@.len() >= old(next).nodes().len()
            &&& final(iter)@ == old(iter)@.skip(old(next).nodes().len() as int)
        },
        so_far is Ok ==> (r matches Err(e) ==> e is NotEnoughRegions || e is Borrowed),
        so_far is Ok && r == Err::<(), Error>(Error::NotEnoughRegions) ==> {
            &&& old(iter)@.len() < old(next).nodes().len()
            &&& final(iter)@.len() == 0
        },
        so_far is Ok && r == Err::<(), Error>(Error::Borrowed) ==> !old(next).exclusive(),
        so_far is Ok && old(next).nodes().len() == 0 ==> r is Ok,
        so_far is Ok && old(next).exclusive() ==> {
            &&& r is Ok <==> old(iter)@.len() >= old(next).nodes().len()
            &&& r matches Err(e) ==> e is NotEnoughRegions && final(iter)@.len() == 0
            &&& final(next).nodes() == laid_out(old(next).nodes(), old(iter)@)
        },
{
    match so_far {
        Err(e) => Err(e),
        Ok(()) => next.layout(iter),
    }
}

/// No children.
impl RenderMultiple for () {
    open spec fn nodes(&self) -> Seq<NodeView> {
        Seq::empty()
    }

    open spec fn exclusive(&self) -> bool {
        true
    }

    fn node_count(&self) -> (n: usize) {
        0
    }

    fn render(&mut self, builder: &mut Builder<'_>, interval: Duration) -> (r: Result<(), Error>) {
        assert(builder.entries().take(builder.entries().len() as int) =~= builder.entries());
        assert(builder.entries() + Seq::<Item>::empty() =~= builder.entries());
        Ok(())
    }

    fn layout(&mut self, iter: &mut RegionIter) -> (r: Result<(), Error>) {
        assert(iter@.skip(0) =~= iter@);
        assert(laid_out(self.nodes(), iter@) =~= self.nodes());
        Ok(())
    }

    fn emit_event(&mut self, npe: &NewPointerEvent) -> (entered: bool) {
        false
    }
}

/// Two structures side by side: the nodes of the first, then those of the
/// second. A longer run of structures is a pair whose second part is a
/// pair again.
impl<A: RenderMultiple, B: RenderMultiple> RenderMultiple for (A, B) {
    open spec fn nodes(&self) -> Seq<NodeView> {
        self.0.nodes() + self.1.nodes()
    }

    open spec fn exclusive(&self) -> bool {
        self.0.exclusive() && self.1.exclusive()
    }

    fn node_count(&self) -> (n: usize) {
        let first = self.0.node_count();
        let second = self.1.node_count();
        if first > usize::MAX - second {
            usize::MAX
        } else {
            first + second
        }
    }

    fn render(&mut self, builder: &mut Builder<'_>, interval: Duration) -> (r: Result<(), Error>) {
        let ghost before = builder.entries();
        let ghost top = builder@.top();
        let first = self.0.render(builder, interval);
        let ghost between = builder.entries();
        let r = render_after(first, &mut self.1, builder, interval);
        proof {
            assert(builder.entries().take(before.len() as int) =~= before) by {
                assert(builder.entries().take(between.len() as int).take(before.len() as int)
                    =~= builder.entries().take(before.len() as int));
            }
            if old(self).exclusive() {
                lemma_rendered_concat(
                    old(self).0.nodes(),
                    old(self).1.nodes(),
                    self.0.nodes(),
                    self.1.nodes(),
                );
                if r is Ok {
                    lemma_all_entries_concat(
                        self.0.nodes(),
                        self.1.nodes(),
                        top,
                        before.len() as int,
                    );
                    assert(builder.entries() =~= before + all_entries(
                        self.nodes(),
                        top,
                        before.len() as int,
                    ));
                }
            }
        }
        r
    }

    fn layout(&mut self, iter: &mut RegionIter) -> (r: Result<(), Error>) {
        proof {
            lemma_laid_out_concat(old(self).0.nodes(), old(self).1.nodes(), old(iter)@);
        }
        let first = self.0.layout(iter);
        let r = layout_after(first, &mut self.1, iter);
        proof {
            if first is Err {
                assert(laid_out(old(self).1.nodes(), Seq::<Region>::empty()) =~= old(
                    self,
                ).1.nodes());
            } else if r is Ok {
                assert(old(iter)@.skip(old(self).0.nodes().len() as int).skip(
                    old(self).1.nodes().len() as int,
                ) =~= old(iter)@.skip(old(self).nodes().len() as int));
            }
        }
        r
    }

    fn emit_event(&mut self, npe: &NewPointerEvent) -> (entered: bool) {
        proof {
            lemma_any_entered_concat(old(self).0.nodes(), old(self).1.nodes(), npe.position);
            lemma_all_told_concat(old(self).0.nodes(), old(self).1.nodes(), npe.position);
        }
        let first = self.0.emit_event(npe);
        let second = self.1.emit_event(npe);
        first || second
    }
}

/// A structure that may be absent.
impl<T: RenderMultiple> RenderMultiple for Option<T> {
    open spec fn nodes(&self) -> Seq<NodeView> {
        match self {
            Some(inner) => inner.nodes(),
            None => Seq::empty(),
        }
    }

    open spec fn exclusive(&self) -> bool {
        match self {
            Some(inner) => inner.exclusive(),
            None => true,
        }
    }

    fn node_count(&self) -> (n: usize) {
        match self {
            Some(inner) => inner.node_count(),
            None => 0,
        }
    }

    fn render(&mut self, builder: &mut Builder<'_>, interval: Duration) -> (r: Result<(), Error>) {
        match self {
            Some(inner) => inner.render(builder, interval),
            None => {
                assert(builder.entries().take(builder.entries().len() as int)
                    =~= builder.entries());
                assert(builder.entries() + Seq::<Item>::empty() =~= builder.entries());
                Ok(())
            },
        }
    }

    fn layout(&mut self, iter: &mut RegionIter) -> (r: Result<(), Error>) {
        match self {
            Some(inner) => inner.layout(iter),
            None => {
                assert(iter@.skip(0) =~= iter@);
                assert(laid_out(self.nodes(), iter@) =~= self.nodes());
                Ok(())
            },
        }
    }

    fn emit_event(&mut self, npe: &NewPointerEvent) -> (entered: bool) {
        match self {
            Some(inner) => inner.emit_event(npe),
            None => false,
        }
    }
}

} // verus!
