//! Node storage that is either exclusive or shared.
//!
//! A node starts out owned by its place in the tree. When something
//! outside the tree is to keep a handle to it, it moves, together with a
//! payload for the holders, into a reference-counted cell; when the last
//! outside handle is gone it can move back. The cell is the one of the
//! standard library. What is in a cell can change through any handle, so
//! nothing here speaks of what a shared node holds: only of which storage
//! a node is in, and of the cell being the same one.

use vstd::prelude::*;
use std::cell::RefCell;
use std::rc::Rc;
use std::time::Duration;
use crate::application::elem_table::Builder;
use crate::application::event_comp::NewPointerEvent;
use crate::dom::children::RenderMultiple;
use crate::application::elem_table::Item;
use crate::dom::node_view::{
    laid_out,
    node_entered,
    node_entries,
    node_told,
    pointer_in,
    same_node,
    NodeView,
};
use crate::dom::element_model::ElementModel;
use crate::element::{Element, Error, RegionIter};

verus! {

/// `std::cell::RefCell`, as a value that is carried along. Nothing is
/// known of what it holds.
#[verifier::external_type_specification]
#[verifier::external_body]
#[verifier::reject_recursive_types(T)]
pub struct ExRefCell<T: ?Sized>(RefCell<T>);

/// `std::cell::Ref`, the guard of a shared borrow of a cell.
#[verifier::external_type_specification]
#[verifier::external_body]
#[verifier::reject_recursive_types(T)]
pub struct ExCellRef<'b, T: ?Sized>(std::cell::Ref<'b, T>);

/// `std::cell::RefMut`, the guard of an exclusive borrow of a cell.
#[verifier::external_type_specification]
#[verifier::external_body]
#[verifier::reject_recursive_types(T)]
pub struct ExCellRefMut<'b, T: ?Sized + 'b>(std::cell::RefMut<'b, T>);

/// `take_mut::take` reads the value behind `mut_ref`, hands it to
/// `closure` once, and writes what the closure returns behind `mut_ref`.
/// It returns only if the closure does.
pub assume_specification<T, F>[ take_mut::take::<T, F> ](mut_ref: &mut T, closure: F) where
    F: FnOnce(T) -> T,

    requires
        call_requires(closure, (*old(mut_ref),)),
    ensures
        call_ensures(closure, (*old(mut_ref),), *final(mut_ref)),
;

/// What a shared cell holds: the node, and what its holders keep with it.
pub struct Shared<T, U> {
    pub main: T,
    pub extra: U,
}

#[verifier::reject_recursive_types(T)]
#[verifier::reject_recursive_types(U)]
pub enum MaybeShared<T, U> {
    Unique(T),
    Shared(Rc<RefCell<Shared<T, U>>>),
}

/// A shared borrow of the value of a node, whatever its storage.
#[verifier::reject_recursive_types(T)]
pub enum Ref<'a, T> {
    Unique(&'a T),
    Shared(std::cell::Ref<'a, T>),
}

/// An exclusive borrow of the value of a node, whatever its storage. For
/// a shared node it holds the lock of the cell for as long as it lives.
#[verifier::reject_recursive_types(T)]
pub enum RefMut<'a, T> {
    Unique(&'a mut T),
    Shared(std::cell::RefMut<'a, T>),
}

/// `RefCell::new`: a cell that holds `content`. Nothing is claimed of it.
#[verifier::external_body]
fn new_cell<T, U>(content: Shared<T, U>) -> (cell: RefCell<Shared<T, U>>) {
    RefCell::new(content)
}

/// `RefCell::into_inner`: what the cell held when it was taken apart.
/// Nothing is claimed of it.
#[verifier::external_body]
fn into_content<T, U>(cell: RefCell<Shared<T, U>>) -> (content: Shared<T, U>) {
    cell.into_inner()
}

/// `RefCell::try_borrow`: a shared borrow of the cell, or `None` while the
/// cell is borrowed exclusively. Which of the two is not claimed.
#[verifier::external_body]
fn try_borrow<'a, T, U>(cell: &'a RefCell<Shared<T, U>>) -> (guard: Option<
    std::cell::Ref<'a, Shared<T, U>>,
>) {
    cell.try_borrow().ok()
}

/// `std::cell::Ref::map`, narrowing a borrow of the content to a borrow
/// of the node in it.
#[verifier::external_body]
fn map_to_main<'a, T, U>(guard: std::cell::Ref<'a, Shared<T, U>>) -> (main: std::cell::Ref<'a, T>) {
    std::cell::Ref::map(guard, |inner| &inner.main)
}

/// `Deref::deref` of `std::cell::Ref`: the value that the guard protects.
#[verifier::external_body]
fn guarded<'a, 'b, T>(guard: &'a std::cell::Ref<'b, T>) -> (value: &'a T) {
    guard
}

/// `RefCell::try_borrow_mut`: an exclusive borrow of the cell, or `None`
/// while the cell is borrowed. Which of the two is not claimed.
#[verifier::external_body]
fn try_borrow_mut<'a, T, U>(cell: &'a RefCell<Shared<T, U>>) -> (guard: Option<
    std::cell::RefMut<'a, Shared<T, U>>,
>) {
    cell.try_borrow_mut().ok()
}

/// `std::cell::RefMut::map`, narrowing a borrow of the content to a
/// borrow of the node in it.
#[verifier::external_body]
fn map_to_main_mut<'a, T, U>(guard: std::cell::RefMut<'a, Shared<T, U>>) -> (main:
    std::cell::RefMut<'a, T>) {
    std::cell::RefMut::map(guard, |inner| &mut inner.main)
}

/// `Rc::strong_count`: how many handles share the cell right now. The
/// number changes as handles come and go, so all that is claimed is that
/// it counts the handle that was asked.
#[verifier::external_body]
fn holders<T, U>(cell: &Rc<RefCell<Shared<T, U>>>) -> (n: usize)
    ensures
        n >= 1,
{
    Rc::strong_count(cell)
}

/// `Deref::deref` of `std::cell::RefMut`: the value that the guard
/// protects.
#[verifier::external_body]
fn guarded_now<'a, 'b, T>(guard: &'a std::cell::RefMut<'b, T>) -> (value: &'a T) {
    guard
}

/// `DerefMut::deref_mut` of `std::cell::RefMut`: the value that the guard
/// protects.
#[verifier::external_body]
fn guarded_mut<'a, 'b, T>(guard: &'a mut std::cell::RefMut<'b, T>) -> (value: &'a mut T) {
    guard
}

/// What promoting a node makes of it: a shared node, and of a node that
/// was shared already the very same.
pub open spec fn promoted<T, U>(before: MaybeShared<T, U>, after: MaybeShared<T, U>) -> bool {
    &&& after is Shared
    &&& before is Shared ==> after == before
}

/// What an attempt to demote a node makes of it. An exclusive node stays
/// as it is. A shared node either stays as it is or becomes exclusive.
pub open spec fn demoted<T, U>(before: MaybeShared<T, U>, after: MaybeShared<T, U>) -> bool {
    &&& before is Unique ==> after == before
    &&& after is Shared ==> after == before
}

/// Promoting twice is promoting once: the second promotion changes
/// nothing, whatever payload it brings.
pub proof fn lemma_promotion_is_idempotent<T, U>(
    start: MaybeShared<T, U>,
    once: MaybeShared<T, U>,
    twice: MaybeShared<T, U>,
)
    requires
        promoted(start, once),
        promoted(once, twice),
    ensures
        twice == once,
{
}

impl<'a, T> Ref<'a, T> {
    /// The borrowed value.
    pub fn get(&self) -> (value: &T)
        ensures
            *self matches Ref::Unique(v) ==> *value == *v,
    {
        match self {
            Ref::Unique(v) => v,
            Ref::Shared(guard) => guarded(guard),
        }
    }
}

impl<'a, T> std::ops::Deref for Ref<'a, T> {
    type Target = T;

    fn deref(&self) -> (value: &T)
        ensures
            *self matches Ref::Unique(v) ==> *value == *v,
    {
        self.get()
    }
}

impl<'a, T> std::ops::Deref for RefMut<'a, T> {
    type Target = T;

    fn deref(&self) -> (value: &T)
        ensures
            *self matches RefMut::Unique(v) ==> *value == *v,
    {
        self.get()
    }
}

impl<'a, T> std::ops::DerefMut for RefMut<'a, T> {
    fn deref_mut(&mut self) -> (value: &mut T)
        ensures
            *old(self) matches RefMut::Unique(v) ==> {
                &&& *value == *v
                &&& *final(self) matches RefMut::Unique(w)
                &&& *w == *final(value)
                &&& *final(w) == *final(v)
            },
            *old(self) is Shared ==> *final(self) is Shared,
    {
        self.get_mut()
    }
}

impl<'a, T> RefMut<'a, T> {
    /// The borrowed value.
    pub fn get(&self) -> (value: &T)
        ensures
            *self matches RefMut::Unique(v) ==> *value == *v,
    {
        match self {
            RefMut::Unique(v) => v,
            RefMut::Shared(guard) => guarded_now(guard),
        }
    }

    /// The borrowed value, to be changed in place.
    pub fn get_mut(&mut self) -> (value: &mut T)
        ensures
            *old(self) matches RefMut::Unique(v) ==> {
                &&& *value == *v
                &&& *final(self) matches RefMut::Unique(w)
                &&& *w == *final(value)
                &&& *final(w) == *final(v)
            },
            *old(self) is Shared ==> *final(self) is Shared,
    {
        match self {
            RefMut::Unique(v) => v,
            RefMut::Shared(guard) => guarded_mut(guard),
        }
    }
}

impl<T, U> MaybeShared<T, U> {
    /// A node in exclusive storage.
    pub fn new(value: T) -> (node: Self)
        ensures
            node == MaybeShared::<T, U>::Unique(value),
    {
        Self::Unique(value)
    }

    /// Whether the node is in shared storage.
    pub fn is_shared(&self) -> (shared: bool)
        ensures
            shared == (*self is Shared),
    {
        match self {
            MaybeShared::Unique(_) => false,
            MaybeShared::Shared(_) => true,
        }
    }

    /// How many own the node: one for a node in exclusive storage, and for
    /// a shared node as many as hold its cell at this moment, the tree
    /// among them.
    pub fn owners(&self) -> (n: usize)
        ensures
            n >= 1,
            *self is Unique ==> n == 1,
    {
        match self {
            MaybeShared::Unique(_) => 1,
            MaybeShared::Shared(cell) => holders(cell),
        }
    }

    /// Moves the node into shared storage, with `extra` beside it. A node
    /// that is shared already stays in its cell, and `extra` is dropped.
    pub fn to_shared(&mut self, extra: U)
        ensures
            promoted(*old(self), *final(self)),
    {
        take_mut::take(self, |this: Self| -> (after: Self)
            ensures
                after is Shared,
                this is Shared ==> after == this,
            {
                match this {
                    MaybeShared::Shared(cell) => MaybeShared::Shared(cell),
                    MaybeShared::Unique(val) => MaybeShared::Shared(
                        Rc::new(new_cell(Shared { main: val, extra })),
                    ),
                }
            });
    }

    /// Tries to move the node back into exclusive storage, dropping what
    /// was kept beside it. This succeeds for a node that is exclusive
    /// already, and for a shared node when the cell gives up its content,
    /// which it does for its last holder only. Otherwise the node stays as
    /// it is. Returns whether the node is exclusive now.
    #[must_use]
    pub fn try_to_unique(&mut self) -> (unique: bool)
        ensures
            unique == (*final(self) is Unique),
            demoted(*old(self), *final(self)),
    {
        take_mut::take(self, |this: Self| -> (after: Self)
            ensures
                this is Unique ==> after == this,
                after is Shared ==> after == this,
            {
                match this {
                    MaybeShared::Unique(v) => MaybeShared::Unique(v),
                    MaybeShared::Shared(cell) => Self::settle(Rc::try_unwrap(cell)),
                }
            });
        match self {
            MaybeShared::Unique(_) => true,
            MaybeShared::Shared(_) => false,
        }
    }

    /// What a shared node becomes once its cell was asked for its content:
    /// exclusive, where the cell gave the content up, and what it was,
    /// where the cell came back.
    pub fn settle(outcome: Result<RefCell<Shared<T, U>>, Rc<RefCell<Shared<T, U>>>>) -> (node: Self)
        ensures
            outcome is Ok ==> node is Unique,
            outcome matches Err(cell) ==> node == MaybeShared::<T, U>::Shared(cell),
    {
        match outcome {
            Ok(cell) => MaybeShared::Unique(into_content(cell).main),
            Err(cell) => MaybeShared::Shared(cell),
        }
    }

    /// Borrows the value of the node. An exclusive node always lends it. A
    /// shared node lends it unless it is borrowed exclusively elsewhere;
    /// then `None` comes back.
    pub fn borrow(&self) -> (lent: Option<Ref<'_, T>>)
        ensures
            *self matches MaybeShared::Unique(v) ==> lent matches Some(Ref::Unique(x)) && *x == v,
    {
        match self {
            MaybeShared::Unique(v) => Some(Ref::Unique(v)),
            MaybeShared::Shared(v) => match try_borrow(v) {
                Some(guard) => Some(Ref::Shared(map_to_main(guard))),
                None => None,
            },
        }
    }

    /// Borrows the value of the node to change it. An exclusive node
    /// always lends it, and what the borrower leaves is the value of the
    /// node. A shared node lends it unless it is borrowed elsewhere; then
    /// `None` comes back. The node stays in the storage it is in.
    pub fn borrow_mut(&mut self) -> (lent: Option<RefMut<'_, T>>)
        ensures
            *old(self) matches MaybeShared::Unique(v) ==> lent matches Some(RefMut::Unique(x))
                && *x == v && *final(self) == MaybeShared::<T, U>::Unique(*final(x)),
            *old(self) is Shared ==> *final(self) == *old(self),
    {
        match self {
            MaybeShared::Unique(v) => Some(RefMut::Unique(v)),
            MaybeShared::Shared(v) => match try_borrow_mut(v) {
                Some(guard) => Some(RefMut::Shared(map_to_main_mut(guard))),
                None => None,
            },
        }
    }
}

/// A render pass over a node that was asked to lend itself. A node that
/// did not lend itself is in use elsewhere: the pass fails with
/// [`Error::Borrowed`] and the table stays as it is. A node that did is
/// rendered as [`ElementModel::render`] says.
pub fn render_lent<El: Element, Sc: RenderMultiple>(
    lent: Option<&mut ElementModel<El, Sc>>,
    builder: &mut Builder<'_>,
    interval: Duration,
) -> (r: Result<(), Error>)
    requires
        old(builder).wf(),
    ensures
        lent is None ==> {
            &&& r == Err::<(), Error>(Error::Borrowed)
            &&& final(builder)@ == old(builder)@
        },
        final(builder).wf(),
        final(builder).stack() == old(builder).stack(),
        old(builder).entries().len() <= final(builder).entries().len(),
        final(builder).entries().take(old(builder).entries().len() as int) == old(
            builder,
        ).entries(),
        *final(final(builder).table) == *final(old(builder).table),
        r is Ok ==> {
            &&& lent is Some
            &&& final(builder).entries().len() > old(builder).entries().len()
            &&& final(builder).entries()[old(builder).entries().len() as int].parent == old(
                builder,
            )@.top()
        },
        lent matches Some(node) ==> {
            &&& (*final(node)).exclusive_below() == (*node).exclusive_below()
            &&& (*final(node))@.emitter == (*node)@.emitter
            &&& (*final(node))@.draw_region == (*node)@.draw_region
            &&& (*final(node))@.entered == (*node)@.entered
            &&& (*final(node))@.children.len() == (*node)@.children.len()
            &&& r is Ok ==> {
                &&& final(builder).entries().len() > old(builder).entries().len() + (
                *node)@.children.len()
                &&& final(builder).entries()[old(builder).entries().len() as int] == (Item {
                    event_emitter: (*node)@.emitter,
                    interact_region: (*final(node))@.interact_region,
                    parent: old(builder)@.top(),
                })
            }
            &&& (*node).exclusive_below() ==> {
                &&& same_node((*node)@, (*final(node))@)
                &&& r is Ok ==> final(builder).entries() == old(builder).entries() + node_entries(
                    (*final(node))@,
                    old(builder)@.top(),
                    old(builder).entries().len() as int,
                )
            }
        },
{
    match lent {
        Some(node) => node.render(builder, interval),
        None => {
            assert(builder.entries().take(builder.entries().len() as int) =~= builder.entries());
            Err(Error::Borrowed)
        },
    }
}

/// A layout pass over a node that was asked to lend itself. A node that
/// did not lend itself is in use elsewhere: the pass fails with
/// [`Error::Borrowed`] and takes no region. A node that did is given the
/// next region as [`ElementModel::layout_next`] says.
pub fn layout_lent<El: Element, Sc: RenderMultiple>(
    lent: Option<&mut ElementModel<El, Sc>>,
    iter: &mut RegionIter,
) -> (r: Result<(), Error>)
    ensures
        lent is None ==> {
            &&& r == Err::<(), Error>(Error::Borrowed)
            &&& final(iter)@ == old(iter)@
        },
        r is Ok <==> lent is Some && old(iter)@.len() > 0,
        lent matches Some(node) ==> {
            &&& (*final(node)).exclusive_below() == (*node).exclusive_below()
            &&& (*final(node)).spec_element() == (*node).spec_element()
            &&& r is Ok ==> {
                &&& (*final(node))@ == (NodeView {
                    draw_region: Some(old(iter)@[0]),
                    ..(*node)@
                })
                &&& final(iter)@ == old(iter)@.skip(1)
            }
            &&& r is Err ==> {
                &&& r == Err::<(), Error>(Error::NotEnoughRegions)
                &&& (*final(node))@ == (*node)@
                &&& final(iter)@ == old(iter)@
            }
        },
{
    match lent {
        Some(node) => node.layout_next(iter),
        None => Err(Error::Borrowed),
    }
}

/// A node that was asked to lend itself is told of a pointer event, as
/// [`ElementModel::emit_event`] says. A node that did not lend itself is
/// in use elsewhere and is not told; the pointer counts as not being on
/// it.
pub fn emit_event_lent<El: Element, Sc: RenderMultiple>(
    lent: Option<&mut ElementModel<El, Sc>>,
    npe: &NewPointerEvent,
) -> (entered: bool)
    ensures
        lent is None ==> !entered,
        lent matches Some(node) ==> {
            &&& (*final(node))@.entered == entered
            &&& pointer_in((*node)@.interact_region, npe.position) ==> entered
            &&& (*final(node)).exclusive_below() == (*node).exclusive_below()
            &&& (*final(node)).spec_element() == (*node).spec_element()
            &&& (*final(node))@.emitter == (*node)@.emitter
            &&& (*final(node))@.draw_region == (*node)@.draw_region
            &&& (*final(node))@.interact_region == (*node)@.interact_region
            &&& (*final(node))@.children.len() == (*node)@.children.len()
            &&& (*node).exclusive_below() ==> {
                &&& entered == node_entered((*node)@, npe.position)
                &&& (*final(node))@ == node_told((*node)@, npe.position)
            }
        },
{
    match lent {
        Some(node) => node.emit_event(npe),
        None => false,
    }
}

/// A node in either storage. A pass reaches the node wherever it is
/// stored; it passes by, with an error, a shared node that is in use
/// elsewhere.
impl<El: Element, Sc: RenderMultiple, U> RenderMultiple for MaybeShared<ElementModel<El, Sc>, U> {
    open spec fn nodes(&self) -> Seq<NodeView> {
        match self {
            MaybeShared::Unique(node) => node.nodes(),
            MaybeShared::Shared(_) => seq![arbitrary()],
        }
    }

    open spec fn exclusive(&self) -> bool {
        match self {
            MaybeShared::Unique(node) => node.exclusive(),
            MaybeShared::Shared(_) => false,
        }
    }

    fn node_count(&self) -> (n: usize) {
        1
    }

    fn render(&mut self, builder: &mut Builder<'_>, interval: Duration) -> (r: Result<(), Error>)
        ensures
            r is Ok ==> final(builder).entries()[old(builder).entries().len() as int].parent == old(
                builder,
            )@.top(),
    {
        if let MaybeShared::Unique(node) = self {
            return RenderMultiple::render(node, builder, interval);
        }
        match self.borrow_mut() {
            Some(mut guard) => render_lent(Some(guard.get_mut()), builder, interval),
            None => render_lent::<El, Sc>(None, builder, interval),
        }
    }

    fn layout(&mut self, iter: &mut RegionIter) -> (r: Result<(), Error>)
        ensures
            r is Err ==> final(iter)@ == old(iter)@,
            old(iter)@.len() == 0 ==> r is Err,
            *old(self) is Unique ==> (r is Ok <==> old(iter)@.len() > 0),
            *old(self) is Unique && r is Err ==> r == Err::<(), Error>(Error::NotEnoughRegions)
                && final(self).nodes() == old(self).nodes(),
    {
        if let MaybeShared::Unique(node) = self {
            let r = node.layout_next(iter);
            proof {
                assert(node.nodes() =~= laid_out(old(self).nodes(), old(iter)@));
            }
            return r;
        }
        match self.borrow_mut() {
            Some(mut guard) => layout_lent(Some(guard.get_mut()), iter),
            None => layout_lent::<El, Sc>(None, iter),
        }
    }

    fn emit_event(&mut self, npe: &NewPointerEvent) -> (entered: bool) {
        if let MaybeShared::Unique(node) = self {
            return RenderMultiple::emit_event(node, npe);
        }
        match self.borrow_mut() {
            Some(mut guard) => emit_event_lent(Some(guard.get_mut()), npe),
            None => emit_event_lent::<El, Sc>(None, npe),
        }
    }
}

} // verus!
