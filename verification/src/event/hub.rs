//! The subscription tables of the bus.
//!
//! A scope is one table: the subscribers that are waiting right now, each
//! filed under the kind of payload it waits for. An emission resolves the
//! subscribers filed under its kind and forgets the payload; it never
//! waits and never queues. Who suspends and wakes the subscribers is not
//! decided here: a subscriber is known by its ticket alone.

use vstd::prelude::*;
use crate::event::standard::{EventDispatcherCreated, EventKind};

verus! {

/// The handle of one scope of the bus. It is cheap to copy and stays valid
/// for the life of the hub that gave it out.
#[derive(Clone, Copy, Debug, PartialEq, Eq, Structural)]
pub struct EventDispatcher {
    pub scope: usize,
}

/// One waiting subscriber.
#[derive(Clone, Copy, Debug, PartialEq, Eq, Structural)]
pub struct Waiter {
    pub ticket: u64,
    pub kind: EventKind,
}

/// What one scope holds.
pub struct ScopeState {
    /// The waiting subscribers, the one that came first in front.
    pub waiting: Seq<Waiter>,
    /// Whether the teardown notice has gone out.
    pub abandoned: bool,
}

struct Scope {
    waiting: Vec<Waiter>,
    abandoned: bool,
}

/// All scopes of one window: one per element, and whatever further scopes
/// the window asks for.
pub struct EventHub {
    scopes: Vec<Scope>,
    issued: u64,
}

/// The tickets of the subscribers in `waiting` that an emission of `kind`
/// resolves, in the order in which they subscribed.
pub open spec fn receivers(waiting: Seq<Waiter>, kind: EventKind) -> Seq<u64> {
    waiting.filter(|w: Waiter| w.kind == kind).map_values(|w: Waiter| w.ticket)
}

/// The subscribers in `waiting` that an emission of `kind` passes by.
pub open spec fn bystanders(waiting: Seq<Waiter>, kind: EventKind) -> Seq<Waiter> {
    waiting.filter(|w: Waiter| w.kind != kind)
}

/// The scopes after an emission of `kind` into scope `scope`.
pub open spec fn scopes_after_emit(scopes: Seq<ScopeState>, scope: int, kind: EventKind) -> Seq<
    ScopeState,
> {
    if 0 <= scope < scopes.len() {
        scopes.update(
            scope,
            ScopeState {
                waiting: bystanders(scopes[scope].waiting, kind),
                abandoned: scopes[scope].abandoned,
            },
        )
    } else {
        scopes
    }
}

/// The scopes after `waiter` joined those that wait in scope `scope`.
pub open spec fn scopes_after_subscribe(scopes: Seq<ScopeState>, scope: int, waiter: Waiter) -> Seq<
    ScopeState,
> {
    scopes.update(
        scope,
        ScopeState {
            waiting: scopes[scope].waiting.push(waiter),
            abandoned: scopes[scope].abandoned,
        },
    )
}

/// The subscribers in `waiting` but for the one with `ticket`.
pub open spec fn without_ticket(waiting: Seq<Waiter>, ticket: u64) -> Seq<Waiter> {
    waiting.filter(|w: Waiter| w.ticket != ticket)
}

/// Whether the subscriber with `ticket` waits in scope `scope`.
pub open spec fn waits_in(scopes: Seq<ScopeState>, scope: int, ticket: u64) -> bool {
    &&& 0 <= scope < scopes.len()
    &&& exists|i: int|
        0 <= i < scopes[scope].waiting.len() && (#[trigger] scopes[scope].waiting[i]).ticket
            == ticket
}

/// The scopes after the subscriber with `ticket` left scope `scope`.
pub open spec fn scopes_after_unsubscribe(scopes: Seq<ScopeState>, scope: int, ticket: u64) -> Seq<
    ScopeState,
> {
    if 0 <= scope < scopes.len() {
        scopes.update(
            scope,
            ScopeState {
                waiting: without_ticket(scopes[scope].waiting, ticket),
                abandoned: scopes[scope].abandoned,
            },
        )
    } else {
        scopes
    }
}

/// The tickets that an emission of `kind` into scope `scope` resolves.
pub open spec fn emit_receivers(scopes: Seq<ScopeState>, scope: int, kind: EventKind) -> Seq<u64> {
    if 0 <= scope < scopes.len() {
        receivers(scopes[scope].waiting, kind)
    } else {
        Seq::empty()
    }
}

impl Scope {
    spec fn state(&self) -> ScopeState {
        ScopeState { waiting: self.waiting@, abandoned: self.abandoned }
    }
}

proof fn lemma_receivers_push(waiting: Seq<Waiter>, w: Waiter, kind: EventKind)
    ensures
        receivers(waiting.push(w), kind) == if w.kind == kind {
            receivers(waiting, kind).push(w.ticket)
        } else {
            receivers(waiting, kind)
        },
        bystanders(waiting.push(w), kind) == if w.kind == kind {
            bystanders(waiting, kind)
        } else {
            bystanders(waiting, kind).push(w)
        },
{
    reveal(Seq::filter);
    assert(waiting.push(w).drop_last() =~= waiting);
    let hit = |w: Waiter| w.kind == kind;
    let ticket = |w: Waiter| w.ticket;
    if w.kind == kind {
        assert(waiting.filter(hit).push(w).map_values(ticket) =~= waiting.filter(hit).map_values(
            ticket,
        ).push(w.ticket));
    }
}

proof fn lemma_without_ticket_push(waiting: Seq<Waiter>, w: Waiter, ticket: u64)
    ensures
        without_ticket(waiting.push(w), ticket) == if w.ticket == ticket {
            without_ticket(waiting, ticket)
        } else {
            without_ticket(waiting, ticket).push(w)
        },
{
    reveal(Seq::filter);
    assert(waiting.push(w).drop_last() =~= waiting);
}

proof fn lemma_no_subscriber(waiting: Seq<Waiter>, kind: EventKind)
    requires
        forall|i: int| 0 <= i < waiting.len() ==> (#[trigger] waiting[i]).kind != kind,
    ensures
        receivers(waiting, kind) == Seq::<u64>::empty(),
        bystanders(waiting, kind) == waiting,
    decreases waiting.len(),
{
    if waiting.len() == 0 {
        reveal(Seq::filter);
        assert(receivers(waiting, kind) =~= Seq::<u64>::empty());
        assert(bystanders(waiting, kind) =~= waiting);
    } else {
        lemma_no_subscriber(waiting.drop_last(), kind);
        lemma_receivers_push(waiting.drop_last(), waiting.last(), kind);
        assert(waiting.drop_last().push(waiting.last()) =~= waiting);
    }
}

proof fn lemma_bystanders_wait_for_others(waiting: Seq<Waiter>, kind: EventKind)
    ensures
        forall|i: int|
            0 <= i < bystanders(waiting, kind).len() ==> (#[trigger] bystanders(
                waiting,
                kind,
            )[i]).kind != kind,
{
    let others = |w: Waiter| w.kind != kind;
    assert forall|i: int| 0 <= i < bystanders(waiting, kind).len() implies (#[trigger] bystanders(
        waiting,
        kind,
    )[i]).kind != kind by {
        waiting.lemma_filter_pred(others, i);
    }
}

/// An emission into a scope where no subscriber waits for its kind, or
/// into a scope that is not there, resolves no one and leaves every scope
/// exactly as it was: the payload is dropped, and nothing is kept for it.
pub proof fn lemma_emit_without_subscriber(scopes: Seq<ScopeState>, scope: int, kind: EventKind)
    requires
        0 <= scope < scopes.len() ==> forall|i: int|
            0 <= i < scopes[scope].waiting.len() ==> (#[trigger] scopes[scope].waiting[i]).kind
                != kind,
    ensures
        emit_receivers(scopes, scope, kind) == Seq::<u64>::empty(),
        scopes_after_emit(scopes, scope, kind) == scopes,
{
    if 0 <= scope < scopes.len() {
        lemma_no_subscriber(scopes[scope].waiting, kind);
        assert(scopes_after_emit(scopes, scope, kind) =~= scopes);
    }
}

/// An emission is not kept: once a payload of `kind` went into a scope,
/// a second one right after it resolves no one.
pub proof fn lemma_emit_is_not_queued(scopes: Seq<ScopeState>, scope: int, kind: EventKind)
    ensures
        emit_receivers(scopes_after_emit(scopes, scope, kind), scope, kind) == Seq::<u64>::empty(),
        scopes_after_emit(scopes_after_emit(scopes, scope, kind), scope, kind)
            == scopes_after_emit(scopes, scope, kind),
{
    if 0 <= scope < scopes.len() {
        lemma_bystanders_wait_for_others(scopes[scope].waiting, kind);
    }
    lemma_emit_without_subscriber(scopes_after_emit(scopes, scope, kind), scope, kind);
}

/// An emission resolves every subscriber that waits for its kind, each
/// once and in the order of subscription, and no other: the receivers are
/// as many as those subscribers, and a subscriber of another kind stays.
pub proof fn lemma_emit_reaches_every_subscriber(waiting: Seq<Waiter>, kind: EventKind)
    ensures
        receivers(waiting, kind).len() + bystanders(waiting, kind).len() == waiting.len(),
        forall|i: int|
            0 <= i < waiting.len() && (#[trigger] waiting[i]).kind == kind ==> receivers(
                waiting,
                kind,
            ).contains(waiting[i].ticket),
        forall|i: int|
            0 <= i < waiting.len() && (#[trigger] waiting[i]).kind != kind ==> bystanders(
                waiting,
                kind,
            ).contains(waiting[i]),
        forall|t: u64|
            receivers(waiting, kind).contains(t) ==> exists|i: int|
                0 <= i < waiting.len() && (#[trigger] waiting[i]).kind == kind && waiting[i].ticket
                    == t,
    decreases waiting.len(),
{
    if waiting.len() == 0 {
        reveal(Seq::filter);
        assert(receivers(waiting, kind) =~= Seq::<u64>::empty());
        assert(bystanders(waiting, kind) =~= waiting);
    } else {
        let front = waiting.drop_last();
        let last = waiting.last();
        lemma_emit_reaches_every_subscriber(front, kind);
        lemma_receivers_push(front, last, kind);
        assert(front.push(last) =~= waiting);
        let got = receivers(waiting, kind);
        let stay = bystanders(waiting, kind);
        assert forall|i: int| 0 <= i < waiting.len() && (#[trigger] waiting[i]).kind
            == kind implies got.contains(waiting[i].ticket) by {
            if i < front.len() {
                assert(front[i] == waiting[i]);
                let j = choose|j: int|
                    0 <= j < receivers(front, kind).len() && receivers(front, kind)[j]
                        == waiting[i].ticket;
                assert(got[j] == waiting[i].ticket);
            } else {
                assert(got[got.len() - 1] == last.ticket);
            }
        }
        assert forall|i: int| 0 <= i < waiting.len() && (#[trigger] waiting[i]).kind
            != kind implies stay.contains(waiting[i]) by {
            if i < front.len() {
                assert(front[i] == waiting[i]);
                let j = choose|j: int|
                    0 <= j < bystanders(front, kind).len() && bystanders(front, kind)[j]
                        == waiting[i];
                assert(stay[j] == waiting[i]);
            } else {
                assert(stay[stay.len() - 1] == last);
            }
        }
        assert forall|t: u64| got.contains(t) implies exists|i: int|
            0 <= i < waiting.len() && (#[trigger] waiting[i]).kind == kind && waiting[i].ticket
                == t by {
            let j = choose|j: int| 0 <= j < got.len() && got[j] == t;
            if last.kind == kind && j == got.len() - 1 {
                assert(waiting[waiting.len() - 1].kind == kind);
            } else {
                assert(receivers(front, kind)[j] == t);
                assert(receivers(front, kind).contains(t));
                let i = choose|i: int|
                    0 <= i < front.len() && (#[trigger] front[i]).kind == kind && front[i].ticket
                        == t;
                assert(waiting[i] == front[i]);
            }
        }
    }
}

impl View for EventHub {
    type V = Seq<ScopeState>;

    closed spec fn view(&self) -> Seq<ScopeState> {
        self.scopes@.map_values(|s: Scope| s.state())
    }
}

impl EventHub {
    /// How many tickets this hub has given out. The next one bears this
    /// number.
    pub closed spec fn issued(&self) -> nat {
        self.issued as nat
    }

    /// A hub without scopes.
    pub fn new() -> (hub: Self)
        ensures
            hub@ == Seq::<ScopeState>::empty(),
            hub.issued() == 0,
    {
        let hub = EventHub { scopes: Vec::new(), issued: 0 };
        assert(hub@ =~= Seq::<ScopeState>::empty());
        hub
    }

    /// How many scopes there are.
    pub fn scope_count(&self) -> (n: usize)
        ensures
            n == self@.len(),
    {
        self.scopes.len()
    }

    /// How many subscribers wait in the scope of `ed`; none in a scope that
    /// this hub never made.
    pub fn waiting_count(&self, ed: EventDispatcher) -> (n: usize)
        ensures
            n == if ed.scope < self@.len() {
                self@[ed.scope as int].waiting.len()
            } else {
                0
            },
    {
        if ed.scope < self.scopes.len() {
            self.scopes[ed.scope].waiting.len()
        } else {
            0
        }
    }

    /// Whether the teardown notice of the scope of `ed` has gone out.
    pub fn is_abandoned(&self, ed: EventDispatcher) -> (r: bool)
        ensures
            r == (ed.scope < self@.len() && self@[ed.scope as int].abandoned),
    {
        ed.scope < self.scopes.len() && self.scopes[ed.scope].abandoned
    }

    /// Opens a scope with no subscriber. The payload that comes back
    /// carries the new handle, for whoever is to hear of the scope.
    pub fn create_scope(&mut self) -> (created: EventDispatcherCreated)
        ensures
            created.0.scope == old(self)@.len(),
            final(self)@ == old(self)@.push(
                ScopeState { waiting: Seq::empty(), abandoned: false },
            ),
            final(self).issued() == old(self).issued(),
    {
        let scope = self.scopes.len();
        self.scopes.push(Scope { waiting: Vec::new(), abandoned: false });
        assert(self@ =~= old(self)@.push(ScopeState { waiting: Seq::empty(), abandoned: false }));
        EventDispatcherCreated(EventDispatcher { scope })
    }

    /// Files a subscriber under `kind` in the scope of `ed` and returns its
    /// ticket. The next emission of `kind` into that scope resolves it.
    /// Nothing is filed, and `None` comes back, when this hub never made the
    /// scope or has no ticket left to give.
    pub fn subscribe(&mut self, ed: EventDispatcher, kind: EventKind) -> (ticket: Option<u64>)
        ensures
            ticket is Some <==> ed.scope < old(self)@.len() && old(self).issued() < u64::MAX,
            ticket matches Some(t) ==> {
                &&& t == old(self).issued()
                &&& final(self).issued() == old(self).issued() + 1
                &&& final(self)@ == scopes_after_subscribe(
                    old(self)@,
                    ed.scope as int,
                    Waiter { ticket: t, kind },
                )
            },
            ticket is None ==> final(self)@ == old(self)@ && final(self).issued() == old(
                self,
            ).issued(),
    {
        if ed.scope >= self.scopes.len() || self.issued == u64::MAX {
            return None;
        }
        let t: u64 = self.issued;
        self.issued = t + 1;
        self.scopes[ed.scope].waiting.push(Waiter { ticket: t, kind });
        assert(self@ =~= scopes_after_subscribe(
            old(self)@,
            ed.scope as int,
            Waiter { ticket: t, kind },
        ));
        Some(t)
    }

    /// Withdraws the subscriber with `ticket` from the scope of `ed`, for a
    /// subscriber that has given up waiting. Returns whether it was
    /// waiting there; the other subscribers stay, in their order.
    pub fn unsubscribe(&mut self, ed: EventDispatcher, ticket: u64) -> (withdrawn: bool)
        ensures
            withdrawn == waits_in(old(self)@, ed.scope as int, ticket),
            final(self)@ == scopes_after_unsubscribe(old(self)@, ed.scope as int, ticket),
            final(self).issued() == old(self).issued(),
    {
        if ed.scope >= self.scopes.len() {
            return false;
        }
        let mut withdrawn = false;
        let mut kept: Vec<Waiter> = Vec::new();
        let n: usize = self.scopes[ed.scope].waiting.len();
        let ghost waiting = self.scopes[ed.scope as int].waiting@;
        let mut i: usize = 0;
        proof {
            reveal(Seq::filter);
            assert(waiting.take(0) =~= Seq::<Waiter>::empty());
            assert(self@[ed.scope as int].waiting == waiting);
        }
        while i < n
            invariant
                i <= n,
                n == waiting.len(),
                ed.scope < self.scopes.len(),
                self.scopes[ed.scope as int].waiting@ == waiting,
                kept@ == without_ticket(waiting.take(i as int), ticket),
                withdrawn <==> exists|j: int|
                    0 <= j < i && (#[trigger] waiting[j]).ticket == ticket,
            decreases n - i,
        {
            let w: Waiter = self.scopes[ed.scope].waiting[i];
            proof {
                lemma_without_ticket_push(waiting.take(i as int), w, ticket);
                assert(waiting.take(i as int + 1) =~= waiting.take(i as int).push(w));
            }
            if w.ticket == ticket {
                withdrawn = true;
            } else {
                kept.push(w);
            }
            i = i + 1;
        }
        assert(waiting.take(n as int) =~= waiting);
        self.scopes[ed.scope].waiting = kept;
        assert(self@ =~= scopes_after_unsubscribe(old(self)@, ed.scope as int, ticket));
        withdrawn
    }

    /// Sends a payload of `kind` into the scope of `ed`: the subscribers
    /// that wait for `kind` there are resolved, in the order in which they
    /// subscribed, and leave the table. Where none waits, the payload is
    /// dropped and nothing changes.
    pub fn emit(&mut self, ed: EventDispatcher, kind: EventKind) -> (resolved: Vec<u64>)
        ensures
            resolved@ == emit_receivers(old(self)@, ed.scope as int, kind),
            final(self)@ == scopes_after_emit(old(self)@, ed.scope as int, kind),
            final(self).issued() == old(self).issued(),
    {
        let mut resolved: Vec<u64> = Vec::new();
        if ed.scope >= self.scopes.len() {
            return resolved;
        }
        let mut kept: Vec<Waiter> = Vec::new();
        let n: usize = self.scopes[ed.scope].waiting.len();
        let ghost waiting = self.scopes[ed.scope as int].waiting@;
        let mut i: usize = 0;
        assert(waiting.take(0) =~= Seq::<Waiter>::empty());
        proof {
            reveal(Seq::filter);
        }
        while i < n
            invariant
                i <= n,
                n == waiting.len(),
                ed.scope < self.scopes.len(),
                self.scopes[ed.scope as int].waiting@ == waiting,
                resolved@ == receivers(waiting.take(i as int), kind),
                kept@ == bystanders(waiting.take(i as int), kind),
            decreases n - i,
        {
            let w: Waiter = self.scopes[ed.scope].waiting[i];
            proof {
                lemma_receivers_push(waiting.take(i as int), w, kind);
                assert(waiting.take(i as int + 1) =~= waiting.take(i as int).push(w));
            }
            if w.kind == kind {
                resolved.push(w.ticket);
            } else {
                kept.push(w);
            }
            i = i + 1;
        }
        assert(waiting.take(n as int) =~= waiting);
        self.scopes[ed.scope].waiting = kept;
        assert(self@ =~= scopes_after_emit(old(self)@, ed.scope as int, kind));
        resolved
    }

    /// Sends `value`, a payload of `kind`, into the scope of `ed`, as
    /// [`Self::emit`] does, and makes for each subscriber that is resolved
    /// the clone of `value` that is its to keep.
    pub fn emit_value<E: Clone>(
        &mut self,
        ed: EventDispatcher,
        kind: EventKind,
        value: &E,
    ) -> (delivered: Vec<(u64, E)>)
        ensures
            delivered@.len() == emit_receivers(old(self)@, ed.scope as int, kind).len(),
            forall|i: int|
                0 <= i < delivered@.len() ==> {
                    &&& (#[trigger] delivered@[i]).0 == emit_receivers(
                        old(self)@,
                        ed.scope as int,
                        kind,
                    )[i]
                    &&& cloned::<E>(*value, delivered@[i].1)
                },
            final(self)@ == scopes_after_emit(old(self)@, ed.scope as int, kind),
            final(self).issued() == old(self).issued(),
    {
        let resolved = self.emit(ed, kind);
        let mut delivered: Vec<(u64, E)> = Vec::new();
        let mut t: usize = 0;
        while t < resolved.len()
            invariant
                t <= resolved@.len(),
                delivered@.len() == t,
                forall|i: int|
                    0 <= i < t ==> (#[trigger] delivered@[i]).0 == resolved@[i] && cloned::<E>(
                        *value,
                        delivered@[i].1,
                    ),
            decreases resolved@.len() - t,
        {
            delivered.push((resolved[t], value.clone()));
            t = t + 1;
        }
        delivered
    }

    /// Tells the scope of `ed` that its element has left the structure.
    /// The first call sends the teardown notice to the subscribers that
    /// wait for it; the notice goes out once, so every later call resolves
    /// no one and changes nothing.
    pub fn abandon(&mut self, ed: EventDispatcher) -> (resolved: Vec<u64>)
        ensures
            final(self).issued() == old(self).issued(),
            ed.scope < old(self)@.len() && !old(self)@[ed.scope as int].abandoned ==> {
                &&& resolved@ == receivers(
                    old(self)@[ed.scope as int].waiting,
                    EventKind::ElementAbondoned,
                )
                &&& final(self)@ == old(self)@.update(
                    ed.scope as int,
                    ScopeState {
                        waiting: bystanders(
                            old(self)@[ed.scope as int].waiting,
                            EventKind::ElementAbondoned,
                        ),
                        abandoned: true,
                    },
                )
            },
            !(ed.scope < old(self)@.len() && !old(self)@[ed.scope as int].abandoned) ==> {
                &&& resolved@ == Seq::<u64>::empty()
                &&& final(self)@ == old(self)@
            },
    {
        if ed.scope >= self.scopes.len() || self.scopes[ed.scope].abandoned {
            return Vec::new();
        }
        let resolved = self.emit(ed, EventKind::ElementAbondoned);
        let ghost emitted = self@;
        let ghost tables = self.scopes@;
        assert(tables.len() == emitted.len());
        self.scopes[ed.scope].abandoned = true;
        assert forall|j: int| 0 <= j < self@.len() implies #[trigger] self@[j] == old(self)@.update(
            ed.scope as int,
            ScopeState {
                waiting: bystanders(
                    old(self)@[ed.scope as int].waiting,
                    EventKind::ElementAbondoned,
                ),
                abandoned: true,
            },
        )[j] by {
            assert(emitted[j] == tables[j].state());
        }
        resolved
    }
}

} // verus!
