//! The pointer normaliser.
//!
//! A window reports mouse and touch input event by event. This module
//! keeps, per window, where the pointer was last seen and whether it is
//! pressed, and turns each report into at most one pointer event that says
//! what changed: the pointer came in, went down, moved, went up, or left.
//! A report that is no pointer input passes through untouched.

use vstd::prelude::*;
use crate::event::hub::{emit_receivers, scopes_after_emit, EventDispatcher, EventHub};
use crate::event::standard::{
    Event,
    EventKind,
    PointerDown,
    PointerEnter,
    PointerLeft,
    PointerMove,
    PointerUp,
};
use crate::primitive::{Delta, Point};

verus! {

#[derive(Clone, Copy, Debug, PartialEq, Eq)]
pub enum ElementState {
    Pressed,
    Released,
}

#[derive(Clone, Copy, Debug, PartialEq, Eq)]
pub enum MouseButton {
    Left,
    Right,
    Middle,
    Other(u16),
}

#[derive(Clone, Copy, Debug, PartialEq, Eq)]
pub enum TouchPhase {
    Started,
    Moved,
    Ended,
    Cancelled,
}

/// One report of a finger on a touch surface.
#[derive(Clone, Copy, Debug, PartialEq, Eq)]
pub struct Touch {
    pub phase: TouchPhase,
    pub location: Point,
}

/// A report of the window, as far as pointer handling reads it.
#[derive(Clone, Copy, Debug, PartialEq, Eq)]
pub enum WindowEvent {
    MouseInput { state: ElementState, button: MouseButton },
    CursorMoved { position: Point },
    CursorLeft,
    Touch(Touch),
    /// Any report that has nothing to do with the pointer.
    Other,
}

#[derive(Clone, Copy, Debug, PartialEq, Eq)]
pub enum PointerState {
    Pressing,
    Release,
    OutOfViewport,
}

/// What one report changed about the pointer.
#[derive(Clone, Copy, Debug, PartialEq, Eq)]
pub enum PointerStateChange {
    EnterViewport,
    Press,
    Unchange,
    Release,
    LeaveViewport,
}

/// A pointer event as the window observed it.
#[derive(Clone, Copy, Debug, PartialEq, Eq)]
pub enum PointerEvent {
    Entered(PointerEnter),
    Down(PointerDown),
    Move(PointerMove),
    Up(PointerUp),
    Out(PointerLeft),
}

/// What a report that is pointer input came to.
#[derive(Clone, Copy, Debug, PartialEq, Eq)]
pub struct NewPointerEvent {
    /// Where the pointer is now, if it is anywhere.
    pub position: Option<Point>,
    /// What it travelled since the report before, where both positions are
    /// known.
    pub cursor_delta: Option<Delta>,
    pub pointer_state_change: PointerStateChange,
    /// Whether the pointer is pressed now.
    pub pointer_state: PointerState,
}

pub struct GlobalEventMgr {
    last_cursor_position: Option<Point>,
    pointer_state: PointerState,
}

/// Whether `event` is pointer input at all.
pub open spec fn is_pointer_input(event: WindowEvent) -> bool {
    match event {
        WindowEvent::MouseInput { button, .. } => button is Left,
        WindowEvent::CursorMoved { .. } => true,
        WindowEvent::CursorLeft => true,
        WindowEvent::Touch(_) => true,
        WindowEvent::Other => false,
    }
}

/// The pointer state after a report that is pointer input.
pub open spec fn state_after(event: WindowEvent, old_state: PointerState) -> PointerState {
    match event {
        WindowEvent::MouseInput { state: ElementState::Pressed, .. } => PointerState::Pressing,
        WindowEvent::MouseInput { state: ElementState::Released, .. } => PointerState::Release,
        WindowEvent::Touch(touch) => match touch.phase {
            TouchPhase::Started => PointerState::Pressing,
            TouchPhase::Moved => old_state,
            TouchPhase::Ended => PointerState::Release,
            TouchPhase::Cancelled => PointerState::OutOfViewport,
        },
        WindowEvent::CursorLeft => PointerState::OutOfViewport,
        _ => old_state,
    }
}

/// The tracked position after a report that is pointer input. A finger is
/// where its report says; a mouse is where it last moved to; a pointer
/// that left is nowhere.
pub open spec fn position_after(event: WindowEvent, old_position: Option<Point>) -> Option<Point> {
    match event {
        WindowEvent::CursorMoved { position } => Some(position),
        WindowEvent::CursorLeft => None,
        WindowEvent::Touch(touch) => if touch.phase is Cancelled {
            None
        } else {
            Some(touch.location)
        },
        _ => old_position,
    }
}

/// The transition that `event` causes: the new position and the new state,
/// or `None` for a report that is no pointer input.
pub open spec fn transition(
    event: WindowEvent,
    old_state: PointerState,
    old_position: Option<Point>,
) -> Option<(Option<Point>, PointerState)> {
    if is_pointer_input(event) {
        Some((position_after(event, old_position), state_after(event, old_state)))
    } else {
        None
    }
}

/// What a transition means. A pointer without a position has left; one
/// that gains a position has come in; one that keeps a position went down,
/// went up, or did neither. A pointer with a position does not turn to
/// `OutOfViewport` from another state: for that there is no meaning.
pub open spec fn change_between(
    old_state: PointerState,
    old_position: Option<Point>,
    new_state: PointerState,
    new_position: Option<Point>,
) -> Option<PointerStateChange> {
    if new_position is None {
        Some(PointerStateChange::LeaveViewport)
    } else if old_position is None {
        Some(PointerStateChange::EnterViewport)
    } else if new_state == old_state {
        Some(PointerStateChange::Unchange)
    } else {
        match new_state {
            PointerState::Pressing => Some(PointerStateChange::Press),
            PointerState::Release => Some(PointerStateChange::Release),
            PointerState::OutOfViewport => None,
        }
    }
}

/// What the pointer travelled between two positions; `None` unless both
/// are known.
pub open spec fn delta_between(old_position: Option<Point>, new_position: Option<Point>) -> Option<
    Delta,
> {
    match (old_position, new_position) {
        (Some(old), Some(new)) => Some(
            ((new.0 - old.0) as i64, (new.1 - old.1) as i64),
        ),
        _ => None,
    }
}

/// The pointer event that the window sends for a change, or `None` where
/// the position does not fit the change.
pub open spec fn physical_event(
    position: Option<Point>,
    delta: Option<Delta>,
    change: PointerStateChange,
) -> Option<PointerEvent> {
    match (change, position) {
        (PointerStateChange::EnterViewport, Some(_)) => Some(PointerEvent::Entered(PointerEnter)),
        (PointerStateChange::Press, Some(position)) => Some(
            PointerEvent::Down(PointerDown { is_current: false, position }),
        ),
        (PointerStateChange::Unchange, Some(position)) => match delta {
            Some(delta) => Some(
                PointerEvent::Move(PointerMove { is_current: false, delta, position }),
            ),
            None => None,
        },
        (PointerStateChange::Release, Some(position)) => Some(
            PointerEvent::Up(PointerUp { is_current: false, position }),
        ),
        (PointerStateChange::LeaveViewport, None) => Some(PointerEvent::Out(PointerLeft)),
        _ => None,
    }
}

/// The kind under which a pointer event travels.
pub open spec fn kind_of(event: PointerEvent) -> EventKind {
    match event {
        PointerEvent::Entered(_) => EventKind::PointerEnter,
        PointerEvent::Down(_) => EventKind::PointerDown,
        PointerEvent::Move(_) => EventKind::PointerMove,
        PointerEvent::Up(_) => EventKind::PointerUp,
        PointerEvent::Out(_) => EventKind::PointerLeft,
    }
}

/// What `event` comes to for a pointer in state `old_state` at
/// `old_position`: `None` for a report that is no pointer input.
pub open spec fn normalized(
    event: WindowEvent,
    old_state: PointerState,
    old_position: Option<Point>,
) -> Option<NewPointerEvent> {
    match transition(event, old_state, old_position) {
        Some((new_position, new_state)) => match change_between(
            old_state,
            old_position,
            new_state,
            new_position,
        ) {
            Some(change) => Some(
                NewPointerEvent {
                    position: new_position,
                    cursor_delta: delta_between(old_position, new_position),
                    pointer_state_change: change,
                    pointer_state: new_state,
                },
            ),
            None => None,
        },
        None => None,
    }
}

/// Every report that is pointer input has a meaning, whatever the pointer
/// did before, and the window has an event to send for it.
pub proof fn lemma_pointer_input_is_classified(
    event: WindowEvent,
    old_state: PointerState,
    old_position: Option<Point>,
)
    requires
        is_pointer_input(event),
    ensures
        normalized(event, old_state, old_position) matches Some(npe) && physical_event(
            npe.position,
            npe.cursor_delta,
            npe.pointer_state_change,
        ) is Some,
{
}

impl Event for PointerEvent {
    fn kind(&self) -> (k: EventKind)
        ensures
            k == kind_of(*self),
    {
        match self {
            PointerEvent::Entered(e) => e.kind(),
            PointerEvent::Down(e) => e.kind(),
            PointerEvent::Move(e) => e.kind(),
            PointerEvent::Up(e) => e.kind(),
            PointerEvent::Out(e) => e.kind(),
        }
    }
}

impl PointerStateChange {
    /// What the step from one pointer state and position to the next
    /// means, or `None` where it means nothing.
    pub fn between(
        old_state: PointerState,
        old_position: Option<Point>,
        new_state: PointerState,
        new_position: Option<Point>,
    ) -> (change: Option<PointerStateChange>)
        ensures
            change == change_between(old_state, old_position, new_state, new_position),
    {
        if new_position.is_none() {
            return Some(PointerStateChange::LeaveViewport);
        }
        if old_position.is_none() {
            return Some(PointerStateChange::EnterViewport);
        }
        match (old_state, new_state) {
            (PointerState::Pressing, PointerState::Pressing)
            | (PointerState::Release, PointerState::Release)
            | (PointerState::OutOfViewport, PointerState::OutOfViewport) => Some(
                PointerStateChange::Unchange,
            ),
            (_, PointerState::Pressing) => Some(PointerStateChange::Press),
            (_, PointerState::Release) => Some(PointerStateChange::Release),
            (_, PointerState::OutOfViewport) => None,
        }
    }
}

impl NewPointerEvent {
    /// Moves the pointer of `mgr` to `new_position` and `new_pointer_state`
    /// and says what that changed.
    pub fn new(
        mgr: &mut GlobalEventMgr,
        new_position: Option<Point>,
        new_pointer_state: PointerState,
    ) -> (npe: NewPointerEvent)
        requires
            change_between(
                old(mgr).pointer_state(),
                old(mgr).last_cursor_position(),
                new_pointer_state,
                new_position,
            ) is Some,
        ensures
            npe == (NewPointerEvent {
                position: new_position,
                cursor_delta: delta_between(old(mgr).last_cursor_position(), new_position),
                pointer_state_change: change_between(
                    old(mgr).pointer_state(),
                    old(mgr).last_cursor_position(),
                    new_pointer_state,
                    new_position,
                )->0,
                pointer_state: new_pointer_state,
            }),
            final(mgr).last_cursor_position() == new_position,
            final(mgr).pointer_state() == new_pointer_state,
    {
        let old_position = mgr.last_cursor_position;
        let old_state = mgr.pointer_state;
        mgr.last_cursor_position = new_position;
        mgr.pointer_state = new_pointer_state;
        let cursor_delta: Option<Delta> = match (old_position, new_position) {
            (Some(old), Some(new)) => Some(new.delta_from(old)),
            _ => None,
        };
        let change = PointerStateChange::between(
            old_state,
            old_position,
            new_pointer_state,
            new_position,
        );
        NewPointerEvent {
            position: new_position,
            cursor_delta,
            pointer_state_change: change.unwrap(),
            pointer_state: new_pointer_state,
        }
    }

    /// The pointer event that the window sends for this change.
    pub fn physical(&self) -> (event: Option<PointerEvent>)
        ensures
            event == physical_event(self.position, self.cursor_delta, self.pointer_state_change),
    {
        match (self.pointer_state_change, self.position) {
            (PointerStateChange::EnterViewport, Some(_)) => Some(
                PointerEvent::Entered(PointerEnter),
            ),
            (PointerStateChange::Press, Some(position)) => Some(
                PointerEvent::Down(PointerDown { is_current: false, position }),
            ),
            (PointerStateChange::Unchange, Some(position)) => match self.cursor_delta {
                Some(delta) => Some(
                    PointerEvent::Move(PointerMove { is_current: false, delta, position }),
                ),
                None => None,
            },
            (PointerStateChange::Release, Some(position)) => Some(
                PointerEvent::Up(PointerUp { is_current: false, position }),
            ),
            (PointerStateChange::LeaveViewport, None) => Some(PointerEvent::Out(PointerLeft)),
            _ => None,
        }
    }
}

impl GlobalEventMgr {
    /// Where the pointer was last seen.
    pub closed spec fn last_cursor_position(&self) -> Option<Point> {
        self.last_cursor_position
    }

    /// Whether the pointer is pressed.
    pub closed spec fn pointer_state(&self) -> PointerState {
        self.pointer_state
    }

    /// The state of a window that has not seen the pointer yet.
    pub fn new() -> (mgr: Self)
        ensures
            mgr.last_cursor_position() is None,
            mgr.pointer_state() == PointerState::OutOfViewport,
    {
        GlobalEventMgr { last_cursor_position: None, pointer_state: PointerState::OutOfViewport }
    }

    pub fn position(&self) -> (position: Option<Point>)
        ensures
            position == self.last_cursor_position(),
    {
        self.last_cursor_position
    }

    pub fn state(&self) -> (state: PointerState)
        ensures
            state == self.pointer_state(),
    {
        self.pointer_state
    }

    /// Takes one report of the window. Pointer input moves the pointer
    /// state, and the window scope `global_ed` is sent the pointer event
    /// that it comes to; what comes back is the change, with the
    /// subscribers of the window scope that were resolved. Any other
    /// report leaves the pointer state alone and is sent to the window
    /// scope as it is.
    pub fn emit_event(
        &mut self,
        event: WindowEvent,
        hub: &mut EventHub,
        global_ed: &EventDispatcher,
    ) -> (out: (Option<NewPointerEvent>, Vec<u64>))
        ensures
            out.0 == normalized(
                event,
                old(self).pointer_state(),
                old(self).last_cursor_position(),
            ),
            out.0 matches Some(npe) ==> {
                &&& final(self).pointer_state() == npe.pointer_state
                &&& final(self).last_cursor_position() == npe.position
            },
            out.0 is None ==> {
                &&& final(self).pointer_state() == old(self).pointer_state()
                &&& final(self).last_cursor_position() == old(self).last_cursor_position()
            },
            out.1@ == emit_receivers(
                old(hub)@,
                global_ed.scope as int,
                sent_kind(event, old(self).pointer_state(), old(self).last_cursor_position()),
            ),
            final(hub)@ == scopes_after_emit(
                old(hub)@,
                global_ed.scope as int,
                sent_kind(event, old(self).pointer_state(), old(self).last_cursor_position()),
            ),
            final(hub).issued() == old(hub).issued(),
    {
        match cursor_behavior(&event, self.pointer_state, self.last_cursor_position) {
            Some((new_position, new_pointer_state)) => {
                proof {
                    lemma_pointer_input_is_classified(
                        event,
                        self.pointer_state,
                        self.last_cursor_position,
                    );
                }
                let npe = NewPointerEvent::new(self, new_position, new_pointer_state);
                let sent = emit_physical_pointer_event(
                    hub,
                    global_ed,
                    new_position,
                    npe.cursor_delta,
                    npe.pointer_state_change,
                );
                (Some(npe), sent.1)
            },
            None => {
                let resolved = hub.emit(*global_ed, EventKind::WindowEvent);
                (None, resolved)
            },
        }
    }
}

/// The kind of the payload that the window scope is sent for `event`.
pub open spec fn sent_kind(
    event: WindowEvent,
    old_state: PointerState,
    old_position: Option<Point>,
) -> EventKind {
    match normalized(event, old_state, old_position) {
        Some(npe) => match physical_event(
            npe.position,
            npe.cursor_delta,
            npe.pointer_state_change,
        ) {
            Some(event) => kind_of(event),
            None => EventKind::WindowEvent,
        },
        None => EventKind::WindowEvent,
    }
}

/// Sends the scope of `ed` the pointer event for a change, and returns it
/// with the subscribers that were resolved.
pub fn emit_physical_pointer_event(
    hub: &mut EventHub,
    ed: &EventDispatcher,
    position: Option<Point>,
    delta: Option<Delta>,
    new_pointer_state: PointerStateChange,
) -> (sent: (PointerEvent, Vec<u64>))
    requires
        physical_event(position, delta, new_pointer_state) is Some,
    ensures
        Some(sent.0) == physical_event(position, delta, new_pointer_state),
        sent.1@ == emit_receivers(old(hub)@, ed.scope as int, kind_of(sent.0)),
        final(hub)@ == scopes_after_emit(old(hub)@, ed.scope as int, kind_of(sent.0)),
        final(hub).issued() == old(hub).issued(),
{
    let event: PointerEvent = match (new_pointer_state, position) {
        (PointerStateChange::EnterViewport, Some(_)) => PointerEvent::Entered(PointerEnter),
        (PointerStateChange::Press, Some(position)) => PointerEvent::Down(
            PointerDown { is_current: false, position },
        ),
        (PointerStateChange::Unchange, Some(position)) => PointerEvent::Move(
            PointerMove { is_current: false, delta: delta.unwrap(), position },
        ),
        (PointerStateChange::Release, Some(position)) => PointerEvent::Up(
            PointerUp { is_current: false, position },
        ),
        _ => PointerEvent::Out(PointerLeft),
    };
    let resolved = hub.emit(*ed, event.kind());
    (event, resolved)
}

/// The transition that `event` causes, or `None` for a report that is no
/// pointer input.
pub fn cursor_behavior(
    event: &WindowEvent,
    old_state: PointerState,
    old_position: Option<Point>,
) -> (next: Option<(Option<Point>, PointerState)>)
    ensures
        next == transition(*event, old_state, old_position),
{
    let mut new_pointer_state = old_state;
    let mut new_position: Option<Point> = match event {
        WindowEvent::Touch(touch) => Some(touch.location),
        _ => old_position,
    };

    match event {
        WindowEvent::MouseInput { state: ElementState::Pressed, button: MouseButton::Left }
        | WindowEvent::Touch(Touch { phase: TouchPhase::Started, .. }) => {
            new_pointer_state = PointerState::Pressing;
        },
        WindowEvent::CursorMoved { position } => {
            new_position = Some(*position);
        },
        WindowEvent::Touch(Touch { phase: TouchPhase::Moved, .. }) => {},
        WindowEvent::MouseInput { state: ElementState::Released, button: MouseButton::Left }
        | WindowEvent::Touch(Touch { phase: TouchPhase::Ended, .. }) => {
            new_pointer_state = PointerState::Release;
        },
        WindowEvent::CursorLeft
        | WindowEvent::Touch(Touch { phase: TouchPhase::Cancelled, .. }) => {
            new_pointer_state = PointerState::OutOfViewport;
            new_position = None;
        },
        _ => {
            return None;
        },
    }

    Some((new_position, new_pointer_state))
}

} // verus!
