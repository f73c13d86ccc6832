//! The payloads that the framework itself sends over the bus.

use vstd::prelude::*;
use crate::primitive::{Delta, Point};
use crate::event::hub::EventDispatcher;

verus! {

/// Names a payload type. Subscriptions are filed under it, and an emission
/// reaches only the subscriptions filed under the kind of its payload.
#[derive(Clone, Copy, Debug, PartialEq, Eq, Structural)]
pub enum EventKind {
    ElementAbondoned,
    EventDispatcherCreated,
    PointerDown,
    PointerUp,
    PointerMove,
    PointerEnter,
    PointerLeft,
    Click,
    /// A raw window event that was handed on untouched.
    WindowEvent,
    /// A payload type of the application, under a number of its choosing.
    Custom(u64),
}

/// A value that can travel over the bus.
pub trait Event: Sized {
    /// The kind under which this payload is emitted and subscribed to.
    fn kind(&self) -> EventKind;
}

/// The structure no longer uses this element. Handles to it may outlive
/// the structure; this is sent once, and whatever runs on behalf of the
/// element is expected to wind down when it arrives.
#[derive(Clone, Copy, Debug, PartialEq, Eq)]
pub struct ElementAbondoned;

/// Carries the handle of a scope that has just been created, so that a
/// receiver can subscribe to the scope itself.
#[derive(Clone, Copy, Debug, PartialEq, Eq)]
pub struct EventDispatcherCreated(pub EventDispatcher);

#[derive(Clone, Copy, Debug, PartialEq, Eq)]
pub struct PointerDown {
    /// `true` on the copy made for the element that was hit, `false` on the
    /// one that reports what the window observed.
    pub is_current: bool,
    pub position: Point,
}

#[derive(Clone, Copy, Debug, PartialEq, Eq)]
pub struct PointerUp {
    pub is_current: bool,
    pub position: Point,
}

#[derive(Clone, Copy, Debug, PartialEq, Eq)]
pub struct PointerMove {
    pub is_current: bool,
    /// What the pointer travelled since the position before this one.
    pub delta: Delta,
    pub position: Point,
}

#[derive(Clone, Copy, Debug, PartialEq, Eq)]
pub struct PointerEnter;

#[derive(Clone, Copy, Debug, PartialEq, Eq)]
pub struct PointerLeft;

#[derive(Clone, Copy, Debug, PartialEq, Eq)]
pub struct Click {
    pub is_current: bool,
}

impl Event for ElementAbondoned {
    fn kind(&self) -> (k: EventKind)
        ensures
            k == EventKind::ElementAbondoned,
    {
        EventKind::ElementAbondoned
    }
}

impl Event for EventDispatcherCreated {
    fn kind(&self) -> (k: EventKind)
        ensures
            k == EventKind::EventDispatcherCreated,
    {
        EventKind::EventDispatcherCreated
    }
}

impl Event for PointerDown {
    fn kind(&self) -> (k: EventKind)
        ensures
            k == EventKind::PointerDown,
    {
        EventKind::PointerDown
    }
}

impl Event for PointerUp {
    fn kind(&self) -> (k: EventKind)
        ensures
            k == EventKind::PointerUp,
    {
        EventKind::PointerUp
    }
}

impl Event for PointerMove {
    fn kind(&self) -> (k: EventKind)
        ensures
            k == EventKind::PointerMove,
    {
        EventKind::PointerMove
    }
}

impl Event for PointerEnter {
    fn kind(&self) -> (k: EventKind)
        ensures
            k == EventKind::PointerEnter,
    {
        EventKind::PointerEnter
    }
}

impl Event for PointerLeft {
    fn kind(&self) -> (k: EventKind)
        ensures
            k == EventKind::PointerLeft,
    {
        EventKind::PointerLeft
    }
}

impl Event for Click {
    fn kind(&self) -> (k: EventKind)
        ensures
            k == EventKind::Click,
    {
        EventKind::Click
    }
}

} // verus!
