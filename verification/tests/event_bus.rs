use irisia_core::application::event_comp::PointerEvent;
use irisia_core::event::hub::{EventDispatcher, EventHub};
use irisia_core::event::standard::{
    Click, ElementAbondoned, Event, EventDispatcherCreated, EventKind, PointerDown, PointerEnter,
    PointerLeft, PointerMove, PointerUp,
};
use irisia_core::primitive::Point;

#[test]
fn emit_without_subscriber_is_dropped() {
    let mut hub = EventHub::new();
    let ed = hub.create_scope().0;
    assert_eq!(hub.emit(ed, EventKind::Click), Vec::<u64>::new());
    assert_eq!(hub.waiting_count(ed), 0);
    // a subscriber that comes later never sees the earlier emission
    let late = hub.subscribe(ed, EventKind::Click).unwrap();
    assert_eq!(hub.waiting_count(ed), 1);
    assert_eq!(hub.emit(ed, EventKind::Click), vec![late]);
}

#[test]
fn emit_of_another_kind_leaves_subscribers_waiting() {
    let mut hub = EventHub::new();
    let ed = hub.create_scope().0;
    let t = hub.subscribe(ed, EventKind::PointerMove).unwrap();
    assert_eq!(hub.emit(ed, EventKind::Click), Vec::<u64>::new());
    assert_eq!(hub.emit(ed, EventKind::Custom(7)), Vec::<u64>::new());
    assert_eq!(hub.waiting_count(ed), 1);
    assert_eq!(hub.emit(ed, EventKind::PointerMove), vec![t]);
    assert_eq!(hub.waiting_count(ed), 0);
}

#[test]
fn every_subscriber_of_the_kind_is_resolved_in_order() {
    let mut hub = EventHub::new();
    let ed = hub.create_scope().0;
    let a = hub.subscribe(ed, EventKind::Click).unwrap();
    let other = hub.subscribe(ed, EventKind::PointerUp).unwrap();
    let b = hub.subscribe(ed, EventKind::Click).unwrap();
    let c = hub.subscribe(ed, EventKind::Click).unwrap();
    assert_eq!((a, other, b, c), (0, 1, 2, 3));
    assert_eq!(hub.emit(ed, EventKind::Click), vec![a, b, c]);
    assert_eq!(hub.waiting_count(ed), 1);
    // resolved once: the next emission finds nobody
    assert_eq!(hub.emit(ed, EventKind::Click), Vec::<u64>::new());
    assert_eq!(hub.emit(ed, EventKind::PointerUp), vec![other]);
}

#[test]
fn custom_kinds_are_told_apart_by_number() {
    let mut hub = EventHub::new();
    let ed = hub.create_scope().0;
    let one = hub.subscribe(ed, EventKind::Custom(1)).unwrap();
    let two = hub.subscribe(ed, EventKind::Custom(2)).unwrap();
    assert_eq!(hub.emit(ed, EventKind::Custom(2)), vec![two]);
    assert_eq!(hub.emit(ed, EventKind::Custom(1)), vec![one]);
}

#[test]
fn scopes_do_not_hear_each_other() {
    let mut hub = EventHub::new();
    let first = hub.create_scope().0;
    let second = hub.create_scope().0;
    assert_eq!(first, EventDispatcher { scope: 0 });
    assert_eq!(second, EventDispatcher { scope: 1 });
    assert_eq!(hub.scope_count(), 2);
    let t = hub.subscribe(first, EventKind::Click).unwrap();
    assert_eq!(hub.emit(second, EventKind::Click), Vec::<u64>::new());
    assert_eq!(hub.waiting_count(first), 1);
    assert_eq!(hub.emit(first, EventKind::Click), vec![t]);
}

#[test]
fn unknown_scope_takes_no_subscriber_and_resolves_none() {
    let mut hub = EventHub::new();
    let nowhere = EventDispatcher { scope: 3 };
    assert_eq!(hub.subscribe(nowhere, EventKind::Click), None);
    assert_eq!(hub.emit(nowhere, EventKind::Click), Vec::<u64>::new());
    assert_eq!(hub.abandon(nowhere), Vec::<u64>::new());
    assert_eq!(hub.waiting_count(nowhere), 0);
    assert!(!hub.is_abandoned(nowhere));
    assert_eq!(hub.scope_count(), 0);
}

#[test]
fn teardown_notice_goes_out_once() {
    let mut hub = EventHub::new();
    let ed = hub.create_scope().0;
    let watcher = hub.subscribe(ed, EventKind::ElementAbondoned).unwrap();
    let clicker = hub.subscribe(ed, EventKind::Click).unwrap();
    assert!(!hub.is_abandoned(ed));
    assert_eq!(hub.abandon(ed), vec![watcher]);
    assert!(hub.is_abandoned(ed));
    // a later watcher is not told again
    let late = hub.subscribe(ed, EventKind::ElementAbondoned).unwrap();
    assert_eq!(hub.abandon(ed), Vec::<u64>::new());
    assert_eq!(hub.waiting_count(ed), 2);
    // the scope still works for whoever holds the handle
    assert_eq!(hub.emit(ed, EventKind::Click), vec![clicker]);
    let _ = late;
}

#[test]
fn created_scope_is_announced_with_its_handle() {
    let mut hub = EventHub::new();
    let window = hub.create_scope().0;
    let listener = hub.subscribe(window, EventKind::EventDispatcherCreated).unwrap();
    let created = hub.create_scope();
    assert_eq!(created, EventDispatcherCreated(EventDispatcher { scope: 1 }));
    assert_eq!(hub.emit(window, created.kind()), vec![listener]);
    // the receiver can subscribe to the new scope itself
    let t = hub.subscribe(created.0, EventKind::Click).unwrap();
    assert_eq!(hub.emit(created.0, EventKind::Click), vec![t]);
}

#[test]
fn payloads_name_their_kind() {
    let p = Point(1, 2);
    assert_eq!(ElementAbondoned.kind(), EventKind::ElementAbondoned);
    assert_eq!(
        EventDispatcherCreated(EventDispatcher { scope: 0 }).kind(),
        EventKind::EventDispatcherCreated
    );
    assert_eq!(PointerDown { is_current: true, position: p }.kind(), EventKind::PointerDown);
    assert_eq!(PointerUp { is_current: true, position: p }.kind(), EventKind::PointerUp);
    assert_eq!(
        PointerMove { is_current: false, delta: (1, -1), position: p }.kind(),
        EventKind::PointerMove
    );
    assert_eq!(PointerEnter.kind(), EventKind::PointerEnter);
    assert_eq!(PointerLeft.kind(), EventKind::PointerLeft);
    assert_eq!(Click { is_current: false }.kind(), EventKind::Click);
    assert_eq!(PointerEvent::Entered(PointerEnter).kind(), EventKind::PointerEnter);
    assert_eq!(PointerEvent::Out(PointerLeft).kind(), EventKind::PointerLeft);
    assert_eq!(
        PointerEvent::Down(PointerDown { is_current: false, position: p }).kind(),
        EventKind::PointerDown
    );
    assert_eq!(
        PointerEvent::Up(PointerUp { is_current: false, position: p }).kind(),
        EventKind::PointerUp
    );
    assert_eq!(
        PointerEvent::Move(PointerMove { is_current: false, delta: (0, 0), position: p }).kind(),
        EventKind::PointerMove
    );
}

#[test]
fn tickets_are_never_reused() {
    let mut hub = EventHub::new();
    let ed = hub.create_scope().0;
    let a = hub.subscribe(ed, EventKind::Click).unwrap();
    assert_eq!(hub.emit(ed, EventKind::Click), vec![a]);
    let b = hub.subscribe(ed, EventKind::Click).unwrap();
    assert_ne!(a, b);
    assert_eq!(b, a + 1);
}

#[test]
fn emit_value_hands_every_subscriber_its_own_clone() {
    let mut hub = EventHub::new();
    let ed = hub.create_scope().0;
    let a = hub.subscribe(ed, EventKind::Custom(3)).unwrap();
    let other = hub.subscribe(ed, EventKind::Click).unwrap();
    let b = hub.subscribe(ed, EventKind::Custom(3)).unwrap();
    let value = String::from("payload");
    let delivered = hub.emit_value(ed, EventKind::Custom(3), &value);
    assert_eq!(delivered, vec![(a, String::from("payload")), (b, String::from("payload"))]);
    assert_eq!(hub.waiting_count(ed), 1);
    // nobody is left for a second emission: the value is dropped
    assert_eq!(hub.emit_value(ed, EventKind::Custom(3), &value), vec![]);
    assert_eq!(hub.emit_value(ed, EventKind::Click, &Click { is_current: true }), vec![(
        other,
        Click { is_current: true }
    )]);
}

#[test]
fn unsubscribe_withdraws_one_waiter() {
    let mut hub = EventHub::new();
    let ed = hub.create_scope().0;
    let a = hub.subscribe(ed, EventKind::Click).unwrap();
    let b = hub.subscribe(ed, EventKind::Click).unwrap();
    let c = hub.subscribe(ed, EventKind::PointerUp).unwrap();
    assert!(hub.unsubscribe(ed, b));
    assert_eq!(hub.waiting_count(ed), 2);
    // gone already
    assert!(!hub.unsubscribe(ed, b));
    // never there
    assert!(!hub.unsubscribe(ed, 99));
    assert!(!hub.unsubscribe(EventDispatcher { scope: 7 }, a));
    assert_eq!(hub.waiting_count(ed), 2);
    assert_eq!(hub.emit(ed, EventKind::Click), vec![a]);
    assert_eq!(hub.emit(ed, EventKind::PointerUp), vec![c]);
}
