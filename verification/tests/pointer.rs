use irisia_core::application::event_comp::{
    cursor_behavior, emit_physical_pointer_event, ElementState, GlobalEventMgr, MouseButton,
    NewPointerEvent, PointerEvent, PointerState, PointerStateChange, Touch, TouchPhase,
    WindowEvent,
};
use irisia_core::event::hub::EventHub;
use irisia_core::event::standard::{
    EventKind, PointerDown, PointerEnter, PointerLeft, PointerMove, PointerUp,
};
use irisia_core::primitive::Point;

fn press() -> WindowEvent {
    WindowEvent::MouseInput { state: ElementState::Pressed, button: MouseButton::Left }
}

fn release() -> WindowEvent {
    WindowEvent::MouseInput { state: ElementState::Released, button: MouseButton::Left }
}

fn moved(x: u32, y: u32) -> WindowEvent {
    WindowEvent::CursorMoved { position: Point(x, y) }
}

fn touch(phase: TouchPhase, x: u32, y: u32) -> WindowEvent {
    WindowEvent::Touch(Touch { phase, location: Point(x, y) })
}

#[test]
fn new_manager_has_seen_no_pointer() {
    let mgr = GlobalEventMgr::new();
    assert_eq!(mgr.position(), None);
    assert_eq!(mgr.state(), PointerState::OutOfViewport);
}

#[test]
fn first_move_enters_and_second_move_reports_delta() {
    let mut hub = EventHub::new();
    let window = hub.create_scope().0;
    let mut mgr = GlobalEventMgr::new();

    let on_enter = hub.subscribe(window, EventKind::PointerEnter).unwrap();
    let on_move = hub.subscribe(window, EventKind::PointerMove).unwrap();

    let (npe, resolved) = mgr.emit_event(moved(10, 10), &mut hub, &window);
    let npe = npe.unwrap();
    assert_eq!(npe.pointer_state_change, PointerStateChange::EnterViewport);
    assert_eq!(npe.position, Some(Point(10, 10)));
    assert_eq!(npe.cursor_delta, None);
    assert_eq!(npe.physical(), Some(PointerEvent::Entered(PointerEnter)));
    // exactly one event went out: the one for entering
    assert_eq!(resolved, vec![on_enter]);
    assert_eq!(hub.waiting_count(window), 1);

    let (npe, resolved) = mgr.emit_event(moved(20, 15), &mut hub, &window);
    let npe = npe.unwrap();
    assert_eq!(npe.pointer_state_change, PointerStateChange::Unchange);
    assert_eq!(npe.cursor_delta, Some((10, 5)));
    assert_eq!(
        npe.physical(),
        Some(PointerEvent::Move(PointerMove {
            is_current: false,
            delta: (10, 5),
            position: Point(20, 15),
        }))
    );
    assert_eq!(resolved, vec![on_move]);
    assert_eq!(mgr.position(), Some(Point(20, 15)));
    assert_eq!(mgr.state(), PointerState::OutOfViewport);
}

#[test]
fn delta_can_be_negative() {
    let mut hub = EventHub::new();
    let window = hub.create_scope().0;
    let mut mgr = GlobalEventMgr::new();
    mgr.emit_event(moved(20, 15), &mut hub, &window);
    let (npe, _) = mgr.emit_event(moved(5, 40), &mut hub, &window);
    assert_eq!(npe.unwrap().cursor_delta, Some((-15, 25)));
    let (npe, _) = mgr.emit_event(moved(u32::MAX, 0), &mut hub, &window);
    assert_eq!(npe.unwrap().cursor_delta, Some((u32::MAX as i64 - 5, -40)));
    let (npe, _) = mgr.emit_event(moved(0, 0), &mut hub, &window);
    assert_eq!(npe.unwrap().cursor_delta, Some((-(u32::MAX as i64), 0)));
}

#[test]
fn press_and_release_with_known_position() {
    let mut hub = EventHub::new();
    let window = hub.create_scope().0;
    let mut mgr = GlobalEventMgr::new();
    mgr.emit_event(moved(3, 4), &mut hub, &window);

    let down = hub.subscribe(window, EventKind::PointerDown).unwrap();
    let (npe, resolved) = mgr.emit_event(press(), &mut hub, &window);
    let npe = npe.unwrap();
    assert_eq!(npe.pointer_state_change, PointerStateChange::Press);
    assert_eq!(npe.pointer_state, PointerState::Pressing);
    assert_eq!(
        npe.physical(),
        Some(PointerEvent::Down(PointerDown { is_current: false, position: Point(3, 4) }))
    );
    assert_eq!(resolved, vec![down]);
    assert_eq!(mgr.state(), PointerState::Pressing);

    // pressing again changes nothing: an ordinary move by nothing
    let (npe, _) = mgr.emit_event(press(), &mut hub, &window);
    let npe = npe.unwrap();
    assert_eq!(npe.pointer_state_change, PointerStateChange::Unchange);
    assert_eq!(npe.cursor_delta, Some((0, 0)));

    let up = hub.subscribe(window, EventKind::PointerUp).unwrap();
    let (npe, resolved) = mgr.emit_event(release(), &mut hub, &window);
    let npe = npe.unwrap();
    assert_eq!(npe.pointer_state_change, PointerStateChange::Release);
    assert_eq!(
        npe.physical(),
        Some(PointerEvent::Up(PointerUp { is_current: false, position: Point(3, 4) }))
    );
    assert_eq!(resolved, vec![up]);
    assert_eq!(mgr.state(), PointerState::Release);
}

#[test]
fn leaving_clears_the_position() {
    let mut hub = EventHub::new();
    let window = hub.create_scope().0;
    let mut mgr = GlobalEventMgr::new();
    mgr.emit_event(moved(3, 4), &mut hub, &window);
    mgr.emit_event(press(), &mut hub, &window);
    let out = hub.subscribe(window, EventKind::PointerLeft).unwrap();
    let (npe, resolved) = mgr.emit_event(WindowEvent::CursorLeft, &mut hub, &window);
    let npe = npe.unwrap();
    assert_eq!(npe.pointer_state_change, PointerStateChange::LeaveViewport);
    assert_eq!(npe.position, None);
    assert_eq!(npe.cursor_delta, None);
    assert_eq!(npe.physical(), Some(PointerEvent::Out(PointerLeft)));
    assert_eq!(resolved, vec![out]);
    assert_eq!(mgr.position(), None);
    assert_eq!(mgr.state(), PointerState::OutOfViewport);
    // coming back is entering again
    let (npe, _) = mgr.emit_event(moved(1, 1), &mut hub, &window);
    assert_eq!(npe.unwrap().pointer_state_change, PointerStateChange::EnterViewport);
}

#[test]
fn press_before_any_position_is_known() {
    let mut hub = EventHub::new();
    let window = hub.create_scope().0;
    let mut mgr = GlobalEventMgr::new();
    let (npe, _) = mgr.emit_event(press(), &mut hub, &window);
    let npe = npe.unwrap();
    assert_eq!(npe.pointer_state_change, PointerStateChange::LeaveViewport);
    assert_eq!(npe.position, None);
    assert_eq!(mgr.state(), PointerState::Pressing);
    assert_eq!(mgr.position(), None);
}

#[test]
fn touch_sequence() {
    let mut hub = EventHub::new();
    let window = hub.create_scope().0;
    let mut mgr = GlobalEventMgr::new();

    // a finger that comes down where no pointer was is a pointer that enters
    let (npe, _) = mgr.emit_event(touch(TouchPhase::Started, 5, 5), &mut hub, &window);
    let npe = npe.unwrap();
    assert_eq!(npe.pointer_state_change, PointerStateChange::EnterViewport);
    assert_eq!(npe.pointer_state, PointerState::Pressing);
    assert_eq!(npe.position, Some(Point(5, 5)));

    let (npe, _) = mgr.emit_event(touch(TouchPhase::Moved, 8, 1), &mut hub, &window);
    let npe = npe.unwrap();
    assert_eq!(npe.pointer_state_change, PointerStateChange::Unchange);
    assert_eq!(npe.cursor_delta, Some((3, -4)));
    assert_eq!(npe.pointer_state, PointerState::Pressing);

    let (npe, _) = mgr.emit_event(touch(TouchPhase::Ended, 8, 2), &mut hub, &window);
    let npe = npe.unwrap();
    assert_eq!(npe.pointer_state_change, PointerStateChange::Release);
    assert_eq!(npe.position, Some(Point(8, 2)));

    let (npe, _) = mgr.emit_event(touch(TouchPhase::Started, 9, 9), &mut hub, &window);
    assert_eq!(npe.unwrap().pointer_state_change, PointerStateChange::Press);

    let (npe, _) = mgr.emit_event(touch(TouchPhase::Cancelled, 9, 9), &mut hub, &window);
    let npe = npe.unwrap();
    assert_eq!(npe.pointer_state_change, PointerStateChange::LeaveViewport);
    assert_eq!(npe.position, None);
    assert_eq!(mgr.state(), PointerState::OutOfViewport);
}

#[test]
fn other_reports_pass_through_and_change_nothing() {
    let mut hub = EventHub::new();
    let window = hub.create_scope().0;
    let mut mgr = GlobalEventMgr::new();
    mgr.emit_event(moved(3, 4), &mut hub, &window);
    mgr.emit_event(press(), &mut hub, &window);

    let raw = hub.subscribe(window, EventKind::WindowEvent).unwrap();
    let pointer = hub.subscribe(window, EventKind::PointerMove).unwrap();
    for event in [
        WindowEvent::Other,
        WindowEvent::MouseInput { state: ElementState::Pressed, button: MouseButton::Right },
        WindowEvent::MouseInput { state: ElementState::Released, button: MouseButton::Middle },
        WindowEvent::MouseInput { state: ElementState::Pressed, button: MouseButton::Other(4) },
    ] {
        let (npe, resolved) = mgr.emit_event(event, &mut hub, &window);
        assert_eq!(npe, None);
        if event == WindowEvent::Other {
            assert_eq!(resolved, vec![raw]);
        } else {
            assert_eq!(resolved, Vec::<u64>::new());
        }
        assert_eq!(mgr.position(), Some(Point(3, 4)));
        assert_eq!(mgr.state(), PointerState::Pressing);
    }
    assert_eq!(hub.emit(window, EventKind::PointerMove), vec![pointer]);
}

#[test]
fn cursor_behavior_follows_the_table() {
    let at = Some(Point(1, 2));
    assert_eq!(cursor_behavior(&press(), PointerState::Release, at), Some((at, PointerState::Pressing)));
    assert_eq!(cursor_behavior(&press(), PointerState::OutOfViewport, None), Some((None, PointerState::Pressing)));
    assert_eq!(cursor_behavior(&release(), PointerState::Pressing, at), Some((at, PointerState::Release)));
    assert_eq!(cursor_behavior(&moved(7, 8), PointerState::Pressing, at), Some((Some(Point(7, 8)), PointerState::Pressing)));
    assert_eq!(
        cursor_behavior(&moved(7, 8), PointerState::OutOfViewport, None),
        Some((Some(Point(7, 8)), PointerState::OutOfViewport))
    );
    assert_eq!(cursor_behavior(&WindowEvent::CursorLeft, PointerState::Pressing, at), Some((None, PointerState::OutOfViewport)));
    assert_eq!(
        cursor_behavior(&touch(TouchPhase::Started, 4, 4), PointerState::Release, at),
        Some((Some(Point(4, 4)), PointerState::Pressing))
    );
    assert_eq!(
        cursor_behavior(&touch(TouchPhase::Moved, 4, 4), PointerState::Release, at),
        Some((Some(Point(4, 4)), PointerState::Release))
    );
    assert_eq!(
        cursor_behavior(&touch(TouchPhase::Ended, 4, 4), PointerState::Pressing, at),
        Some((Some(Point(4, 4)), PointerState::Release))
    );
    assert_eq!(
        cursor_behavior(&touch(TouchPhase::Cancelled, 4, 4), PointerState::Pressing, at),
        Some((None, PointerState::OutOfViewport))
    );
    assert_eq!(cursor_behavior(&WindowEvent::Other, PointerState::Pressing, at), None);
    assert_eq!(
        cursor_behavior(
            &WindowEvent::MouseInput { state: ElementState::Pressed, button: MouseButton::Right },
            PointerState::Release,
            at
        ),
        None
    );
}

#[test]
fn change_between_states() {
    let a = Some(Point(1, 1));
    let b = Some(Point(2, 2));
    assert_eq!(PointerStateChange::between(PointerState::Release, a, PointerState::Pressing, b), Some(PointerStateChange::Press));
    assert_eq!(PointerStateChange::between(PointerState::OutOfViewport, a, PointerState::Pressing, b), Some(PointerStateChange::Press));
    assert_eq!(
        PointerStateChange::between(PointerState::Pressing, a, PointerState::Release, b),
        Some(PointerStateChange::Release)
    );
    assert_eq!(
        PointerStateChange::between(PointerState::OutOfViewport, a, PointerState::Release, b),
        Some(PointerStateChange::Release)
    );
    assert_eq!(PointerStateChange::between(PointerState::Pressing, a, PointerState::Pressing, b), Some(PointerStateChange::Unchange));
    assert_eq!(PointerStateChange::between(PointerState::Release, a, PointerState::Release, a), Some(PointerStateChange::Unchange));
    assert_eq!(PointerStateChange::between(PointerState::OutOfViewport, a, PointerState::OutOfViewport, b), Some(PointerStateChange::Unchange));
    assert_eq!(PointerStateChange::between(PointerState::Pressing, None, PointerState::Release, b), Some(PointerStateChange::EnterViewport));
    assert_eq!(PointerStateChange::between(PointerState::Pressing, a, PointerState::Release, None), Some(PointerStateChange::LeaveViewport));
    assert_eq!(PointerStateChange::between(PointerState::Pressing, None, PointerState::Pressing, None), Some(PointerStateChange::LeaveViewport));
    // a pointer that keeps a position does not turn to out-of-viewport
    assert_eq!(PointerStateChange::between(PointerState::Pressing, a, PointerState::OutOfViewport, b), None);
    assert_eq!(PointerStateChange::between(PointerState::Release, a, PointerState::OutOfViewport, a), None);
}

#[test]
fn new_pointer_event_moves_the_manager() {
    let mut mgr = GlobalEventMgr::new();
    let npe = NewPointerEvent::new(&mut mgr, Some(Point(4, 6)), PointerState::Release);
    assert_eq!(
        npe,
        NewPointerEvent {
            position: Some(Point(4, 6)),
            cursor_delta: None,
            pointer_state_change: PointerStateChange::EnterViewport,
            pointer_state: PointerState::Release,
        }
    );
    assert_eq!(mgr.position(), Some(Point(4, 6)));
    assert_eq!(mgr.state(), PointerState::Release);
    let npe = NewPointerEvent::new(&mut mgr, Some(Point(1, 9)), PointerState::Pressing);
    assert_eq!(
        npe,
        NewPointerEvent {
            position: Some(Point(1, 9)),
            cursor_delta: Some((-3, 3)),
            pointer_state_change: PointerStateChange::Press,
            pointer_state: PointerState::Pressing,
        }
    );
}

#[test]
fn physical_event_for_each_change() {
    let mut hub = EventHub::new();
    let ed = hub.create_scope().0;
    let p = Point(2, 3);
    let cases = [
        (PointerStateChange::EnterViewport, Some(p), None, PointerEvent::Entered(PointerEnter)),
        (
            PointerStateChange::Press,
            Some(p),
            Some((1, 1)),
            PointerEvent::Down(PointerDown { is_current: false, position: p }),
        ),
        (
            PointerStateChange::Unchange,
            Some(p),
            Some((-1, 4)),
            PointerEvent::Move(PointerMove { is_current: false, delta: (-1, 4), position: p }),
        ),
        (
            PointerStateChange::Release,
            Some(p),
            Some((0, 0)),
            PointerEvent::Up(PointerUp { is_current: false, position: p }),
        ),
        (PointerStateChange::LeaveViewport, None, None, PointerEvent::Out(PointerLeft)),
    ];
    for (change, position, delta, expected) in cases {
        let kind = match expected {
            PointerEvent::Entered(_) => EventKind::PointerEnter,
            PointerEvent::Down(_) => EventKind::PointerDown,
            PointerEvent::Move(_) => EventKind::PointerMove,
            PointerEvent::Up(_) => EventKind::PointerUp,
            PointerEvent::Out(_) => EventKind::PointerLeft,
        };
        let ticket = hub.subscribe(ed, kind).unwrap();
        let (event, resolved) = emit_physical_pointer_event(&mut hub, &ed, position, delta, change);
        assert_eq!(event, expected);
        assert_eq!(resolved, vec![ticket]);
    }
    assert_eq!(hub.waiting_count(ed), 0);
}

#[test]
fn physical_event_needs_a_fitting_position() {
    let at = Some(Point(1, 1));
    let npe = |change, position, delta| NewPointerEvent {
        position,
        cursor_delta: delta,
        pointer_state_change: change,
        pointer_state: PointerState::Release,
    };
    assert_eq!(npe(PointerStateChange::EnterViewport, None, None).physical(), None);
    assert_eq!(npe(PointerStateChange::Press, None, None).physical(), None);
    assert_eq!(npe(PointerStateChange::Release, None, None).physical(), None);
    assert_eq!(npe(PointerStateChange::Unchange, at, None).physical(), None);
    assert_eq!(npe(PointerStateChange::LeaveViewport, at, None).physical(), None);
}
