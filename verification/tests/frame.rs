use irisia_core::application::elem_table::Delivery;
use irisia_core::application::event_comp::{
    ElementState, MouseButton, PointerStateChange, WindowEvent,
};
use irisia_core::application::frame::Application;
use irisia_core::dom::element_model::ElementModel;
use irisia_core::element::{Element, Error, RenderContent};
use irisia_core::event::hub::{EventDispatcher, EventHub};
use irisia_core::event::standard::EventKind;
use irisia_core::primitive::{Point, Region};
use std::time::Duration;

/// Reacts where it is told to, and places its children where it is told
/// to.
struct Panel {
    reacts: Option<Region>,
    places: Vec<Region>,
    fails: bool,
}

impl Element for Panel {
    fn render(&mut self, content: &mut RenderContent) -> Result<(), Error> {
        if self.fails {
            return Err(Error::Element(String::from("panel")));
        }
        match self.reacts {
            Some(region) => content.set_interact_region(region),
            None => content.clear_interact_region(),
        }
        content.place_children(self.places.clone());
        Ok(())
    }
}

fn panel(reacts: Option<Region>, places: Vec<Region>) -> Panel {
    Panel { reacts, places, fails: false }
}

type Tree = ElementModel<Panel, Vec<ElementModel<Panel, ()>>>;

const A: Region = (Point(0, 0), Point(100, 100));
const B: Region = (Point(50, 50), Point(150, 150));

/// A parent without a region of its own over the siblings `A` and `B`.
fn window() -> (Application<Tree>, EventDispatcher, [EventDispatcher; 3]) {
    let mut hub = EventHub::new();
    let global = hub.create_scope().0;
    let ed = [hub.create_scope().0, hub.create_scope().0, hub.create_scope().0];
    let a = ElementModel::new(panel(Some(A), vec![]), (), ed[1]);
    let b = ElementModel::new(panel(Some(B), vec![]), (), ed[2]);
    let root = ElementModel::new(panel(None, vec![A, B]), vec![a, b], ed[0]);
    (Application::new(root, hub, global), global, ed)
}

fn moved(x: u32, y: u32) -> WindowEvent {
    WindowEvent::CursorMoved { position: Point(x, y) }
}

#[test]
fn redraw_rebuilds_the_table() {
    let (mut app, _, _) = window();
    assert_eq!(app.elem_table().len(), 0);
    assert_eq!(app.redraw(Duration::from_millis(16)), Ok(()));
    assert_eq!(app.elem_table().len(), 3);
    assert_eq!(app.elem_table().depth(), 0);
    // a second frame starts over
    assert_eq!(app.redraw(Duration::from_millis(16)), Ok(()));
    assert_eq!(app.elem_table().len(), 3);
    assert_eq!(app.elem_table().depth(), 0);
    assert_eq!(app.elem_table().bubble(Point(60, 60)), vec![2, 0]);
    assert_eq!(app.root().children()[1].draw_region(), Some(B));
}

#[test]
fn failed_redraw_leaves_no_element_open() {
    let mut hub = EventHub::new();
    let global = hub.create_scope().0;
    let scope = hub.create_scope().0;
    let bad = ElementModel::new(
        Panel { reacts: None, places: vec![], fails: true },
        Vec::<ElementModel<Panel, ()>>::new(),
        scope,
    );
    let mut app = Application::new(bad, hub, global);
    assert_eq!(
        app.redraw(Duration::from_millis(16)),
        Err(Error::Element(String::from("panel")))
    );
    assert_eq!(app.elem_table().depth(), 0);
    assert_eq!(app.elem_table().len(), 1);
}

#[test]
fn pointer_event_goes_to_the_window_and_bubbles_from_the_hit_element() {
    let (mut app, global, ed) = window();
    app.redraw(Duration::from_millis(16)).unwrap();

    // entering over B
    let on_window = app.hub().subscribe(global, EventKind::PointerEnter).unwrap();
    let on_root = app.hub().subscribe(ed[0], EventKind::PointerEnter).unwrap();
    let on_a = app.hub().subscribe(ed[1], EventKind::PointerEnter).unwrap();
    let on_b = app.hub().subscribe(ed[2], EventKind::PointerEnter).unwrap();
    let out = app.emit_event(moved(60, 60));
    assert_eq!(out.pointer.unwrap().pointer_state_change, PointerStateChange::EnterViewport);
    assert_eq!(out.window, vec![on_window]);
    assert_eq!(
        out.elements,
        vec![
            Delivery { entry: 2, ticket: on_b, is_current: true },
            Delivery { entry: 0, ticket: on_root, is_current: false },
        ]
    );
    assert!(out.entered);
    assert!(app.root().is_entered());
    assert!(app.root().children()[0].is_entered());
    assert!(app.root().children()[1].is_entered());
    // A was under the pointer too, but B is on top: A is not served
    assert_eq!(app.hub().emit(ed[1], EventKind::PointerEnter), vec![on_a]);

    // pressing there
    let down = app.hub().subscribe(ed[2], EventKind::PointerDown).unwrap();
    let out = app.emit_event(WindowEvent::MouseInput {
        state: ElementState::Pressed,
        button: MouseButton::Left,
    });
    assert_eq!(out.pointer.unwrap().pointer_state_change, PointerStateChange::Press);
    assert_eq!(out.window, Vec::<u64>::new());
    assert_eq!(out.elements, vec![Delivery { entry: 2, ticket: down, is_current: true }]);

    // moving to where only A is
    let on_a = app.hub().subscribe(ed[1], EventKind::PointerMove).unwrap();
    let out = app.emit_event(moved(10, 10));
    assert_eq!(out.pointer.unwrap().cursor_delta, Some((-50, -50)));
    assert_eq!(out.elements, vec![Delivery { entry: 1, ticket: on_a, is_current: true }]);
    assert!(app.root().children()[0].is_entered());
    assert!(!app.root().children()[1].is_entered());
}

#[test]
fn pointer_outside_every_element_reaches_the_window_only() {
    let (mut app, global, ed) = window();
    app.redraw(Duration::from_millis(16)).unwrap();
    let on_window = app.hub().subscribe(global, EventKind::PointerEnter).unwrap();
    for e in ed {
        app.hub().subscribe(e, EventKind::PointerEnter).unwrap();
    }
    let out = app.emit_event(moved(500, 500));
    assert_eq!(out.window, vec![on_window]);
    assert_eq!(out.elements, Vec::<Delivery>::new());
    assert!(!out.entered);
    for e in ed {
        assert_eq!(app.hub().waiting_count(e), 1);
    }
}

#[test]
fn leaving_pointer_is_told_to_the_tree_but_sent_to_no_element() {
    let (mut app, global, ed) = window();
    app.redraw(Duration::from_millis(16)).unwrap();
    app.emit_event(moved(60, 60));
    assert!(app.root().is_entered());
    let on_window = app.hub().subscribe(global, EventKind::PointerLeft).unwrap();
    app.hub().subscribe(ed[2], EventKind::PointerLeft).unwrap();
    let out = app.emit_event(WindowEvent::CursorLeft);
    assert_eq!(out.pointer.unwrap().pointer_state_change, PointerStateChange::LeaveViewport);
    assert_eq!(out.window, vec![on_window]);
    assert_eq!(out.elements, Vec::<Delivery>::new());
    assert!(!out.entered);
    assert!(!app.root().is_entered());
    assert_eq!(app.hub().waiting_count(ed[2]), 1);
}

#[test]
fn other_report_goes_to_the_window_scope_untouched() {
    let (mut app, global, _) = window();
    app.redraw(Duration::from_millis(16)).unwrap();
    app.emit_event(moved(60, 60));
    let raw = app.hub().subscribe(global, EventKind::WindowEvent).unwrap();
    let out = app.emit_event(WindowEvent::Other);
    assert_eq!(out.pointer, None);
    assert_eq!(out.window, vec![raw]);
    assert_eq!(out.elements, Vec::<Delivery>::new());
    assert!(!out.entered);
    // the tree still knows where the pointer was
    assert!(app.root().is_entered());
    let out = app.emit_event(moved(61, 60));
    assert_eq!(out.pointer.unwrap().cursor_delta, Some((1, 0)));
}

#[test]
fn events_before_the_first_frame_hit_nothing() {
    let (mut app, global, ed) = window();
    let on_window = app.hub().subscribe(global, EventKind::PointerEnter).unwrap();
    app.hub().subscribe(ed[2], EventKind::PointerEnter).unwrap();
    let out = app.emit_event(moved(60, 60));
    assert_eq!(out.window, vec![on_window]);
    assert_eq!(out.elements, Vec::<Delivery>::new());
    assert!(!out.entered);
}

#[test]
fn layout_hands_the_window_to_the_root() {
    let (mut app, _, _) = window();
    assert_eq!(app.root().draw_region(), None);
    assert_eq!(app.layout(vec![]), Err(Error::NotEnoughRegions));
    assert_eq!(app.layout(vec![A, B]), Ok(()));
    assert_eq!(app.root().draw_region(), Some(A));
}

#[test]
fn empty_tree_always_redraws() {
    let mut hub = EventHub::new();
    let global = hub.create_scope().0;
    let mut app = Application::new((), hub, global);
    assert_eq!(app.redraw(Duration::from_millis(16)), Ok(()));
    assert_eq!(app.elem_table().len(), 0);
    assert_eq!(app.layout(vec![A]), Ok(()));
    let out = app.emit_event(moved(1, 1));
    assert!(!out.entered);
    assert_eq!(out.elements, Vec::<Delivery>::new());
}
