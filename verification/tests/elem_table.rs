use irisia_core::application::elem_table::{Delivery, ElemTable, Item};
use irisia_core::event::hub::{EventDispatcher, EventHub};
use irisia_core::event::standard::EventKind;
use irisia_core::primitive::Point;

fn scopes(hub: &mut EventHub, n: usize) -> Vec<EventDispatcher> {
    (0..n).map(|_| hub.create_scope().0).collect()
}

/// parent { a [(0,0)-(100,100)], b [(50,50)-(150,150)] }
fn two_siblings(table: &mut ElemTable, ed: &[EventDispatcher]) -> (usize, usize, usize) {
    let mut b = table.builder();
    let parent = b.push(ed[0]);
    let first = b.push(ed[1]);
    b.set_interact_region_for(first, Some((Point(0, 0), Point(100, 100))));
    b.finish();
    let second = b.push(ed[2]);
    b.set_interact_region_for(second, Some((Point(50, 50), Point(150, 150))));
    b.finish();
    b.finish();
    (parent, first, second)
}

#[test]
fn sibling_pushed_last_wins_and_bubbles_to_parent() {
    let mut hub = EventHub::new();
    let ed = scopes(&mut hub, 3);
    let on_parent = hub.subscribe(ed[0], EventKind::PointerDown).unwrap();
    let on_a = hub.subscribe(ed[1], EventKind::PointerDown).unwrap();
    let on_b = hub.subscribe(ed[2], EventKind::PointerDown).unwrap();

    let mut table = ElemTable::new();
    let (parent, a, b) = two_siblings(&mut table, &ed);

    assert_eq!(table.hit_test(Point(60, 60)), Some(b));
    assert_eq!(table.bubble(Point(60, 60)), vec![b, parent]);
    let delivered = table.emit(&mut hub, Point(60, 60), EventKind::PointerDown);
    assert_eq!(
        delivered,
        vec![
            Delivery { entry: b, ticket: on_b, is_current: true },
            Delivery { entry: parent, ticket: on_parent, is_current: false },
        ]
    );
    // the sibling that lost never hears of it
    assert_eq!(hub.waiting_count(ed[1]), 1);
    assert_eq!(hub.emit(ed[1], EventKind::PointerDown), vec![on_a]);
    assert_eq!(hub.waiting_count(ed[0]), 0);
    assert_eq!(hub.waiting_count(ed[2]), 0);
}

#[test]
fn point_in_first_sibling_only_hits_it() {
    let mut hub = EventHub::new();
    let ed = scopes(&mut hub, 3);
    let mut table = ElemTable::new();
    let (parent, a, _) = two_siblings(&mut table, &ed);
    assert_eq!(table.hit_test(Point(10, 10)), Some(a));
    assert_eq!(table.bubble(Point(10, 10)), vec![a, parent]);
}

#[test]
fn point_outside_every_region_delivers_nothing() {
    let mut hub = EventHub::new();
    let ed = scopes(&mut hub, 3);
    for e in &ed {
        hub.subscribe(*e, EventKind::PointerDown).unwrap();
    }
    let mut table = ElemTable::new();
    two_siblings(&mut table, &ed);

    assert_eq!(table.hit_test(Point(200, 200)), None);
    assert_eq!(table.bubble(Point(200, 200)), Vec::<usize>::new());
    let delivered = table.emit(&mut hub, Point(200, 200), EventKind::PointerDown);
    assert_eq!(delivered, Vec::<Delivery>::new());
    for e in &ed {
        assert_eq!(hub.waiting_count(*e), 1);
    }
}

#[test]
fn region_borders_belong_to_the_region() {
    let mut hub = EventHub::new();
    let ed = scopes(&mut hub, 1);
    let mut table = ElemTable::new();
    let mut b = table.builder();
    let i = b.push(ed[0]);
    b.set_interact_region_for(i, Some((Point(10, 20), Point(30, 40))));
    b.finish();
    assert_eq!(table.hit_test(Point(10, 20)), Some(i));
    assert_eq!(table.hit_test(Point(30, 40)), Some(i));
    assert_eq!(table.hit_test(Point(30, 20)), Some(i));
    assert_eq!(table.hit_test(Point(9, 20)), None);
    assert_eq!(table.hit_test(Point(10, 19)), None);
    assert_eq!(table.hit_test(Point(31, 40)), None);
    assert_eq!(table.hit_test(Point(30, 41)), None);
}

#[test]
fn push_records_parent_and_finish_pops() {
    let mut hub = EventHub::new();
    let ed = scopes(&mut hub, 4);
    let mut table = ElemTable::new();
    assert_eq!(table.depth(), 0);
    assert_eq!(table.len(), 0);
    {
        let mut b = table.builder();
        let root = b.push(ed[0]);
        let child = b.push(ed[1]);
        let grandchild = b.push(ed[2]);
        b.finish();
        b.finish();
        let second = b.push(ed[3]);
        b.finish();
        b.finish();
        assert_eq!((root, child, grandchild, second), (0, 1, 2, 3));
    }
    assert_eq!(table.depth(), 0);
    assert_eq!(table.len(), 4);
    assert_eq!(
        table.get(0),
        Some(Item { event_emitter: ed[0], interact_region: None, parent: None })
    );
    assert_eq!(
        table.get(1),
        Some(Item { event_emitter: ed[1], interact_region: None, parent: Some(0) })
    );
    assert_eq!(
        table.get(2),
        Some(Item { event_emitter: ed[2], interact_region: None, parent: Some(1) })
    );
    assert_eq!(
        table.get(3),
        Some(Item { event_emitter: ed[3], interact_region: None, parent: Some(0) })
    );
    assert_eq!(table.get(4), None);
}

#[test]
fn depth_follows_open_elements() {
    let mut hub = EventHub::new();
    let ed = scopes(&mut hub, 2);
    let mut table = ElemTable::new();
    let mut b = table.builder();
    b.push(ed[0]);
    b.push(ed[1]);
    assert_eq!(b.table.depth(), 2);
    b.finish();
    assert_eq!(b.table.depth(), 1);
    b.finish();
    assert_eq!(b.table.depth(), 0);
}

#[test]
fn builder_starts_every_frame_from_empty() {
    let mut hub = EventHub::new();
    let ed = scopes(&mut hub, 3);
    let mut table = ElemTable::new();
    two_siblings(&mut table, &ed);
    assert_eq!(table.len(), 3);
    {
        let mut b = table.builder();
        let only = b.push(ed[1]);
        b.set_interact_region_for(only, Some((Point(0, 0), Point(5, 5))));
        b.finish();
    }
    assert_eq!(table.len(), 1);
    assert_eq!(table.depth(), 0);
    assert_eq!(table.hit_test(Point(60, 60)), None);
    assert_eq!(table.bubble(Point(1, 1)), vec![0]);
}

#[test]
fn clearing_a_region_makes_the_element_unreachable() {
    let mut hub = EventHub::new();
    let ed = scopes(&mut hub, 2);
    let mut table = ElemTable::new();
    let mut b = table.builder();
    let below = b.push(ed[0]);
    b.set_interact_region_for(below, Some((Point(0, 0), Point(10, 10))));
    let above = b.push(ed[1]);
    b.set_interact_region_for(above, Some((Point(0, 0), Point(10, 10))));
    b.set_interact_region_for(above, None);
    b.finish();
    b.finish();
    assert_eq!(table.hit_test(Point(5, 5)), Some(below));
    assert_eq!(table.bubble(Point(5, 5)), vec![below]);
}

#[test]
fn deep_chain_bubbles_through_every_ancestor_once() {
    let mut hub = EventHub::new();
    let ed = scopes(&mut hub, 4);
    let tickets: Vec<u64> =
        ed.iter().map(|e| hub.subscribe(*e, EventKind::Click).unwrap()).collect();
    let mut table = ElemTable::new();
    let mut b = table.builder();
    for e in &ed {
        let i = b.push(*e);
        b.set_interact_region_for(i, Some((Point(0, 0), Point(10, 10))));
    }
    for _ in &ed {
        b.finish();
    }
    assert_eq!(table.bubble(Point(3, 3)), vec![3, 2, 1, 0]);
    let delivered = table.emit(&mut hub, Point(3, 3), EventKind::Click);
    assert_eq!(
        delivered,
        vec![
            Delivery { entry: 3, ticket: tickets[3], is_current: true },
            Delivery { entry: 2, ticket: tickets[2], is_current: false },
            Delivery { entry: 1, ticket: tickets[1], is_current: false },
            Delivery { entry: 0, ticket: tickets[0], is_current: false },
        ]
    );
}

#[test]
fn downgraded_builder_fills_the_same_table() {
    let mut hub = EventHub::new();
    let ed = scopes(&mut hub, 2);
    let mut table = ElemTable::new();
    {
        let mut b = table.builder();
        let outer = b.push(ed[0]);
        {
            let mut inner = b.downgrade_lifetime();
            let child = inner.push(ed[1]);
            inner.set_interact_region_for(child, Some((Point(1, 1), Point(2, 2))));
            inner.finish();
        }
        b.set_interact_region_for(outer, Some((Point(0, 0), Point(9, 9))));
        b.finish();
    }
    assert_eq!(table.len(), 2);
    assert_eq!(table.bubble(Point(1, 1)), vec![1, 0]);
    assert_eq!(table.bubble(Point(5, 5)), vec![0]);
}
