use irisia_core::dom::maybe_shared::{MaybeShared, Ref, RefMut, Shared};
use std::cell::RefCell;
use std::rc::Rc;

fn handle<T, U>(node: &MaybeShared<T, U>) -> Rc<RefCell<Shared<T, U>>> {
    match node {
        MaybeShared::Shared(cell) => cell.clone(),
        MaybeShared::Unique(_) => panic!("the node is not shared"),
    }
}

#[test]
fn new_node_is_unique() {
    let node: MaybeShared<u32, &str> = MaybeShared::new(7);
    assert!(!node.is_shared());
    assert!(matches!(node, MaybeShared::Unique(7)));
    assert_eq!(*node.borrow().unwrap().get(), 7);
}

#[test]
fn to_shared_keeps_the_value_and_stores_the_payload() {
    let mut node: MaybeShared<String, u8> = MaybeShared::new(String::from("node"));
    node.to_shared(9);
    assert!(node.is_shared());
    assert_eq!(node.borrow().unwrap().get().as_str(), "node");
    let cell = handle(&node);
    assert_eq!(cell.borrow().main, "node");
    assert_eq!(cell.borrow().extra, 9);
}

#[test]
fn to_shared_twice_is_to_shared_once() {
    let mut node: MaybeShared<u32, &str> = MaybeShared::new(7);
    node.to_shared("first");
    let once = handle(&node);
    node.to_shared("second");
    let twice = handle(&node);
    // the same cell, the same value, the payload of the first promotion
    assert!(Rc::ptr_eq(&once, &twice));
    assert_eq!(twice.borrow().main, 7);
    assert_eq!(twice.borrow().extra, "first");
    assert_eq!(*node.borrow().unwrap().get(), 7);
}

#[test]
fn try_to_unique_fails_while_handles_are_out() {
    let mut node: MaybeShared<u32, &str> = MaybeShared::new(7);
    node.to_shared("kept");
    let first = handle(&node);
    let second = handle(&node);
    assert!(!node.try_to_unique());
    assert!(node.is_shared());
    // unchanged, and reachable through both handles
    assert_eq!(first.borrow().main, 7);
    assert_eq!(second.borrow().main, 7);
    assert_eq!(second.borrow().extra, "kept");
    assert!(Rc::ptr_eq(&first, &handle(&node)));
    assert_eq!(*node.borrow().unwrap().get(), 7);

    drop(first);
    assert!(!node.try_to_unique());
    drop(second);
    assert!(node.try_to_unique());
    assert!(matches!(node, MaybeShared::Unique(7)));
}

#[test]
fn try_to_unique_succeeds_for_the_last_owner() {
    let mut node: MaybeShared<Vec<u8>, ()> = MaybeShared::new(vec![1, 2, 3]);
    node.to_shared(());
    assert!(node.try_to_unique());
    assert!(!node.is_shared());
    assert!(matches!(&node, MaybeShared::Unique(v) if v == &vec![1, 2, 3]));
}

#[test]
fn try_to_unique_on_a_unique_node_changes_nothing() {
    let mut node: MaybeShared<u32, ()> = MaybeShared::new(3);
    assert!(node.try_to_unique());
    assert!(matches!(node, MaybeShared::Unique(3)));
}

#[test]
fn value_changed_through_a_handle_comes_back_on_demotion() {
    let mut node: MaybeShared<u32, ()> = MaybeShared::new(1);
    node.to_shared(());
    {
        let outside = handle(&node);
        outside.borrow_mut().main = 42;
    }
    assert_eq!(*node.borrow().unwrap().get(), 42);
    assert!(node.try_to_unique());
    assert!(matches!(node, MaybeShared::Unique(42)));
}

#[test]
fn borrow_mut_changes_the_value_in_either_storage() {
    let mut node: MaybeShared<u32, ()> = MaybeShared::new(1);
    {
        let mut lent = node.borrow_mut().unwrap();
        assert!(matches!(lent, RefMut::Unique(_)));
        *lent.get_mut() += 1;
    }
    assert!(matches!(node, MaybeShared::Unique(2)));
    node.to_shared(());
    let outside = handle(&node);
    {
        let mut lent = node.borrow_mut().unwrap();
        assert!(matches!(lent, RefMut::Shared(_)));
        *lent.get_mut() += 5;
    }
    assert_eq!(outside.borrow().main, 7);
    assert!(matches!(node.borrow().unwrap(), Ref::Shared(_)));
}

#[test]
fn shared_node_in_use_elsewhere_is_not_lent() {
    let mut node: MaybeShared<u32, ()> = MaybeShared::new(1);
    node.to_shared(());
    let outside = handle(&node);
    {
        let writer = outside.borrow_mut();
        assert!(node.borrow().is_none());
        assert!(node.borrow_mut().is_none());
        drop(writer);
    }
    {
        let reader = outside.borrow();
        assert!(node.borrow().is_some());
        assert!(node.borrow_mut().is_none());
        drop(reader);
    }
    assert!(node.borrow_mut().is_some());
}

#[test]
fn settle_follows_the_outcome_of_the_cell() {
    let cell = Rc::new(RefCell::new(Shared { main: 5u32, extra: 'x' }));
    let other = cell.clone();
    let kept = MaybeShared::settle(Rc::try_unwrap(cell));
    assert!(matches!(&kept, MaybeShared::Shared(c) if Rc::ptr_eq(c, &other)));
    drop(kept);
    let freed = MaybeShared::settle(Rc::try_unwrap(other));
    assert!(matches!(freed, MaybeShared::Unique(5)));
}

#[test]
fn demotion_succeeds_exactly_when_one_owner_is_left() {
    for outside in 0..4usize {
        let mut node: MaybeShared<u32, ()> = MaybeShared::new(11);
        assert_eq!(node.owners(), 1);
        node.to_shared(());
        let handles: Vec<_> = (0..outside).map(|_| handle(&node)).collect();
        assert_eq!(node.owners(), outside + 1);
        let sole = node.owners() == 1;
        assert_eq!(node.try_to_unique(), sole);
        assert_eq!(node.is_shared(), !sole);
        assert_eq!(*node.borrow().unwrap().get(), 11);
        drop(handles);
        assert!(node.try_to_unique());
        assert_eq!(node.owners(), 1);
    }
}

#[test]
fn borrows_deref_to_the_value() {
    let mut node: MaybeShared<Vec<u8>, ()> = MaybeShared::new(vec![1]);
    node.borrow_mut().unwrap().push(2);
    assert_eq!(node.borrow().unwrap().len(), 2);
    assert_eq!(*node.borrow().unwrap(), vec![1, 2]);
    node.to_shared(());
    node.borrow_mut().unwrap().push(3);
    assert_eq!(*node.borrow().unwrap(), vec![1, 2, 3]);
    assert_eq!(node.borrow_mut().unwrap().get(), &vec![1, 2, 3]);
    assert_eq!(node.borrow_mut().unwrap().len(), 3);
}
