use list::{Handle, List, Node, NodeIterator};

/// Collects the values of the list in iteration order, from the head.
fn values(l: &List<i32>) -> Vec<i32> {
    let mut out = Vec::new();
    let mut it = l.iter();
    while let Some(h) = it.next(l) {
        out.push(*l.node(h).value());
    }
    out
}

/// Collects the handles of the list in iteration order, from the head.
fn forward_handles(l: &List<i32>) -> Vec<Handle> {
    let mut out = Vec::new();
    let mut it = l.iter();
    while let Some(h) = it.next(l) {
        out.push(h);
    }
    out
}

/// Collects the handles of the list by following prev links from the tail.
fn backward_handles(l: &List<i32>) -> Vec<Handle> {
    let mut out = Vec::new();
    let mut cur = l.tail();
    while let Some(h) = cur {
        out.push(h);
        cur = l.node(h).prev();
    }
    out
}

/// Checks the structural invariants through the public API: head and tail are
/// both absent or both present, the forward walk and the backward walk cross
/// the same nodes in opposite orders, adjacent links mirror each other, and
/// the two ends have no outward links.
fn check_invariants(l: &List<i32>) {
    let fwd = forward_handles(l);
    let mut bwd = backward_handles(l);
    bwd.reverse();
    assert_eq!(fwd, bwd);
    assert_eq!(l.head().is_none(), fwd.is_empty());
    assert_eq!(l.tail().is_none(), fwd.is_empty());
    if let Some(h) = l.head() {
        assert_eq!(fwd[0], h);
        assert!(l.node(h).prev().is_none());
    }
    if let Some(t) = l.tail() {
        assert_eq!(fwd[fwd.len() - 1], t);
        assert!(l.node(t).next().is_none());
    }
    for w in fwd.windows(2) {
        assert_eq!(l.node(w[0]).next(), Some(w[1]));
        assert_eq!(l.node(w[1]).prev(), Some(w[0]));
    }
}

#[test]
fn it_works() {
    let mut list = List::new();
    list.push_back(7);
    list.push_back(8);
    list.push_back(9);
    list.push_back(10);

    let mut it = list.iter();
    while let Some(h) = it.next(&list) {
        println!("{}", list.node(h).value());
    }

    let node = match list.head() {
        Some(h) => list.node(h).next(),
        None => None,
    };
    list.remove(node);

    let mut it = list.iter();
    while let Some(h) = it.next(&list) {
        println!("{}", list.node(h).value());
    }

    list.remove(list.tail());

    let mut it = list.iter();
    while let Some(h) = it.next(&list) {
        println!("{}", list.node(h).value());
    }

    println!("Done");
}

#[test]
fn append_order() {
    let mut l = List::new();
    for v in 1..=5 {
        l.push_back(v);
    }
    assert_eq!(values(&l), vec![1, 2, 3, 4, 5]);
}

#[test]
fn invariants_preserved_by_every_operation() {
    let mut l = List::new();
    check_invariants(&l);
    for v in 0..6 {
        l.push_back(v);
        check_invariants(&l);
    }
    let handles = forward_handles(&l);
    // remove middle, head, tail, then drain what is left
    l.remove(Some(handles[3]));
    check_invariants(&l);
    l.remove(Some(handles[0]));
    check_invariants(&l);
    l.remove(Some(handles[5]));
    check_invariants(&l);
    while let Some(h) = l.head() {
        l.remove(Some(h));
        check_invariants(&l);
    }
    assert!(values(&l).is_empty());
}

#[test]
fn remove_head_of_three() {
    let mut l = List::new();
    l.push_back(1); // a
    l.push_back(2); // b
    l.push_back(3); // c
    let a = l.head().unwrap();
    let b = l.node(a).next().unwrap();
    let removed = l.remove(Some(a)).unwrap();
    assert_eq!(l.head(), Some(b));
    assert_eq!(values(&l), vec![2, 3]);
    assert_eq!(*l.node(removed).value(), 1);
}

#[test]
fn remove_middle_of_three() {
    let mut l = List::new();
    l.push_back(1);
    l.push_back(2);
    l.push_back(3);
    let a = l.head().unwrap();
    let b = l.node(a).next().unwrap();
    let c = l.tail().unwrap();
    let removed = l.remove(Some(b));
    assert_eq!(removed, Some(b));
    assert_eq!(values(&l), vec![1, 3]);
    assert_eq!(l.node(a).next(), Some(c));
    assert_eq!(l.node(c).prev(), Some(a));
}

#[test]
fn remove_tail_of_three() {
    let mut l = List::new();
    l.push_back(1);
    l.push_back(2);
    l.push_back(3);
    let b = l.node(l.head().unwrap()).next().unwrap();
    let c = l.tail().unwrap();
    let removed = l.remove(Some(c)).unwrap();
    assert_eq!(l.tail(), Some(b));
    assert_eq!(values(&l), vec![1, 2]);
    assert_eq!(*l.node(removed).value(), 3);
}

#[test]
fn remove_none_is_a_no_op() {
    let mut empty: List<i32> = List::new();
    assert_eq!(empty.remove(None), None);
    assert!(empty.head().is_none() && empty.tail().is_none());

    let mut l = List::new();
    l.push_back(4);
    l.push_back(5);
    let before = values(&l);
    assert_eq!(l.remove(None), None);
    assert_eq!(values(&l), before);
    check_invariants(&l);
}

#[test]
fn remove_detached_handle_is_a_no_op() {
    let mut l = List::new();
    l.push_back(1);
    l.push_back(2);
    l.push_back(3);
    let b = l.node(l.head().unwrap()).next().unwrap();
    assert_eq!(l.remove(Some(b)), Some(b));
    let before = values(&l);
    // b is detached now: a second removal finds no identity match
    assert_eq!(l.remove(Some(b)), None);
    assert_eq!(values(&l), before);
    check_invariants(&l);
}

#[test]
fn handle_survives_removal() {
    let mut l = List::new();
    l.push_back(10);
    l.push_back(20);
    l.push_back(30);
    let b = l.node(l.head().unwrap()).next().unwrap();
    l.remove(Some(b));
    // the handle still reads its original value
    assert_eq!(*l.node(b).value(), 20);
    // but the node is no longer reachable from the head
    assert!(!forward_handles(&l).contains(&b));
}

#[test]
fn observation_is_idempotent() {
    let mut l = List::new();
    l.push_back(11);
    l.push_back(22);
    assert_eq!(l.head(), l.head());
    assert_eq!(l.tail(), l.tail());
    assert_eq!(l.head_value(), l.head_value());
    assert_eq!(l.head_value(), Some(&11));
    let h1 = l.head();
    let h2 = l.head();
    let h3 = l.head();
    assert_eq!(h1, h2);
    assert_eq!(h2, h3);
}

#[test]
fn single_element_and_empty_edge_cases() {
    let mut l = List::new();
    assert_eq!(l.head_value(), None);
    l.push_back(42);
    assert_eq!(l.head(), l.tail());
    assert_eq!(l.head_value(), Some(&42));
    let only = l.head();
    assert_eq!(l.remove(only), only);
    assert!(l.head().is_none());
    assert!(l.tail().is_none());
    assert_eq!(l.head_value(), None);
    assert_eq!(l.remove(only), None);
}

#[test]
fn iterator_visits_a_node_removed_ahead_of_it() {
    let mut l = List::new();
    l.push_back(1);
    l.push_back(2);
    l.push_back(3);
    let a = l.head().unwrap();
    let b = l.node(a).next().unwrap();
    let mut it = l.iter();
    assert_eq!(it.next(&l), Some(a));
    // the cursor now stands on b; remove b from the list
    l.remove(Some(b));
    // the cursor holds its own handle: it still visits b, then follows
    // b's remaining link back into the list
    assert_eq!(it.next(&l), Some(b));
    assert_eq!(*l.node(b).value(), 2);
    let c = l.tail().unwrap();
    assert_eq!(it.next(&l), Some(c));
    assert_eq!(it.next(&l), None);
    assert_eq!(it.next(&l), None);
}

#[test]
fn iterator_restarts_from_the_same_handle() {
    let mut l = List::new();
    l.push_back(5);
    l.push_back(6);
    let b = l.node(l.head().unwrap()).next();
    let mut it1 = NodeIterator::new(b);
    let mut it2 = NodeIterator::new(b);
    assert_eq!(it1.next(&l), b);
    assert_eq!(it1.next(&l), None);
    assert_eq!(it2.next(&l), b);
}

#[test]
fn node_link_primitives() {
    let mut l = List::new();
    l.push_back(1);
    l.push_back(2);
    let a = l.head().unwrap();
    let b = l.tail().unwrap();

    let mut n: Node<i32> = Node::new(99);
    assert_eq!(*n.value(), 99);
    assert_eq!(n.prev(), None);
    assert_eq!(n.next(), None);

    n.set_next(Some(a));
    n.set_prev(Some(b));
    assert_eq!(n.next(), Some(a));
    assert_eq!(n.prev(), Some(b));
    assert_eq!(*n.value(), 99);

    let old_next = n.replace_next_and_retrieve(b);
    assert_eq!(old_next, Some(a));
    assert_eq!(n.next(), Some(b));

    let old_prev = n.replace_prev_and_retrieve(a);
    assert_eq!(old_prev, Some(b));
    assert_eq!(n.prev(), Some(a));

    n.set_next(None);
    assert_eq!(n.next(), None);
}

#[test]
fn head_value_matches_first_pushed() {
    let mut l = List::new();
    l.push_back(String::from("first"));
    l.push_back(String::from("second"));
    assert_eq!(l.head_value(), Some(&String::from("first")));
    let first = l.head();
    l.remove(first);
    assert_eq!(l.head_value(), Some(&String::from("second")));
}
