use fe_analyzer::node::{Node, NodeId, NodeIdCounter};
use fe_analyzer::span::{Span, Spanned};

#[test]
fn node_id_create_hands_out_successive_ids() {
    let mut counter = NodeIdCounter::new();
    assert_eq!(NodeId::create(&mut counter), NodeId(0));
    assert_eq!(NodeId::create(&mut counter), NodeId(1));
    assert_eq!(NodeId::create(&mut counter), NodeId(2));
    assert_eq!(counter.next, 3);
}

#[test]
fn node_id_create_wraps_after_max() {
    let mut counter = NodeIdCounter { next: u32::MAX };
    assert_eq!(NodeId::create(&mut counter), NodeId(u32::MAX));
    assert_eq!(counter.next, 0);
    assert_eq!(NodeId::create(&mut counter), NodeId(0));
}

#[test]
fn node_ids_are_distinct() {
    let mut counter = NodeIdCounter::new();
    let ids: Vec<NodeId> = (0..100).map(|_| NodeId::create(&mut counter)).collect();
    for i in 0..ids.len() {
        for j in 0..ids.len() {
            if i != j {
                assert_ne!(ids[i], ids[j]);
            }
        }
    }
}

#[test]
fn node_new_is_its_own_original() {
    let mut counter = NodeIdCounter { next: 7 };
    let node = Node::new("x".to_string(), Span::new(3, 5), &mut counter);
    assert_eq!(node.id, NodeId(7));
    assert_eq!(node.original_id, NodeId(7));
    assert_eq!(node.span, Span { start: 3, end: 5 });
    assert_eq!(node.kind, "x");
    assert_eq!(counter.next, 8);
}

#[test]
fn node_with_original_id_keeps_the_original() {
    let mut counter = NodeIdCounter { next: 10 };
    let node = Node::with_original_id(42u8, Span::new(0, 1), NodeId(3), &mut counter);
    assert_eq!(node.id, NodeId(10));
    assert_eq!(node.original_id, NodeId(3));
    assert_eq!(node.kind, 42);
}

#[test]
fn node_span_and_id_conversions() {
    let mut counter = NodeIdCounter { next: 4 };
    let node = Node::new(1u8, Span::new(8, 12), &mut counter);
    assert_eq!(Span::from(&node), Span::new(8, 12));
    assert_eq!(NodeId::from(&node), NodeId(4));
    assert_eq!(node.span(), Span::new(8, 12));
    let boxed = Box::new(node);
    assert_eq!(Span::from(&boxed), Span::new(8, 12));
    assert_eq!(NodeId::from(&boxed), NodeId(4));
}
