//! AST nodes: a payload together with its span and a unique id.

use vstd::prelude::*;
use crate::span::{Span, Spanned};

verus! {

/// The identifier of a parsed AST node.
#[derive(Debug, PartialEq, Eq, Structural, Copy, Clone, Hash, Default, PartialOrd, Ord)]
pub struct NodeId(pub u32);

/// The source of fresh node ids: the id it hands out next.
///
/// Ids are handed out in increasing order; after `u32::MAX` the counter
/// starts again at 0.
pub struct NodeIdCounter {
    pub next: u32,
}

/// The id that the `k`-th call of [`NodeId::create`] hands out on a counter
/// that starts at `start`.
pub open spec fn nth_node_id(start: u32, k: nat) -> int {
    (start + k) % 0x1_0000_0000
}

/// The counter value after one more id was handed out.
pub open spec fn next_counter(next: u32) -> u32 {
    if next == u32::MAX { 0 } else { (next + 1) as u32 }
}

impl NodeIdCounter {
    /// A counter whose first id is 0.
    pub fn new() -> (c: NodeIdCounter)
        ensures
            c.next == 0,
    {
        NodeIdCounter { next: 0 }
    }
}

impl NodeId {
    /// Hands out the counter's next id and advances the counter by one
    /// (wrapping around after `u32::MAX`).
    pub fn create(counter: &mut NodeIdCounter) -> (id: NodeId)
        ensures
            id.0 == old(counter).next,
            final(counter).next == next_counter(old(counter).next),
    {
        let id = counter.next;
        counter.next = if id == u32::MAX { 0 } else { id + 1 };
        NodeId(id)
    }
}

/// Successive ids: `k` calls of [`NodeId::create`] after a counter stood at
/// `start` leave it at `nth_node_id(start, k)`.
pub proof fn lemma_next_counter_is_nth(start: u32, k: nat)
    ensures
        next_counter(nth_node_id(start, k) as u32) == nth_node_id(start, k + 1),
        0 <= nth_node_id(start, k) <= u32::MAX,
{
}

/// Node ids are unique: among fewer than 2^32 consecutive calls of
/// [`NodeId::create`] no two hand out the same id.
pub proof fn lemma_node_ids_distinct(start: u32, i: nat, j: nat)
    requires
        i < j < 0x1_0000_0000,
    ensures
        nth_node_id(start, i) != nth_node_id(start, j),
{
}

/// A parsed AST node: its payload `kind`, its own id, the id of the node it
/// was derived from (itself, unless it was produced by lowering), and its
/// source span.
#[derive(Debug, PartialEq, Eq, Hash, Clone)]
pub struct Node<T> {
    pub kind: T,
    pub id: NodeId,
    pub original_id: NodeId,
    pub span: Span,
}

impl<T> Node<T> {
    /// A node with a fresh id, which is also its original id.
    pub fn new(kind: T, span: Span, counter: &mut NodeIdCounter) -> (n: Self)
        ensures
            n.kind == kind,
            n.span == span,
            n.id.0 == old(counter).next,
            n.original_id == n.id,
            final(counter).next == next_counter(old(counter).next),
    {
        let id = NodeId::create(counter);
        Node { kind, id, original_id: id, span }
    }

    /// A node with a fresh id that records `original_id` as the node it was
    /// derived from.
    pub fn with_original_id(kind: T, span: Span, original_id: NodeId, counter: &mut NodeIdCounter) -> (n: Self)
        ensures
            n.kind == kind,
            n.span == span,
            n.id.0 == old(counter).next,
            n.original_id == original_id,
            final(counter).next == next_counter(old(counter).next),
    {
        let id = NodeId::create(counter);
        Node { kind, id, original_id, span }
    }
}

impl<T> Spanned for Node<T> {
    fn span(&self) -> (s: Span)
        ensures
            s == self.span,
    {
        self.span
    }
}

impl<'a, T> From<&'a Node<T>> for Span {
    fn from(node: &'a Node<T>) -> (s: Span)
        ensures
            s == node.span,
    {
        node.span
    }
}

impl<'a, T> vstd::std_specs::convert::FromSpecImpl<&'a Node<T>> for Span {
    open spec fn obeys_from_spec() -> bool {
        true
    }

    open spec fn from_spec(node: &'a Node<T>) -> Span {
        node.span
    }
}

impl<'a, T> From<&'a Node<T>> for NodeId {
    fn from(node: &'a Node<T>) -> (id: NodeId)
        ensures
            id == node.id,
    {
        node.id
    }
}

impl<'a, T> vstd::std_specs::convert::FromSpecImpl<&'a Node<T>> for NodeId {
    open spec fn obeys_from_spec() -> bool {
        true
    }

    open spec fn from_spec(node: &'a Node<T>) -> NodeId {
        node.id
    }
}

impl<'a, T> From<&'a Box<Node<T>>> for Span {
    fn from(node: &'a Box<Node<T>>) -> (s: Span)
        ensures
            s == node.span,
    {
        node.span
    }
}

impl<'a, T> vstd::std_specs::convert::FromSpecImpl<&'a Box<Node<T>>> for Span {
    open spec fn obeys_from_spec() -> bool {
        true
    }

    open spec fn from_spec(node: &'a Box<Node<T>>) -> Span {
        node.span
    }
}

impl<'a, T> From<&'a Box<Node<T>>> for NodeId {
    fn from(node: &'a Box<Node<T>>) -> (id: NodeId)
        ensures
            id == node.id,
    {
        node.id
    }
}

impl<'a, T> vstd::std_specs::convert::FromSpecImpl<&'a Box<Node<T>>> for NodeId {
    open spec fn obeys_from_spec() -> bool {
        true
    }

    open spec fn from_spec(node: &'a Box<Node<T>>) -> NodeId {
        node.id
    }
}

/// Converting a node to a `NodeId` gives the node's own id, not the id of
/// the node it was derived from; converting it to a `Span` gives its span.
/// The same holds of a boxed node.
pub proof fn node_conversions_give_own_id_and_span<T>(node: &Node<T>, boxed: &Box<Node<T>>)
    ensures
        <NodeId as vstd::std_specs::convert::FromSpec<&Node<T>>>::from_spec(node) == node.id,
        <Span as vstd::std_specs::convert::FromSpec<&Node<T>>>::from_spec(node) == node.span,
        <NodeId as vstd::std_specs::convert::FromSpec<&Box<Node<T>>>>::from_spec(boxed) == boxed.id,
        <Span as vstd::std_specs::convert::FromSpec<&Box<Node<T>>>>::from_spec(boxed) == boxed.span,
        <NodeId as vstd::std_specs::convert::FromSpec<&Node<T>>>::obeys_from_spec(),
        <Span as vstd::std_specs::convert::FromSpec<&Node<T>>>::obeys_from_spec(),
{
}

} // verus!
