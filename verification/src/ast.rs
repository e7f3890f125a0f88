//! The part of the parsed syntax tree that the contract queries read.

use vstd::prelude::*;
use crate::span::Span;
use crate::node::Node;

verus! {

/// A function definition: whether it is marked `pub` (and where), and its
/// name.
#[derive(Debug)]
pub struct Function {
    pub pub_: Option<Span>,
    pub name: Node<String>,
}

/// An event definition.
#[derive(Debug)]
pub struct Event {
    pub name: Node<String>,
}

/// A type as written in the source.
#[derive(Debug)]
pub struct TypeDesc {
    pub name: String,
}

/// A contract field: its qualifiers, name, declared type and optional
/// initial value (its source text).
#[derive(Debug)]
pub struct Field {
    pub is_pub: bool,
    pub is_const: bool,
    pub name: Node<String>,
    pub typ: Node<TypeDesc>,
    pub value: Option<Node<String>>,
}

/// A statement in a contract's body.
#[derive(Debug)]
pub enum ContractStmt {
    Event(Node<Event>),
    Function(Node<Function>),
}

/// A contract definition.
#[derive(Debug)]
pub struct Contract {
    pub name: Node<String>,
    pub fields: Vec<Node<Field>>,
    pub body: Vec<ContractStmt>,
}

/// A copy of a name node.
pub fn clone_name(n: &Node<String>) -> (r: Node<String>)
    ensures
        r == *n,
{
    Node { kind: n.kind.clone(), id: n.id, original_id: n.original_id, span: n.span }
}

impl Node<Function> {
    /// A copy of this function node.
    pub fn duplicate(&self) -> (r: Self)
        ensures
            r == *self,
    {
        Node {
            kind: Function { pub_: self.kind.pub_, name: clone_name(&self.kind.name) },
            id: self.id,
            original_id: self.original_id,
            span: self.span,
        }
    }
}

impl Node<Event> {
    /// A copy of this event node.
    pub fn duplicate(&self) -> (r: Self)
        ensures
            r == *self,
    {
        Node {
            kind: Event { name: clone_name(&self.kind.name) },
            id: self.id,
            original_id: self.original_id,
            span: self.span,
        }
    }
}

impl Node<Field> {
    /// A copy of this field node.
    pub fn duplicate(&self) -> (r: Self)
        ensures
            r == *self,
    {
        let typ = Node {
            kind: TypeDesc { name: self.kind.typ.kind.name.clone() },
            id: self.kind.typ.id,
            original_id: self.kind.typ.original_id,
            span: self.kind.typ.span,
        };
        let value = match &self.kind.value {
            Some(v) => Some(clone_name(v)),
            None => None,
        };
        Node {
            kind: Field {
                is_pub: self.kind.is_pub,
                is_const: self.kind.is_const,
                name: clone_name(&self.kind.name),
                typ,
                value,
            },
            id: self.id,
            original_id: self.original_id,
            span: self.span,
        }
    }
}

} // verus!
