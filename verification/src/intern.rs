//! Interning: a table hands out, for a value, the index of the first entry
//! equal to it, and appends the value first if there is none. Equal here is
//! equality of the data, strings compared by their text.

use vstd::prelude::*;
use crate::span::Span;
use crate::node::Node;
use crate::ast;
use crate::items::Class;
use crate::db::{first_index, is_first, lemma_first_index_found, prefix, FunctionData, EventData, ContractFieldData};

verus! {

/// The entries equal to `d` under `same`.
pub open spec fn matching<A>(same: spec_fn(A, A) -> bool, d: A) -> spec_fn(A) -> bool {
    |x: A| same(x, d)
}

/// `same` relates every value to itself.
pub open spec fn reflexive<A>(same: spec_fn(A, A) -> bool) -> bool {
    forall|a: A| #[trigger] same(a, a)
}

/// The table after interning `d`: unchanged if it has an entry equal to
/// `d`, else with `d` appended.
pub open spec fn intern_one<A>(t: Seq<A>, d: A, same: spec_fn(A, A) -> bool) -> Seq<A> {
    if first_index(t, matching(same, d)) is Some {
        t
    } else {
        t.push(d)
    }
}

/// The table after interning each of `ds` in order.
pub open spec fn intern_seq<A>(t: Seq<A>, ds: Seq<A>, same: spec_fn(A, A) -> bool) -> Seq<A>
    decreases ds.len(),
{
    if ds.len() == 0 {
        t
    } else {
        intern_one(intern_seq(t, ds.drop_last(), same), ds.last(), same)
    }
}

/// The index that interning `d` into `t` hands out, where `t` has an entry
/// equal to `d` (-1 if it has none).
pub open spec fn index_of<A>(t: Seq<A>, d: A, same: spec_fn(A, A) -> bool) -> int {
    match first_index(t, matching(same, d)) {
        Some(i) => i,
        None => -1,
    }
}

/// Extending a table keeps the first index of everything found in it.
pub proof fn lemma_prefix_first_index<A>(t: Seq<A>, t2: Seq<A>, p: spec_fn(A) -> bool)
    requires
        prefix(t, t2),
        first_index(t, p) is Some,
    ensures
        first_index(t2, p) == first_index(t, p),
{
    let i = choose|i: int| is_first(t, p, i);
    assert(is_first(t, p, i));
    assert(is_first(t2, p, i)) by {
        assert(t2[i] == t[i]);
        assert forall|j: int| 0 <= j < i implies !p(#[trigger] t2[j]) by {
            assert(t2[j] == t[j]);
        }
    }
    lemma_first_index_found(t, p, i);
    lemma_first_index_found(t2, p, i);
}

/// `prefix` is transitive.
pub proof fn lemma_prefix_trans<A>(a: Seq<A>, b: Seq<A>, c: Seq<A>)
    requires
        prefix(a, b),
        prefix(b, c),
    ensures
        prefix(a, c),
{
    assert forall|i: int| 0 <= i < a.len() implies #[trigger] a[i] == c[i] by {
        assert(a[i] == b[i]);
    }
}

/// Interning one value extends the table, and afterwards the table has an
/// entry equal to the value: the one found before, or the appended one.
pub proof fn lemma_intern_one<A>(t: Seq<A>, d: A, same: spec_fn(A, A) -> bool)
    requires
        reflexive(same),
    ensures
        prefix(t, intern_one(t, d, same)),
        first_index(intern_one(t, d, same), matching(same, d)) is Some,
        first_index(t, matching(same, d)) is Some ==> intern_one(t, d, same) == t,
        first_index(t, matching(same, d)) is None ==> intern_one(t, d, same) == t.push(d)
            && first_index(intern_one(t, d, same), matching(same, d)) == Some(t.len() as int),
{
    let p = matching(same, d);
    if first_index(t, p) is None {
        let t2 = t.push(d);
        assert(same(d, d));
        assert forall|j: int| 0 <= j < t.len() implies !p(#[trigger] t2[j]) by {
            assert(t2[j] == t[j]);
            if p(t[j]) {
                lemma_least(t, p, j);
            }
        }
        assert(is_first(t2, p, t.len() as int));
        lemma_first_index_found(t2, p, t.len() as int);
    }
}

/// Where some position satisfies `p`, a first one does.
pub proof fn lemma_least<A>(t: Seq<A>, p: spec_fn(A) -> bool, j: int)
    requires
        0 <= j < t.len(),
        p(t[j]),
    ensures
        first_index(t, p) is Some,
    decreases j,
{
    if forall|m: int| 0 <= m < j ==> !p(#[trigger] t[m]) {
        assert(is_first(t, p, j));
        lemma_first_index_found(t, p, j);
    } else {
        let m = choose|m: int| 0 <= m < j && p(#[trigger] t[m]);
        lemma_least(t, p, m);
    }
}

/// Interning values extends the table, and afterwards it has an entry equal
/// to each of them.
pub proof fn lemma_intern_seq<A>(t: Seq<A>, ds: Seq<A>, same: spec_fn(A, A) -> bool)
    requires
        reflexive(same),
    ensures
        prefix(t, intern_seq(t, ds, same)),
        forall|k: int| 0 <= k < ds.len() ==> first_index(intern_seq(t, ds, same), matching(same, #[trigger] ds[k])) is Some,
    decreases ds.len(),
{
    if ds.len() > 0 {
        let d = ds.drop_last();
        let t1 = intern_seq(t, d, same);
        lemma_intern_seq(t, d, same);
        lemma_intern_one(t1, ds.last(), same);
        let t2 = intern_seq(t, ds, same);
        lemma_prefix_trans(t, t1, t2);
        assert forall|k: int| 0 <= k < ds.len() implies first_index(t2, matching(same, #[trigger] ds[k])) is Some by {
            if k < d.len() {
                assert(d[k] == ds[k]);
                lemma_prefix_first_index(t1, t2, matching(same, ds[k]));
            } else {
                assert(ds[k] == ds.last());
            }
        }
    }
}

/// Interning values that all have equal entries leaves the table as it is.
pub proof fn lemma_intern_seq_present<A>(t: Seq<A>, ds: Seq<A>, same: spec_fn(A, A) -> bool)
    requires
        forall|k: int| 0 <= k < ds.len() ==> first_index(t, matching(same, #[trigger] ds[k])) is Some,
    ensures
        intern_seq(t, ds, same) == t,
    decreases ds.len(),
{
    if ds.len() > 0 {
        let d = ds.drop_last();
        assert forall|k: int| 0 <= k < d.len() implies first_index(t, matching(same, #[trigger] d[k])) is Some by {
            assert(d[k] == ds[k]);
        }
        lemma_intern_seq_present(t, d, same);
        assert(ds.last() == ds[ds.len() - 1]);
    }
}

/// Interning the same values twice changes nothing the second time.
pub proof fn lemma_intern_seq_idempotent<A>(t: Seq<A>, ds: Seq<A>, same: spec_fn(A, A) -> bool)
    requires
        reflexive(same),
    ensures
        intern_seq(intern_seq(t, ds, same), ds, same) == intern_seq(t, ds, same),
{
    lemma_intern_seq(t, ds, same);
    lemma_intern_seq_present(intern_seq(t, ds, same), ds, same);
}

// ----- equality of the interned data -----

/// Two name nodes are equal: same text, ids and span.
pub open spec fn same_name(a: Node<String>, b: Node<String>) -> bool {
    a.kind@ == b.kind@ && a.id == b.id && a.original_id == b.original_id && a.span == b.span
}

/// Two function nodes are equal.
pub open spec fn same_function_ast(a: Node<ast::Function>, b: Node<ast::Function>) -> bool {
    &&& a.kind.pub_ == b.kind.pub_
    &&& same_name(a.kind.name, b.kind.name)
    &&& a.id == b.id
    &&& a.original_id == b.original_id
    &&& a.span == b.span
}

/// Two interned functions are equal.
pub open spec fn same_function(a: FunctionData, b: FunctionData) -> bool {
    same_function_ast(a.ast, b.ast) && a.module == b.module && a.parent == b.parent
}

/// Equality of interned functions, as a relation.
pub open spec fn same_function_rel() -> spec_fn(FunctionData, FunctionData) -> bool {
    |a: FunctionData, b: FunctionData| same_function(a, b)
}

/// Two interned events are equal.
pub open spec fn same_event(a: EventData, b: EventData) -> bool {
    &&& same_name(a.ast.kind.name, b.ast.kind.name)
    &&& a.ast.id == b.ast.id
    &&& a.ast.original_id == b.ast.original_id
    &&& a.ast.span == b.ast.span
    &&& a.contract == b.contract
}

/// Equality of interned events, as a relation.
pub open spec fn same_event_rel() -> spec_fn(EventData, EventData) -> bool {
    |a: EventData, b: EventData| same_event(a, b)
}

/// Two optional initial values are equal.
pub open spec fn same_value(a: Option<Node<String>>, b: Option<Node<String>>) -> bool {
    match (a, b) {
        (Some(x), Some(y)) => same_name(x, y),
        (None, None) => true,
        _ => false,
    }
}

/// Two field nodes are equal.
pub open spec fn same_field_ast(a: Node<ast::Field>, b: Node<ast::Field>) -> bool {
    &&& a.kind.is_pub == b.kind.is_pub
    &&& a.kind.is_const == b.kind.is_const
    &&& same_name(a.kind.name, b.kind.name)
    &&& a.kind.typ.kind.name@ == b.kind.typ.kind.name@
    &&& a.kind.typ.id == b.kind.typ.id
    &&& a.kind.typ.original_id == b.kind.typ.original_id
    &&& a.kind.typ.span == b.kind.typ.span
    &&& same_value(a.kind.value, b.kind.value)
    &&& a.id == b.id
    &&& a.original_id == b.original_id
    &&& a.span == b.span
}

/// Two interned fields are equal.
pub open spec fn same_field(a: ContractFieldData, b: ContractFieldData) -> bool {
    same_field_ast(a.ast, b.ast) && a.parent == b.parent
}

/// Equality of interned fields, as a relation.
pub open spec fn same_field_rel() -> spec_fn(ContractFieldData, ContractFieldData) -> bool {
    |a: ContractFieldData, b: ContractFieldData| same_field(a, b)
}

/// Each equality relates every value to itself.
pub proof fn lemma_same_reflexive()
    ensures
        reflexive(same_function_rel()),
        reflexive(same_event_rel()),
        reflexive(same_field_rel()),
{
    assert forall|a: ContractFieldData| #[trigger] same_field_rel()(a, a) by {
        match a.ast.kind.value {
            Some(v) => {},
            None => {},
        }
    }
}

fn span_eq(a: Span, b: Span) -> (r: bool)
    ensures
        r == (a == b),
{
    a.start == b.start && a.end == b.end
}

fn name_eq(a: &Node<String>, b: &Node<String>) -> (r: bool)
    ensures
        r == same_name(*a, *b),
{
    a.kind == b.kind && a.id.0 == b.id.0 && a.original_id.0 == b.original_id.0 && span_eq(a.span, b.span)
}

fn opt_span_eq(a: Option<Span>, b: Option<Span>) -> (r: bool)
    ensures
        r == (a == b),
{
    match (a, b) {
        (Some(x), Some(y)) => span_eq(x, y),
        (None, None) => true,
        _ => false,
    }
}

fn class_eq(a: Option<Class>, b: Option<Class>) -> (r: bool)
    ensures
        r == (a == b),
{
    match (a, b) {
        (Some(Class::Contract(x)), Some(Class::Contract(y))) => x.0 == y.0,
        (Some(Class::Struct(x)), Some(Class::Struct(y))) => x.0 == y.0,
        (None, None) => true,
        _ => false,
    }
}

/// Whether two interned functions are equal.
pub fn function_eq(a: &FunctionData, b: &FunctionData) -> (r: bool)
    ensures
        r == same_function(*a, *b),
{
    opt_span_eq(a.ast.kind.pub_, b.ast.kind.pub_) && name_eq(&a.ast.kind.name, &b.ast.kind.name)
        && a.ast.id.0 == b.ast.id.0 && a.ast.original_id.0 == b.ast.original_id.0 && span_eq(a.ast.span, b.ast.span)
        && a.module.0 == b.module.0 && class_eq(a.parent, b.parent)
}

/// Whether two interned events are equal.
pub fn event_eq(a: &EventData, b: &EventData) -> (r: bool)
    ensures
        r == same_event(*a, *b),
{
    name_eq(&a.ast.kind.name, &b.ast.kind.name) && a.ast.id.0 == b.ast.id.0
        && a.ast.original_id.0 == b.ast.original_id.0 && span_eq(a.ast.span, b.ast.span) && a.contract.0 == b.contract.0
}

/// Whether two interned fields are equal.
pub fn field_eq(a: &ContractFieldData, b: &ContractFieldData) -> (r: bool)
    ensures
        r == same_field(*a, *b),
{
    let x = &a.ast;
    let y = &b.ast;
    let value_eq = match (&x.kind.value, &y.kind.value) {
        (Some(v), Some(w)) => name_eq(v, w),
        (None, None) => true,
        _ => false,
    };
    x.kind.is_pub == y.kind.is_pub && x.kind.is_const == y.kind.is_const && name_eq(&x.kind.name, &y.kind.name)
        && x.kind.typ.kind.name == y.kind.typ.kind.name && x.kind.typ.id.0 == y.kind.typ.id.0
        && x.kind.typ.original_id.0 == y.kind.typ.original_id.0 && span_eq(x.kind.typ.span, y.kind.typ.span)
        && value_eq && x.id.0 == y.id.0 && x.original_id.0 == y.original_id.0 && span_eq(x.span, y.span)
        && a.parent.0 == b.parent.0
}

} // verus!
