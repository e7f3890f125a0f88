//! Queries on contracts: their functions, events and fields, the maps from
//! names to them with the diagnostics for clashing names, the `__init__` and
//! `__call__` functions, field types and dependency graphs.

use vstd::prelude::*;
use std::rc::Rc;
use indexmap::IndexMap;
use smol_str::SmolStr;
use crate::span::Span;
use crate::node::Node;
use crate::ast::{self, ContractStmt};
use crate::items::{ContractId, FunctionId, EventId, ContractFieldId, Class, Type, TypeError, Item, TypeDef, DepLocality};
use crate::db::{
    AnalyzerDb, Analysis, FunctionData, EventData, ContractFieldData, NamedItem, first_index, named_item_is,
    spec_type_desc, graph_of_is, lemma_first_index_some, is_first,
};
use crate::scope::ItemScope;
use crate::intern::{
    intern_seq, index_of, matching, reflexive, lemma_intern_one, lemma_prefix_first_index, lemma_same_reflexive,
    lemma_intern_seq, lemma_intern_seq_idempotent,
    same_function_rel, same_event_rel, same_field_rel, same_function, same_event, same_field,
};
use crate::depgraph::{DepGraph, DepGraphWrapper, DepEdge, edges_map};
use crate::diagnostics::{
    Diagnostic, DiagnosticView, Label, diags_view, labels_view, strings_view, spec_duplicate_name_error,
    LabelView, spec_not_yet_implemented, spec_name_conflict_error, error_view, primary, secondary, fancy_error, concat3,
};
use crate::name_maps::{
    has_key, key_index, keys_distinct, is_key_at, entries_get, map_vals, lemma_insert_new_key, lemma_map_vals_get,
    event_map_entries, new_event_map, event_map_get, event_map_insert,
    field_map_entries, new_field_map, field_map_get, field_map_insert, field_map_len, field_map_get_index,
    function_map_entries, new_function_map, function_map_get, function_map_insert, function_map_len,
    function_map_get_index,
};

verus! {

// ----- what a contract defines -----

/// The functions of a contract body, in order.
pub open spec fn body_functions(body: Seq<ContractStmt>) -> Seq<Node<ast::Function>>
    decreases body.len(),
{
    if body.len() == 0 {
        seq![]
    } else {
        let rest = body_functions(body.drop_last());
        match body.last() {
            ContractStmt::Function(n) => rest.push(n),
            ContractStmt::Event(_) => rest,
        }
    }
}

/// The events of a contract body, in order.
pub open spec fn body_events(body: Seq<ContractStmt>) -> Seq<Node<ast::Event>>
    decreases body.len(),
{
    if body.len() == 0 {
        seq![]
    } else {
        let rest = body_events(body.drop_last());
        match body.last() {
            ContractStmt::Event(n) => rest.push(n),
            ContractStmt::Function(_) => rest,
        }
    }
}

/// The functions that contract `c` defines, in order.
pub open spec fn contract_functions(db: AnalyzerDb, c: ContractId) -> Seq<Node<ast::Function>> {
    body_functions(db.contract(c).ast.kind.body@)
}

/// The events that contract `c` defines, in order.
pub open spec fn contract_events(db: AnalyzerDb, c: ContractId) -> Seq<Node<ast::Event>> {
    body_events(db.contract(c).ast.kind.body@)
}

/// The fields that contract `c` declares, in order.
pub open spec fn contract_fields(db: AnalyzerDb, c: ContractId) -> Seq<Node<ast::Field>> {
    db.contract(c).ast.kind.fields@
}

/// The name of contract `c`.
pub open spec fn contract_name(db: AnalyzerDb, c: ContractId) -> Seq<char> {
    db.contract(c).ast.kind.name.kind@
}

/// What interning function `f` of contract `c` stores.
pub open spec fn function_data(db: AnalyzerDb, c: ContractId, f: Node<ast::Function>) -> FunctionData {
    FunctionData { ast: f, module: db.contract(c).module, parent: Some(Class::Contract(c)) }
}

/// What interning event `e` of contract `c` stores.
pub open spec fn event_data(c: ContractId, e: Node<ast::Event>) -> EventData {
    EventData { ast: e, contract: c }
}

/// What interning field `f` of contract `c` stores.
pub open spec fn field_data(c: ContractId, f: Node<ast::Field>) -> ContractFieldData {
    ContractFieldData { ast: f, parent: c }
}

// ----- maps from names, with duplicates reported -----

/// Building a map from names to positions over `items` (each a name and the
/// span of its definition): the first item of each name gets into the map;
/// each later one gets a duplicate-name error with `message`, pointing at
/// the first one. Gives the map's entries and the diagnostics.
pub open spec fn dedup_fold(items: Seq<(Seq<char>, Span)>, message: Seq<char>) -> (Seq<(Seq<char>, int)>, Seq<DiagnosticView>)
    decreases items.len(),
{
    if items.len() == 0 {
        (seq![], seq![])
    } else {
        let prev = dedup_fold(items.drop_last(), message);
        let k = items.len() - 1;
        let name = items[k].0;
        if has_key(prev.0, name) {
            let first = prev.0[key_index(prev.0, name)].1;
            (prev.0, prev.1.push(spec_duplicate_name_error(message, name, items[first].1, items[k].1)))
        } else {
            (prev.0.push((name, k)), prev.1)
        }
    }
}

/// Each name of the map once; every position refers to an item of that
/// name.
pub proof fn lemma_dedup_fold(items: Seq<(Seq<char>, Span)>, message: Seq<char>)
    ensures
        keys_distinct(dedup_fold(items, message).0),
        forall|j: int| 0 <= j < dedup_fold(items, message).0.len() ==> {
            let e = #[trigger] dedup_fold(items, message).0[j];
            0 <= e.1 < items.len() && items[e.1].0 == e.0
        },
    decreases items.len(),
{
    if items.len() > 0 {
        let prev = dedup_fold(items.drop_last(), message);
        lemma_dedup_fold(items.drop_last(), message);
        let name = items[items.len() - 1].0;
        if !has_key(prev.0, name) {
            lemma_insert_new_key(prev.0, name, items.len() - 1);
        }
    }
}

/// The names and definition spans of events.
pub open spec fn event_names(events: Seq<Node<ast::Event>>) -> Seq<(Seq<char>, Span)> {
    events.map_values(|e: Node<ast::Event>| (e.kind.name.kind@, e.span))
}

/// The names and definition spans of fields.
pub open spec fn field_names(fields: Seq<Node<ast::Field>>) -> Seq<(Seq<char>, Span)> {
    fields.map_values(|f: Node<ast::Field>| (f.kind.name.kind@, f.span))
}

/// The event map of contract `c` and its diagnostics, by event position.
pub open spec fn spec_event_map(db: AnalyzerDb, c: ContractId) -> (Seq<(Seq<char>, int)>, Seq<DiagnosticView>) {
    dedup_fold(
        event_names(contract_events(db, c)),
        "duplicate event names in `contract "@ + contract_name(db, c) + "`"@,
    )
}

/// The field map of contract `c` and its diagnostics, by field position.
pub open spec fn spec_field_map(db: AnalyzerDb, c: ContractId) -> (Seq<(Seq<char>, int)>, Seq<DiagnosticView>) {
    dedup_fold(
        field_names(contract_fields(db, c)),
        "duplicate field names in `contract "@ + contract_name(db, c) + "`"@,
    )
}

/// The functions of the statements `body` of contract `c`, as interning
/// stores them.
pub open spec fn stmt_function_datas(db: AnalyzerDb, c: ContractId, body: Seq<ContractStmt>) -> Seq<FunctionData> {
    body_functions(body).map_values(|f: Node<ast::Function>| function_data(db, c, f))
}

/// The events of the statements `body` of contract `c`, as interning
/// stores them.
pub open spec fn stmt_event_datas(c: ContractId, body: Seq<ContractStmt>) -> Seq<EventData> {
    body_events(body).map_values(|e: Node<ast::Event>| event_data(c, e))
}

/// The fields `fields` of contract `c`, as interning stores them.
pub open spec fn field_data_seq(c: ContractId, fields: Seq<Node<ast::Field>>) -> Seq<ContractFieldData> {
    fields.map_values(|f: Node<ast::Field>| field_data(c, f))
}

/// The functions that contract `c` defines, as interning stores them.
pub open spec fn function_datas(db: AnalyzerDb, c: ContractId) -> Seq<FunctionData> {
    stmt_function_datas(db, c, db.contract(c).ast.kind.body@)
}

/// The events that contract `c` defines, as interning stores them.
pub open spec fn event_datas(db: AnalyzerDb, c: ContractId) -> Seq<EventData> {
    stmt_event_datas(c, db.contract(c).ast.kind.body@)
}

/// The fields that contract `c` declares, as interning stores them.
pub open spec fn field_datas(db: AnalyzerDb, c: ContractId) -> Seq<ContractFieldData> {
    field_data_seq(c, contract_fields(db, c))
}

/// The id of the function at position `k` of `ds` in the function table `t`.
pub open spec fn function_ids(t: Seq<FunctionData>, ds: Seq<FunctionData>) -> spec_fn(int) -> FunctionId {
    |k: int| FunctionId(index_of(t, ds[k], same_function_rel()) as usize)
}

/// The id of the event at position `k` of `ds` in the event table `t`.
pub open spec fn event_ids(t: Seq<EventData>, ds: Seq<EventData>) -> spec_fn(int) -> EventId {
    |k: int| EventId(index_of(t, ds[k], same_event_rel()) as usize)
}

/// The id of the field at position `k` of `ds` in the field table `t`.
pub open spec fn field_ids(t: Seq<ContractFieldData>, ds: Seq<ContractFieldData>) -> spec_fn(int) -> ContractFieldId {
    |k: int| ContractFieldId(index_of(t, ds[k], same_field_rel()) as usize)
}

// ----- the queries -----

/// Interns every function defined in the contract, in order, duplicates and
/// `__init__` included, and returns their ids: equal functions get the id
/// they already have.
pub fn contract_all_functions(db: &mut AnalyzerDb, contract: ContractId) -> (r: Rc<Vec<FunctionId>>)
    requires
        old(db).wf(),
        contract.0 < old(db).contracts.len(),
    ensures
        final(db).wf(),
        old(db).same_but_functions(*final(db)),
        final(db).functions@ == intern_seq(old(db).functions@, function_datas(*old(db), contract), same_function_rel()),
        r@.len() == contract_functions(*old(db), contract).len(),
        forall|k: int| 0 <= k < r@.len() ==> first_index(final(db).functions@,
            matching(same_function_rel(), #[trigger] function_datas(*old(db), contract)[k])) == Some(r@[k].0 as int),
        forall|k: int| 0 <= k < r@.len() ==> {
            let f = #[trigger] final(db).functions@[r@[k].0 as int];
            let def = body_functions(old(db).contracts@[contract.0 as int].ast.kind.body@)[k];
            &&& r@[k].0 < final(db).functions.len()
            &&& f.module == old(db).contracts@[contract.0 as int].module
            &&& f.parent == Some(Class::Contract(contract))
            &&& f.ast.kind.name.kind@ == def.kind.name.kind@
            &&& f.ast.kind.pub_ == def.kind.pub_
            &&& f.ast.span == def.span
        },
{
    let ghost db0 = *db;
    let ghost body = db.contract(contract).ast.kind.body@;
    let ghost rel = same_function_rel();
    let module = db.contracts[contract.0].module;
    let n = db.contracts[contract.0].ast.kind.body.len();
    let mut ids: Vec<FunctionId> = Vec::new();
    let mut i: usize = 0;
    proof {
        lemma_same_reflexive();
    }
    while i < n
        invariant
            0 <= i <= n,
            n == body.len(),
            db.wf(),
            db0.same_but_functions(*db),
            contract.0 < db.contracts.len(),
            body == db.contract(contract).ast.kind.body@,
            module == db.contract(contract).module,
            rel == same_function_rel(),
            reflexive(rel),
            db.functions@ == intern_seq(db0.functions@, stmt_function_datas(db0, contract, body.take(i as int)), rel),
            ids@.len() == body_functions(body.take(i as int)).len(),
            forall|j: int| 0 <= j < ids@.len() ==> first_index(db.functions@, matching(rel,
                #[trigger] stmt_function_datas(db0, contract, body.take(i as int))[j]))
                == Some(ids@[j].0 as int),
        decreases n - i,
    {
        let ghost ds = stmt_function_datas(db0, contract, body.take(i as int));
        let ghost ds2 = stmt_function_datas(db0, contract, body.take(i + 1));
        let ghost t0 = db.functions@;
        let ghost ids0 = ids@;
        assert(body.take(i + 1).drop_last() =~= body.take(i as int));
        assert(body.take(i + 1).last() == body[i as int]);
        let node = match &db.contracts[contract.0].ast.kind.body[i] {
            ContractStmt::Event(_) => None,
            ContractStmt::Function(node) => Some(node.duplicate()),
        };
        if let Some(node) = node {
            let data = FunctionData { ast: node, module, parent: Some(Class::Contract(contract)) };
            let id = db.intern_function(data);
            ids.push(id);
            proof {
                assert(ds2.drop_last() =~= ds);
                assert(ds2.last() == data);
                lemma_intern_one(t0, data, rel);
                assert forall|j: int| 0 <= j < ids@.len() implies first_index(db.functions@, matching(rel, #[trigger] ds2[j]))
                    == Some(ids@[j].0 as int) by {
                    if j < ids0.len() {
                        assert(ds2[j] == ds[j]);
                        lemma_prefix_first_index(t0, db.functions@, matching(rel, ds[j]));
                    }
                }
            }
        } else {
            assert(ds2 =~= ds);
        }
        i = i + 1;
    }
    assert(body.take(n as int) =~= body);
    proof {
        assert forall|k: int| 0 <= k < ids@.len() implies {
            let f = #[trigger] db.functions@[ids@[k].0 as int];
            let def = body_functions(db0.contracts@[contract.0 as int].ast.kind.body@)[k];
            &&& ids@[k].0 < db.functions.len()
            &&& f.module == db0.contracts@[contract.0 as int].module
            &&& f.parent == Some(Class::Contract(contract))
            &&& f.ast.kind.name.kind@ == def.kind.name.kind@
            &&& f.ast.kind.pub_ == def.kind.pub_
            &&& f.ast.span == def.span
        } by {
            let ds = stmt_function_datas(db0, contract, body);
            assert(ds[k] == function_data(db0, contract, body_functions(body)[k]));
            lemma_first_index_some(db.functions@, matching(rel, ds[k]));
        }
    }
    Rc::new(ids)
}

/// Interns every event defined in the contract, in order, duplicates
/// included, and returns their ids: equal events get the id they already
/// have.
pub fn contract_all_events(db: &mut AnalyzerDb, contract: ContractId) -> (r: Rc<Vec<EventId>>)
    requires
        old(db).wf(),
        contract.0 < old(db).contracts.len(),
    ensures
        final(db).wf(),
        old(db).same_but_events(*final(db)),
        final(db).events@ == intern_seq(old(db).events@, event_datas(*old(db), contract), same_event_rel()),
        r@.len() == contract_events(*old(db), contract).len(),
        forall|k: int| 0 <= k < r@.len() ==> first_index(final(db).events@,
            matching(same_event_rel(), #[trigger] event_datas(*old(db), contract)[k])) == Some(r@[k].0 as int),
        forall|k: int| 0 <= k < r@.len() ==> r@[k].0 < final(db).events.len(),
        forall|k: int| 0 <= k < r@.len() ==> (#[trigger] final(db).events@[r@[k].0 as int]).contract == contract,
        forall|k: int| 0 <= k < r@.len() ==> {
            let e = #[trigger] final(db).events@[r@[k].0 as int];
            let def = body_events(old(db).contracts@[contract.0 as int].ast.kind.body@)[k];
            &&& e.ast.kind.name.kind@ == def.kind.name.kind@
            &&& e.ast.kind.name.span == def.kind.name.span
            &&& e.ast.span == def.span
        },
{
    let ghost db0 = *db;
    let ghost body = db.contract(contract).ast.kind.body@;
    let ghost rel = same_event_rel();
    let n = db.contracts[contract.0].ast.kind.body.len();
    let mut ids: Vec<EventId> = Vec::new();
    let mut i: usize = 0;
    proof {
        lemma_same_reflexive();
    }
    while i < n
        invariant
            0 <= i <= n,
            n == body.len(),
            db.wf(),
            db0.same_but_events(*db),
            contract.0 < db.contracts.len(),
            body == db.contract(contract).ast.kind.body@,
            rel == same_event_rel(),
            reflexive(rel),
            db.events@ == intern_seq(db0.events@, stmt_event_datas(contract, body.take(i as int)), rel),
            ids@.len() == body_events(body.take(i as int)).len(),
            forall|j: int| 0 <= j < ids@.len() ==> first_index(db.events@, matching(rel,
                #[trigger] stmt_event_datas(contract, body.take(i as int))[j]))
                == Some(ids@[j].0 as int),
        decreases n - i,
    {
        let ghost ds = stmt_event_datas(contract, body.take(i as int));
        let ghost ds2 = stmt_event_datas(contract, body.take(i + 1));
        let ghost t0 = db.events@;
        let ghost ids0 = ids@;
        assert(body.take(i + 1).drop_last() =~= body.take(i as int));
        assert(body.take(i + 1).last() == body[i as int]);
        let node = match &db.contracts[contract.0].ast.kind.body[i] {
            ContractStmt::Function(_) => None,
            ContractStmt::Event(node) => Some(node.duplicate()),
        };
        if let Some(node) = node {
            let data = EventData { ast: node, contract };
            let id = db.intern_event(data);
            ids.push(id);
            proof {
                assert(ds2.drop_last() =~= ds);
                assert(ds2.last() == data);
                lemma_intern_one(t0, data, rel);
                assert forall|j: int| 0 <= j < ids@.len() implies first_index(db.events@, matching(rel, #[trigger] ds2[j]))
                    == Some(ids@[j].0 as int) by {
                    if j < ids0.len() {
                        assert(ds2[j] == ds[j]);
                        lemma_prefix_first_index(t0, db.events@, matching(rel, ds[j]));
                    }
                }
            }
        } else {
            assert(ds2 =~= ds);
        }
        i = i + 1;
    }
    assert(body.take(n as int) =~= body);
    let r = Rc::new(ids);
    proof {
        assert forall|k: int| 0 <= k < r@.len() implies {
            let e = #[trigger] db.events@[r@[k].0 as int];
            let def = body_events(db0.contracts@[contract.0 as int].ast.kind.body@)[k];
            &&& r@[k].0 < db.events.len()
            &&& e.contract == contract
            &&& e.ast.kind.name.kind@ == def.kind.name.kind@
            &&& e.ast.kind.name.span == def.kind.name.span
            &&& e.ast.span == def.span
        } by {
            let ds = stmt_event_datas(contract, body);
            assert(ds[k] == event_data(contract, body_events(body)[k]));
            lemma_first_index_some(db.events@, matching(rel, ds[k]));
        }
        assert forall|k: int| 0 <= k < r@.len() implies #[trigger] r@[k].0 < db.events.len() by {
            lemma_first_index_some(db.events@, matching(rel, stmt_event_datas(contract, body)[k]));
        }
    }
    r
}

/// Interns every field of the contract, in order, duplicates included, and
/// returns their ids: equal fields get the id they already have.
pub fn contract_all_fields(db: &mut AnalyzerDb, contract: ContractId) -> (r: Rc<Vec<ContractFieldId>>)
    requires
        old(db).wf(),
        contract.0 < old(db).contracts.len(),
    ensures
        final(db).wf(),
        old(db).same_but_fields(*final(db)),
        final(db).fields@ == intern_seq(old(db).fields@, field_datas(*old(db), contract), same_field_rel()),
        r@.len() == contract_fields(*old(db), contract).len(),
        forall|k: int| 0 <= k < r@.len() ==> first_index(final(db).fields@,
            matching(same_field_rel(), #[trigger] field_datas(*old(db), contract)[k])) == Some(r@[k].0 as int),
        forall|k: int| 0 <= k < r@.len() ==> {
            let f = #[trigger] final(db).fields@[r@[k].0 as int];
            let def = old(db).contracts@[contract.0 as int].ast.kind.fields@[k];
            &&& r@[k].0 < final(db).fields.len()
            &&& f.parent == contract
            &&& f.ast.kind.name.kind@ == def.kind.name.kind@
            &&& f.ast.kind.typ.kind.name@ == def.kind.typ.kind.name@
            &&& f.ast.span == def.span
        },
{
    let ghost db0 = *db;
    let ghost fields = contract_fields(*db, contract);
    let ghost rel = same_field_rel();
    let n = db.contracts[contract.0].ast.kind.fields.len();
    let mut ids: Vec<ContractFieldId> = Vec::new();
    let mut i: usize = 0;
    proof {
        lemma_same_reflexive();
    }
    while i < n
        invariant
            0 <= i <= n,
            n == fields.len(),
            db.wf(),
            db0.same_but_fields(*db),
            contract.0 < db.contracts.len(),
            fields == contract_fields(*db, contract),
            rel == same_field_rel(),
            reflexive(rel),
            db.fields@ == intern_seq(db0.fields@, field_data_seq(contract, fields.take(i as int)), rel),
            ids@.len() == i,
            forall|j: int| 0 <= j < ids@.len() ==> first_index(db.fields@, matching(rel,
                #[trigger] field_data_seq(contract, fields.take(i as int))[j]))
                == Some(ids@[j].0 as int),
        decreases n - i,
    {
        let ghost ds = field_data_seq(contract, fields.take(i as int));
        let ghost ds2 = field_data_seq(contract, fields.take(i + 1));
        let ghost t0 = db.fields@;
        let ghost ids0 = ids@;
        let node = db.contracts[contract.0].ast.kind.fields[i].duplicate();
        let data = ContractFieldData { ast: node, parent: contract };
        let id = db.intern_contract_field(data);
        ids.push(id);
        proof {
            assert(ds2.drop_last() =~= ds);
            assert(ds2.last() == data);
            lemma_intern_one(t0, data, rel);
            assert forall|j: int| 0 <= j < ids@.len() implies first_index(db.fields@, matching(rel, #[trigger] ds2[j]))
                == Some(ids@[j].0 as int) by {
                if j < ids0.len() {
                    assert(ds2[j] == ds[j]);
                    lemma_prefix_first_index(t0, db.fields@, matching(rel, ds[j]));
                }
            }
        }
        i = i + 1;
    }
    assert(fields.take(n as int) =~= fields);
    proof {
        assert forall|k: int| 0 <= k < ids@.len() implies {
            let f = #[trigger] db.fields@[ids@[k].0 as int];
            let def = db0.contracts@[contract.0 as int].ast.kind.fields@[k];
            &&& ids@[k].0 < db.fields.len()
            &&& f.parent == contract
            &&& f.ast.kind.name.kind@ == def.kind.name.kind@
            &&& f.ast.kind.typ.kind.name@ == def.kind.typ.kind.name@
            &&& f.ast.span == def.span
        } by {
            let ds = field_data_seq(contract, fields);
            assert(ds[k] == field_data(contract, fields[k]));
            lemma_first_index_some(db.fields@, matching(rel, ds[k]));
        }
    }
    Rc::new(ids)
}

/// Proves one step of building a map from names: the item at position `i`
/// is looked up in the map built so far and either reported or inserted.
proof fn lemma_dedup_step<V>(items: Seq<(Seq<char>, Span)>, message: Seq<char>, i: int, ids: spec_fn(int) -> V)
    requires
        0 <= i < items.len(),
    ensures
        items.take(i + 1).drop_last() == items.take(i),
        keys_distinct(dedup_fold(items.take(i), message).0),
        ({
            let prev = dedup_fold(items.take(i), message);
            let next = dedup_fold(items.take(i + 1), message);
            let name = items[i].0;
            &&& entries_get(map_vals(prev.0, ids), name) == match entries_get(prev.0, name) {
                Some(k) => Some(ids(k)),
                None => None,
            }
            &&& has_key(prev.0, name) ==> {
                let k = entries_get(prev.0, name)->0;
                &&& 0 <= k < i
                &&& items[k].0 == name
                &&& next.0 == prev.0
                &&& next.1 == prev.1.push(spec_duplicate_name_error(message, name, items[k].1, items[i].1))
            }
            &&& !has_key(prev.0, name) ==> {
                &&& next.0 == prev.0.push((name, i))
                &&& next.1 == prev.1
                &&& map_vals(next.0, ids) == map_vals(prev.0, ids).push((name, ids(i)))
                &&& !has_key(map_vals(prev.0, ids), name)
            }
        }),
{
    assert(items.take(i + 1).drop_last() =~= items.take(i));
    let prev = dedup_fold(items.take(i), message);
    let name = items[i].0;
    lemma_dedup_fold(items.take(i), message);
    lemma_map_vals_get(prev.0, ids, name);
    assert(items.take(i + 1)[i] == items[i]);
    if has_key(prev.0, name) {
        let k = key_index(prev.0, name);
        assert(is_key_at(prev.0, name, k));
        let e = prev.0[k];
        assert(0 <= e.1 < i);
        assert(items.take(i + 1)[e.1] == items[e.1]);
        assert(items.take(i)[e.1] == items[e.1]);
    } else {
        assert(map_vals(prev.0.push((name, i)), ids) =~= map_vals(prev.0, ids).push((name, ids(i))));
    }
}

/// Interns the contract's events and maps each event name to the first
/// event of that name; every later event of a name already mapped gets a
/// duplicate-name error.
pub fn contract_event_map(db: &mut AnalyzerDb, contract: ContractId) -> (r: Analysis<Rc<IndexMap<SmolStr, EventId>>>)
    requires
        old(db).wf(),
        contract.0 < old(db).contracts.len(),
    ensures
        final(db).wf(),
        old(db).same_but_events(*final(db)),
        final(db).events@ == intern_seq(old(db).events@, event_datas(*old(db), contract), same_event_rel()),
        event_map_entries(*r.value) == map_vals(spec_event_map(*old(db), contract).0,
            event_ids(final(db).events@, event_datas(*old(db), contract))),
        diags_view(r.diagnostics@) == spec_event_map(*old(db), contract).1,
{
    let ghost db0 = *db;
    let ghost events = contract_events(db0, contract);
    let ghost eds = event_datas(db0, contract);
    let ghost items = event_names(events);
    let ghost rel = same_event_rel();
    let mut scope = ItemScope::new(db.contracts[contract.0].module);
    let mut map = new_event_map();
    let message = concat3("duplicate event names in `contract ", db.contracts[contract.0].ast.kind.name.kind.as_str(), "`");
    let all = contract_all_events(db, contract);
    let all: &Vec<EventId> = &*all;
    let ghost t = db.events@;
    let n = all.len();
    assert(diags_view(scope.diagnostics@) =~= seq![]);
    let mut i: usize = 0;
    while i < n
        invariant
            0 <= i <= n,
            n == all@.len(),
            n == items.len(),
            n == eds.len(),
            items == event_names(events),
            events == contract_events(db0, contract),
            eds == event_datas(db0, contract),
            rel == same_event_rel(),
            db.events@ == t,
            forall|k: int| 0 <= k < n ==> first_index(t, matching(rel, #[trigger] eds[k])) == Some(all@[k].0 as int),
            message@ == "duplicate event names in `contract "@ + contract_name(db0, contract) + "`"@,
            event_map_entries(map) == map_vals(dedup_fold(items.take(i as int), message@).0, event_ids(t, eds)),
            diags_view(scope.diagnostics@) == dedup_fold(items.take(i as int), message@).1,
        decreases n - i,
    {
        proof {
            lemma_dedup_step(items, message@, i as int, event_ids(t, eds));
            lemma_first_index_some(t, matching(rel, eds[i as int]));
        }
        let event = all[i];
        assert(event == event_ids(t, eds)(i as int));
        assert(items[i as int] == (events[i as int].kind.name.kind@, events[i as int].span));
        assert(eds == events.map_values(|e: Node<ast::Event>| event_data(contract, e)));
        assert(eds[i as int].ast == events[i as int]);
        let node = &db.events[event.0].ast;
        assert(same_event(t[event.0 as int], eds[i as int]));
        match event_map_get(&map, node.kind.name.kind.as_str()) {
            Some(existing) => {
                proof {
                    let k = entries_get(dedup_fold(items.take(i as int), message@).0, items[i as int].0)->0;
                    assert(0 <= k < i);
                    assert(eds[k].ast == events[k]);
                    assert(items[k] == (events[k].kind.name.kind@, events[k].span));
                    lemma_first_index_some(t, matching(rel, eds[k]));
                    assert(existing == event_ids(t, eds)(k));
                    assert(same_event(t[existing.0 as int], eds[k]));
                }
                scope.duplicate_name_error(message.as_str(), node.kind.name.kind.as_str(), db.events[existing.0].ast.span, node.span);
            },
            None => {
                event_map_insert(&mut map, node.kind.name.kind.as_str(), event);
            },
        }
        i = i + 1;
    }
    assert(items.take(n as int) =~= items);
    Analysis { value: Rc::new(map), diagnostics: Rc::new(scope.diagnostics) }
}

/// Interns the contract's fields and maps each field name to the first
/// field of that name; every later field of a name already mapped gets a
/// duplicate-name error.
pub fn contract_field_map(db: &mut AnalyzerDb, contract: ContractId) -> (r: Analysis<Rc<IndexMap<SmolStr, ContractFieldId>>>)
    requires
        old(db).wf(),
        contract.0 < old(db).contracts.len(),
    ensures
        final(db).wf(),
        old(db).same_but_fields(*final(db)),
        final(db).fields@ == intern_seq(old(db).fields@, field_datas(*old(db), contract), same_field_rel()),
        field_map_entries(*r.value) == map_vals(spec_field_map(*old(db), contract).0,
            field_ids(final(db).fields@, field_datas(*old(db), contract))),
        diags_view(r.diagnostics@) == spec_field_map(*old(db), contract).1,
{
    let ghost db0 = *db;
    let ghost fields = contract_fields(db0, contract);
    let ghost eds = field_datas(db0, contract);
    let ghost items = field_names(fields);
    let ghost rel = same_field_rel();
    let mut scope = ItemScope::new(db.contracts[contract.0].module);
    let mut map = new_field_map();
    let message = concat3("duplicate field names in `contract ", db.contracts[contract.0].ast.kind.name.kind.as_str(), "`");
    let all = contract_all_fields(db, contract);
    let all: &Vec<ContractFieldId> = &*all;
    let ghost t = db.fields@;
    let n = all.len();
    assert(diags_view(scope.diagnostics@) =~= seq![]);
    let mut i: usize = 0;
    while i < n
        invariant
            0 <= i <= n,
            n == all@.len(),
            n == items.len(),
            n == eds.len(),
            items == field_names(fields),
            fields == contract_fields(db0, contract),
            eds == field_datas(db0, contract),
            rel == same_field_rel(),
            db.fields@ == t,
            forall|k: int| 0 <= k < n ==> first_index(t, matching(rel, #[trigger] eds[k])) == Some(all@[k].0 as int),
            message@ == "duplicate field names in `contract "@ + contract_name(db0, contract) + "`"@,
            field_map_entries(map) == map_vals(dedup_fold(items.take(i as int), message@).0, field_ids(t, eds)),
            diags_view(scope.diagnostics@) == dedup_fold(items.take(i as int), message@).1,
        decreases n - i,
    {
        proof {
            lemma_dedup_step(items, message@, i as int, field_ids(t, eds));
            lemma_first_index_some(t, matching(rel, eds[i as int]));
        }
        let field = all[i];
        assert(field == field_ids(t, eds)(i as int));
        assert(items[i as int] == (fields[i as int].kind.name.kind@, fields[i as int].span));
        assert(eds == fields.map_values(|f: Node<ast::Field>| field_data(contract, f)));
        assert(eds[i as int].ast == fields[i as int]);
        let node = &db.fields[field.0].ast;
        assert(same_field(t[field.0 as int], eds[i as int]));
        match field_map_get(&map, node.kind.name.kind.as_str()) {
            Some(existing) => {
                proof {
                    let k = entries_get(dedup_fold(items.take(i as int), message@).0, items[i as int].0)->0;
                    assert(0 <= k < i);
                    assert(eds[k].ast == fields[k]);
                    assert(items[k] == (fields[k].kind.name.kind@, fields[k].span));
                    lemma_first_index_some(t, matching(rel, eds[k]));
                    assert(existing == field_ids(t, eds)(k));
                    assert(same_field(t[existing.0 as int], eds[k]));
                }
                scope.duplicate_name_error(message.as_str(), node.kind.name.kind.as_str(), db.fields[existing.0].ast.span, node.span);
            },
            None => {
                field_map_insert(&mut map, node.kind.name.kind.as_str(), field);
            },
        }
        i = i + 1;
    }
    assert(items.take(n as int) =~= items);
    Analysis { value: Rc::new(map), diagnostics: Rc::new(scope.diagnostics) }
}

/// The event of the contract named `name`: the first event of that name,
/// through the contract's event map.
pub fn contract_event(db: &mut AnalyzerDb, contract: ContractId, name: &str) -> (r: Option<EventId>)
    requires
        old(db).wf(),
        contract.0 < old(db).contracts.len(),
    ensures
        final(db).wf(),
        old(db).same_but_events(*final(db)),
        final(db).events@ == intern_seq(old(db).events@, event_datas(*old(db), contract), same_event_rel()),
        r == entries_get(map_vals(spec_event_map(*old(db), contract).0,
            event_ids(final(db).events@, event_datas(*old(db), contract))), name@),
{
    let events = contract_event_map(db, contract);
    event_map_get(&*events.value, name)
}

/// `s` is the text `text`.
fn is_named(s: &String, text: &str) -> (r: bool)
    ensures
        r == (s@ == text@),
{
    *s == String::from_str(text)
}

/// The number of functions of `fns` other than `__init__` and `__call__`.
pub open spec fn ordinary_count(fns: Seq<Node<ast::Function>>) -> nat
    decreases fns.len(),
{
    if fns.len() == 0 {
        0
    } else {
        let prev = ordinary_count(fns.drop_last());
        let name = fns.last().kind.name.kind@;
        if name == "__init__"@ || name == "__call__"@ {
            prev
        } else {
            prev + 1
        }
    }
}

/// Building the function map over the contract's functions `fns`: the
/// special functions `__init__` and `__call__` stay out; a function named
/// like an event of the contract (whose event map by position is
/// `event_map`) or like a name of its module gets a name-conflict error; a
/// function named like one already mapped gets a duplicate-name error
/// naming the contract `cname`; any other goes into the map. Gives the map's
/// entries by function position, and the diagnostics.
pub open spec fn function_map_fold(
    fns: Seq<Node<ast::Function>>,
    cname: Seq<char>,
    event_map: Seq<(Seq<char>, int)>,
    events: Seq<Node<ast::Event>>,
    names: Seq<NamedItem>,
) -> (Seq<(Seq<char>, int)>, Seq<DiagnosticView>)
    decreases fns.len(),
{
    if fns.len() == 0 {
        (seq![], seq![])
    } else {
        let prev = function_map_fold(fns.drop_last(), cname, event_map, events, names);
        let k = fns.len() - 1;
        let f = fns[k];
        let name = f.kind.name.kind@;
        if name == "__init__"@ || name == "__call__"@ {
            prev
        } else if has_key(event_map, name) {
            let e = entries_get(event_map, name)->0;
            (prev.0, prev.1.push(spec_name_conflict_error("function"@, name, "event"@, Some(events[e].kind.name.span), f.kind.name.span)))
        } else if first_index(names, named_item_is(name)) is Some {
            let j = first_index(names, named_item_is(name))->0;
            (prev.0, prev.1.push(spec_name_conflict_error("function"@, name, names[j].kind_name@, names[j].span, f.kind.name.span)))
        } else if has_key(prev.0, name) {
            let first = prev.0[key_index(prev.0, name)].1;
            (prev.0, prev.1.push(spec_duplicate_name_error(
                "duplicate function names in `contract "@ + cname + "`"@, name, fns[first].span, f.span)))
        } else {
            (prev.0.push((name, k)), prev.1)
        }
    }
}

/// The function map of contract `c` and its diagnostics, by function
/// position.
pub open spec fn spec_function_map(db: AnalyzerDb, c: ContractId) -> (Seq<(Seq<char>, int)>, Seq<DiagnosticView>) {
    function_map_fold(
        contract_functions(db, c),
        contract_name(db, c),
        spec_event_map(db, c).0,
        contract_events(db, c),
        db.contract_module(c).names@,
    )
}

/// Each name of the function map once; every position refers to a function
/// of that name.
pub proof fn lemma_function_map_fold(
    fns: Seq<Node<ast::Function>>,
    cname: Seq<char>,
    event_map: Seq<(Seq<char>, int)>,
    events: Seq<Node<ast::Event>>,
    names: Seq<NamedItem>,
)
    ensures
        keys_distinct(function_map_fold(fns, cname, event_map, events, names).0),
        forall|j: int| 0 <= j < function_map_fold(fns, cname, event_map, events, names).0.len() ==> {
            let e = #[trigger] function_map_fold(fns, cname, event_map, events, names).0[j];
            0 <= e.1 < fns.len() && fns[e.1].kind.name.kind@ == e.0
        },
    decreases fns.len(),
{
    if fns.len() > 0 {
        let prev = function_map_fold(fns.drop_last(), cname, event_map, events, names);
        lemma_function_map_fold(fns.drop_last(), cname, event_map, events, names);
        let name = fns[fns.len() - 1].kind.name.kind@;
        if !has_key(prev.0, name) {
            lemma_insert_new_key(prev.0, name, fns.len() - 1);
        }
    }
}

/// The event table after the function map of contract `c` was built: the
/// contract's events are interned when some function is checked against
/// them.
pub open spec fn events_after_function_map(db: AnalyzerDb, c: ContractId) -> Seq<EventData> {
    if ordinary_count(contract_functions(db, c)) > 0 {
        intern_seq(db.events@, event_datas(db, c), same_event_rel())
    } else {
        db.events@
    }
}

/// Maps each function name of the contract to its function, leaving out
/// `__init__` and `__call__`. A function whose name is taken by an event of
/// the contract or by a name of its module gets a name-conflict error, and
/// one whose name is already mapped a duplicate-name error; neither goes
/// into the map.
pub fn contract_function_map(db: &mut AnalyzerDb, contract: ContractId) -> (r: Analysis<Rc<IndexMap<SmolStr, FunctionId>>>)
    requires
        old(db).wf(),
        contract.0 < old(db).contracts.len(),
    ensures
        final(db).wf(),
        old(db).extended_by(*final(db)),
        final(db).functions@ == intern_seq(old(db).functions@, function_datas(*old(db), contract), same_function_rel()),
        final(db).fields@ == old(db).fields@,
        final(db).events@ == events_after_function_map(*old(db), contract),
        function_map_entries(*r.value) == map_vals(spec_function_map(*old(db), contract).0,
            function_ids(final(db).functions@, function_datas(*old(db), contract))),
        diags_view(r.diagnostics@) == spec_function_map(*old(db), contract).1,
{
    let ghost db0 = *db;
    let ghost fns = contract_functions(db0, contract);
    let ghost fds = function_datas(db0, contract);
    let ghost eds = event_datas(db0, contract);
    let ghost rel = same_function_rel();
    let ghost erel = same_event_rel();
    let ghost event_map = spec_event_map(db0, contract).0;
    let ghost events = contract_events(db0, contract);
    let module = db.contracts[contract.0].module;
    let ghost names = db0.modules@[module.0 as int].names@;
    let ghost cname = contract_name(db0, contract);
    let mut scope = ItemScope::new(module);
    let mut map = new_function_map();
    let message = concat3("duplicate function names in `contract ", db.contracts[contract.0].ast.kind.name.kind.as_str(), "`");
    let all = contract_all_functions(db, contract);
    let all: &Vec<FunctionId> = &*all;
    let ghost t = db.functions@;
    let n = all.len();
    assert(diags_view(scope.diagnostics@) =~= seq![]);
    proof {
        lemma_dedup_fold(event_names(events), "duplicate event names in `contract "@ + cname + "`"@);
        lemma_same_reflexive();
    }
    let mut i: usize = 0;
    while i < n
        invariant
            0 <= i <= n,
            n == all@.len(),
            n == fns.len(),
            n == fds.len(),
            db.wf(),
            contract.0 < db.contracts.len(),
            db.modules@ == db0.modules@,
            db.contracts@ == db0.contracts@,
            db.item_graphs@ == db0.item_graphs@,
            db.functions@ == t,
            db.fields@ == db0.fields@,
            db.events@ == if ordinary_count(fns.take(i as int)) > 0 { intern_seq(db0.events@, eds, erel) } else { db0.events@ },
            t == intern_seq(db0.functions@, fds, rel),
            rel == same_function_rel(),
            erel == same_event_rel(),
            reflexive(erel),
            forall|k: int| 0 <= k < n ==> first_index(t, matching(rel, #[trigger] fds[k])) == Some(all@[k].0 as int),
            fds == function_datas(db0, contract),
            eds == event_datas(db0, contract),
            module == db0.contract(contract).module,
            module.0 < db0.modules.len(),
            scope.module == module,
            names == db0.modules@[module.0 as int].names@,
            fns == contract_functions(db0, contract),
            events == contract_events(db0, contract),
            event_map == spec_event_map(db0, contract).0,
            keys_distinct(event_map),
            forall|j: int| 0 <= j < event_map.len() ==> {
                let e = #[trigger] event_map[j];
                0 <= e.1 < events.len()
            },
            cname == contract_name(db0, contract),
            message@ == "duplicate function names in `contract "@ + cname + "`"@,
            function_map_entries(map) == map_vals(
                function_map_fold(fns.take(i as int), cname, event_map, events, names).0, function_ids(t, fds)),
            diags_view(scope.diagnostics@) == function_map_fold(fns.take(i as int), cname, event_map, events, names).1,
        decreases n - i,
    {
        let ghost prev = function_map_fold(fns.take(i as int), cname, event_map, events, names);
        let ghost next = function_map_fold(fns.take(i + 1), cname, event_map, events, names);
        proof {
            assert(fns.take(i + 1).drop_last() =~= fns.take(i as int));
            assert(fns.take(i + 1)[i as int] == fns[i as int]);
            lemma_function_map_fold(fns.take(i as int), cname, event_map, events, names);
            lemma_first_index_some(t, matching(rel, fds[i as int]));
        }
        let func = all[i];
        assert(func == function_ids(t, fds)(i as int));
        assert(same_function(t[func.0 as int], fds[i as int]));
        let def_name = db.functions[func.0].ast.kind.name.kind.clone();
        let def_span = db.functions[func.0].ast.span;
        let name_span = db.functions[func.0].ast.kind.name.span;
        if is_named(&def_name, "__init__") || is_named(&def_name, "__call__") {
            assert(next == prev);
            assert(ordinary_count(fns.take(i + 1)) == ordinary_count(fns.take(i as int)));
            i = i + 1;
            continue;
        }
        let ghost db2 = *db;
        let event = contract_event(db, contract, def_name.as_str());
        let ghost te = db.events@;
        proof {
            assert(db2.contract(contract) == db0.contract(contract));
            assert(ordinary_count(fns.take(i + 1)) == ordinary_count(fns.take(i as int)) + 1);
            lemma_intern_seq_idempotent(db0.events@, eds, erel);
            lemma_intern_seq(db2.events@, eds, erel);
            lemma_map_vals_get(event_map, event_ids(te, eds), def_name@);
        }
        if let Some(event) = event {
            let ghost k = entries_get(event_map, def_name@)->0;
            proof {
                let ki = key_index(event_map, def_name@);
                assert(is_key_at(event_map, def_name@, ki));
                assert(event_map[ki].1 == k);
                lemma_first_index_some(te, matching(erel, eds[k]));
                assert(eds.len() == events.len());
                assert(0 <= k < events.len());
                let x = first_index(te, matching(erel, eds[k]))->0;
                assert(is_first(te, matching(erel, eds[k]), x));
                assert(event == event_ids(te, eds)(k));
                assert(te.len() == db.events.len());
                assert(event.0 == x);
                assert(same_event(te[event.0 as int], eds[k]));
            }
            scope.name_conflict_error("function", def_name.as_str(), "event", Some(db.events[event.0].ast.kind.name.span), name_span);
            i = i + 1;
            continue;
        }
        if let Some(j) = scope.resolve_name(db, &def_name) {
            let item = &db.modules[module.0].names[j];
            scope.name_conflict_error("function", def_name.as_str(), item.kind_name.as_str(), item.span, name_span);
            i = i + 1;
            continue;
        }
        proof {
            lemma_map_vals_get(prev.0, function_ids(t, fds), def_name@);
        }
        match function_map_get(&map, def_name.as_str()) {
            Some(existing) => {
                proof {
                    let ki = key_index(prev.0, def_name@);
                    assert(is_key_at(prev.0, def_name@, ki));
                    let k = prev.0[ki].1;
                    assert(0 <= k < i);
                    assert(fns.take(i + 1)[k] == fns[k]);
                    lemma_first_index_some(t, matching(rel, fds[k]));
                    assert(existing == function_ids(t, fds)(k));
                    assert(same_function(t[existing.0 as int], fds[k]));
                }
                scope.duplicate_name_error(message.as_str(), def_name.as_str(), db.functions[existing.0].ast.span, def_span);
            },
            None => {
                function_map_insert(&mut map, def_name.as_str(), func);
                assert(map_vals(prev.0.push((def_name@, i as int)), function_ids(t, fds))
                    =~= map_vals(prev.0, function_ids(t, fds)).push((def_name@, func)));
            },
        }
        i = i + 1;
    }
    assert(fns.take(n as int) =~= fns);
    proof {
        lemma_intern_seq(db0.functions@, fds, rel);
        lemma_intern_seq(db0.events@, eds, erel);
    }
    Analysis { value: Rc::new(map), diagnostics: Rc::new(scope.diagnostics) }
}

/// The entries (by function position) of those functions of `fns` that
/// are public, in order.
pub open spec fn public_entries(entries: Seq<(Seq<char>, int)>, fns: Seq<Node<ast::Function>>) -> Seq<(Seq<char>, int)>
    decreases entries.len(),
{
    if entries.len() == 0 {
        seq![]
    } else {
        let prev = public_entries(entries.drop_last(), fns);
        let e = entries.last();
        if fns[e.1].kind.pub_ is Some {
            prev.push(e)
        } else {
            prev
        }
    }
}

/// The public function map of contract `c`, by function position.
pub open spec fn spec_public_function_map(db: AnalyzerDb, c: ContractId) -> Seq<(Seq<char>, int)> {
    public_entries(spec_function_map(db, c).0, contract_functions(db, c))
}

/// Every entry kept is an entry of the whole list.
proof fn lemma_public_entries_from(entries: Seq<(Seq<char>, int)>, fns: Seq<Node<ast::Function>>)
    ensures
        forall|j: int| 0 <= j < public_entries(entries, fns).len() ==>
            exists|i: int| 0 <= i < entries.len() && entries[i] == #[trigger] public_entries(entries, fns)[j],
    decreases entries.len(),
{
    if entries.len() > 0 {
        lemma_public_entries_from(entries.drop_last(), fns);
        let prev = public_entries(entries.drop_last(), fns);
        assert forall|j: int| 0 <= j < public_entries(entries, fns).len() implies
            exists|i: int| 0 <= i < entries.len() && entries[i] == #[trigger] public_entries(entries, fns)[j] by {
            if j < prev.len() {
                let i = choose|i: int| 0 <= i < entries.drop_last().len() && entries.drop_last()[i] == prev[j];
                assert(entries[i] == public_entries(entries, fns)[j]);
            } else {
                assert(entries[entries.len() - 1] == public_entries(entries, fns)[j]);
            }
        }
    }
}

/// The public functions of the contract, by name: the entries of its
/// function map whose function is marked `pub`, in the same order.
pub fn contract_public_function_map(db: &mut AnalyzerDb, contract: ContractId) -> (r: Rc<IndexMap<SmolStr, FunctionId>>)
    requires
        old(db).wf(),
        contract.0 < old(db).contracts.len(),
    ensures
        final(db).wf(),
        old(db).extended_by(*final(db)),
        final(db).functions@ == intern_seq(old(db).functions@, function_datas(*old(db), contract), same_function_rel()),
        final(db).fields@ == old(db).fields@,
        final(db).events@ == events_after_function_map(*old(db), contract),
        function_map_entries(*r) == map_vals(spec_public_function_map(*old(db), contract),
            function_ids(final(db).functions@, function_datas(*old(db), contract))),
{
    let ghost db0 = *db;
    let ghost fns = contract_functions(db0, contract);
    let ghost fds = function_datas(db0, contract);
    let ghost rel = same_function_rel();
    let ghost all_entries = spec_function_map(db0, contract).0;
    let functions = contract_function_map(db, contract).value;
    let functions: &IndexMap<SmolStr, FunctionId> = &*functions;
    let ghost t = db.functions@;
    proof {
        lemma_same_reflexive();
        lemma_intern_seq(db0.functions@, fds, rel);
        lemma_function_map_fold(fns, contract_name(db0, contract), spec_event_map(db0, contract).0,
            contract_events(db0, contract), db0.contract_module(contract).names@);
    }
    let mut map = new_function_map();
    let n = function_map_len(functions);
    let mut i: usize = 0;
    while i < n
        invariant
            0 <= i <= n,
            n == all_entries.len(),
            function_map_entries(*functions) == map_vals(all_entries, function_ids(t, fds)),
            keys_distinct(all_entries),
            forall|j: int| 0 <= j < all_entries.len() ==> {
                let e = #[trigger] all_entries[j];
                0 <= e.1 < fns.len()
            },
            db.functions@ == t,
            t == intern_seq(db0.functions@, fds, rel),
            rel == same_function_rel(),
            fds == function_datas(db0, contract),
            fds.len() == fns.len(),
            fns == contract_functions(db0, contract),
            forall|j: int| 0 <= j < fns.len() ==> (#[trigger] fds[j]).ast == fns[j],
            forall|k: int| 0 <= k < fds.len() ==> first_index(t, matching(rel, #[trigger] fds[k])) is Some,
            function_map_entries(map) == map_vals(public_entries(all_entries.take(i as int), fns), function_ids(t, fds)),
        decreases n - i,
    {
        let entry = function_map_get_index(functions, i);
        let ghost prev = public_entries(all_entries.take(i as int), fns);
        proof {
            assert(all_entries.take(i + 1).drop_last() =~= all_entries.take(i as int));
            lemma_public_entries_from(all_entries.take(i as int), fns);
        }
        if let Some((name, func)) = entry {
            let ghost k = all_entries[i as int].1;
            assert(all_entries.take(i + 1).last() == all_entries[i as int]);
            assert(map_vals(all_entries, function_ids(t, fds))[i as int] == (all_entries[i as int].0, function_ids(t, fds)(k)));
            assert(name@ == all_entries[i as int].0);
            assert(0 <= k < fns.len());
            proof {
                lemma_first_index_some(t, matching(rel, fds[k]));
            }
            let ghost x = first_index(t, matching(rel, fds[k]))->0;
            assert(is_first(t, matching(rel, fds[k]), x));
            assert(func == function_ids(t, fds)(k));
            assert(t.len() == db.functions.len());
            assert(func.0 == x);
            assert(same_function(t[func.0 as int], fds[k]));
            if db.functions[func.0].ast.kind.pub_.is_some() {
                proof {
                    if has_key(map_vals(prev, function_ids(t, fds)), name@) {
                        let j = key_index(map_vals(prev, function_ids(t, fds)), name@);
                        assert(is_key_at(map_vals(prev, function_ids(t, fds)), name@, j));
                        assert(prev[j].0 == name@);
                        let m = choose|m: int| 0 <= m < all_entries.take(i as int).len() && all_entries.take(i as int)[m] == prev[j];
                        assert(all_entries[m].0 == all_entries[i as int].0);
                    }
                }
                function_map_insert(&mut map, name.as_str(), func);
                assert(map_vals(prev.push(all_entries[i as int]), function_ids(t, fds))
                    =~= map_vals(prev, function_ids(t, fds)).push((name@, func)));
            }
        }
        i = i + 1;
    }
    assert(all_entries.take(n as int) =~= all_entries);
    Rc::new(map)
}

/// The positions of the functions of `fns` named `name`, in order.
pub open spec fn named_positions(fns: Seq<Node<ast::Function>>, name: Seq<char>) -> Seq<int>
    decreases fns.len(),
{
    if fns.len() == 0 {
        seq![]
    } else {
        let prev = named_positions(fns.drop_last(), name);
        if fns.last().kind.name.kind@ == name {
            prev.push(fns.len() - 1)
        } else {
            prev
        }
    }
}

/// The positions listed are those of functions of `fns`.
proof fn lemma_named_positions(fns: Seq<Node<ast::Function>>, name: Seq<char>)
    ensures
        forall|j: int| 0 <= j < named_positions(fns, name).len() ==> {
            let p = #[trigger] named_positions(fns, name)[j];
            0 <= p < fns.len() && fns[p].kind.name.kind@ == name
        },
    decreases fns.len(),
{
    if fns.len() > 0 {
        lemma_named_positions(fns.drop_last(), name);
    }
}

/// The id and definition span of each function at the positions `ps`.
pub open spec fn defs_at(fns: Seq<Node<ast::Function>>, ps: Seq<int>, ids: spec_fn(int) -> FunctionId) -> Seq<(FunctionId, Span)> {
    ps.map_values(|p: int| (ids(p), fns[p].span))
}

/// The ids and definition spans of the functions named `name`, among the
/// functions `all`, which are the interned `fds`, whose syntax is `fns`.
fn functions_named(
    db: &AnalyzerDb,
    all: &Vec<FunctionId>,
    name: &str,
    Ghost(fns): Ghost<Seq<Node<ast::Function>>>,
    Ghost(fds): Ghost<Seq<FunctionData>>,
) -> (r: Vec<(FunctionId, Span)>)
    requires
        all@.len() == fns.len(),
        fds.len() == fns.len(),
        forall|j: int| 0 <= j < fns.len() ==> (#[trigger] fds[j]).ast == fns[j],
        forall|j: int| 0 <= j < fds.len() ==> first_index(db.functions@, matching(same_function_rel(), #[trigger] fds[j]))
            == Some(all@[j].0 as int),
    ensures
        r@ == defs_at(fns, named_positions(fns, name@), function_ids(db.functions@, fds)),
{
    let mut r: Vec<(FunctionId, Span)> = Vec::new();
    let n = all.len();
    let mut i: usize = 0;
    while i < n
        invariant
            0 <= i <= n,
            n == all@.len(),
            n == fns.len(),
            fds.len() == fns.len(),
            forall|j: int| 0 <= j < fns.len() ==> (#[trigger] fds[j]).ast == fns[j],
            forall|j: int| 0 <= j < fds.len() ==> first_index(db.functions@, matching(same_function_rel(), #[trigger] fds[j]))
                == Some(all@[j].0 as int),
            r@ == defs_at(fns, named_positions(fns.take(i as int), name@), function_ids(db.functions@, fds)),
        decreases n - i,
    {
        assert(fns.take(i + 1).drop_last() =~= fns.take(i as int));
        assert(fns.take(i + 1).last() == fns[i as int]);
        let func = all[i];
        proof {
            lemma_first_index_some(db.functions@, matching(same_function_rel(), fds[i as int]));
        }
        assert(func == function_ids(db.functions@, fds)(i as int));
        assert(same_function(db.functions@[func.0 as int], fds[i as int]));
        let def = &db.functions[func.0].ast;
        let name_string = String::from_str(name);
        if def.kind.name.kind == name_string {
            r.push((func, def.span));
            assert(r@ =~= defs_at(fns, named_positions(fns.take(i + 1), name@), function_ids(db.functions@, fds)));
        }
        i = i + 1;
    }
    assert(fns.take(n as int) =~= fns);
    r
}

/// Adds a secondary label with the text `text` at each definition of `defs`
/// after the first two.
fn push_redefinition_labels(labels: &mut Vec<Label>, defs: &Vec<(FunctionId, Span)>, text: &str)
    requires
        defs@.len() >= 2,
    ensures
        labels_view(final(labels)@) == labels_view(old(labels)@) + defs@.skip(2).map_values(
            |d: (FunctionId, Span)| secondary(d.1, text@),
        ),
{
    let n = defs.len();
    let mut i: usize = 2;
    assert(labels_view(labels@) =~= labels_view(old(labels)@) + defs@.subrange(2, 2).map_values(
        |d: (FunctionId, Span)| secondary(d.1, text@),
    ));
    while i < n
        invariant
            2 <= i <= n,
            n == defs@.len(),
            labels_view(labels@) == labels_view(old(labels)@) + defs@.subrange(2, i as int).map_values(
                |d: (FunctionId, Span)| secondary(d.1, text@),
            ),
        decreases n - i,
    {
        let ghost before = labels@;
        labels.push(Label::secondary(defs[i].1, String::from_str(text)));
        assert(labels_view(labels@) =~= labels_view(before).push(secondary(defs@[i as int].1, text@)));
        assert(defs@.subrange(2, i + 1).map_values(|d: (FunctionId, Span)| secondary(d.1, text@))
            =~= defs@.subrange(2, i as int).map_values(|d: (FunctionId, Span)| secondary(d.1, text@)).push(secondary(defs@[i as int].1, text@)));
        i = i + 1;
    }
    assert(defs@.subrange(2, n as int) =~= defs@.skip(2));
}

/// The error for a special function that is not public.
pub open spec fn spec_not_public(special: Seq<char>, must: Seq<char>, example: Seq<char>, span: Span) -> DiagnosticView {
    error_view(special, seq![primary(span, must)], seq!["Hint: Add the `pub` modifier."@, example])
}

/// The labels of the error for a special function defined several times
/// (at the positions `ps` of `fns`): the first definition, the second with
/// the text `second`, and every further one with the text `further`.
pub open spec fn redefinition_labels(fns: Seq<Node<ast::Function>>, ps: Seq<int>, first: Seq<char>, second: Seq<char>, further: Seq<char>) -> Seq<LabelView> {
    seq![primary(fns[ps[0]].span, first), secondary(fns[ps[1]].span, second)]
        + ps.skip(2).map_values(|p: int| secondary(fns[p].span, further))
}

/// The errors about the `__init__` functions at the positions `ps` of
/// `fns`, in contract `cname`: one listing them all if there are several,
/// then one if the first is not public.
pub open spec fn init_diagnostics(fns: Seq<Node<ast::Function>>, ps: Seq<int>, cname: Seq<char>) -> Seq<DiagnosticView> {
    let multiple = if ps.len() >= 2 {
        seq![error_view(
            "`fn __init__()` is defined multiple times in `contract "@ + cname + "`"@,
            redefinition_labels(fns, ps, "`__init__` first defined here"@, "`init` redefined here"@, "`__init__` redefined here"@),
            seq![],
        )]
    } else {
        seq![]
    };
    let not_public = if ps.len() >= 1 && fns[ps[0]].kind.pub_ is None {
        seq![spec_not_public("`__init__` function is not public"@, "`__init__` function must be public"@,
            "Example: `pub fn __init__():`"@, fns[ps[0]].span)]
    } else {
        seq![]
    };
    multiple + not_public
}

/// The `__init__` function of contract `c` (by position): the first
/// function of that name; and the diagnostics about the `__init__`
/// functions.
pub open spec fn spec_init_function(db: AnalyzerDb, c: ContractId) -> (Option<int>, Seq<DiagnosticView>) {
    let fns = contract_functions(db, c);
    let ps = named_positions(fns, "__init__"@);
    (if ps.len() >= 1 { Some(ps[0]) } else { None }, init_diagnostics(fns, ps, contract_name(db, c)))
}

/// The error that a special function gets when it is not public.
fn not_public_error(message: &str, label: &str, example: &str, span: Span) -> (d: Diagnostic)
    ensures
        d@ == spec_not_public(message@, label@, example@, span),
{
    let mut labels: Vec<Label> = Vec::new();
    labels.push(Label::primary(span, String::from_str(label)));
    let mut notes: Vec<String> = Vec::new();
    notes.push(String::from_str("Hint: Add the `pub` modifier."));
    notes.push(String::from_str(example));
    assert(labels_view(labels@) =~= seq![primary(span, label@)]);
    assert(strings_view(notes@) =~= seq!["Hint: Add the `pub` modifier."@, example@]);
    fancy_error(message, labels, notes)
}

/// The contract's `__init__` function: the first function named
/// `__init__`. If there are several, an error lists them all; if the first
/// is not public, an error says so.
pub fn contract_init_function(db: &mut AnalyzerDb, contract: ContractId) -> (r: Analysis<Option<FunctionId>>)
    requires
        old(db).wf(),
        contract.0 < old(db).contracts.len(),
    ensures
        final(db).wf(),
        old(db).same_but_functions(*final(db)),
        final(db).functions@ == intern_seq(old(db).functions@, function_datas(*old(db), contract), same_function_rel()),
        r.value == match spec_init_function(*old(db), contract).0 {
            Some(p) => Some(function_ids(final(db).functions@, function_datas(*old(db), contract))(p)),
            None => None,
        },
        diags_view(r.diagnostics@) == spec_init_function(*old(db), contract).1,
{
    let ghost db0 = *db;
    let ghost fns = contract_functions(db0, contract);
    let ghost fds = function_datas(db0, contract);
    let ghost ps = named_positions(fns, "__init__"@);
    let all_fns = contract_all_functions(db, contract);
    let all_fns: &Vec<FunctionId> = &*all_fns;
    let ghost t = db.functions@;
    let ghost ids = function_ids(t, fds);
    proof {
        lemma_named_positions(fns, "__init__"@);
    }
    let init_fns = functions_named(db, all_fns, "__init__", Ghost(fns), Ghost(fds));
    let mut diagnostics: Vec<Diagnostic> = Vec::new();
    if init_fns.len() >= 2 {
        let mut labels: Vec<Label> = Vec::new();
        labels.push(Label::primary(init_fns[0].1, String::from_str("`__init__` first defined here")));
        labels.push(Label::secondary(init_fns[1].1, String::from_str("`init` redefined here")));
        push_redefinition_labels(&mut labels, &init_fns, "`__init__` redefined here");
        let message = concat3("`fn __init__()` is defined multiple times in `contract ",
            db.contracts[contract.0].ast.kind.name.kind.as_str(), "`");
        assert(init_fns@.skip(2).map_values(|d: (FunctionId, Span)| secondary(d.1, "`__init__` redefined here"@))
            =~= ps.skip(2).map_values(|p: int| secondary(fns[p].span, "`__init__` redefined here"@)));
        assert(labels_view(labels@) =~= redefinition_labels(fns, ps, "`__init__` first defined here"@,
            "`init` redefined here"@, "`__init__` redefined here"@));
        let notes: Vec<String> = Vec::new();
        assert(strings_view(notes@) =~= seq![]);
        diagnostics.push(fancy_error(message.as_str(), labels, notes));
    }
    let ghost multiple = diags_view(diagnostics@);
    assert(init_fns@.len() == ps.len());
    assert(init_fns@.len() >= 2 ==> init_fns@[1] == defs_at(fns, ps, ids)[1]);
    let mut value: Option<FunctionId> = None;
    if init_fns.len() >= 1 {
        let (id, span) = init_fns[0];
        value = Some(id);
        assert(init_fns@[0] == defs_at(fns, ps, ids)[0]);
        assert(0 <= ps[0] < fns.len());
        proof {
            lemma_first_index_some(t, matching(same_function_rel(), fds[ps[0]]));
        }
        assert(same_function(db.functions@[id.0 as int], fds[ps[0]]));
        if db.functions[id.0].ast.kind.pub_.is_none() {
            diagnostics.push(not_public_error("`__init__` function is not public",
                "`__init__` function must be public", "Example: `pub fn __init__():`", span));
        }
    }
    assert(diags_view(diagnostics@) =~= init_diagnostics(fns, ps, contract_name(db0, contract)));
    Analysis { value, diagnostics: Rc::new(diagnostics) }
}

/// The errors about the `__call__` functions at the positions `ps` of
/// `fns`, in contract `cname`, before the other functions are checked: one
/// listing them all if there are several, then one if the first is not
/// public.
pub open spec fn special_diagnostics_call(fns: Seq<Node<ast::Function>>, ps: Seq<int>, cname: Seq<char>) -> Seq<DiagnosticView> {
    let multiple = if ps.len() >= 2 {
        seq![error_view(
            "`fn __call__()` is defined multiple times in `contract "@ + cname + "`"@,
            redefinition_labels(fns, ps, "`__call__` first defined here"@, "`__call__` redefined here"@, "`__call__` redefined here"@),
            seq![],
        )]
    } else {
        seq![]
    };
    let not_public = if ps.len() >= 1 && fns[ps[0]].kind.pub_ is None {
        seq![spec_not_public("`__call__` function is not public"@, "`__call__` function must be public"@,
            "Example: `pub fn __call__():`"@, fns[ps[0]].span)]
    } else {
        seq![]
    };
    multiple + not_public
}

/// The error that public function `name` (named at `name_span`) gets when
/// the contract defines `__call__` at `call_span`.
pub open spec fn spec_pub_not_allowed(name: Seq<char>, name_span: Span, call_span: Span) -> DiagnosticView {
    error_view(
        "`pub` not allowed if `__call__` is defined"@,
        seq![primary(name_span, "`"@ + name + "` can't be public"@), secondary(call_span, "`__call__` defined here"@)],
        seq![
            "The `__call__` function replaces the default function dispatcher, which makes `pub` modifiers obsolete."@,
            "Hint: Remove the `pub` modifier or `__call__` function."@,
        ],
    )
}

/// The errors for the public functions of `fns` other than `__init__` and
/// `__call__`, when `__call__` is defined at `call_span`.
pub open spec fn pub_not_allowed(fns: Seq<Node<ast::Function>>, call_span: Span) -> Seq<DiagnosticView>
    decreases fns.len(),
{
    if fns.len() == 0 {
        seq![]
    } else {
        let prev = pub_not_allowed(fns.drop_last(), call_span);
        let f = fns.last();
        let name = f.kind.name.kind@;
        if f.kind.pub_ is Some && name != "__init__"@ && name != "__call__"@ {
            prev.push(spec_pub_not_allowed(name, f.kind.name.span, call_span))
        } else {
            prev
        }
    }
}

/// All diagnostics about the `__call__` functions at the positions `ps` of
/// `fns`, in contract `cname`.
pub open spec fn call_diagnostics(fns: Seq<Node<ast::Function>>, ps: Seq<int>, cname: Seq<char>) -> Seq<DiagnosticView> {
    special_diagnostics_call(fns, ps, cname) + if ps.len() >= 1 {
        pub_not_allowed(fns, fns[ps[0]].span)
    } else {
        seq![]
    }
}

/// The `__call__` function of contract `c` (by position): the first
/// function of that name; and the diagnostics about it.
pub open spec fn spec_call_function(db: AnalyzerDb, c: ContractId) -> (Option<int>, Seq<DiagnosticView>) {
    let fns = contract_functions(db, c);
    let ps = named_positions(fns, "__call__"@);
    (if ps.len() >= 1 { Some(ps[0]) } else { None }, call_diagnostics(fns, ps, contract_name(db, c)))
}

/// The error that public function `name` gets when `__call__` is defined.
fn pub_not_allowed_error(name: &str, name_span: Span, call_span: Span) -> (d: Diagnostic)
    ensures
        d@ == spec_pub_not_allowed(name@, name_span, call_span),
{
    let mut labels: Vec<Label> = Vec::new();
    labels.push(Label::primary(name_span, concat3("`", name, "` can't be public")));
    labels.push(Label::secondary(call_span, String::from_str("`__call__` defined here")));
    let mut notes: Vec<String> = Vec::new();
    notes.push(String::from_str("The `__call__` function replaces the default function dispatcher, which makes `pub` modifiers obsolete."));
    notes.push(String::from_str("Hint: Remove the `pub` modifier or `__call__` function."));
    assert(labels_view(labels@) =~= seq![
        primary(name_span, "`"@ + name@ + "` can't be public"@),
        secondary(call_span, "`__call__` defined here"@),
    ]);
    assert(strings_view(notes@) =~= seq![
        "The `__call__` function replaces the default function dispatcher, which makes `pub` modifiers obsolete."@,
        "Hint: Remove the `pub` modifier or `__call__` function."@,
    ]);
    fancy_error("`pub` not allowed if `__call__` is defined", labels, notes)
}

/// The contract's `__call__` function: the first function named
/// `__call__`. If there are several, an error lists them all; if the first
/// is not public, an error says so; and if there is one, every other public
/// function but `__init__` gets an error, since `__call__` replaces the
/// dispatcher that makes functions public.
pub fn contract_call_function(db: &mut AnalyzerDb, contract: ContractId) -> (r: Analysis<Option<FunctionId>>)
    requires
        old(db).wf(),
        contract.0 < old(db).contracts.len(),
    ensures
        final(db).wf(),
        old(db).same_but_functions(*final(db)),
        final(db).functions@ == intern_seq(old(db).functions@, function_datas(*old(db), contract), same_function_rel()),
        r.value == match spec_call_function(*old(db), contract).0 {
            Some(p) => Some(function_ids(final(db).functions@, function_datas(*old(db), contract))(p)),
            None => None,
        },
        diags_view(r.diagnostics@) == spec_call_function(*old(db), contract).1,
{
    let ghost db0 = *db;
    let ghost fns = contract_functions(db0, contract);
    let ghost fds = function_datas(db0, contract);
    let ghost ps = named_positions(fns, "__call__"@);
    let all_fns = contract_all_functions(db, contract);
    let all_fns: &Vec<FunctionId> = &*all_fns;
    let ghost t = db.functions@;
    let ghost ids = function_ids(t, fds);
    proof {
        lemma_named_positions(fns, "__call__"@);
    }
    let call_fns = functions_named(db, all_fns, "__call__", Ghost(fns), Ghost(fds));
    let mut diagnostics: Vec<Diagnostic> = Vec::new();
    if call_fns.len() >= 2 {
        let mut labels: Vec<Label> = Vec::new();
        labels.push(Label::primary(call_fns[0].1, String::from_str("`__call__` first defined here")));
        labels.push(Label::secondary(call_fns[1].1, String::from_str("`__call__` redefined here")));
        push_redefinition_labels(&mut labels, &call_fns, "`__call__` redefined here");
        let message = concat3("`fn __call__()` is defined multiple times in `contract ",
            db.contracts[contract.0].ast.kind.name.kind.as_str(), "`");
        assert(call_fns@.skip(2).map_values(|d: (FunctionId, Span)| secondary(d.1, "`__call__` redefined here"@))
            =~= ps.skip(2).map_values(|p: int| secondary(fns[p].span, "`__call__` redefined here"@)));
        assert(labels_view(labels@) =~= redefinition_labels(fns, ps, "`__call__` first defined here"@,
            "`__call__` redefined here"@, "`__call__` redefined here"@));
        let notes: Vec<String> = Vec::new();
        assert(strings_view(notes@) =~= seq![]);
        diagnostics.push(fancy_error(message.as_str(), labels, notes));
    }
    let ghost multiple = diags_view(diagnostics@);
    assert(call_fns@.len() == ps.len());
    assert(call_fns@.len() >= 2 ==> call_fns@[1] == defs_at(fns, ps, ids)[1]);
    let mut value: Option<FunctionId> = None;
    if call_fns.len() >= 1 {
        let (id, span) = call_fns[0];
        value = Some(id);
        assert(call_fns@[0] == defs_at(fns, ps, ids)[0]);
        assert(0 <= ps[0] < fns.len());
        proof {
            lemma_first_index_some(t, matching(same_function_rel(), fds[ps[0]]));
        }
        assert(same_function(db.functions@[id.0 as int], fds[ps[0]]));
        if db.functions[id.0].ast.kind.pub_.is_none() {
            diagnostics.push(not_public_error("`__call__` function is not public",
                "`__call__` function must be public", "Example: `pub fn __call__():`", span));
        }
    }
    let ghost before = diags_view(diagnostics@);
    assert(before =~= special_diagnostics_call(fns, ps, contract_name(db0, contract)));
    if call_fns.len() >= 1 {
        let call_span = call_fns[0].1;
        let n = all_fns.len();
        let mut i: usize = 0;
        while i < n
            invariant
                0 <= i <= n,
                n == all_fns@.len(),
                n == fns.len(),
                fds == function_datas(db0, contract),
                fds.len() == fns.len(),
                forall|j: int| 0 <= j < fns.len() ==> (#[trigger] fds[j]).ast == fns[j],
                forall|j: int| 0 <= j < fds.len() ==> first_index(db.functions@, matching(same_function_rel(), #[trigger] fds[j]))
                    == Some(all_fns@[j].0 as int),
                diags_view(diagnostics@) == before + pub_not_allowed(fns.take(i as int), call_span),
            decreases n - i,
        {
            assert(fns.take(i + 1).drop_last() =~= fns.take(i as int));
            assert(fns.take(i + 1).last() == fns[i as int]);
            let func = all_fns[i];
            proof {
                lemma_first_index_some(db.functions@, matching(same_function_rel(), fds[i as int]));
            }
            assert(same_function(db.functions@[func.0 as int], fds[i as int]));
            let ast = &db.functions[func.0].ast;
            let name = &ast.kind.name.kind;
            let ghost prev = diags_view(diagnostics@);
            if ast.kind.pub_.is_some() && !is_named(name, "__init__") && !is_named(name, "__call__") {
                diagnostics.push(pub_not_allowed_error(name.as_str(), ast.kind.name.span, call_span));
                assert(diags_view(diagnostics@) =~= prev.push(diags_view(diagnostics@).last()));
            }
            i = i + 1;
        }
        assert(fns.take(n as int) =~= fns);
    }
    assert(diags_view(diagnostics@) =~= call_diagnostics(fns, ps, contract_name(db0, contract)));
    Analysis { value, diagnostics: Rc::new(diagnostics) }
}

/// The type of field `field` and the diagnostics about it: what resolving
/// its declared type in its contract's module gives, then an error for each
/// unsupported part of the declaration (`pub`, `const`, an initial value).
pub open spec fn spec_field_type(db: AnalyzerDb, field: ContractFieldId) -> (Result<Type, TypeError>, Seq<DiagnosticView>) {
    let data = db.fields@[field.0 as int];
    let node = data.ast;
    let resolved = spec_type_desc(db.contract_module(data.parent).types@, node.kind.typ.kind.name@, node.kind.typ.span);
    let is_pub = if node.kind.is_pub { seq![spec_not_yet_implemented("contract `pub` fields"@, node.span)] } else { seq![] };
    let is_const = if node.kind.is_const { seq![spec_not_yet_implemented("contract `const` fields"@, node.span)] } else { seq![] };
    let value = match node.kind.value {
        Some(v) => seq![spec_not_yet_implemented("contract field initial value assignment"@, v.span)],
        None => seq![],
    };
    (resolved.0, resolved.1 + is_pub + is_const + value)
}

/// The type of a contract field: its declared type, resolved in the
/// contract's module. A `pub` or `const` field, and an initial value, get a
/// not-yet-implemented error each.
pub fn contract_field_type(db: &AnalyzerDb, field: ContractFieldId) -> (r: Analysis<Result<Type, TypeError>>)
    requires
        db.wf(),
        field.0 < db.fields.len(),
    ensures
        r.value == spec_field_type(*db, field).0,
        diags_view(r.diagnostics@) == spec_field_type(*db, field).1,
        ({
            let data = db.fields@[field.0 as int];
            let types = db.modules@[db.contracts@[data.parent.0 as int].module.0 as int].types@;
            let desc = data.ast.kind.typ.kind.name@;
            &&& forall|i: int| #![trigger types[i]]
                0 <= i < types.len() && types[i].desc@ == desc && (forall|j: int| 0 <= j < i ==> (#[trigger] types[j]).desc@ != desc)
                ==> r.value == Ok::<Type, TypeError>(types[i].typ)
            &&& (forall|i: int| 0 <= i < types.len() ==> (#[trigger] types[i]).desc@ != desc) ==> r.value == Err::<Type, TypeError>(TypeError)
        }),
{
    let data = &db.fields[field.0];
    let module = db.contracts[data.parent.0].module;
    let mut scope = ItemScope::new(module);
    let node = &data.ast;
    assert(diags_view(scope.diagnostics@) =~= seq![]);
    let typ = scope.type_desc(db, &node.kind.typ);
    let ghost d0 = diags_view(scope.diagnostics@);
    if node.kind.is_pub {
        scope.not_yet_implemented("contract `pub` fields", node.span);
    }
    let ghost d1 = diags_view(scope.diagnostics@);
    if node.kind.is_const {
        scope.not_yet_implemented("contract `const` fields", node.span);
    }
    let ghost d2 = diags_view(scope.diagnostics@);
    if let Some(value_node) = &node.kind.value {
        scope.not_yet_implemented("contract field initial value assignment", value_node.span);
    }
    assert(diags_view(scope.diagnostics@) =~= spec_field_type(*db, field).1);
    proof {
        crate::properties::field_type_is_bound_in_contract_module(*db, field);
    }
    Analysis { value: typ, diagnostics: Rc::new(scope.diagnostics) }
}

// ----- dependency graphs -----

/// The item that a field of the resolved type `t` makes its contract depend
/// on: the contract or struct it names, if any.
pub open spec fn type_item(t: Result<Type, TypeError>) -> Option<Item> {
    match t {
        Ok(Type::Contract(ct)) => Some(Item::Type(TypeDef::Contract(ct.id))),
        Ok(Type::Struct(st)) => Some(Item::Type(TypeDef::Struct(st.id))),
        _ => None,
    }
}

/// The type that field `f` of contract `c` resolves to.
pub open spec fn field_type_of(db: AnalyzerDb, c: ContractId, f: Node<ast::Field>) -> Result<Type, TypeError> {
    spec_type_desc(db.contract_module(c).types@, f.kind.typ.kind.name@, f.kind.typ.span).0
}

/// The items that the fields at the positions of the map `entries` (fields
/// of contract `c`) depend on through their types, in order.
pub open spec fn field_type_items(db: AnalyzerDb, c: ContractId, entries: Seq<(Seq<char>, int)>) -> Seq<Item>
    decreases entries.len(),
{
    if entries.len() == 0 {
        seq![]
    } else {
        let prev = field_type_items(db, c, entries.drop_last());
        let f = contract_fields(db, c)[entries.last().1];
        match type_item(field_type_of(db, c, f)) {
            Some(it) => prev.push(it),
            None => prev,
        }
    }
}

/// The dependency graph recorded for `item`, if any.
pub open spec fn item_graph(db: AnalyzerDb, item: Item) -> Option<Map<(Item, Item), DepLocality>> {
    match first_index(db.item_graphs@, graph_of_is(item)) {
        Some(i) => Some(db.item_graphs@[i].graph.view()),
        None => None,
    }
}

/// The graph `g` with the recorded graph of each of `items` added in order.
pub open spec fn with_subgraphs(db: AnalyzerDb, g: Map<(Item, Item), DepLocality>, items: Seq<Item>) -> Map<(Item, Item), DepLocality>
    decreases items.len(),
{
    if items.len() == 0 {
        g
    } else {
        let prev = with_subgraphs(db, g, items.drop_last());
        match item_graph(db, items.last()) {
            Some(sub) => prev.union_prefer_right(sub),
            None => prev,
        }
    }
}

/// A local edge from `root` to each of `items`.
pub open spec fn root_edges(root: Item, items: Seq<Item>) -> Seq<DepEdge> {
    items.map_values(|it: Item| (root, it, DepLocality::Local))
}

/// The graph made of an edge from `root` to each of `items`, together with
/// the recorded graphs of those items.
pub open spec fn spec_graph_from(db: AnalyzerDb, root: Item, items: Seq<Item>) -> Map<(Item, Item), DepLocality> {
    with_subgraphs(db, edges_map(root_edges(root, items)), items)
}

/// The dependency graph of contract `c`: an edge to each contract or struct
/// that the types of its (uniquely named) fields name, with their graphs.
pub open spec fn spec_dependency_graph(db: AnalyzerDb, c: ContractId) -> Map<(Item, Item), DepLocality> {
    spec_graph_from(db, Item::Type(TypeDef::Contract(c)), field_type_items(db, c, spec_field_map(db, c).0))
}

/// Builds the graph with an edge from `root` to each of `items`, then adds
/// the recorded graph of each item.
fn graph_from(db: &AnalyzerDb, root: Item, items: &Vec<Item>) -> (g: DepGraph)
    ensures
        g.view() == spec_graph_from(*db, root, items@),
{
    let mut edges: Vec<DepEdge> = Vec::new();
    let n = items.len();
    let mut i: usize = 0;
    while i < n
        invariant
            0 <= i <= n,
            n == items@.len(),
            edges@ == root_edges(root, items@.take(i as int)),
        decreases n - i,
    {
        edges.push((root, items[i], DepLocality::Local));
        assert(edges@ =~= root_edges(root, items@.take(i + 1)));
        i = i + 1;
    }
    assert(items@.take(n as int) =~= items@);
    let mut graph = DepGraph::from_edges(&edges);
    let ghost g0 = graph.view();
    let mut i: usize = 0;
    while i < n
        invariant
            0 <= i <= n,
            n == items@.len(),
            g0 == edges_map(root_edges(root, items@)),
            graph.view() == with_subgraphs(*db, g0, items@.take(i as int)),
        decreases n - i,
    {
        assert(items@.take(i + 1).drop_last() =~= items@.take(i as int));
        assert(items@.take(i + 1).last() == items@[i as int]);
        match db.dependency_graph(items[i]) {
            Some(sub) => {
                let sub_edges = sub.all_edges();
                graph.extend(&sub_edges);
            },
            None => {},
        }
        i = i + 1;
    }
    assert(items@.take(n as int) =~= items@);
    graph
}

/// The contract's dependency graph: a local edge from the contract to each
/// contract or struct that the type of one of its fields names, and the
/// graphs of those types. (The functions of the contract are not in it.)
pub fn contract_dependency_graph(db: &mut AnalyzerDb, contract: ContractId) -> (r: DepGraphWrapper)
    requires
        old(db).wf(),
        contract.0 < old(db).contracts.len(),
    ensures
        final(db).wf(),
        old(db).same_but_fields(*final(db)),
        final(db).fields@ == intern_seq(old(db).fields@, field_datas(*old(db), contract), same_field_rel()),
        (*r.0).view() == spec_dependency_graph(*old(db), contract),
{
    let ghost db0 = *db;
    let ghost fields_ast = contract_fields(db0, contract);
    let ghost fds = field_datas(db0, contract);
    let ghost rel = same_field_rel();
    let ghost entries = spec_field_map(db0, contract).0;
    let fields = contract_field_map(db, contract).value;
    let fields: &IndexMap<SmolStr, ContractFieldId> = &*fields;
    let ghost t = db.fields@;
    proof {
        lemma_same_reflexive();
        lemma_intern_seq(db0.fields@, fds, rel);
        lemma_dedup_fold(field_names(fields_ast), "duplicate field names in `contract "@ + contract_name(db0, contract) + "`"@);
    }
    let mut field_types: Vec<Item> = Vec::new();
    let n = field_map_len(fields);
    let mut i: usize = 0;
    while i < n
        invariant
            0 <= i <= n,
            n == entries.len(),
            db.wf(),
            db0.same_but_fields(*db),
            contract.0 < db.contracts.len(),
            field_map_entries(*fields) == map_vals(entries, field_ids(t, fds)),
            entries == spec_field_map(db0, contract).0,
            forall|j: int| 0 <= j < entries.len() ==> {
                let e = #[trigger] entries[j];
                0 <= e.1 < fields_ast.len()
            },
            fields_ast == contract_fields(db0, contract),
            db.fields@ == t,
            t == intern_seq(db0.fields@, fds, rel),
            rel == same_field_rel(),
            fds == field_datas(db0, contract),
            fds.len() == fields_ast.len(),
            forall|k: int| 0 <= k < fds.len() ==> first_index(t, matching(rel, #[trigger] fds[k])) is Some,
            field_types@ == field_type_items(db0, contract, entries.take(i as int)),
        decreases n - i,
    {
        assert(entries.take(i + 1).drop_last() =~= entries.take(i as int));
        assert(entries.take(i + 1).last() == entries[i as int]);
        let entry = field_map_get_index(fields, i);
        if let Some((_name, field)) = entry {
            let ghost k = entries[i as int].1;
            assert(map_vals(entries, field_ids(t, fds))[i as int] == (entries[i as int].0, field_ids(t, fds)(k)));
            assert(0 <= k < fields_ast.len());
            proof {
                lemma_first_index_some(t, matching(rel, fds[k]));
            }
            assert(field == field_ids(t, fds)(k));
            assert(same_field(t[field.0 as int], fds[k]));
            assert(spec_field_type(*db, field).0 == field_type_of(db0, contract, fields_ast[k]));
            assert(db.contract_module(contract) == db0.contract_module(contract));
            let typ = contract_field_type(&*db, field).value;
            match typ {
                Ok(Type::Contract(ct)) => {
                    field_types.push(Item::Type(TypeDef::Contract(ct.id)));
                },
                Ok(Type::Struct(st)) => {
                    field_types.push(Item::Type(TypeDef::Struct(st.id)));
                },
                _ => {},
            }
        }
        i = i + 1;
    }
    assert(entries.take(n as int) =~= entries);
    let root = Item::Type(TypeDef::Contract(contract));
    let graph = graph_from(&*db, root, &field_types);
    assert(item_graph(*db, root) == item_graph(db0, root));
    proof {
        lemma_same_graphs(*db, db0, edges_map(root_edges(root, field_types@)), field_types@);
    }
    DepGraphWrapper(Rc::new(graph))
}

/// Adding the recorded graphs depends only on the recorded graphs.
proof fn lemma_same_graphs(a: AnalyzerDb, b: AnalyzerDb, g: Map<(Item, Item), DepLocality>, items: Seq<Item>)
    requires
        a.item_graphs@ == b.item_graphs@,
    ensures
        with_subgraphs(a, g, items) == with_subgraphs(b, g, items),
    decreases items.len(),
{
    if items.len() > 0 {
        lemma_same_graphs(a, b, g, items.drop_last());
    }
}

/// The graph that a dependency cycle through contract `contract` resolves
/// to: the empty graph.
pub fn contract_dependency_graph_cycle(_db: &AnalyzerDb, _cycle: &[String], _contract: &ContractId) -> (r: DepGraphWrapper)
    ensures
        (*r.0).view() == Map::<(Item, Item), DepLocality>::empty(),
{
    DepGraphWrapper(Rc::new(DepGraph::new()))
}

/// The items of the public functions in the map `entries` (by position),
/// whose ids are given by `ids`.
pub open spec fn public_function_items(entries: Seq<(Seq<char>, int)>, ids: spec_fn(int) -> FunctionId) -> Seq<Item> {
    entries.map_values(|e: (Seq<char>, int)| Item::Function(ids(e.1)))
}

/// The runtime dependency graph of contract `c`, with the function table
/// `t`: an edge to each public function, with the graphs of those
/// functions.
pub open spec fn spec_runtime_dependency_graph(db: AnalyzerDb, c: ContractId, t: Seq<FunctionData>) -> Map<(Item, Item), DepLocality> {
    spec_graph_from(db, Item::Type(TypeDef::Contract(c)),
        public_function_items(spec_public_function_map(db, c), function_ids(t, function_datas(db, c))))
}

/// The dependency graph of the code that runs when the contract is called:
/// a local edge from the contract to each of its public functions, and the
/// graphs of those functions.
pub fn contract_runtime_dependency_graph(db: &mut AnalyzerDb, contract: ContractId) -> (r: DepGraphWrapper)
    requires
        old(db).wf(),
        contract.0 < old(db).contracts.len(),
    ensures
        final(db).wf(),
        old(db).extended_by(*final(db)),
        final(db).functions@ == intern_seq(old(db).functions@, function_datas(*old(db), contract), same_function_rel()),
        final(db).fields@ == old(db).fields@,
        final(db).events@ == events_after_function_map(*old(db), contract),
        (*r.0).view() == spec_runtime_dependency_graph(*old(db), contract, final(db).functions@),
{
    let ghost db0 = *db;
    let ghost entries = spec_public_function_map(db0, contract);
    let root = Item::Type(TypeDef::Contract(contract));
    let pub_fns = contract_public_function_map(db, contract);
    let pub_fns: &IndexMap<SmolStr, FunctionId> = &*pub_fns;
    let ghost ids = function_ids(db.functions@, function_datas(db0, contract));
    let mut items: Vec<Item> = Vec::new();
    let n = function_map_len(pub_fns);
    let mut i: usize = 0;
    while i < n
        invariant
            0 <= i <= n,
            n == entries.len(),
            function_map_entries(*pub_fns) == map_vals(entries, ids),
            items@ == public_function_items(entries.take(i as int), ids),
        decreases n - i,
    {
        let entry = function_map_get_index(pub_fns, i);
        if let Some((_name, fun)) = entry {
            assert(map_vals(entries, ids)[i as int] == (entries[i as int].0, ids(entries[i as int].1)));
            items.push(Item::Function(fun));
        }
        assert(items@ =~= public_function_items(entries.take(i + 1), ids));
        i = i + 1;
    }
    assert(entries.take(n as int) =~= entries);
    let graph = graph_from(&*db, root, &items);
    proof {
        lemma_same_graphs(*db, db0, edges_map(root_edges(root, items@)), items@);
    }
    DepGraphWrapper(Rc::new(graph))
}

/// The graph that a dependency cycle through contract `contract` resolves
/// to, for the runtime graph: the empty graph.
pub fn contract_runtime_dependency_graph_cycle(_db: &AnalyzerDb, _cycle: &[String], _contract: &ContractId) -> (r: DepGraphWrapper)
    ensures
        (*r.0).view() == Map::<(Item, Item), DepLocality>::empty(),
{
    DepGraphWrapper(Rc::new(DepGraph::new()))
}

} // verus!
