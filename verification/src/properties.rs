//! Properties of the contract queries that hold on every database.

use vstd::prelude::*;
use crate::span::Span;
use crate::node::Node;
use crate::ast;
use crate::items::{ContractId, ContractFieldId, FunctionId, Item, TypeDef, Type, TypeError, DepLocality};
use crate::db::{
    AnalyzerDb, NamedItem, FunctionData, first_index, prefix, is_first, binding_is, graph_of_is,
    lemma_first_index_found, lemma_first_index_none, lemma_first_index_some,
};
use crate::diagnostics::{secondary, spec_duplicate_name_error, error_view, primary};
use crate::intern::{
    intern_seq, matching, same_function, lemma_intern_seq, lemma_intern_seq_idempotent, lemma_prefix_first_index, lemma_same_reflexive,
    same_function_rel, same_event_rel, same_field_rel,
};
use crate::depgraph::{edges_into, edges_map};
use crate::name_maps::{has_key, is_key_at, key_index, keys_distinct};
use crate::contracts::{
    dedup_fold, lemma_dedup_fold, function_map_fold, lemma_function_map_fold, spec_function_map,
    spec_public_function_map, public_entries, contract_functions, named_positions, spec_init_function,
    spec_call_function, special_diagnostics_call, pub_not_allowed,
    spec_graph_from, item_graph, with_subgraphs, root_edges, spec_event_map, spec_field_map,
    event_names, field_names, contract_events, contract_fields, ordinary_count, function_datas, event_datas,
    field_datas, function_ids, init_diagnostics, redefinition_labels, spec_field_type,
    spec_dependency_graph, field_type_items, field_type_of, type_item, contract_name,
    spec_runtime_dependency_graph, public_function_items, body_functions,
};

verus! {

// ----- maps from names -----

/// Building a map from names accounts for every item: each one either gets
/// into the map or gets a duplicate-name error.
pub proof fn dedup_accounts_for_every_item(items: Seq<(Seq<char>, Span)>, message: Seq<char>)
    ensures
        dedup_fold(items, message).0.len() + dedup_fold(items, message).1.len() == items.len(),
    decreases items.len(),
{
    if items.len() > 0 {
        dedup_accounts_for_every_item(items.drop_last(), message);
    }
}

/// Building a map from names keeps the first item of each name: every name
/// of the items is a key, and the position stored under it is the first
/// position with that name.
pub proof fn dedup_keeps_first_of_each_name(items: Seq<(Seq<char>, Span)>, message: Seq<char>)
    ensures
        keys_distinct(dedup_fold(items, message).0),
        forall|i: int| 0 <= i < items.len() ==> has_key(dedup_fold(items, message).0, #[trigger] items[i].0),
        forall|j: int, i: int|
            0 <= j < dedup_fold(items, message).0.len() && 0 <= i < dedup_fold(items, message).0[j].1 ==>
                #[trigger] items[i].0 != (#[trigger] dedup_fold(items, message).0[j]).0,
    decreases items.len(),
{
    lemma_dedup_fold(items, message);
    if items.len() > 0 {
        let d = items.drop_last();
        dedup_keeps_first_of_each_name(d, message);
        lemma_dedup_fold(d, message);
        let prev = dedup_fold(d, message);
        let cur = dedup_fold(items, message);
        let k = items.len() - 1;
        let name = items[k].0;
        assert forall|i: int| 0 <= i < items.len() implies has_key(cur.0, #[trigger] items[i].0) by {
            if i < k {
                assert(d[i] == items[i]);
                let t = choose|t: int| is_key_at(prev.0, d[i].0, t);
                assert(is_key_at(cur.0, items[i].0, t));
            } else if has_key(prev.0, name) {
                let t = choose|t: int| is_key_at(prev.0, name, t);
                assert(is_key_at(cur.0, items[i].0, t));
            } else {
                assert(is_key_at(cur.0, items[i].0, prev.0.len() as int));
            }
        }
        assert forall|j: int, i: int|
            0 <= j < cur.0.len() && 0 <= i < cur.0[j].1 implies #[trigger] items[i].0 != (#[trigger] cur.0[j]).0 by {
            if j < prev.0.len() {
                assert(cur.0[j] == prev.0[j]);
                assert(d[i] == items[i]);
            } else {
                assert(!has_key(prev.0, name));
                assert(cur.0[j] == (name, k));
                if items[i].0 == name {
                    assert(d[i] == items[i]);
                    assert(has_key(prev.0, d[i].0));
                }
            }
        }
    }
}

/// The event map of a contract holds, under each event name, the first
/// event of that name; every other event gets a duplicate-name error.
pub proof fn event_map_keeps_first_event_of_each_name(db: AnalyzerDb, c: ContractId)
    ensures
        ({
            let items = event_names(contract_events(db, c));
            let m = spec_event_map(db, c);
            &&& m.0.len() + m.1.len() == contract_events(db, c).len()
            &&& forall|i: int| 0 <= i < items.len() ==> has_key(m.0, #[trigger] items[i].0)
            &&& forall|j: int, i: int| 0 <= j < m.0.len() && 0 <= i < m.0[j].1 ==>
                #[trigger] items[i].0 != (#[trigger] m.0[j]).0
        }),
{
    let items = event_names(contract_events(db, c));
    let message = "duplicate event names in `contract "@ + db.contract(c).ast.kind.name.kind@ + "`"@;
    dedup_accounts_for_every_item(items, message);
    dedup_keeps_first_of_each_name(items, message);
}

/// The field map of a contract holds, under each field name, the first
/// field of that name; every other field gets a duplicate-name error.
pub proof fn field_map_keeps_first_field_of_each_name(db: AnalyzerDb, c: ContractId)
    ensures
        ({
            let items = field_names(contract_fields(db, c));
            let m = spec_field_map(db, c);
            &&& m.0.len() + m.1.len() == contract_fields(db, c).len()
            &&& forall|i: int| 0 <= i < items.len() ==> has_key(m.0, #[trigger] items[i].0)
            &&& forall|j: int, i: int| 0 <= j < m.0.len() && 0 <= i < m.0[j].1 ==>
                #[trigger] items[i].0 != (#[trigger] m.0[j]).0
        }),
{
    let items = field_names(contract_fields(db, c));
    let message = "duplicate field names in `contract "@ + db.contract(c).ast.kind.name.kind@ + "`"@;
    dedup_accounts_for_every_item(items, message);
    dedup_keeps_first_of_each_name(items, message);
}

/// Building the function map accounts for every function but `__init__`
/// and `__call__`: each either gets into the map or gets exactly one error;
/// and no map entry is `__init__` or `__call__`.
pub proof fn function_map_fold_accounts(
    fns: Seq<Node<ast::Function>>,
    cname: Seq<char>,
    event_map: Seq<(Seq<char>, int)>,
    events: Seq<Node<ast::Event>>,
    names: Seq<NamedItem>,
)
    ensures
        function_map_fold(fns, cname, event_map, events, names).0.len()
            + function_map_fold(fns, cname, event_map, events, names).1.len() == ordinary_count(fns),
        forall|j: int| 0 <= j < function_map_fold(fns, cname, event_map, events, names).0.len() ==> {
            let e = #[trigger] function_map_fold(fns, cname, event_map, events, names).0[j];
            e.0 != "__init__"@ && e.0 != "__call__"@
        },
    decreases fns.len(),
{
    if fns.len() > 0 {
        function_map_fold_accounts(fns.drop_last(), cname, event_map, events, names);
    }
}

/// The function map of a contract never maps `__init__` or `__call__`, maps
/// each name once, to a function of that name; and every function but
/// `__init__` and `__call__` is either in the map or got exactly one error.
pub proof fn function_map_accounts_for_every_function(db: AnalyzerDb, c: ContractId)
    ensures
        ({
            let fns = contract_functions(db, c);
            let m = spec_function_map(db, c);
            &&& m.0.len() + m.1.len() == ordinary_count(fns)
            &&& keys_distinct(m.0)
            &&& forall|j: int| 0 <= j < m.0.len() ==> {
                let e = #[trigger] m.0[j];
                &&& e.0 != "__init__"@
                &&& e.0 != "__call__"@
                &&& 0 <= e.1 < fns.len()
                &&& fns[e.1].kind.name.kind@ == e.0
            }
        }),
{
    let fns = contract_functions(db, c);
    let cname = db.contract(c).ast.kind.name.kind@;
    let em = spec_event_map(db, c).0;
    let events = contract_events(db, c);
    let names = db.contract_module(c).names@;
    function_map_fold_accounts(fns, cname, em, events, names);
    lemma_function_map_fold(fns, cname, em, events, names);
}

/// Which entries a public map keeps: exactly those whose function is public.
pub proof fn public_entries_are_the_public_ones(entries: Seq<(Seq<char>, int)>, fns: Seq<Node<ast::Function>>)
    ensures
        forall|e: (Seq<char>, int)| #[trigger] public_entries(entries, fns).contains(e) <==> (entries.contains(e) && fns[e.1].kind.pub_ is Some),
    decreases entries.len(),
{
    if entries.len() > 0 {
        let d = entries.drop_last();
        public_entries_are_the_public_ones(d, fns);
        let prev = public_entries(d, fns);
        let last = entries.last();
        assert forall|e: (Seq<char>, int)| #[trigger] public_entries(entries, fns).contains(e) <==> (entries.contains(e) && fns[e.1].kind.pub_ is Some) by {
            if entries.contains(e) {
                let i = choose|i: int| 0 <= i < entries.len() && entries[i] == e;
                if i < d.len() {
                    assert(d[i] == e);
                    assert(d.contains(e));
                }
            }
            if d.contains(e) {
                let i = choose|i: int| 0 <= i < d.len() && d[i] == e;
                assert(entries[i] == e);
            }
            if prev.contains(e) {
                let i = choose|i: int| 0 <= i < prev.len() && prev[i] == e;
                if fns[last.1].kind.pub_ is Some {
                    assert(public_entries(entries, fns)[i] == e);
                }
            }
            if fns[last.1].kind.pub_ is Some {
                assert(public_entries(entries, fns)[prev.len() as int] == last);
                if public_entries(entries, fns).contains(e) {
                    let i = choose|i: int| 0 <= i < public_entries(entries, fns).len() && public_entries(entries, fns)[i] == e;
                    if i < prev.len() {
                        assert(prev[i] == e);
                    }
                }
            }
            assert(entries[entries.len() - 1] == last);
        }
    }
}

/// The public function map of a contract holds exactly those entries of its
/// function map whose function is marked `pub`.
pub proof fn public_map_is_public_part_of_function_map(db: AnalyzerDb, c: ContractId)
    ensures
        forall|e: (Seq<char>, int)| #[trigger] spec_public_function_map(db, c).contains(e) <==> (
            spec_function_map(db, c).0.contains(e) && contract_functions(db, c)[e.1].kind.pub_ is Some),
{
    public_entries_are_the_public_ones(spec_function_map(db, c).0, contract_functions(db, c));
}

// ----- `__init__` and `__call__` -----

/// The positions listed are exactly those of the functions with that name.
pub proof fn named_positions_are_the_named_ones(fns: Seq<Node<ast::Function>>, name: Seq<char>)
    ensures
        forall|j: int| 0 <= j < named_positions(fns, name).len() ==> {
            let p = #[trigger] named_positions(fns, name)[j];
            0 <= p < fns.len() && fns[p].kind.name.kind@ == name
        },
        forall|p: int| 0 <= p < fns.len() && (#[trigger] fns[p]).kind.name.kind@ == name ==> named_positions(fns, name).contains(p),
        named_positions(fns, name).len() > 0 ==> forall|p: int|
            0 <= p < named_positions(fns, name)[0] ==> (#[trigger] fns[p]).kind.name.kind@ != name,
    decreases fns.len(),
{
    if fns.len() > 0 {
        let d = fns.drop_last();
        named_positions_are_the_named_ones(d, name);
        let prev = named_positions(d, name);
        let cur = named_positions(fns, name);
        assert forall|p: int| 0 <= p < fns.len() && (#[trigger] fns[p]).kind.name.kind@ == name implies cur.contains(p) by {
            if p < d.len() {
                assert(d[p] == fns[p]);
                let i = choose|i: int| 0 <= i < prev.len() && prev[i] == p;
                assert(cur[i] == p);
            } else {
                assert(cur[prev.len() as int] == p);
            }
        }
        if cur.len() > 0 {
            assert forall|p: int| 0 <= p < cur[0] implies (#[trigger] fns[p]).kind.name.kind@ != name by {
                if prev.len() > 0 {
                    assert(cur[0] == prev[0]);
                    assert(d[p] == fns[p]);
                } else {
                    assert(d[p] == fns[p]);
                    if fns[p].kind.name.kind@ == name {
                        assert(prev.contains(p));
                    }
                }
            }
        }
    }
}

/// The `__init__` function of a contract is its first function named
/// `__init__`, and there is one exactly when some function has that name;
/// it gets no diagnostic exactly when it is the only one and is public (or
/// there is none).
pub proof fn init_function_is_first_init(db: AnalyzerDb, c: ContractId)
    ensures
        ({
            let fns = contract_functions(db, c);
            let r = spec_init_function(db, c);
            let ps = named_positions(fns, "__init__"@);
            &&& r.0 is Some <==> exists|p: int| 0 <= p < fns.len() && (#[trigger] fns[p]).kind.name.kind@ == "__init__"@
            &&& r.0 matches Some(p) ==> {
                &&& 0 <= p < fns.len()
                &&& fns[p].kind.name.kind@ == "__init__"@
                &&& forall|q: int| 0 <= q < p ==> (#[trigger] fns[q]).kind.name.kind@ != "__init__"@
            }
            &&& r.1.len() == 0 <==> (ps.len() <= 1 && (ps.len() == 1 ==> fns[ps[0]].kind.pub_ is Some))
        }),
{
    let fns = contract_functions(db, c);
    let ps = named_positions(fns, "__init__"@);
    named_positions_are_the_named_ones(fns, "__init__"@);
    if exists|p: int| 0 <= p < fns.len() && (#[trigger] fns[p]).kind.name.kind@ == "__init__"@ {
        let p = choose|p: int| 0 <= p < fns.len() && (#[trigger] fns[p]).kind.name.kind@ == "__init__"@;
        assert(ps.contains(p));
    }
    if ps.len() > 0 {
        assert(0 <= ps[0] < fns.len());
    }
}

/// The number of public functions of `fns` other than `__init__` and
/// `__call__`.
pub open spec fn public_ordinary_count(fns: Seq<Node<ast::Function>>) -> nat
    decreases fns.len(),
{
    if fns.len() == 0 {
        0
    } else {
        let prev = public_ordinary_count(fns.drop_last());
        let f = fns.last();
        let name = f.kind.name.kind@;
        if f.kind.pub_ is Some && name != "__init__"@ && name != "__call__"@ {
            prev + 1
        } else {
            prev
        }
    }
}

/// One error per public ordinary function.
proof fn pub_not_allowed_count(fns: Seq<Node<ast::Function>>, call_span: Span)
    ensures
        pub_not_allowed(fns, call_span).len() == public_ordinary_count(fns),
    decreases fns.len(),
{
    if fns.len() > 0 {
        pub_not_allowed_count(fns.drop_last(), call_span);
    }
}

/// A contract without `__call__` gets no diagnostics about it; one with
/// `__call__` gets one error for each public function other than `__init__`
/// and `__call__`, after at most two errors about `__call__` itself.
pub proof fn call_function_errors_per_public_function(db: AnalyzerDb, c: ContractId)
    ensures
        ({
            let fns = contract_functions(db, c);
            let r = spec_call_function(db, c);
            let ps = named_positions(fns, "__call__"@);
            &&& r.0 is None ==> r.1.len() == 0
            &&& r.0 is Some ==> {
                let head = special_diagnostics_call(fns, ps, db.contract(c).ast.kind.name.kind@).len();
                &&& head <= 2
                &&& r.1.len() == head + public_ordinary_count(fns)
            }
        }),
{
    let fns = contract_functions(db, c);
    let ps = named_positions(fns, "__call__"@);
    named_positions_are_the_named_ones(fns, "__call__"@);
    if ps.len() >= 1 {
        assert(0 <= ps[0] < fns.len());
        pub_not_allowed_count(fns, fns[ps[0]].span);
    }
}

// ----- dependency graphs -----

/// Adding graphs never removes an edge.
proof fn with_subgraphs_keeps_edges(db: AnalyzerDb, g: Map<(Item, Item), DepLocality>, items: Seq<Item>)
    ensures
        g.dom().subset_of(with_subgraphs(db, g, items).dom()),
    decreases items.len(),
{
    if items.len() > 0 {
        with_subgraphs_keeps_edges(db, g, items.drop_last());
    }
}

/// The root edges reach every item.
proof fn root_edges_reach(m: Map<(Item, Item), DepLocality>, root: Item, items: Seq<Item>)
    ensures
        forall|i: int| 0 <= i < items.len() ==> edges_into(m, root_edges(root, items)).dom().contains((root, #[trigger] items[i])),
    decreases items.len(),
{
    if items.len() > 0 {
        let d = items.drop_last();
        root_edges_reach(m, root, d);
        assert(root_edges(root, items).drop_last() =~= root_edges(root, d));
        assert forall|i: int| 0 <= i < items.len() implies edges_into(m, root_edges(root, items)).dom().contains((root, #[trigger] items[i])) by {
            if i < d.len() {
                assert(d[i] == items[i]);
            }
        }
    }
}

/// A graph built from a root and items has an edge from the root to each
/// item; if none of the items has a recorded graph, those edges, all local,
/// are the whole graph.
pub proof fn graph_from_has_root_edges(db: AnalyzerDb, root: Item, items: Seq<Item>)
    ensures
        forall|i: int| 0 <= i < items.len() ==> spec_graph_from(db, root, items).dom().contains((root, #[trigger] items[i])),
        (forall|i: int| 0 <= i < items.len() ==> item_graph(db, #[trigger] items[i]) is None) ==>
            spec_graph_from(db, root, items) == edges_map(root_edges(root, items)),
{
    root_edges_reach(Map::empty(), root, items);
    with_subgraphs_keeps_edges(db, edges_map(root_edges(root, items)), items);
    if forall|i: int| 0 <= i < items.len() ==> item_graph(db, #[trigger] items[i]) is None {
        without_subgraphs(db, edges_map(root_edges(root, items)), items);
    }
}

/// Where no item has a recorded graph, adding their graphs changes nothing.
proof fn without_subgraphs(db: AnalyzerDb, g: Map<(Item, Item), DepLocality>, items: Seq<Item>)
    requires
        forall|i: int| 0 <= i < items.len() ==> item_graph(db, #[trigger] items[i]) is None,
    ensures
        with_subgraphs(db, g, items) == g,
    decreases items.len(),
{
    if items.len() > 0 {
        let d = items.drop_last();
        assert forall|i: int| 0 <= i < d.len() implies item_graph(db, #[trigger] d[i]) is None by {
            assert(d[i] == items[i]);
        }
        without_subgraphs(db, g, d);
        assert(items.last() == items[items.len() - 1]);
    }
}

// ----- interning -----

/// Interning gives equal data one id: after a contract's functions, events
/// and fields were interned (as every query that reads them does), doing so
/// again leaves each table as it is, and each of them has its id.
pub proof fn contract_items_interned_once(db: AnalyzerDb, c: ContractId)
    ensures
        ({
            let fds = function_datas(db, c);
            let t = intern_seq(db.functions@, fds, same_function_rel());
            &&& intern_seq(t, fds, same_function_rel()) == t
            &&& forall|k: int| 0 <= k < fds.len() ==> first_index(t, matching(same_function_rel(), #[trigger] fds[k])) is Some
        }),
        ({
            let eds = event_datas(db, c);
            let t = intern_seq(db.events@, eds, same_event_rel());
            &&& intern_seq(t, eds, same_event_rel()) == t
            &&& forall|k: int| 0 <= k < eds.len() ==> first_index(t, matching(same_event_rel(), #[trigger] eds[k])) is Some
        }),
        ({
            let xs = field_datas(db, c);
            let t = intern_seq(db.fields@, xs, same_field_rel());
            &&& intern_seq(t, xs, same_field_rel()) == t
            &&& forall|k: int| 0 <= k < xs.len() ==> first_index(t, matching(same_field_rel(), #[trigger] xs[k])) is Some
        }),
{
    lemma_same_reflexive();
    lemma_intern_seq_idempotent(db.functions@, function_datas(db, c), same_function_rel());
    lemma_intern_seq(db.functions@, function_datas(db, c), same_function_rel());
    lemma_intern_seq_idempotent(db.events@, event_datas(db, c), same_event_rel());
    lemma_intern_seq(db.events@, event_datas(db, c), same_event_rel());
    lemma_intern_seq_idempotent(db.fields@, field_datas(db, c), same_field_rel());
    lemma_intern_seq(db.fields@, field_datas(db, c), same_field_rel());
}

/// Ids last: interning more into a table (any extension of it) keeps the
/// id of every function it already held.
pub proof fn function_ids_survive_extension(t: Seq<FunctionData>, t2: Seq<FunctionData>, fds: Seq<FunctionData>)
    requires
        prefix(t, t2),
        forall|k: int| 0 <= k < fds.len() ==> first_index(t, matching(same_function_rel(), #[trigger] fds[k])) is Some,
    ensures
        forall|k: int| 0 <= k < fds.len() ==> #[trigger] function_ids(t2, fds)(k) == function_ids(t, fds)(k),
{
    assert forall|k: int| 0 <= k < fds.len() implies #[trigger] function_ids(t2, fds)(k) == function_ids(t, fds)(k) by {
        lemma_prefix_first_index(t, t2, matching(same_function_rel(), fds[k]));
    }
}

/// The ids that the queries state by position are those that
/// `contract_all_functions` hands out: where `all` are the ids of the
/// functions `fds` in the table `t`, the id of position `k` is `all[k]`. So
/// the `__init__` and `__call__` functions, the function maps and the
/// runtime graph name the same ids as `contract_all_functions` on the same
/// database.
pub proof fn function_ids_are_all_functions_ids(t: Seq<FunctionData>, fds: Seq<FunctionData>, all: Seq<FunctionId>)
    requires
        all.len() == fds.len(),
        forall|k: int| 0 <= k < fds.len() ==> first_index(t, matching(same_function_rel(), #[trigger] fds[k])) == Some(all[k].0 as int),
    ensures
        forall|k: int| 0 <= k < fds.len() ==> #[trigger] function_ids(t, fds)(k) == all[k],
{
    assert forall|k: int| 0 <= k < fds.len() implies #[trigger] function_ids(t, fds)(k) == all[k] by {
        assert(first_index(t, matching(same_function_rel(), fds[k])) == Some(all[k].0 as int));
    }
}

// ----- `__init__` on its own -----

/// The functions of `fns` named `name`, in order.
pub open spec fn named_functions(fns: Seq<Node<ast::Function>>, name: Seq<char>) -> Seq<Node<ast::Function>> {
    named_positions(fns, name).map_values(|p: int| fns[p])
}

/// In a list of functions that all have the name, every position is listed.
proof fn named_positions_all(fns: Seq<Node<ast::Function>>, name: Seq<char>)
    requires
        forall|j: int| 0 <= j < fns.len() ==> (#[trigger] fns[j]).kind.name.kind@ == name,
    ensures
        named_positions(fns, name) == Seq::new(fns.len(), |i: int| i),
    decreases fns.len(),
{
    if fns.len() > 0 {
        let d = fns.drop_last();
        assert forall|j: int| 0 <= j < d.len() implies (#[trigger] d[j]).kind.name.kind@ == name by {
            assert(d[j] == fns[j]);
        }
        named_positions_all(d, name);
        assert(fns.last() == fns[fns.len() - 1]);
        assert(named_positions(fns, name) =~= Seq::new(fns.len(), |i: int| i));
    }
}

/// What a contract's `__init__` handling reports depends on its `__init__`
/// functions alone: the same diagnostics come out of the `__init__`
/// functions without the others, and the `__init__` chosen is the first of
/// them.
pub proof fn init_depends_only_on_init_functions(fns: Seq<Node<ast::Function>>, cname: Seq<char>)
    ensures
        ({
            let inits = named_functions(fns, "__init__"@);
            let ps = named_positions(fns, "__init__"@);
            &&& named_positions(inits, "__init__"@) == Seq::new(inits.len(), |i: int| i)
            &&& init_diagnostics(fns, ps, cname) == init_diagnostics(inits, named_positions(inits, "__init__"@), cname)
            &&& ps.len() > 0 ==> fns[ps[0]] == inits[0]
        }),
{
    let inits = named_functions(fns, "__init__"@);
    let ps = named_positions(fns, "__init__"@);
    named_positions_are_the_named_ones(fns, "__init__"@);
    assert forall|j: int| 0 <= j < inits.len() implies (#[trigger] inits[j]).kind.name.kind@ == "__init__"@ by {
        assert(inits[j] == fns[ps[j]]);
    }
    named_positions_all(inits, "__init__"@);
    let qs = named_positions(inits, "__init__"@);
    if ps.len() >= 2 {
        assert(ps.skip(2).map_values(|p: int| secondary(fns[p].span, "`__init__` redefined here"@))
            =~= qs.skip(2).map_values(|p: int| secondary(inits[p].span, "`__init__` redefined here"@)));
        assert(redefinition_labels(fns, ps, "`__init__` first defined here"@, "`init` redefined here"@, "`__init__` redefined here"@)
            =~= redefinition_labels(inits, qs, "`__init__` first defined here"@, "`init` redefined here"@, "`__init__` redefined here"@));
    }
    assert(init_diagnostics(fns, ps, cname) =~= init_diagnostics(inits, qs, cname));
}

// ----- duplicate-name errors -----

/// Every duplicate-name error of a map built from `items` points at the
/// first item of its name and at a later item of that name.
pub proof fn dedup_errors_point_at_first_and_later(items: Seq<(Seq<char>, Span)>, message: Seq<char>)
    ensures
        forall|j: int| 0 <= j < dedup_fold(items, message).1.len() ==> exists|p: int, q: int| {
            &&& 0 <= p < q < items.len()
            &&& items[p].0 == items[q].0
            &&& (forall|m: int| 0 <= m < p ==> #[trigger] items[m].0 != items[q].0)
            &&& #[trigger] dedup_fold(items, message).1[j] == spec_duplicate_name_error(message, items[q].0, items[p].1, items[q].1)
        },
    decreases items.len(),
{
    if items.len() > 0 {
        let d = items.drop_last();
        dedup_errors_point_at_first_and_later(d, message);
        dedup_keeps_first_of_each_name(d, message);
        lemma_dedup_fold(d, message);
        let prev = dedup_fold(d, message);
        let cur = dedup_fold(items, message);
        let q = items.len() - 1;
        let name = items[q].0;
        assert forall|j: int| 0 <= j < cur.1.len() implies exists|p: int, q2: int| {
            &&& 0 <= p < q2 < items.len()
            &&& items[p].0 == items[q2].0
            &&& (forall|m: int| 0 <= m < p ==> #[trigger] items[m].0 != items[q2].0)
            &&& #[trigger] cur.1[j] == spec_duplicate_name_error(message, items[q2].0, items[p].1, items[q2].1)
        } by {
            if j < prev.1.len() {
                let (p, q2) = choose|p: int, q2: int| {
                    &&& 0 <= p < q2 < d.len()
                    &&& d[p].0 == d[q2].0
                    &&& (forall|m: int| 0 <= m < p ==> #[trigger] d[m].0 != d[q2].0)
                    &&& #[trigger] prev.1[j] == spec_duplicate_name_error(message, d[q2].0, d[p].1, d[q2].1)
                };
                assert(cur.1[j] == prev.1[j]);
                assert(d[p] == items[p] && d[q2] == items[q2]);
                assert forall|m: int| 0 <= m < p implies #[trigger] items[m].0 != items[q2].0 by {
                    assert(d[m] == items[m]);
                }
            } else {
                let ki = key_index(prev.0, name);
                assert(is_key_at(prev.0, name, ki));
                let e = prev.0[ki];
                let p = e.1;
                assert(0 <= p < d.len());
                assert(d[p] == items[p]);
                assert forall|m: int| 0 <= m < p implies #[trigger] items[m].0 != items[q].0 by {
                    assert(d[m] == items[m]);
                }
                assert(cur.1[j] == spec_duplicate_name_error(message, items[q].0, items[p].1, items[q].1));
            }
        }
    }
}

// ----- field types -----

/// A field's type is what its type name is bound to in the module of the
/// field's own contract: the first binding of that name there, and then the
/// only diagnostics are one for each of `pub`, `const` and an initial value.
/// Where that module binds no type to the name, the field's type is an
/// error, and the first diagnostic says that the type name, at the type's
/// span, is not defined.
pub proof fn field_type_is_bound_in_contract_module(db: AnalyzerDb, field: ContractFieldId)
    requires
        field.0 < db.fields.len(),
    ensures
        ({
            let data = db.fields@[field.0 as int];
            let types = db.modules@[db.contracts@[data.parent.0 as int].module.0 as int].types@;
            let desc = data.ast.kind.typ.kind.name@;
            let r = spec_field_type(db, field);
            &&& forall|i: int| #![trigger types[i]]
                0 <= i < types.len() && types[i].desc@ == desc && (forall|j: int| 0 <= j < i ==> (#[trigger] types[j]).desc@ != desc)
                ==> {
                    &&& r.0 == Ok::<Type, TypeError>(types[i].typ)
                    &&& r.1.len() == (if data.ast.kind.is_pub { 1int } else { 0int })
                        + (if data.ast.kind.is_const { 1int } else { 0int })
                        + (if data.ast.kind.value is Some { 1int } else { 0int })
                }
            &&& (forall|i: int| 0 <= i < types.len() ==> (#[trigger] types[i]).desc@ != desc) ==> {
                &&& r.0 == Err::<Type, TypeError>(TypeError)
                &&& r.1.len() >= 1
                &&& r.1[0] == error_view("undefined type"@,
                    seq![primary(data.ast.kind.typ.span, "this type name has not been defined"@)], seq![])
            }
        }),
{
    let data = db.fields@[field.0 as int];
    let types = db.modules@[db.contracts@[data.parent.0 as int].module.0 as int].types@;
    let desc = data.ast.kind.typ.kind.name@;
    assert(db.contract_module(data.parent).types@ == types);
    assert forall|i: int| #![trigger types[i]]
        0 <= i < types.len() && types[i].desc@ == desc && (forall|j: int| 0 <= j < i ==> (#[trigger] types[j]).desc@ != desc)
        implies {
            &&& spec_field_type(db, field).0 == Ok::<Type, TypeError>(types[i].typ)
            &&& spec_field_type(db, field).1.len() == (if data.ast.kind.is_pub { 1int } else { 0int })
                + (if data.ast.kind.is_const { 1int } else { 0int })
                + (if data.ast.kind.value is Some { 1int } else { 0int })
        } by {
        assert forall|j: int| 0 <= j < i implies !binding_is(desc)(#[trigger] types[j]) by {
            assert(types[j].desc@ != desc);
        }
        assert(is_first(types, binding_is(desc), i));
        lemma_first_index_found(types, binding_is(desc), i);
    }
    if forall|i: int| 0 <= i < types.len() ==> (#[trigger] types[i]).desc@ != desc {
        assert forall|j: int| 0 <= j < types.len() implies !binding_is(desc)(#[trigger] types[j]) by {
            assert(types[j].desc@ != desc);
        }
        lemma_first_index_none(types, binding_is(desc));
    }
}

// ----- what a dependency graph holds -----

/// The edges from the root are exactly those to the items.
proof fn root_edges_dom(m: Map<(Item, Item), DepLocality>, root: Item, items: Seq<Item>, e: (Item, Item))
    requires
        m == Map::<(Item, Item), DepLocality>::empty(),
    ensures
        edges_into(m, root_edges(root, items)).dom().contains(e) <==> (e.0 == root && items.contains(e.1)),
    decreases items.len(),
{
    if items.len() > 0 {
        let d = items.drop_last();
        assert(root_edges(root, items).drop_last() =~= root_edges(root, d));
        root_edges_dom(m, root, d, e);
        if d.contains(e.1) {
            let i = choose|i: int| 0 <= i < d.len() && d[i] == e.1;
            assert(items[i] == e.1);
        }
        if items.contains(e.1) && e.1 != items.last() {
            let i = choose|i: int| 0 <= i < items.len() && items[i] == e.1;
            assert(i < d.len());
            assert(d[i] == e.1);
        }
        assert(items[items.len() - 1] == items.last());
    }
}

/// The recorded graph of `item` has the edge `e`.
pub open spec fn subgraph_has(db: AnalyzerDb, item: Item, e: (Item, Item)) -> bool {
    match item_graph(db, item) {
        Some(g) => g.dom().contains(e),
        None => false,
    }
}

/// An item among `items` whose recorded graph has the edge `e`.
pub open spec fn some_subgraph_has(db: AnalyzerDb, items: Seq<Item>, e: (Item, Item)) -> bool {
    exists|i: int| 0 <= i < items.len() && #[trigger] subgraph_has(db, items[i], e)
}

/// Adding recorded graphs adds exactly their edges.
proof fn with_subgraphs_dom(db: AnalyzerDb, g: Map<(Item, Item), DepLocality>, items: Seq<Item>, e: (Item, Item))
    ensures
        with_subgraphs(db, g, items).dom().contains(e) <==> (g.dom().contains(e) || some_subgraph_has(db, items, e)),
    decreases items.len(),
{
    if items.len() > 0 {
        let d = items.drop_last();
        with_subgraphs_dom(db, g, d, e);
        if some_subgraph_has(db, d, e) {
            let i = choose|i: int| 0 <= i < d.len() && #[trigger] subgraph_has(db, d[i], e);
            assert(d[i] == items[i]);
        }
        if some_subgraph_has(db, items, e) {
            let i = choose|i: int| 0 <= i < items.len() && #[trigger] subgraph_has(db, items[i], e);
            if i < d.len() {
                assert(d[i] == items[i]);
                assert(some_subgraph_has(db, d, e));
            }
        }
        assert(items.last() == items[items.len() - 1]);
        let prev = with_subgraphs(db, g, d);
        if subgraph_has(db, items.last(), e) {
            assert(subgraph_has(db, items[items.len() - 1], e));
        }
        match item_graph(db, items.last()) {
            Some(sg) => {
                assert(prev.union_prefer_right(sg).dom() =~= prev.dom().union(sg.dom()));
            },
            None => {},
        }
    }
}

/// A dependency graph's edges are the edges from its root to each of its
/// items together with the edges of the items' recorded graphs, and no
/// others.
pub proof fn graph_edges_are_root_edges_and_subgraphs(db: AnalyzerDb, root: Item, items: Seq<Item>, e: (Item, Item))
    ensures
        spec_graph_from(db, root, items).dom().contains(e) <==>
            ((e.0 == root && items.contains(e.1)) || some_subgraph_has(db, items, e)),
{
    root_edges_dom(Map::empty(), root, items, e);
    with_subgraphs_dom(db, edges_map(root_edges(root, items)), items, e);
}

/// The graph that the dependency graphs take in for an item, of any kind,
/// is the first graph recorded for it, and there is none where no graph is
/// recorded for it.
pub proof fn item_graph_is_first_recorded(db: AnalyzerDb, item: Item)
    ensures
        forall|g: int| #![trigger db.item_graphs@[g]]
            0 <= g < db.item_graphs.len() && db.item_graphs@[g].item == item
            && (forall|h: int| 0 <= h < g ==> (#[trigger] db.item_graphs@[h]).item != item)
            ==> item_graph(db, item) == Some(db.item_graphs@[g].graph.view()),
        (forall|g: int| 0 <= g < db.item_graphs.len() ==> (#[trigger] db.item_graphs@[g]).item != item)
            ==> item_graph(db, item) is None,
{
    assert forall|g: int| #![trigger db.item_graphs@[g]]
        0 <= g < db.item_graphs.len() && db.item_graphs@[g].item == item
        && (forall|h: int| 0 <= h < g ==> (#[trigger] db.item_graphs@[h]).item != item)
        implies item_graph(db, item) == Some(db.item_graphs@[g].graph.view()) by {
        assert forall|h: int| 0 <= h < g implies !graph_of_is(item)(#[trigger] db.item_graphs@[h]) by {
            assert(db.item_graphs@[h].item != item);
        }
        assert(is_first(db.item_graphs@, graph_of_is(item), g));
        lemma_first_index_found(db.item_graphs@, graph_of_is(item), g);
    }
    if forall|g: int| 0 <= g < db.item_graphs.len() ==> (#[trigger] db.item_graphs@[g]).item != item {
        assert forall|g: int| 0 <= g < db.item_graphs.len() implies !graph_of_is(item)(#[trigger] db.item_graphs@[g]) by {
            assert(db.item_graphs@[g].item != item);
        }
        lemma_first_index_none(db.item_graphs@, graph_of_is(item));
    }
}

/// The items that the map entries' field types name include the one named
/// by the field at each entry's position.
proof fn field_type_items_has(db: AnalyzerDb, c: ContractId, entries: Seq<(Seq<char>, int)>, j: int, item: Item)
    requires
        0 <= j < entries.len(),
        type_item(field_type_of(db, c, contract_fields(db, c)[entries[j].1])) == Some(item),
    ensures
        field_type_items(db, c, entries).contains(item),
    decreases entries.len(),
{
    let d = entries.drop_last();
    if j < entries.len() - 1 {
        assert(d[j] == entries[j]);
        field_type_items_has(db, c, d, j, item);
        let prev = field_type_items(db, c, d);
        let i = choose|i: int| 0 <= i < prev.len() && prev[i] == item;
        let f = contract_fields(db, c)[entries.last().1];
        match type_item(field_type_of(db, c, f)) {
            Some(it) => {
                assert(prev.push(it)[i] == item);
            },
            None => {},
        }
    } else {
        assert(entries.last() == entries[j]);
        let prev = field_type_items(db, c, d);
        assert(prev.push(item)[prev.len() as int] == item);
    }
}

/// A contract's dependency graph follows the types of its fields: where the
/// first field of a name has a type name whose first binding in the
/// contract's module is a contract or a struct, the graph has an edge from
/// the contract to that contract or struct, and every edge of the first
/// graph recorded for it.
pub proof fn dependency_graph_follows_field_types(db: AnalyzerDb, c: ContractId, k: int, b: int, item: Item)
    requires
        ({
            let fields = db.contracts@[c.0 as int].ast.kind.fields@;
            let types = db.modules@[db.contracts@[c.0 as int].module.0 as int].types@;
            &&& 0 <= k < fields.len()
            &&& forall|m: int| 0 <= m < k ==> (#[trigger] fields[m]).kind.name.kind@ != fields[k].kind.name.kind@
            &&& 0 <= b < types.len()
            &&& types[b].desc@ == fields[k].kind.typ.kind.name@
            &&& forall|j: int| 0 <= j < b ==> (#[trigger] types[j]).desc@ != types[b].desc@
            &&& ((types[b].typ matches Type::Contract(ct) && item == Item::Type(TypeDef::Contract(ct.id)))
                || (types[b].typ matches Type::Struct(st) && item == Item::Type(TypeDef::Struct(st.id))))
        }),
    ensures
        spec_dependency_graph(db, c).dom().contains((Item::Type(TypeDef::Contract(c)), item)),
        forall|g: int, e: (Item, Item)|
            0 <= g < db.item_graphs.len() && db.item_graphs@[g].item == item
            && (forall|h: int| 0 <= h < g ==> (#[trigger] db.item_graphs@[h]).item != item)
            && #[trigger] db.item_graphs@[g].graph.view().dom().contains(e)
            ==> spec_dependency_graph(db, c).dom().contains(e),
{
    let fields = contract_fields(db, c);
    let types = db.modules@[db.contracts@[c.0 as int].module.0 as int].types@;
    let desc = types[b].desc@;
    let root = Item::Type(TypeDef::Contract(c));
    let names = field_names(fields);
    let message = "duplicate field names in `contract "@ + contract_name(db, c) + "`"@;
    let entries = spec_field_map(db, c).0;
    // The entry of the field's name holds the field's own position.
    field_map_keeps_first_field_of_each_name(db, c);
    lemma_dedup_fold(names, message);
    let name = fields[k].kind.name.kind@;
    assert(names[k].0 == name);
    assert(has_key(entries, names[k].0));
    let ki = key_index(entries, name);
    assert(is_key_at(entries, name, ki));
    let p = entries[ki].1;
    assert(0 <= p < names.len() && names[p].0 == name);
    if p < k {
        assert(fields[p].kind.name.kind@ == names[p].0);
    }
    if k < p {
        assert(names[k].0 != entries[ki].0);
    }
    assert(p == k);
    // The field's type is the binding's type.
    assert forall|j: int| 0 <= j < b implies !binding_is(desc)(#[trigger] types[j]) by {
        assert(types[j].desc@ != desc);
    }
    assert(is_first(types, binding_is(desc), b));
    lemma_first_index_found(types, binding_is(desc), b);
    assert(db.contract_module(c).types@ == types);
    assert(field_type_of(db, c, fields[k]) == Ok::<Type, TypeError>(types[b].typ));
    assert(type_item(field_type_of(db, c, fields[k])) == Some(item));
    let items = field_type_items(db, c, entries);
    field_type_items_has(db, c, entries, ki, item);
    graph_edges_are_root_edges_and_subgraphs(db, root, items, (root, item));
    assert forall|g: int, e: (Item, Item)|
        0 <= g < db.item_graphs.len() && db.item_graphs@[g].item == item
        && (forall|h: int| 0 <= h < g ==> (#[trigger] db.item_graphs@[h]).item != item)
        && #[trigger] db.item_graphs@[g].graph.view().dom().contains(e)
        implies spec_dependency_graph(db, c).dom().contains(e) by {
        assert forall|h: int| 0 <= h < g implies !graph_of_is(item)(#[trigger] db.item_graphs@[h]) by {
            assert(db.item_graphs@[h].item != item);
        }
        assert(is_first(db.item_graphs@, graph_of_is(item), g));
        lemma_first_index_found(db.item_graphs@, graph_of_is(item), g);
        assert(item_graph(db, item) == Some(db.item_graphs@[g].graph.view()));
        let i = choose|i: int| 0 <= i < items.len() && items[i] == item;
        assert(subgraph_has(db, items[i], e));
        assert(some_subgraph_has(db, items, e));
        graph_edges_are_root_edges_and_subgraphs(db, root, items, e);
    }
}

/// The runtime dependency graph starts at the public functions alone: every
/// edge from the contract that no recorded graph holds goes to the function
/// of an entry of the public function map, a function that the contract
/// defines, marks `pub`, and names neither `__init__` nor `__call__`. Where
/// the function table `t` (the database's, after the call) holds every
/// function of the contract, such an edge never goes to an `__init__` or a
/// `__call__` function.
pub proof fn runtime_graph_edges_from_contract_go_to_public_functions(db: AnalyzerDb, c: ContractId, t: Seq<FunctionData>, e: (Item, Item))
    requires
        spec_runtime_dependency_graph(db, c, t).dom().contains(e),
        e.0 == Item::Type(TypeDef::Contract(c)),
        forall|m: int| 0 <= m < db.item_graphs.len() ==> !(#[trigger] db.item_graphs@[m]).graph.view().dom().contains(e),
    ensures
        ({
            let fns = body_functions(db.contracts@[c.0 as int].ast.kind.body@);
            let pm = spec_public_function_map(db, c);
            let ids = function_ids(t, function_datas(db, c));
            exists|j: int| #![trigger pm[j]] {
                &&& 0 <= j < pm.len()
                &&& e.1 == Item::Function(ids(pm[j].1))
                &&& 0 <= pm[j].1 < fns.len()
                &&& fns[pm[j].1].kind.pub_ is Some
                &&& fns[pm[j].1].kind.name.kind@ != "__init__"@
                &&& fns[pm[j].1].kind.name.kind@ != "__call__"@
            }
        }),
        ({
            let fns = body_functions(db.contracts@[c.0 as int].ast.kind.body@);
            let fds = function_datas(db, c);
            (t.len() <= usize::MAX && forall|k: int| 0 <= k < fds.len() ==> first_index(t, matching(same_function_rel(), #[trigger] fds[k])) is Some)
            ==> forall|p: int| 0 <= p < fns.len() && (#[trigger] fns[p]).kind.name.kind@ == "__init__"@
                ==> e.1 != Item::Function(function_ids(t, fds)(p))
        }),
        ({
            let fns = body_functions(db.contracts@[c.0 as int].ast.kind.body@);
            let fds = function_datas(db, c);
            (t.len() <= usize::MAX && forall|k: int| 0 <= k < fds.len() ==> first_index(t, matching(same_function_rel(), #[trigger] fds[k])) is Some)
            ==> forall|p: int| 0 <= p < fns.len() && (#[trigger] fns[p]).kind.name.kind@ == "__call__"@
                ==> e.1 != Item::Function(function_ids(t, fds)(p))
        }),
{
    let fns = contract_functions(db, c);
    let fds = function_datas(db, c);
    let pm = spec_public_function_map(db, c);
    let fm = spec_function_map(db, c).0;
    let ids = function_ids(t, fds);
    let root = Item::Type(TypeDef::Contract(c));
    let items = public_function_items(pm, ids);
    graph_edges_are_root_edges_and_subgraphs(db, root, items, e);
    if some_subgraph_has(db, items, e) {
        let i = choose|i: int| 0 <= i < items.len() && #[trigger] subgraph_has(db, items[i], e);
        let gi = first_index(db.item_graphs@, graph_of_is(items[i]))->0;
        lemma_first_index_some(db.item_graphs@, graph_of_is(items[i]));
        assert(db.item_graphs@[gi].graph.view().dom().contains(e));
    }
    assert(items.contains(e.1));
    let i = choose|i: int| 0 <= i < items.len() && items[i] == e.1;
    assert(items[i] == Item::Function(ids(pm[i].1)));
    public_map_is_public_part_of_function_map(db, c);
    function_map_accounts_for_every_function(db, c);
    assert(pm.contains(pm[i]));
    let jf = choose|jf: int| 0 <= jf < fm.len() && fm[jf] == pm[i];
    assert(fm[jf] == pm[i]);
    let q = pm[i].1;
    assert(0 <= q < fns.len() && fns[q].kind.name.kind@ == pm[i].0);
    assert(fns[q].kind.pub_ is Some);
    // Distinct names, distinct ids, where the table holds every function.
    if t.len() <= usize::MAX && forall|k: int| 0 <= k < fds.len() ==> first_index(t, matching(same_function_rel(), #[trigger] fds[k])) is Some {
        assert(fds.len() == fns.len());
        assert forall|p: int| 0 <= p < fns.len()
            && ((#[trigger] fns[p]).kind.name.kind@ == "__init__"@ || fns[p].kind.name.kind@ == "__call__"@)
            implies e.1 != Item::Function(ids(p)) by {
            lemma_first_index_some(t, matching(same_function_rel(), fds[p]));
            lemma_first_index_some(t, matching(same_function_rel(), fds[q]));
            if e.1 == Item::Function(ids(p)) {
                let x = first_index(t, matching(same_function_rel(), fds[p]))->0;
                let y = first_index(t, matching(same_function_rel(), fds[q]))->0;
                assert(ids(p) == ids(q));
                assert(x == y);
                assert(same_function(t[x], fds[p]));
                assert(same_function(t[x], fds[q]));
                assert(fds[p].ast == fns[p]);
                assert(fds[q].ast == fns[q]);
            }
        }
    }
}

/// The runtime dependency graph reaches every public function: for each
/// entry of the public function map it has an edge from the contract to
/// that entry's function, and every edge of the first graph recorded for
/// that function.
pub proof fn runtime_graph_reaches_every_public_function(db: AnalyzerDb, c: ContractId, t: Seq<FunctionData>, j: int)
    requires
        0 <= j < spec_public_function_map(db, c).len(),
    ensures
        ({
            let item = Item::Function(function_ids(t, function_datas(db, c))(spec_public_function_map(db, c)[j].1));
            let g = spec_runtime_dependency_graph(db, c, t);
            &&& g.dom().contains((Item::Type(TypeDef::Contract(c)), item))
            &&& forall|gi: int, e: (Item, Item)|
                0 <= gi < db.item_graphs.len() && db.item_graphs@[gi].item == item
                && (forall|h: int| 0 <= h < gi ==> (#[trigger] db.item_graphs@[h]).item != item)
                && #[trigger] db.item_graphs@[gi].graph.view().dom().contains(e)
                ==> g.dom().contains(e)
        }),
{
    let pm = spec_public_function_map(db, c);
    let ids = function_ids(t, function_datas(db, c));
    let item = Item::Function(ids(pm[j].1));
    let root = Item::Type(TypeDef::Contract(c));
    let items = public_function_items(pm, ids);
    assert(items[j] == item);
    graph_from_has_root_edges(db, root, items);
    assert forall|gi: int, e: (Item, Item)|
        0 <= gi < db.item_graphs.len() && db.item_graphs@[gi].item == item
        && (forall|h: int| 0 <= h < gi ==> (#[trigger] db.item_graphs@[h]).item != item)
        && #[trigger] db.item_graphs@[gi].graph.view().dom().contains(e)
        implies spec_runtime_dependency_graph(db, c, t).dom().contains(e) by {
        assert forall|h: int| 0 <= h < gi implies !graph_of_is(item)(#[trigger] db.item_graphs@[h]) by {
            assert(db.item_graphs@[h].item != item);
        }
        assert(is_first(db.item_graphs@, graph_of_is(item), gi));
        lemma_first_index_found(db.item_graphs@, graph_of_is(item), gi);
        assert(subgraph_has(db, items[j], e));
        assert(some_subgraph_has(db, items, e));
        graph_edges_are_root_edges_and_subgraphs(db, root, items, e);
    }
}

/// An item among those that the map entries' field types name is named by
/// the field at some entry's position.
proof fn field_type_items_from(db: AnalyzerDb, c: ContractId, entries: Seq<(Seq<char>, int)>, item: Item)
    requires
        field_type_items(db, c, entries).contains(item),
    ensures
        exists|j: int| 0 <= j < entries.len()
            && type_item(field_type_of(db, c, contract_fields(db, c)[(#[trigger] entries[j]).1])) == Some(item),
    decreases entries.len(),
{
    let d = entries.drop_last();
    let prev = field_type_items(db, c, d);
    let f = contract_fields(db, c)[entries.last().1];
    let last = entries.len() - 1;
    assert(entries.last() == entries[last]);
    if prev.contains(item) {
        field_type_items_from(db, c, d, item);
        let j = choose|j: int| 0 <= j < d.len()
            && type_item(field_type_of(db, c, contract_fields(db, c)[(#[trigger] d[j]).1])) == Some(item);
        assert(d[j] == entries[j]);
    } else {
        match type_item(field_type_of(db, c, f)) {
            Some(it) => {
                let i = choose|i: int| 0 <= i < prev.push(it).len() && prev.push(it)[i] == item;
                if i < prev.len() {
                    assert(prev[i] == item);
                }
                assert(type_item(field_type_of(db, c, contract_fields(db, c)[entries[last].1])) == Some(item));
            },
            None => {},
        }
    }
}

/// A contract's dependency graph has no other edges from the contract:
/// every edge from the contract that no recorded graph holds goes to the
/// contract or struct that the type name of some field, the first of its
/// name, is first bound to in the contract's module.
pub proof fn dependency_graph_edges_come_from_field_types(db: AnalyzerDb, c: ContractId, e: (Item, Item))
    requires
        spec_dependency_graph(db, c).dom().contains(e),
        e.0 == Item::Type(TypeDef::Contract(c)),
        forall|m: int| 0 <= m < db.item_graphs.len() ==> !(#[trigger] db.item_graphs@[m]).graph.view().dom().contains(e),
    ensures
        ({
            let fields = db.contracts@[c.0 as int].ast.kind.fields@;
            let types = db.modules@[db.contracts@[c.0 as int].module.0 as int].types@;
            exists|k: int, b: int| #![trigger fields[k], types[b]] {
                &&& 0 <= k < fields.len()
                &&& forall|m: int| 0 <= m < k ==> (#[trigger] fields[m]).kind.name.kind@ != fields[k].kind.name.kind@
                &&& 0 <= b < types.len()
                &&& types[b].desc@ == fields[k].kind.typ.kind.name@
                &&& forall|j: int| 0 <= j < b ==> (#[trigger] types[j]).desc@ != types[b].desc@
                &&& ((types[b].typ matches Type::Contract(ct) && e.1 == Item::Type(TypeDef::Contract(ct.id)))
                    || (types[b].typ matches Type::Struct(st) && e.1 == Item::Type(TypeDef::Struct(st.id))))
            }
        }),
{
    let fields = contract_fields(db, c);
    let types = db.modules@[db.contracts@[c.0 as int].module.0 as int].types@;
    let root = Item::Type(TypeDef::Contract(c));
    let names = field_names(fields);
    let message = "duplicate field names in `contract "@ + contract_name(db, c) + "`"@;
    let entries = spec_field_map(db, c).0;
    let items = field_type_items(db, c, entries);
    graph_edges_are_root_edges_and_subgraphs(db, root, items, e);
    if some_subgraph_has(db, items, e) {
        let i = choose|i: int| 0 <= i < items.len() && #[trigger] subgraph_has(db, items[i], e);
        let gi = first_index(db.item_graphs@, graph_of_is(items[i]))->0;
        lemma_first_index_some(db.item_graphs@, graph_of_is(items[i]));
        assert(db.item_graphs@[gi].graph.view().dom().contains(e));
    }
    assert(items.contains(e.1));
    field_type_items_from(db, c, entries, e.1);
    let j = choose|j: int| 0 <= j < entries.len()
        && type_item(field_type_of(db, c, fields[(#[trigger] entries[j]).1])) == Some(e.1);
    field_map_keeps_first_field_of_each_name(db, c);
    lemma_dedup_fold(names, message);
    let k = entries[j].1;
    assert(0 <= k < names.len() && names[k].0 == entries[j].0);
    assert forall|m: int| 0 <= m < k implies (#[trigger] fields[m]).kind.name.kind@ != fields[k].kind.name.kind@ by {
        assert(names[m].0 != entries[j].0);
    }
    let desc = fields[k].kind.typ.kind.name@;
    assert(db.contract_module(c).types@ == types);
    if first_index(types, binding_is(desc)) is None {
        assert(field_type_of(db, c, fields[k]) == Err::<Type, TypeError>(TypeError));
    }
    let b = first_index(types, binding_is(desc))->0;
    lemma_first_index_some(types, binding_is(desc));
    assert(types[b].desc@ == desc);
    assert forall|i: int| 0 <= i < b implies (#[trigger] types[i]).desc@ != types[b].desc@ by {
        assert(!binding_is(desc)(types[i]));
    }
    assert(field_type_of(db, c, fields[k]) == Ok::<Type, TypeError>(types[b].typ));
    assert(fields[k] == fields[k] && types[b] == types[b]);
}

} // verus!
