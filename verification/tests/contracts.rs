use fe_analyzer::ast::{self, ContractStmt};
use fe_analyzer::contracts::{
    contract_all_events, contract_all_fields, contract_all_functions, contract_call_function,
    contract_dependency_graph, contract_dependency_graph_cycle, contract_event, contract_event_map,
    contract_field_map, contract_field_type, contract_function_map, contract_init_function,
    contract_public_function_map, contract_runtime_dependency_graph,
    contract_runtime_dependency_graph_cycle,
};
use fe_analyzer::db::{AnalyzerDb, ModuleData, NamedItem, TypeBinding};
use fe_analyzer::depgraph::DepGraph;
use fe_analyzer::diagnostics::{Diagnostic, LabelStyle, Severity};
use fe_analyzer::items::{
    Base, ContractFieldId, ContractId, ContractType, DepLocality, EventId, FunctionId, Item, StructId,
    StructType, Type, TypeDef, TypeError,
};
use fe_analyzer::node::{Node, NodeIdCounter};
use fe_analyzer::span::Span;

struct Builder {
    counter: NodeIdCounter,
}

impl Builder {
    fn new() -> Self {
        Builder { counter: NodeIdCounter::new() }
    }

    fn name(&mut self, text: &str, start: usize) -> Node<String> {
        Node::new(text.to_string(), Span::new(start, start + text.len()), &mut self.counter)
    }

    fn func(&mut self, is_pub: bool, name: &str, start: usize) -> ContractStmt {
        let pub_ = if is_pub { Some(Span::new(start, start + 3)) } else { None };
        let name = self.name(name, start + 7);
        ContractStmt::Function(Node::new(ast::Function { pub_, name }, Span::new(start, start + 20), &mut self.counter))
    }

    fn event(&mut self, name: &str, start: usize) -> ContractStmt {
        let name = self.name(name, start + 6);
        ContractStmt::Event(Node::new(ast::Event { name }, Span::new(start, start + 15), &mut self.counter))
    }

    fn field(&mut self, name: &str, typ: &str, is_pub: bool, is_const: bool, value: Option<&str>, start: usize) -> Node<ast::Field> {
        let name_node = self.name(name, start);
        let typ = Node::new(ast::TypeDesc { name: typ.to_string() }, Span::new(start + 10, start + 14), &mut self.counter);
        let value = value.map(|v| Node::new(v.to_string(), Span::new(start + 17, start + 19), &mut self.counter));
        Node::new(
            ast::Field { is_pub, is_const, name: name_node, typ, value },
            Span::new(start, start + 20),
            &mut self.counter,
        )
    }

    fn contract(&mut self, name: &str, fields: Vec<Node<ast::Field>>, body: Vec<ContractStmt>) -> Node<ast::Contract> {
        let name = self.name(name, 9);
        Node::new(ast::Contract { name, fields, body }, Span::new(0, 1000), &mut self.counter)
    }
}

fn module(names: Vec<NamedItem>, types: Vec<TypeBinding>) -> ModuleData {
    ModuleData { names, types }
}

fn db_with(contract: Node<ast::Contract>, module_data: ModuleData) -> (AnalyzerDb, ContractId) {
    let mut db = AnalyzerDb::new();
    let m = db.add_module(module_data);
    let c = db.add_contract(contract, m);
    (db, c)
}

fn label_texts(d: &Diagnostic) -> Vec<(LabelStyle, usize, String)> {
    d.labels.iter().map(|l| (l.style, l.span.start, l.message.clone())).collect()
}

fn keys<V>(m: &indexmap::IndexMap<smol_str::SmolStr, V>) -> Vec<String> {
    m.keys().map(|k| k.to_string()).collect()
}

#[test]
fn all_functions_interns_functions_in_order() {
    let mut b = Builder::new();
    let body = vec![b.func(true, "a", 100), b.event("E", 200), b.func(false, "b", 300), b.func(false, "a", 400)];
    let contract = b.contract("Foo", vec![], body);
    let (mut db, c) = db_with(contract, module(vec![], vec![]));
    let fns = contract_all_functions(&mut db, c);
    assert_eq!(*fns, vec![FunctionId(0), FunctionId(1), FunctionId(2)]);
    assert_eq!(db.functions.len(), 3);
    assert_eq!(db.functions[0].ast.kind.name.kind, "a");
    assert_eq!(db.functions[1].ast.kind.name.kind, "b");
    assert_eq!(db.functions[2].ast.span.start, 400);
    assert_eq!(db.functions[2].parent, Some(fe_analyzer::items::Class::Contract(c)));
    // interning again finds the same functions and hands out their ids
    let again = contract_all_functions(&mut db, c);
    assert_eq!(*again, vec![FunctionId(0), FunctionId(1), FunctionId(2)]);
    assert_eq!(db.functions.len(), 3);
}

#[test]
fn all_events_interns_events_in_order() {
    let mut b = Builder::new();
    let body = vec![b.event("A", 100), b.func(true, "f", 200), b.event("B", 300)];
    let contract = b.contract("Foo", vec![], body);
    let (mut db, c) = db_with(contract, module(vec![], vec![]));
    let evs = contract_all_events(&mut db, c);
    assert_eq!(*evs, vec![EventId(0), EventId(1)]);
    assert_eq!(db.events[1].ast.kind.name.kind, "B");
    assert_eq!(db.events[1].contract, c);
}

#[test]
fn all_fields_interns_fields_in_order() {
    let mut b = Builder::new();
    let fields = vec![b.field("x", "u256", false, false, None, 10), b.field("y", "bool", false, false, None, 40)];
    let contract = b.contract("Foo", fields, vec![]);
    let (mut db, c) = db_with(contract, module(vec![], vec![]));
    let ids = contract_all_fields(&mut db, c);
    assert_eq!(*ids, vec![ContractFieldId(0), ContractFieldId(1)]);
    assert_eq!(db.fields[0].ast.kind.name.kind, "x");
    assert_eq!(db.fields[1].parent, c);
}

#[test]
fn function_map_skips_special_functions_and_reports_clashes() {
    let mut b = Builder::new();
    let body = vec![
        b.func(true, "bar", 100),
        b.func(true, "__init__", 200),
        b.event("Baz", 300),
        b.func(false, "bar", 400),
        b.func(false, "Baz", 500),
        b.func(false, "u256", 600),
        b.func(false, "Thing", 700),
        b.func(false, "__call__", 800),
        b.func(false, "qux", 900),
    ];
    let contract = b.contract("Foo", vec![], body);
    let names = vec![
        NamedItem { name: "u256".to_string(), kind_name: "type".to_string(), span: None },
        NamedItem { name: "Thing".to_string(), kind_name: "struct".to_string(), span: Some(Span::new(5, 10)) },
    ];
    let (mut db, c) = db_with(contract, module(names, vec![]));
    let r = contract_function_map(&mut db, c);
    assert_eq!(keys(&r.value), vec!["bar", "qux"]);
    assert_eq!(r.value.get("bar"), Some(&FunctionId(0)));
    assert_eq!(r.value.get("qux"), Some(&FunctionId(7)));
    let d = &*r.diagnostics;
    assert_eq!(d.len(), 4);

    assert_eq!(d[0].severity, Severity::Error);
    assert_eq!(d[0].message, "duplicate function names in `contract Foo`");
    assert_eq!(
        label_texts(&d[0]),
        vec![
            (LabelStyle::Primary, 100, "`bar` first defined here".to_string()),
            (LabelStyle::Secondary, 400, "`bar` redefined here".to_string()),
        ]
    );

    assert_eq!(d[1].message, "function name `Baz` conflicts with previously defined event");
    assert_eq!(
        label_texts(&d[1]),
        vec![
            (LabelStyle::Primary, 306, "`Baz` first defined here".to_string()),
            (LabelStyle::Secondary, 507, "`Baz` redefined here".to_string()),
        ]
    );

    assert_eq!(d[2].message, "function name `u256` conflicts with built-in type");
    assert_eq!(label_texts(&d[2]), vec![(LabelStyle::Primary, 607, "`u256` is a built-in type".to_string())]);

    assert_eq!(d[3].message, "function name `Thing` conflicts with previously defined struct");
    assert_eq!(d[3].labels[0].span, Span::new(5, 10));
    assert!(d[3].notes.is_empty());
}

#[test]
fn function_map_accounts_for_each_ordinary_function() {
    let mut b = Builder::new();
    let body = vec![b.func(true, "a", 100), b.func(true, "a", 200), b.func(true, "a", 300), b.func(true, "__init__", 400)];
    let contract = b.contract("C", vec![], body);
    let (mut db, c) = db_with(contract, module(vec![], vec![]));
    let r = contract_function_map(&mut db, c);
    // three ordinary functions: one mapped, two reported
    assert_eq!(r.value.len() + r.diagnostics.len(), 3);
    assert_eq!(r.value.len(), 1);
}

#[test]
fn public_function_map_keeps_public_entries() {
    let mut b = Builder::new();
    let body = vec![b.func(true, "a", 100), b.func(false, "b", 200), b.func(true, "c", 300), b.func(true, "__init__", 400)];
    let contract = b.contract("C", vec![], body);
    let (mut db, c) = db_with(contract, module(vec![], vec![]));
    let all = contract_function_map(&mut db, c);
    let public = contract_public_function_map(&mut db, c);
    assert_eq!(keys(&all.value), vec!["a", "b", "c"]);
    assert_eq!(keys(&public), vec!["a", "c"]);
    // the ids are those that interning gave the functions
    assert_eq!(public.get("c"), Some(&FunctionId(2)));
    assert_eq!(all.value.get("c"), Some(&FunctionId(2)));
    assert_eq!(db.functions.len(), 4);
}

#[test]
fn init_function_single_public() {
    let mut b = Builder::new();
    let body = vec![b.func(true, "f", 100), b.func(true, "__init__", 200)];
    let contract = b.contract("C", vec![], body);
    let (mut db, c) = db_with(contract, module(vec![], vec![]));
    let r = contract_init_function(&mut db, c);
    assert_eq!(r.value, Some(FunctionId(1)));
    assert!(r.diagnostics.is_empty());
}

#[test]
fn init_function_absent() {
    let mut b = Builder::new();
    let body = vec![b.func(true, "f", 100)];
    let contract = b.contract("C", vec![], body);
    let (mut db, c) = db_with(contract, module(vec![], vec![]));
    let r = contract_init_function(&mut db, c);
    assert_eq!(r.value, None);
    assert!(r.diagnostics.is_empty());
}

#[test]
fn init_function_defined_three_times_and_not_public() {
    let mut b = Builder::new();
    let body = vec![
        b.func(false, "__init__", 100),
        b.func(true, "__init__", 200),
        b.func(true, "x", 300),
        b.func(true, "__init__", 400),
    ];
    let contract = b.contract("Token", vec![], body);
    let (mut db, c) = db_with(contract, module(vec![], vec![]));
    let r = contract_init_function(&mut db, c);
    assert_eq!(r.value, Some(FunctionId(0)));
    let d = &*r.diagnostics;
    assert_eq!(d.len(), 2);
    assert_eq!(d[0].message, "`fn __init__()` is defined multiple times in `contract Token`");
    assert_eq!(
        label_texts(&d[0]),
        vec![
            (LabelStyle::Primary, 100, "`__init__` first defined here".to_string()),
            (LabelStyle::Secondary, 200, "`init` redefined here".to_string()),
            (LabelStyle::Secondary, 400, "`__init__` redefined here".to_string()),
        ]
    );
    assert_eq!(d[1].message, "`__init__` function is not public");
    assert_eq!(label_texts(&d[1]), vec![(LabelStyle::Primary, 100, "`__init__` function must be public".to_string())]);
    assert_eq!(d[1].notes, vec!["Hint: Add the `pub` modifier.".to_string(), "Example: `pub fn __init__():`".to_string()]);
}

#[test]
fn call_function_absent_reports_nothing() {
    let mut b = Builder::new();
    let body = vec![b.func(true, "f", 100), b.func(true, "g", 200)];
    let contract = b.contract("C", vec![], body);
    let (mut db, c) = db_with(contract, module(vec![], vec![]));
    let r = contract_call_function(&mut db, c);
    assert_eq!(r.value, None);
    assert!(r.diagnostics.is_empty());
}

#[test]
fn call_function_makes_pub_an_error() {
    let mut b = Builder::new();
    let body = vec![
        b.func(true, "f", 100),
        b.func(true, "__init__", 200),
        b.func(false, "__call__", 300),
        b.func(false, "g", 400),
        b.func(true, "h", 500),
        b.func(true, "__call__", 600),
    ];
    let contract = b.contract("C", vec![], body);
    let (mut db, c) = db_with(contract, module(vec![], vec![]));
    let r = contract_call_function(&mut db, c);
    assert_eq!(r.value, Some(FunctionId(2)));
    let d = &*r.diagnostics;
    assert_eq!(d.len(), 4);
    assert_eq!(d[0].message, "`fn __call__()` is defined multiple times in `contract C`");
    assert_eq!(
        label_texts(&d[0]),
        vec![
            (LabelStyle::Primary, 300, "`__call__` first defined here".to_string()),
            (LabelStyle::Secondary, 600, "`__call__` redefined here".to_string()),
        ]
    );
    assert_eq!(d[1].message, "`__call__` function is not public");
    assert_eq!(d[1].notes[1], "Example: `pub fn __call__():`");
    assert_eq!(d[2].message, "`pub` not allowed if `__call__` is defined");
    assert_eq!(
        label_texts(&d[2]),
        vec![
            (LabelStyle::Primary, 107, "`f` can't be public".to_string()),
            (LabelStyle::Secondary, 300, "`__call__` defined here".to_string()),
        ]
    );
    assert_eq!(
        d[2].notes,
        vec![
            "The `__call__` function replaces the default function dispatcher, which makes `pub` modifiers obsolete.".to_string(),
            "Hint: Remove the `pub` modifier or `__call__` function.".to_string(),
        ]
    );
    assert_eq!(d[3].labels[0].message, "`h` can't be public");
}

#[test]
fn event_map_reports_duplicates() {
    let mut b = Builder::new();
    let body = vec![b.event("A", 100), b.event("B", 200), b.event("A", 300)];
    let contract = b.contract("Foo", vec![], body);
    let (mut db, c) = db_with(contract, module(vec![], vec![]));
    let r = contract_event_map(&mut db, c);
    assert_eq!(keys(&r.value), vec!["A", "B"]);
    assert_eq!(r.value.get("A"), Some(&EventId(0)));
    let d = &*r.diagnostics;
    assert_eq!(d.len(), 1);
    assert_eq!(d[0].message, "duplicate event names in `contract Foo`");
    assert_eq!(
        label_texts(&d[0]),
        vec![
            (LabelStyle::Primary, 100, "`A` first defined here".to_string()),
            (LabelStyle::Secondary, 300, "`A` redefined here".to_string()),
        ]
    );
    assert_eq!(contract_event(&mut db, c, "B"), Some(EventId(1)));
    assert_eq!(db.events.len(), 3);
    assert_eq!(contract_event(&mut db, c, "Z"), None);
}

#[test]
fn field_map_reports_duplicates() {
    let mut b = Builder::new();
    let fields = vec![
        b.field("x", "u256", false, false, None, 10),
        b.field("x", "bool", false, false, None, 40),
        b.field("y", "bool", false, false, None, 70),
    ];
    let contract = b.contract("Bar", fields, vec![]);
    let (mut db, c) = db_with(contract, module(vec![], vec![]));
    let r = contract_field_map(&mut db, c);
    assert_eq!(keys(&r.value), vec!["x", "y"]);
    assert_eq!(r.value.get("y"), Some(&ContractFieldId(2)));
    assert_eq!(r.diagnostics.len(), 1);
    assert_eq!(r.diagnostics[0].message, "duplicate field names in `contract Bar`");
    assert_eq!(r.diagnostics[0].labels[0].span.start, 10);
    assert_eq!(r.diagnostics[0].labels[1].span.start, 40);
}

#[test]
fn field_type_resolves_and_reports_unsupported_parts() {
    let mut b = Builder::new();
    let fields = vec![
        b.field("x", "u256", false, false, None, 10),
        b.field("y", "Nope", true, true, Some("42"), 40),
    ];
    let contract = b.contract("Bar", fields, vec![]);
    let types = vec![TypeBinding { desc: "u256".to_string(), typ: Type::Base(Base::Numeric) }];
    let (mut db, c) = db_with(contract, module(vec![], types));
    let ids = contract_all_fields(&mut db, c);
    let x = contract_field_type(&db, ids[0]);
    assert_eq!(x.value, Ok(Type::Base(Base::Numeric)));
    assert!(x.diagnostics.is_empty());
    let y = contract_field_type(&db, ids[1]);
    assert_eq!(y.value, Err(TypeError));
    let d = &*y.diagnostics;
    assert_eq!(d.len(), 4);
    assert_eq!(d[0].message, "undefined type");
    assert_eq!(label_texts(&d[0]), vec![(LabelStyle::Primary, 50, "this type name has not been defined".to_string())]);
    assert_eq!(d[1].message, "feature not yet implemented: contract `pub` fields");
    assert_eq!(label_texts(&d[1]), vec![(LabelStyle::Primary, 40, "not yet implemented".to_string())]);
    assert_eq!(d[2].message, "feature not yet implemented: contract `const` fields");
    assert_eq!(d[3].message, "feature not yet implemented: contract field initial value assignment");
    assert_eq!(d[3].labels[0].span, Span::new(57, 59));
}

#[test]
fn dependency_graph_follows_field_types() {
    let mut b = Builder::new();
    let fields = vec![
        b.field("a", "Other", false, false, None, 10),
        b.field("s", "Point", false, false, None, 40),
        b.field("n", "u256", false, false, None, 70),
        b.field("a", "Point", false, false, None, 100),
    ];
    let contract = b.contract("Main", fields, vec![]);
    let types = vec![
        TypeBinding { desc: "Other".to_string(), typ: Type::Contract(ContractType { id: ContractId(7) }) },
        TypeBinding { desc: "Point".to_string(), typ: Type::Struct(StructType { id: StructId(2), field_count: 2 }) },
        TypeBinding { desc: "u256".to_string(), typ: Type::Base(Base::Numeric) },
    ];
    let (mut db, c) = db_with(contract, module(vec![], types));
    let point = Item::Type(TypeDef::Struct(StructId(2)));
    let other = Item::Type(TypeDef::Contract(ContractId(7)));
    let mut sub = DepGraph::new();
    sub.add_edge(point, Item::Type(TypeDef::Struct(StructId(9))), DepLocality::External);
    db.add_item_graph(point, sub);
    let g = contract_dependency_graph(&mut db, c);
    let root = Item::Type(TypeDef::Contract(c));
    let mut edges = g.0.all_edges();
    edges.sort_by_key(|e| format!("{:?}", e));
    let mut expected = vec![
        (root, other, DepLocality::Local),
        (root, point, DepLocality::Local),
        (point, Item::Type(TypeDef::Struct(StructId(9))), DepLocality::External),
    ];
    expected.sort_by_key(|e| format!("{:?}", e));
    assert_eq!(edges, expected);
    assert_eq!(g.0.edge_count(), 3);
}

#[test]
fn runtime_dependency_graph_reaches_public_functions() {
    let mut b = Builder::new();
    let body = vec![b.func(true, "a", 100), b.func(false, "b", 200), b.func(true, "c", 300)];
    let contract = b.contract("C", vec![], body);
    let (mut db, c) = db_with(contract, module(vec![], vec![]));
    let ids = contract_all_functions(&mut db, c);
    let callee = Item::Function(ids[2]);
    let mut sub = DepGraph::new();
    sub.add_edge(callee, Item::Event(EventId(5)), DepLocality::Local);
    db.add_item_graph(callee, sub);
    let g = contract_runtime_dependency_graph(&mut db, c);
    let root = Item::Type(TypeDef::Contract(c));
    let edges = g.0.all_edges();
    assert_eq!(
        edges,
        vec![
            (root, Item::Function(FunctionId(0)), DepLocality::Local),
            (root, Item::Function(FunctionId(2)), DepLocality::Local),
            (callee, Item::Event(EventId(5)), DepLocality::Local),
        ]
    );
}

#[test]
fn cycle_graphs_are_empty() {
    let db = AnalyzerDb::new();
    let cycle = vec!["a".to_string(), "b".to_string()];
    assert_eq!(contract_dependency_graph_cycle(&db, &cycle, &ContractId(0)).0.edge_count(), 0);
    assert_eq!(contract_runtime_dependency_graph_cycle(&db, &cycle, &ContractId(0)).0.edge_count(), 0);
}

#[test]
fn dep_graph_add_edge_replaces_locality() {
    let a = Item::Function(FunctionId(1));
    let b = Item::Function(FunctionId(2));
    let mut g = DepGraph::new();
    g.add_edge(a, b, DepLocality::Local);
    g.add_edge(b, a, DepLocality::Local);
    g.add_edge(a, b, DepLocality::External);
    assert_eq!(g.edge_count(), 2);
    assert_eq!(g.all_edges(), vec![(a, b, DepLocality::External), (b, a, DepLocality::Local)]);
    let mut h = DepGraph::from_edges(&vec![(b, a, DepLocality::External)]);
    h.extend(&g.all_edges());
    assert_eq!(h.all_edges(), vec![(b, a, DepLocality::Local), (a, b, DepLocality::External)]);
}

#[test]
fn queries_are_stable_on_the_same_database() {
    let mut b = Builder::new();
    let body = vec![
        b.func(false, "__init__", 100),
        b.func(true, "bar", 200),
        b.event("E", 300),
        b.func(true, "__call__", 400),
        b.func(false, "baz", 500),
    ];
    let fields = vec![b.field("x", "u256", false, false, None, 10)];
    let contract = b.contract("C", fields, body);
    let (mut db, c) = db_with(contract, module(vec![], vec![]));
    let all = contract_all_functions(&mut db, c);
    let functions_before = db.functions.len();

    let init1 = contract_init_function(&mut db, c);
    let init2 = contract_init_function(&mut db, c);
    assert_eq!(init1.value, Some(all[0]));
    assert_eq!(init2.value, init1.value);
    assert_eq!(init1.diagnostics.len(), 1);
    assert_eq!(init1.diagnostics[0].message, "`__init__` function is not public");

    let call = contract_call_function(&mut db, c);
    assert_eq!(call.value, Some(all[2]));
    assert_eq!(call.diagnostics.len(), 1);
    assert_eq!(call.diagnostics[0].message, "`pub` not allowed if `__call__` is defined");
    assert_eq!(call.diagnostics[0].labels[0].message, "`bar` can't be public");
    assert_eq!(call.diagnostics[0].labels[0].span.start, 207);

    let map1 = contract_function_map(&mut db, c);
    let map2 = contract_function_map(&mut db, c);
    assert_eq!(keys(&map1.value), vec!["bar", "baz"]);
    assert_eq!(map1.value.get("bar"), Some(&all[1]));
    assert_eq!(map1.value.get("baz"), Some(&all[3]));
    assert_eq!(*map1.value, *map2.value);

    let fields1 = contract_all_fields(&mut db, c);
    let fields2 = contract_field_map(&mut db, c);
    assert_eq!(fields2.value.get("x"), Some(&fields1[0]));
    // only the first run interned the events and fields; the function table did not grow
    assert_eq!(db.functions.len(), functions_before);
    assert_eq!(db.events.len(), 1);
    assert_eq!(db.fields.len(), 1);
}
