//! The analyzer's database: the parsed contracts, the modules they live in,
//! the interned functions, events and fields, and the dependency graphs of
//! items that other passes computed.
//!
//! Interning hands out the index of the first equal entry of its table, and
//! appends the data first where there is none: equal data always gets the
//! same id.

use vstd::prelude::*;
use std::rc::Rc;
use crate::span::Span;
use crate::node::Node;
use crate::ast;
use crate::items::{ModuleId, ContractId, FunctionId, EventId, ContractFieldId, Class, Item, Type, TypeError};
use crate::depgraph::DepGraph;
use crate::intern::{
    intern_one, matching, lemma_intern_one, lemma_same_reflexive, same_function_rel, same_event_rel, same_field_rel,
    function_eq, event_eq, field_eq,
};
use crate::diagnostics::{Diagnostic, DiagnosticView, error_view, primary};

verus! {

/// A name that a module defines or that is built in: the name, what kind of
/// thing it names (as shown to the user), and where it is defined (`None`
/// for a built-in).
pub struct NamedItem {
    pub name: String,
    pub kind_name: String,
    pub span: Option<Span>,
}

/// A type name that resolves, in a module, to `typ`.
pub struct TypeBinding {
    pub desc: String,
    pub typ: Type,
}

/// A module: the names it can resolve, in lookup order, and the types that
/// type names resolve to in it.
pub struct ModuleData {
    pub names: Vec<NamedItem>,
    pub types: Vec<TypeBinding>,
}

/// A contract: its syntax tree and the module it is defined in.
pub struct ContractData {
    pub ast: Node<ast::Contract>,
    pub module: ModuleId,
}

/// An interned function.
pub struct FunctionData {
    pub ast: Node<ast::Function>,
    pub module: ModuleId,
    pub parent: Option<Class>,
}

/// An interned event.
pub struct EventData {
    pub ast: Node<ast::Event>,
    pub contract: ContractId,
}

/// An interned contract field.
pub struct ContractFieldData {
    pub ast: Node<ast::Field>,
    pub parent: ContractId,
}

/// The dependency graph of an item.
pub struct ItemGraph {
    pub item: Item,
    pub graph: DepGraph,
}

/// The analyzer's database.
pub struct AnalyzerDb {
    pub modules: Vec<ModuleData>,
    pub contracts: Vec<ContractData>,
    pub functions: Vec<FunctionData>,
    pub events: Vec<EventData>,
    pub fields: Vec<ContractFieldData>,
    pub item_graphs: Vec<ItemGraph>,
}

/// The result of a query together with the diagnostics it reported.
pub struct Analysis<T> {
    pub value: T,
    pub diagnostics: Rc<Vec<Diagnostic>>,
}

/// `i` is the first position of `s` that satisfies `p`.
pub open spec fn is_first<A>(s: Seq<A>, p: spec_fn(A) -> bool, i: int) -> bool {
    &&& 0 <= i < s.len()
    &&& p(s[i])
    &&& forall|j: int| 0 <= j < i ==> !p(#[trigger] s[j])
}

/// The first position of `s` that satisfies `p`, if any.
pub open spec fn first_index<A>(s: Seq<A>, p: spec_fn(A) -> bool) -> Option<int> {
    if exists|i: int| is_first(s, p, i) {
        Some(choose|i: int| is_first(s, p, i))
    } else {
        None
    }
}

/// The first position that satisfies `p` is `first_index`.
pub proof fn lemma_first_index_found<A>(s: Seq<A>, p: spec_fn(A) -> bool, i: int)
    requires
        is_first(s, p, i),
    ensures
        first_index(s, p) == Some(i),
{
    let k = choose|k: int| is_first(s, p, k);
    assert(is_first(s, p, k));
    if k < i {
        assert(!p(s[k]));
    } else if k > i {
        assert(!p(s[i]));
    }
}

/// Where no position satisfies `p`, `first_index` is `None`.
pub proof fn lemma_first_index_none<A>(s: Seq<A>, p: spec_fn(A) -> bool)
    requires
        forall|j: int| 0 <= j < s.len() ==> !p(#[trigger] s[j]),
    ensures
        first_index(s, p) is None,
{
    if exists|i: int| is_first(s, p, i) {
        let k = choose|k: int| is_first(s, p, k);
        assert(!p(s[k]));
    }
}

/// The position that `first_index` gives is the first position that
/// satisfies `p`.
pub proof fn lemma_first_index_some<A>(s: Seq<A>, p: spec_fn(A) -> bool)
    requires
        first_index(s, p) is Some,
    ensures
        is_first(s, p, first_index(s, p)->0),
{
}

/// `a` is the beginning of `b`.
pub open spec fn prefix<A>(a: Seq<A>, b: Seq<A>) -> bool {
    a.len() <= b.len() && forall|i: int| 0 <= i < a.len() ==> #[trigger] a[i] == b[i]
}

/// The name of a module-level name.
pub open spec fn named_item_is(name: Seq<char>) -> spec_fn(NamedItem) -> bool {
    |n: NamedItem| n.name@ == name
}

/// A type binding for the type name `desc`.
pub open spec fn binding_is(desc: Seq<char>) -> spec_fn(TypeBinding) -> bool {
    |b: TypeBinding| b.desc@ == desc
}

/// An item graph for `item`.
pub open spec fn graph_of_is(item: Item) -> spec_fn(ItemGraph) -> bool {
    |g: ItemGraph| g.item == item
}

/// What resolving the type written `desc` (spanning `span`) in a module with
/// the bindings `types` gives: the bound type, or an error with one
/// diagnostic.
pub open spec fn spec_type_desc(types: Seq<TypeBinding>, desc: Seq<char>, span: Span) -> (Result<Type, TypeError>, Seq<DiagnosticView>) {
    match first_index(types, binding_is(desc)) {
        Some(i) => (Ok(types[i].typ), seq![]),
        None => (
            Err(TypeError),
            seq![error_view("undefined type"@, seq![primary(span, "this type name has not been defined"@)], seq![])],
        ),
    }
}

impl AnalyzerDb {
    /// Every contract's module and every field's contract is in the database.
    pub open spec fn wf(&self) -> bool {
        &&& forall|c: int| 0 <= c < self.contracts.len() ==> (#[trigger] self.contracts@[c]).module.0 < self.modules.len()
        &&& forall|f: int| 0 <= f < self.fields.len() ==> (#[trigger] self.fields@[f]).parent.0 < self.contracts.len()
    }

    /// `new` is `self` with possibly more interned functions, events and
    /// fields.
    pub open spec fn extended_by(&self, new: AnalyzerDb) -> bool {
        &&& new.modules@ == self.modules@
        &&& new.contracts@ == self.contracts@
        &&& new.item_graphs@ == self.item_graphs@
        &&& prefix(self.functions@, new.functions@)
        &&& prefix(self.events@, new.events@)
        &&& prefix(self.fields@, new.fields@)
    }

    /// `new` differs from `self` at most in its function table.
    pub open spec fn same_but_functions(&self, new: AnalyzerDb) -> bool {
        &&& new.modules@ == self.modules@
        &&& new.contracts@ == self.contracts@
        &&& new.item_graphs@ == self.item_graphs@
        &&& new.events@ == self.events@
        &&& new.fields@ == self.fields@
    }

    /// `new` differs from `self` at most in its event table.
    pub open spec fn same_but_events(&self, new: AnalyzerDb) -> bool {
        &&& new.modules@ == self.modules@
        &&& new.contracts@ == self.contracts@
        &&& new.item_graphs@ == self.item_graphs@
        &&& new.functions@ == self.functions@
        &&& new.fields@ == self.fields@
    }

    /// `new` differs from `self` at most in its field table.
    pub open spec fn same_but_fields(&self, new: AnalyzerDb) -> bool {
        &&& new.modules@ == self.modules@
        &&& new.contracts@ == self.contracts@
        &&& new.item_graphs@ == self.item_graphs@
        &&& new.functions@ == self.functions@
        &&& new.events@ == self.events@
    }

    /// The contract `c`.
    pub open spec fn contract(&self, c: ContractId) -> ContractData {
        self.contracts@[c.0 as int]
    }

    /// The module that contract `c` is defined in.
    pub open spec fn contract_module(&self, c: ContractId) -> ModuleData {
        self.modules@[self.contract(c).module.0 as int]
    }

    /// An empty database.
    pub fn new() -> (db: AnalyzerDb)
        ensures
            db.wf(),
            db.modules@.len() == 0,
            db.contracts@.len() == 0,
            db.functions@.len() == 0,
            db.events@.len() == 0,
            db.fields@.len() == 0,
            db.item_graphs@.len() == 0,
    {
        AnalyzerDb {
            modules: Vec::new(),
            contracts: Vec::new(),
            functions: Vec::new(),
            events: Vec::new(),
            fields: Vec::new(),
            item_graphs: Vec::new(),
        }
    }

    /// Adds a module and returns its id.
    pub fn add_module(&mut self, module: ModuleData) -> (id: ModuleId)
        requires
            old(self).wf(),
        ensures
            final(self).wf(),
            id.0 == old(self).modules.len(),
            final(self).modules@ == old(self).modules@.push(module),
            final(self).contracts@ == old(self).contracts@,
            final(self).functions@ == old(self).functions@,
            final(self).events@ == old(self).events@,
            final(self).fields@ == old(self).fields@,
            final(self).item_graphs@ == old(self).item_graphs@,
    {
        let id = ModuleId(self.modules.len());
        self.modules.push(module);
        id
    }

    /// Adds a contract of module `module` and returns its id.
    pub fn add_contract(&mut self, ast: Node<ast::Contract>, module: ModuleId) -> (id: ContractId)
        requires
            old(self).wf(),
            module.0 < old(self).modules.len(),
        ensures
            final(self).wf(),
            id.0 == old(self).contracts.len(),
            final(self).contracts@ == old(self).contracts@.push(ContractData { ast, module }),
            final(self).modules@ == old(self).modules@,
            final(self).functions@ == old(self).functions@,
            final(self).events@ == old(self).events@,
            final(self).fields@ == old(self).fields@,
            final(self).item_graphs@ == old(self).item_graphs@,
    {
        let id = ContractId(self.contracts.len());
        self.contracts.push(ContractData { ast, module });
        proof {
            assert forall|c: int| 0 <= c < self.contracts.len() implies (#[trigger] self.contracts@[c]).module.0 < self.modules.len() by {
                if c < old(self).contracts.len() {
                    assert(self.contracts@[c] == old(self).contracts@[c]);
                }
            }
        }
        id
    }

    /// Records the dependency graph of `item`.
    pub fn add_item_graph(&mut self, item: Item, graph: DepGraph)
        requires
            old(self).wf(),
        ensures
            final(self).wf(),
            final(self).item_graphs@ == old(self).item_graphs@.push(ItemGraph { item, graph }),
            final(self).modules@ == old(self).modules@,
            final(self).contracts@ == old(self).contracts@,
            final(self).functions@ == old(self).functions@,
            final(self).events@ == old(self).events@,
            final(self).fields@ == old(self).fields@,
    {
        self.item_graphs.push(ItemGraph { item, graph });
    }

    /// Interns function data: the index of the first equal entry of the
    /// table, after appending the data if there is none.
    pub fn intern_function(&mut self, data: FunctionData) -> (id: FunctionId)
        requires
            old(self).wf(),
        ensures
            final(self).wf(),
            final(self).functions@ == intern_one(old(self).functions@, data, same_function_rel()),
            first_index(final(self).functions@, matching(same_function_rel(), data)) == Some(id.0 as int),
            final(self).modules@ == old(self).modules@,
            final(self).contracts@ == old(self).contracts@,
            final(self).events@ == old(self).events@,
            final(self).fields@ == old(self).fields@,
            final(self).item_graphs@ == old(self).item_graphs@,
    {
        proof {
            lemma_same_reflexive();
            lemma_intern_one(self.functions@, data, same_function_rel());
        }
        let n = self.functions.len();
        let mut i: usize = 0;
        while i < n
            invariant
                n == self.functions.len(),
                0 <= i <= n,
                *self == *old(self),
                self.wf(),
                forall|j: int| 0 <= j < i ==> !matching(same_function_rel(), data)(#[trigger] self.functions@[j]),
            decreases n - i,
        {
            if function_eq(&self.functions[i], &data) {
                proof {
                    lemma_first_index_found(self.functions@, matching(same_function_rel(), data), i as int);
                }
                return FunctionId(i);
            }
            i = i + 1;
        }
        proof {
            lemma_first_index_none(self.functions@, matching(same_function_rel(), data));
        }
        let id = FunctionId(self.functions.len());
        self.functions.push(data);
        id
    }

    /// Interns event data: the index of the first equal entry of the
    /// table, after appending the data if there is none.
    pub fn intern_event(&mut self, data: EventData) -> (id: EventId)
        requires
            old(self).wf(),
        ensures
            final(self).wf(),
            final(self).events@ == intern_one(old(self).events@, data, same_event_rel()),
            first_index(final(self).events@, matching(same_event_rel(), data)) == Some(id.0 as int),
            final(self).modules@ == old(self).modules@,
            final(self).contracts@ == old(self).contracts@,
            final(self).functions@ == old(self).functions@,
            final(self).fields@ == old(self).fields@,
            final(self).item_graphs@ == old(self).item_graphs@,
    {
        proof {
            lemma_same_reflexive();
            lemma_intern_one(self.events@, data, same_event_rel());
        }
        let n = self.events.len();
        let mut i: usize = 0;
        while i < n
            invariant
                n == self.events.len(),
                0 <= i <= n,
                *self == *old(self),
                self.wf(),
                forall|j: int| 0 <= j < i ==> !matching(same_event_rel(), data)(#[trigger] self.events@[j]),
            decreases n - i,
        {
            if event_eq(&self.events[i], &data) {
                proof {
                    lemma_first_index_found(self.events@, matching(same_event_rel(), data), i as int);
                }
                return EventId(i);
            }
            i = i + 1;
        }
        proof {
            lemma_first_index_none(self.events@, matching(same_event_rel(), data));
        }
        let id = EventId(self.events.len());
        self.events.push(data);
        id
    }

    /// Interns contract_field data: the index of the first equal entry of the
    /// table, after appending the data if there is none.
    pub fn intern_contract_field(&mut self, data: ContractFieldData) -> (id: ContractFieldId)
        requires
            old(self).wf(),
            data.parent.0 < old(self).contracts.len(),
        ensures
            final(self).wf(),
            final(self).fields@ == intern_one(old(self).fields@, data, same_field_rel()),
            first_index(final(self).fields@, matching(same_field_rel(), data)) == Some(id.0 as int),
            final(self).modules@ == old(self).modules@,
            final(self).contracts@ == old(self).contracts@,
            final(self).functions@ == old(self).functions@,
            final(self).events@ == old(self).events@,
            final(self).item_graphs@ == old(self).item_graphs@,
    {
        proof {
            lemma_same_reflexive();
            lemma_intern_one(self.fields@, data, same_field_rel());
        }
        let n = self.fields.len();
        let mut i: usize = 0;
        while i < n
            invariant
                n == self.fields.len(),
                0 <= i <= n,
                *self == *old(self),
                self.wf(),
                forall|j: int| 0 <= j < i ==> !matching(same_field_rel(), data)(#[trigger] self.fields@[j]),
            decreases n - i,
        {
            if field_eq(&self.fields[i], &data) {
                proof {
                    lemma_first_index_found(self.fields@, matching(same_field_rel(), data), i as int);
                }
                return ContractFieldId(i);
            }
            i = i + 1;
        }
        proof {
            lemma_first_index_none(self.fields@, matching(same_field_rel(), data));
        }
        let id = ContractFieldId(self.fields.len());
        self.fields.push(data);
        proof {
            assert forall|f: int| 0 <= f < self.fields.len() implies (#[trigger] self.fields@[f]).parent.0 < self.contracts.len() by {
                if f < old(self).fields.len() {
                    assert(self.fields@[f] == old(self).fields@[f]);
                }
            }
        }
        id
    }

    /// The position of the first name of `module` that is `name`, if any.
    pub fn resolve_name(&self, module: ModuleId, name: &String) -> (r: Option<usize>)
        requires
            module.0 < self.modules.len(),
        ensures
            r matches Some(i) ==> first_index(self.modules@[module.0 as int].names@, named_item_is(name@)) == Some(i as int),
            r is None ==> first_index(self.modules@[module.0 as int].names@, named_item_is(name@)) is None,
    {
        let names = &self.modules[module.0].names;
        let n = names.len();
        let mut i: usize = 0;
        while i < n
            invariant
                n == names.len(),
                0 <= i <= n,
                names == &self.modules@[module.0 as int].names,
                forall|j: int| 0 <= j < i ==> !named_item_is(name@)(#[trigger] names@[j]),
            decreases n - i,
        {
            if names[i].name == *name {
                proof {
                    lemma_first_index_found(names@, named_item_is(name@), i as int);
                }
                return Some(i);
            }
            i = i + 1;
        }
        proof {
            lemma_first_index_none(names@, named_item_is(name@));
        }
        None
    }

    /// The type that the type name `desc` resolves to in `module`: that of
    /// the first binding of that name, if any.
    pub fn resolve_type(&self, module: ModuleId, desc: &String) -> (r: Option<Type>)
        requires
            module.0 < self.modules.len(),
        ensures
            r == match first_index(self.modules@[module.0 as int].types@, binding_is(desc@)) {
                Some(i) => Some(self.modules@[module.0 as int].types@[i].typ),
                None => None,
            },
    {
        let types = &self.modules[module.0].types;
        let n = types.len();
        let mut i: usize = 0;
        while i < n
            invariant
                n == types.len(),
                0 <= i <= n,
                types == &self.modules@[module.0 as int].types,
                forall|j: int| 0 <= j < i ==> !binding_is(desc@)(#[trigger] types@[j]),
            decreases n - i,
        {
            if types[i].desc == *desc {
                proof {
                    lemma_first_index_found(types@, binding_is(desc@), i as int);
                }
                return Some(types[i].typ);
            }
            i = i + 1;
        }
        proof {
            lemma_first_index_none(types@, binding_is(desc@));
        }
        None
    }

    /// The dependency graph recorded for `item`, if any (the first one).
    pub fn dependency_graph(&self, item: Item) -> (r: Option<&DepGraph>)
        ensures
            r matches Some(g) ==> exists|i: int|
                first_index(self.item_graphs@, graph_of_is(item)) == Some(i) && *g == self.item_graphs@[i].graph,
            r is None ==> first_index(self.item_graphs@, graph_of_is(item)) is None,
    {
        let n = self.item_graphs.len();
        let mut i: usize = 0;
        while i < n
            invariant
                n == self.item_graphs.len(),
                0 <= i <= n,
                forall|j: int| 0 <= j < i ==> !graph_of_is(item)(#[trigger] self.item_graphs@[j]),
            decreases n - i,
        {
            if self.item_graphs[i].item == item {
                proof {
                    lemma_first_index_found(self.item_graphs@, graph_of_is(item), i as int);
                }
                return Some(&self.item_graphs[i].graph);
            }
            i = i + 1;
        }
        proof {
            lemma_first_index_none(self.item_graphs@, graph_of_is(item));
        }
        None
    }
}

} // verus!
