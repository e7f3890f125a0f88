//! Handles of the analyzer's items, and the types that fields resolve to.

use vstd::prelude::*;

verus! {

/// A module, by its index in the database.
#[derive(Debug, PartialEq, Eq, Structural, Copy, Clone, Hash)]
pub struct ModuleId(pub usize);

/// A contract, by its index in the database.
#[derive(Debug, PartialEq, Eq, Structural, Copy, Clone, Hash)]
pub struct ContractId(pub usize);

/// A struct type, by its index in the database.
#[derive(Debug, PartialEq, Eq, Structural, Copy, Clone, Hash)]
pub struct StructId(pub usize);

/// An interned function, by its index in the database.
#[derive(Debug, PartialEq, Eq, Structural, Copy, Clone, Hash)]
pub struct FunctionId(pub usize);

/// An interned event, by its index in the database.
#[derive(Debug, PartialEq, Eq, Structural, Copy, Clone, Hash)]
pub struct EventId(pub usize);

/// An interned contract field, by its index in the database.
#[derive(Debug, PartialEq, Eq, Structural, Copy, Clone, Hash)]
pub struct ContractFieldId(pub usize);

/// What a function is defined in, if not directly in a module.
#[derive(Debug, PartialEq, Eq, Structural, Copy, Clone, Hash)]
pub enum Class {
    Contract(ContractId),
    Struct(StructId),
}

/// A user-defined type.
#[derive(Debug, PartialEq, Eq, Structural, Copy, Clone, Hash)]
pub enum TypeDef {
    Contract(ContractId),
    Struct(StructId),
}

/// Anything that can be depended on.
#[derive(Debug, PartialEq, Eq, Structural, Copy, Clone, Hash)]
pub enum Item {
    Type(TypeDef),
    Function(FunctionId),
    Event(EventId),
}

/// Whether a dependency stays within the dependent's own code.
#[derive(Debug, PartialEq, Eq, Structural, Copy, Clone, Hash)]
pub enum DepLocality {
    Local,
    External,
}

/// The built-in value types.
#[derive(Debug, PartialEq, Eq, Structural, Copy, Clone, Hash)]
pub enum Base {
    Numeric,
    Bool,
    Address,
    Unit,
}

/// A contract type.
#[derive(Debug, PartialEq, Eq, Structural, Copy, Clone, Hash)]
pub struct ContractType {
    pub id: ContractId,
}

/// A struct type.
#[derive(Debug, PartialEq, Eq, Structural, Copy, Clone, Hash)]
pub struct StructType {
    pub id: StructId,
    pub field_count: usize,
}

/// A resolved type.
#[derive(Debug, PartialEq, Eq, Structural, Copy, Clone, Hash)]
pub enum Type {
    Base(Base),
    String { max_size: usize },
    Contract(ContractType),
    Struct(StructType),
}

/// A type that could not be resolved; its diagnostic has been reported.
#[derive(Debug, PartialEq, Eq, Structural, Copy, Clone, Hash)]
pub struct TypeError;

} // verus!
