//! The shape of the JSON API dump from which a reflection database is made.

use vstd::prelude::*;

verus! {

/// A whole API dump: every class and every enum.
#[derive(Debug)]
pub struct Dump {
    pub classes: Vec<DumpClass>,
    pub enums: Vec<DumpEnum>,
}

/// One class of the dump, with the name of the class it inherits from.
#[derive(Debug)]
pub struct DumpClass {
    pub name: String,
    pub superclass: String,
    pub tags: Vec<String>,
    pub members: Vec<DumpClassMember>,
}

/// A member of a class. Only properties are described in full.
#[derive(Debug)]
pub enum DumpClassMember {
    Property(DumpClassProperty),
    Function { name: String },
    Event { name: String },
    Unknown,
}

/// A property of a class as the dump describes it.
#[derive(Debug)]
pub struct DumpClassProperty {
    pub name: String,
    pub value_type: ValueType,
    pub serialization: Serialization,
    pub tags: Vec<String>,
}

/// The type of a property: its name and the category it falls in.
#[derive(Debug)]
pub struct ValueType {
    pub name: String,
    pub category: ValueCategory,
}

/// The categories of property types.
#[derive(Debug, Clone, Copy)]
pub enum ValueCategory {
    /// Lua primitives like float or string
    Primitive,
    /// Data types like Vector3 or CFrame
    DataType,
    /// An enum like FormFactor or Genre
    Enum,
    /// An instance reference
    Class,
}

/// Whether a property is saved to and loaded from files.
#[derive(Debug)]
pub struct Serialization {
    pub can_save: bool,
    pub can_load: bool,
}

/// One enum of the dump.
#[derive(Debug)]
pub struct DumpEnum {
    pub name: String,
    pub items: Vec<DumpEnumItem>,
}

/// One item of an enum, with its number.
#[derive(Debug)]
pub struct DumpEnumItem {
    pub name: String,
    pub value: u32,
}

} // verus!
