//! The reflection database: classes, their superclasses and the properties
//! that each class declares.

use crate::api_dump::Dump;
use crate::text::str_eq;
use crate::value::DataType;
use vstd::prelude::*;

verus! {

/// The first position at or after `from` at which `names` holds `name`.
pub open spec fn first_index_from(names: Seq<Seq<char>>, name: Seq<char>, from: int) -> Option<int>
    decreases names.len() - from,
{
    if from < 0 || from >= names.len() {
        None
    } else if names[from] == name {
        Some(from)
    } else {
        first_index_from(names, name, from + 1)
    }
}

/// What `first_index_from` finds is a position that holds the name, and no
/// earlier position from `from` on holds it.
pub proof fn lemma_first_index_from(names: Seq<Seq<char>>, name: Seq<char>, from: int)
    requires
        0 <= from,
    ensures
        match first_index_from(names, name, from) {
            Some(i) => from <= i < names.len() && names[i] == name && forall|k: int|
                from <= k < i ==> names[k] != name,
            None => forall|k: int| from <= k < names.len() ==> names[k] != name,
        },
    decreases names.len() - from,
{
    if from < names.len() && names[from] != name {
        lemma_first_index_from(names, name, from + 1);
    }
}

/// Describes the type of a property.
#[derive(Debug)]
pub enum PropertyType {
    /// The property is a regular value of the given type.
    Data(DataType),
    /// The property is an enum with the given name.
    Enum(String),
    /// The property has a type with the given name that values cannot
    /// represent yet.
    UnimplementedType(String),
}

/// Describes a property of a class.
///
/// A canonical property is the preferred form of a value. A property that is
/// not canonical either names its canonical form, or has none and is then
/// never serialized.
#[derive(Debug)]
pub struct PropertyDescriptor {
    /// The name of the property.
    pub name: String,
    /// The type of the property.
    pub value_type: PropertyType,
    /// Whether the property is canonical.
    pub is_canonical: bool,
    /// For a property that is not canonical, the name of its canonical form.
    pub canonical_name: Option<String>,
    /// The name under which the property is serialized, where that differs
    /// from its own name.
    pub serialized_name: Option<String>,
}

/// Describes a class: its superclass and the properties it declares itself.
#[derive(Debug)]
pub struct ClassDescriptor {
    /// The name of the class.
    pub name: String,
    /// The name of the class that this class inherits from, if any.
    pub superclass: Option<String>,
    /// The properties that the class declares. Inherited ones are not listed.
    pub properties: Vec<PropertyDescriptor>,
}

impl ClassDescriptor {
    /// The names of the declared properties, in storage order.
    pub open spec fn property_names(&self) -> Seq<Seq<char>> {
        self.properties@.map_values(|p: PropertyDescriptor| p.name@)
    }

    /// The position of the descriptor that the class declares under `name`:
    /// the first one, should several carry the name.
    pub open spec fn find_property(&self, name: Seq<char>) -> Option<int> {
        first_index_from(self.property_names(), name, 0)
    }

    /// Whether the serialized name of `property`, if it has one, is declared
    /// on this class.
    pub open spec fn serialized_link_holds(&self, property: PropertyDescriptor) -> bool {
        match property.serialized_name {
            Some(serialized) => self.find_property(serialized@) is Some,
            None => true,
        }
    }

    /// Whether the names that the descriptor at `index` refers to are
    /// declared on this class, and the descriptor is not both canonical and
    /// an alias of a canonical one.
    pub open spec fn links_hold(&self, index: int) -> bool {
        let property = self.properties@[index];
        if property.is_canonical {
            property.canonical_name is None && self.serialized_link_holds(property)
        } else {
            match property.canonical_name {
                Some(canonical) => match self.find_property(canonical@) {
                    Some(c) => self.serialized_link_holds(self.properties@[c]),
                    None => false,
                },
                None => true,
            }
        }
    }

    /// Whether every descriptor of the class refers to declared names only.
    pub open spec fn wf(&self) -> bool {
        forall|index: int| 0 <= index < self.properties@.len() ==> #[trigger] self.links_hold(index)
    }

    /// Finds the position of the descriptor declared under `name`.
    pub fn property_index(&self, name: &str) -> (found: Option<usize>)
        ensures
            match found {
                Some(i) => self.find_property(name@) == Some(i as int)
                    && i < self.properties@.len(),
                None => self.find_property(name@) is None,
            },
    {
        let ghost names = self.property_names();
        let mut i: usize = 0;
        while i < self.properties.len()
            invariant
                i <= self.properties@.len(),
                names == self.property_names(),
                first_index_from(names, name@, 0) == first_index_from(names, name@, i as int),
            decreases self.properties@.len() - i,
        {
            if str_eq(self.properties[i].name.as_str(), name) {
                return Some(i);
            }
            i += 1;
        }
        None
    }

    /// Locates the property descriptor on this class with the given name if
    /// it exists. Descriptors inherited from a superclass are not found here.
    pub fn get_property_descriptor(&self, name: &str) -> (found: Option<&PropertyDescriptor>)
        ensures
            match found {
                Some(property) => self.find_property(name@) matches Some(i) && *property
                    == self.properties@[i],
                None => self.find_property(name@) is None,
            },
    {
        match self.property_index(name) {
            Some(i) => Some(&self.properties[i]),
            None => None,
        }
    }

    /// Checks whether the serialized name of the descriptor at `index` is
    /// declared on this class.
    fn check_serialized_link(&self, index: usize) -> (holds: bool)
        requires
            index < self.properties@.len(),
        ensures
            holds == self.serialized_link_holds(self.properties@[index as int]),
    {
        match &self.properties[index].serialized_name {
            Some(serialized) => self.property_index(serialized.as_str()).is_some(),
            None => true,
        }
    }

    /// Checks whether the descriptor at `index` refers to declared names only.
    fn check_links(&self, index: usize) -> (holds: bool)
        requires
            index < self.properties@.len(),
        ensures
            holds == self.links_hold(index as int),
    {
        let property = &self.properties[index];
        if property.is_canonical {
            property.canonical_name.is_none() && self.check_serialized_link(index)
        } else {
            match &property.canonical_name {
                Some(canonical) => match self.property_index(canonical.as_str()) {
                    Some(c) => self.check_serialized_link(c),
                    None => false,
                },
                None => true,
            }
        }
    }

    /// Checks whether every descriptor of the class refers to declared names
    /// only.
    pub fn is_consistent(&self) -> (consistent: bool)
        ensures
            consistent == self.wf(),
    {
        let mut i: usize = 0;
        while i < self.properties.len()
            invariant
                i <= self.properties@.len(),
                forall|index: int| 0 <= index < i ==> #[trigger] self.links_hold(index),
            decreases self.properties@.len() - i,
        {
            if !self.check_links(i) {
                return false;
            }
            i += 1;
        }
        true
    }
}

/// A reflection database: the dump it was made from, the version of the
/// application that produced the dump, and the classes.
#[derive(Debug)]
pub struct ReflectionDatabase {
    pub dump: Dump,
    pub studio_version: [u32; 4],
    /// The classes. A class is looked up by name; should several carry the
    /// same name, the first one is found.
    pub classes: Vec<ClassDescriptor>,
}

impl ReflectionDatabase {
    /// The names of the classes, in storage order.
    pub open spec fn class_names(&self) -> Seq<Seq<char>> {
        self.classes@.map_values(|c: ClassDescriptor| c.name@)
    }

    /// The position of the class with the given name.
    pub open spec fn find_class(&self, name: Seq<char>) -> Option<int> {
        first_index_from(self.class_names(), name, 0)
    }

    /// Whether following superclass names from the class at `index` reaches a
    /// class without superclass after at most `steps` steps, each superclass
    /// on the way being a class of the database.
    pub open spec fn reaches_root(&self, index: int, steps: nat) -> bool
        decreases steps,
    {
        match self.classes@[index].superclass {
            None => true,
            Some(superclass) => steps > 0 && match self.find_class(superclass@) {
                Some(parent) => self.reaches_root(parent, (steps - 1) as nat),
                None => false,
            },
        }
    }

    /// Whether the database is consistent: every superclass exists, no class
    /// inherits from itself however indirectly, and every descriptor refers
    /// to names that its class declares.
    ///
    /// A chain of superclasses without a cycle visits no class twice, so it
    /// has fewer links than there are classes.
    pub open spec fn wf(&self) -> bool {
        forall|index: int| 0 <= index < self.classes@.len() ==> #[trigger] self.class_holds(index)
    }

    /// Whether the superclass chain of the class at `index` ends, and the
    /// descriptors of the class refer to declared names only.
    pub open spec fn class_holds(&self, index: int) -> bool {
        &&& self.reaches_root(index, self.classes@.len())
        &&& self.classes@[index].wf()
    }

    /// Finds the position of the class with the given name.
    pub fn class_index(&self, name: &str) -> (found: Option<usize>)
        ensures
            match found {
                Some(i) => self.find_class(name@) == Some(i as int) && i < self.classes@.len(),
                None => self.find_class(name@) is None,
            },
    {
        let ghost names = self.class_names();
        let mut i: usize = 0;
        while i < self.classes.len()
            invariant
                i <= self.classes@.len(),
                names == self.class_names(),
                first_index_from(names, name@, 0) == first_index_from(names, name@, i as int),
            decreases self.classes@.len() - i,
        {
            if str_eq(self.classes[i].name.as_str(), name) {
                return Some(i);
            }
            i += 1;
        }
        None
    }

    /// Returns the class descriptor with the given name, if the database has
    /// one.
    pub fn get_class(&self, name: &str) -> (found: Option<&ClassDescriptor>)
        ensures
            match found {
                Some(class) => self.find_class(name@) matches Some(i) && *class == self.classes@[i],
                None => self.find_class(name@) is None,
            },
    {
        match self.class_index(name) {
            Some(i) => Some(&self.classes[i]),
            None => None,
        }
    }

    /// Checks whether the superclass chain of the class at `index` ends after
    /// at most as many steps as there are classes.
    fn check_chain(&self, index: usize) -> (ends: bool)
        requires
            index < self.classes@.len(),
        ensures
            ends == self.reaches_root(index as int, self.classes@.len()),
    {
        let mut current: usize = index;
        let mut left: usize = self.classes.len();
        loop
            invariant
                current < self.classes@.len(),
                left <= self.classes@.len(),
                self.reaches_root(index as int, self.classes@.len()) == self.reaches_root(
                    current as int,
                    left as nat,
                ),
            decreases left,
        {
            match &self.classes[current].superclass {
                None => {
                    return true;
                },
                Some(superclass) => {
                    if left == 0 {
                        return false;
                    }
                    match self.class_index(superclass.as_str()) {
                        Some(parent) => {
                            current = parent;
                            left -= 1;
                        },
                        None => {
                            return false;
                        },
                    }
                },
            }
        }
    }

    /// Checks whether the database is consistent.
    pub fn is_consistent(&self) -> (consistent: bool)
        ensures
            consistent == self.wf(),
    {
        let mut i: usize = 0;
        while i < self.classes.len()
            invariant
                i <= self.classes@.len(),
                forall|index: int| 0 <= index < i ==> #[trigger] self.class_holds(index),
            decreases self.classes@.len() - i,
        {
            if !self.check_chain(i) || !self.classes[i].is_consistent() {
                assert(!self.class_holds(i as int));
                return false;
            }
            assert(self.class_holds(i as int));
            i += 1;
        }
        true
    }
}

} // verus!
