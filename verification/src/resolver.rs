//! Resolution of a property name on a class to its canonical and its
//! serialized descriptor, by walking up the class hierarchy.

use crate::database::ClassDescriptor;
use crate::database::PropertyDescriptor;
use crate::database::ReflectionDatabase;
use vstd::prelude::*;

verus! {

/// Where the descriptors of a property stand in a database.
pub enum Lookup {
    /// The property has a canonical form. `class` is the position of the
    /// class that declares it, `canonical` and `serialized` the positions of
    /// the two descriptors among that class's properties.
    Resolved { class: int, canonical: int, serialized: int },
    /// A class declares the property, but it has no canonical form: it is
    /// known and deliberately left out.
    Unrepresentable,
    /// No class of the hierarchy declares the property, or the class itself
    /// is not in the database.
    Unknown,
}

/// What a database knows of a property name on a class.
pub enum Resolution<'a> {
    /// The canonical descriptor of the property and the descriptor under
    /// whose name and type it is serialized. The two may be the same.
    Resolved { canonical: &'a PropertyDescriptor, serialized: &'a PropertyDescriptor },
    /// The property is known and has no canonical form: it is never
    /// serialized.
    Unrepresentable,
    /// The property is not known to any class of the hierarchy.
    Unknown,
}

impl ClassDescriptor {
    /// The position of the descriptor under which the descriptor at
    /// `canonical` is serialized: the one it names, or itself.
    pub open spec fn serialized_form(&self, canonical: int) -> int {
        match self.properties@[canonical].serialized_name {
            Some(serialized) => match self.find_property(serialized@) {
                Some(s) => s,
                None => canonical,
            },
            None => canonical,
        }
    }

    /// What this class itself says of a property name: `None` where it does
    /// not declare the name, the positions of the canonical and the
    /// serialized descriptor where the property has a canonical form, and
    /// `Some(None)` where it has none.
    pub open spec fn declared_form(&self, name: Seq<char>) -> Option<Option<(int, int)>> {
        match self.find_property(name) {
            None => None,
            Some(p) => {
                let property = self.properties@[p];
                if property.is_canonical {
                    Some(Some((p, self.serialized_form(p))))
                } else {
                    match property.canonical_name {
                        Some(canonical) => match self.find_property(canonical@) {
                            Some(c) => Some(Some((c, self.serialized_form(c)))),
                            None => Some(None),
                        },
                        None => Some(None),
                    }
                }
            },
        }
    }
}

impl ReflectionDatabase {
    /// Resolves a property name starting at the class at `index`, following
    /// at most `steps` superclass links.
    pub open spec fn lookup_from(&self, index: int, name: Seq<char>, steps: nat) -> Lookup
        decreases steps,
    {
        let class = self.classes@[index];
        match class.declared_form(name) {
            Some(Some((canonical, serialized))) => Lookup::Resolved {
                class: index,
                canonical,
                serialized,
            },
            Some(None) => Lookup::Unrepresentable,
            None => match class.superclass {
                None => Lookup::Unknown,
                Some(superclass) => if steps == 0 {
                    Lookup::Unknown
                } else {
                    match self.find_class(superclass@) {
                        Some(parent) => self.lookup_from(parent, name, (steps - 1) as nat),
                        None => Lookup::Unknown,
                    }
                },
            },
        }
    }

    /// Resolves a property name on the class with the given name.
    pub open spec fn lookup(&self, class_name: Seq<char>, name: Seq<char>) -> Lookup {
        match self.find_class(class_name) {
            Some(index) => self.lookup_from(index, name, self.classes@.len()),
            None => Lookup::Unknown,
        }
    }

    /// Whether some class declares `name` among the class at `index` and the
    /// superclasses reached from it in at most `steps` steps.
    pub open spec fn declared_on_chain(&self, index: int, name: Seq<char>, steps: nat) -> bool
        decreases steps,
    {
        let class = self.classes@[index];
        class.find_property(name) is Some || match class.superclass {
            None => false,
            Some(superclass) => steps > 0 && match self.find_class(superclass@) {
                Some(parent) => self.declared_on_chain(parent, name, (steps - 1) as nat),
                None => false,
            },
        }
    }

    /// A superclass chain of `depth` links is resolved in `depth` steps:
    /// allowing more steps does not change the answer.
    pub proof fn lemma_resolution_bounded_by_depth(
        &self,
        index: int,
        name: Seq<char>,
        depth: nat,
        steps: nat,
    )
        requires
            self.reaches_root(index, depth),
            depth <= steps,
        ensures
            self.lookup_from(index, name, steps) == self.lookup_from(index, name, depth),
        decreases depth,
    {
        let class = self.classes@[index];
        if class.declared_form(name) is None {
            match class.superclass {
                None => {},
                Some(superclass) => {
                    let parent = self.find_class(superclass@).unwrap();
                    self.lemma_resolution_bounded_by_depth(
                        parent,
                        name,
                        (depth - 1) as nat,
                        (steps - 1) as nat,
                    );
                },
            }
        }
    }

    /// A property that no class of the chain declares resolves to
    /// [`Lookup::Unknown`], and only such a property does.
    pub proof fn lemma_unknown_iff_undeclared(&self, index: int, name: Seq<char>, steps: nat)
        requires
            self.reaches_root(index, steps),
        ensures
            self.lookup_from(index, name, steps) is Unknown <==> !self.declared_on_chain(
                index,
                name,
                steps,
            ),
        decreases steps,
    {
        let class = self.classes@[index];
        if class.find_property(name) is None {
            match class.superclass {
                None => {},
                Some(superclass) => {
                    let parent = self.find_class(superclass@).unwrap();
                    self.lemma_unknown_iff_undeclared(parent, name, (steps - 1) as nat);
                },
            }
        }
    }
}

impl<'a> Resolution<'a> {
    /// Whether this resolution holds the descriptors that `lookup` points to
    /// in `database`.
    pub open spec fn agrees(self, database: &ReflectionDatabase, lookup: Lookup) -> bool {
        match lookup {
            Lookup::Resolved { class, canonical, serialized } => {
                &&& 0 <= class < database.classes@.len()
                &&& 0 <= canonical < database.classes@[class].properties@.len()
                &&& 0 <= serialized < database.classes@[class].properties@.len()
                &&& self matches Resolution::Resolved { canonical: c, serialized: s }
                &&& *c == database.classes@[class].properties@[canonical]
                &&& *s == database.classes@[class].properties@[serialized]
            },
            Lookup::Unrepresentable => self is Unrepresentable,
            Lookup::Unknown => self is Unknown,
        }
    }
}

/// The descriptor under which the descriptor at `canonical` is serialized.
fn serialized_descriptor(class: &ClassDescriptor, canonical: usize) -> (serialized: usize)
    requires
        canonical < class.properties@.len(),
        class.serialized_link_holds(class.properties@[canonical as int]),
    ensures
        serialized as int == class.serialized_form(canonical as int),
        serialized < class.properties@.len(),
{
    match &class.properties[canonical].serialized_name {
        Some(name) => match class.property_index(name.as_str()) {
            Some(s) => s,
            None => canonical,
        },
        None => canonical,
    }
}

/// Resolves a property name on a class: finds the class of the hierarchy
/// that declares the name, and there the canonical descriptor and the
/// descriptor under which the property is serialized.
///
/// The database must be consistent. A class or a property that the database
/// does not know is no error: it resolves to [`Resolution::Unknown`].
pub fn resolve_property<'a>(
    database: &'a ReflectionDatabase,
    class_name: &str,
    property_name: &str,
) -> (resolution: Resolution<'a>)
    requires
        database.wf(),
    ensures
        resolution.agrees(database, database.lookup(class_name@, property_name@)),
{
    let mut current: usize = match database.class_index(class_name) {
        Some(index) => index,
        None => {
            return Resolution::Unknown;
        },
    };
    let mut left: usize = database.classes.len();
    assert(database.class_holds(current as int));
    loop
        invariant
            database.wf(),
            current < database.classes@.len(),
            database.reaches_root(current as int, left as nat),
            database.lookup(class_name@, property_name@) == database.lookup_from(
                current as int,
                property_name@,
                left as nat,
            ),
        decreases left,
    {
        let class = &database.classes[current];
        assert(database.class_holds(current as int));
        match class.property_index(property_name) {
            Some(p) => {
                assert(class.links_hold(p as int));
                let property = &class.properties[p];
                if property.is_canonical {
                    let s = serialized_descriptor(class, p);
                    return Resolution::Resolved {
                        canonical: property,
                        serialized: &class.properties[s],
                    };
                }
                match &property.canonical_name {
                    Some(canonical_name) => match class.property_index(canonical_name.as_str()) {
                        Some(c) => {
                            let s = serialized_descriptor(class, c);
                            return Resolution::Resolved {
                                canonical: &class.properties[c],
                                serialized: &class.properties[s],
                            };
                        },
                        None => {
                            return Resolution::Unrepresentable;
                        },
                    },
                    None => {
                        return Resolution::Unrepresentable;
                    },
                }
            },
            None => {},
        }
        match &class.superclass {
            Some(superclass) => match database.class_index(superclass.as_str()) {
                Some(parent) => {
                    current = parent;
                    left -= 1;
                },
                None => {
                    return Resolution::Unknown;
                },
            },
            None => {
                return Resolution::Unknown;
            },
        }
    }
}

/// Finds both the canonical and the serialized property descriptor for a
/// class and property name pair. These might be the same descriptor.
///
/// Returns `None` both for a property that the hierarchy does not know and
/// for one that is known to have no canonical form.
pub fn find_property_descriptors<'a>(
    database: &'a ReflectionDatabase,
    class_name: &str,
    property_name: &str,
) -> (found: Option<(&'a PropertyDescriptor, &'a PropertyDescriptor)>)
    requires
        database.wf(),
    ensures
        match database.lookup(class_name@, property_name@) {
            Lookup::Resolved { class, canonical, serialized } => {
                &&& found matches Some((c, s))
                &&& *c == database.classes@[class].properties@[canonical]
                &&& *s == database.classes@[class].properties@[serialized]
            },
            _ => found is None,
        },
{
    match resolve_property(database, class_name, property_name) {
        Resolution::Resolved { canonical, serialized } => Some((canonical, serialized)),
        _ => None,
    }
}

/// Finds the canonical descriptor of a property: the one under whose name
/// the property is kept in a tree.
pub fn find_canonical_property_descriptor<'a>(
    database: &'a ReflectionDatabase,
    class_name: &str,
    property_name: &str,
) -> (found: Option<&'a PropertyDescriptor>)
    requires
        database.wf(),
    ensures
        match database.lookup(class_name@, property_name@) {
            Lookup::Resolved { class, canonical, serialized } => {
                &&& found matches Some(c)
                &&& *c == database.classes@[class].properties@[canonical]
            },
            _ => found is None,
        },
{
    match find_property_descriptors(database, class_name, property_name) {
        Some((canonical, _serialized)) => Some(canonical),
        None => None,
    }
}

/// Finds the serialized descriptor of a property: the one under whose name
/// and type the property is written.
pub fn find_serialized_property_descriptor<'a>(
    database: &'a ReflectionDatabase,
    class_name: &str,
    property_name: &str,
) -> (found: Option<&'a PropertyDescriptor>)
    requires
        database.wf(),
    ensures
        match database.lookup(class_name@, property_name@) {
            Lookup::Resolved { class, canonical, serialized } => {
                &&& found matches Some(s)
                &&& *s == database.classes@[class].properties@[serialized]
            },
            _ => found is None,
        },
{
    match find_property_descriptors(database, class_name, property_name) {
        Some((_canonical, serialized)) => Some(serialized),
        None => None,
    }
}

} // verus!
