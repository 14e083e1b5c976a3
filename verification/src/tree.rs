//! The instance tree that is encoded.

use crate::order::names_of;
use crate::value::Value;
use crate::value::ValueView;
use vstd::prelude::*;

verus! {

/// Identifies an instance within a [`Tree`]: its position in the order in
/// which the instances were inserted.
pub type NodeId = usize;

/// A named property value of an instance.
#[derive(Debug)]
pub struct Property {
    pub name: String,
    pub value: Value,
}

/// What a [`Property`] holds.
#[verifier::ext_equal]
pub struct PropertyView {
    pub name: Seq<char>,
    pub value: ValueView,
}

impl View for Property {
    type V = PropertyView;

    open spec fn view(&self) -> PropertyView {
        PropertyView { name: self.name@, value: self.value@ }
    }
}

/// What [`InstanceProperties`] hold.
#[verifier::ext_equal]
pub struct InstancePropertiesView {
    pub name: Seq<char>,
    pub class_name: Seq<char>,
    pub properties: Seq<PropertyView>,
}

impl InstancePropertiesView {
    /// The names of the properties, in storage order.
    pub open spec fn names(self) -> Seq<Seq<char>> {
        names_of(self.properties)
    }
}

/// What an [`Instance`] holds: its properties and its place in the tree.
#[verifier::ext_equal]
pub struct InstanceView {
    pub properties: InstancePropertiesView,
    pub children: Seq<NodeId>,
    pub parent: Option<NodeId>,
}

/// The instances of a tree after an instance with the given properties was
/// inserted as the last child of `parent`.
pub open spec fn inserted(
    instances: Seq<InstanceView>,
    properties: InstancePropertiesView,
    parent: NodeId,
) -> Seq<InstanceView> {
    let id = instances.len() as NodeId;
    instances.update(
        parent as int,
        InstanceView {
            properties: instances[parent as int].properties,
            children: instances[parent as int].children.push(id),
            parent: instances[parent as int].parent,
        },
    ).push(InstanceView { properties, children: Seq::empty(), parent: Some(parent) })
}

/// The properties of an instance that might not be part of a tree yet.
#[derive(Debug)]
pub struct InstanceProperties {
    /// The name of the instance.
    pub name: String,
    /// The name of the class of the instance.
    pub class_name: String,
    /// All other properties of the instance.
    pub properties: Vec<Property>,
}

impl View for InstanceProperties {
    type V = InstancePropertiesView;

    open spec fn view(&self) -> InstancePropertiesView {
        InstancePropertiesView {
            name: self.name@,
            class_name: self.class_name@,
            properties: self.properties@.map_values(|p: Property| p@),
        }
    }
}

/// An instance that is rooted in a [`Tree`].
#[derive(Debug)]
pub struct Instance {
    properties: InstanceProperties,
    id: NodeId,
    children: Vec<NodeId>,
    parent: Option<NodeId>,
}

impl View for Instance {
    type V = InstanceView;

    open spec fn view(&self) -> InstanceView {
        InstanceView {
            properties: self.spec_properties()@,
            children: self.spec_children(),
            parent: self.spec_parent(),
        }
    }
}

impl Instance {
    /// The name, class and properties of the instance.
    pub closed spec fn spec_properties(&self) -> InstanceProperties {
        self.properties
    }

    /// The id of the instance.
    pub closed spec fn spec_id(&self) -> NodeId {
        self.id
    }

    /// The ids of the children of the instance, in order.
    pub closed spec fn spec_children(&self) -> Seq<NodeId> {
        self.children@
    }

    /// The id of the parent of the instance, if it has one.
    pub closed spec fn spec_parent(&self) -> Option<NodeId> {
        self.parent
    }

    /// Returns the name, class and properties of the instance.
    pub fn properties(&self) -> (properties: &InstanceProperties)
        ensures
            *properties == self.spec_properties(),
    {
        &self.properties
    }

    /// Returns the id of the instance.
    pub fn get_id(&self) -> (id: NodeId)
        ensures
            id == self.spec_id(),
    {
        self.id
    }

    /// Returns the id of the parent of the instance, if it has a parent.
    pub fn get_parent_id(&self) -> (parent: Option<NodeId>)
        ensures
            parent == self.spec_parent(),
    {
        self.parent
    }

    /// Returns the ids of the children of the instance, in order.
    pub fn get_children_ids(&self) -> (children: &[NodeId])
        ensures
            children@ == self.spec_children(),
    {
        self.children.as_slice()
    }
}

/// A tree of instances. Every instance but the root has a parent that was
/// inserted before it.
#[derive(Debug)]
pub struct Tree {
    instances: Vec<Instance>,
}

impl View for Tree {
    type V = Seq<InstanceView>;

    open spec fn view(&self) -> Seq<InstanceView> {
        self.spec_instances().map_values(|instance: Instance| instance@)
    }
}

impl Tree {
    #[verifier::type_invariant]
    spec fn well_formed(self) -> bool {
        self.instances@.len() == 0 || self.wf()
    }

    /// The instances of the tree, each at the position that is its id.
    pub closed spec fn spec_instances(&self) -> Seq<Instance> {
        self.instances@
    }

    /// The number of instances in the tree.
    pub open spec fn spec_len(&self) -> nat {
        self.spec_instances().len()
    }

    /// Whether an instance with this id is in the tree.
    pub open spec fn contains(&self, id: NodeId) -> bool {
        id < self.spec_len()
    }

    /// Whether the instance at position `id` is linked as a tree demands:
    /// it carries its position as id, its parent was inserted before it and
    /// its children after it, and each child names it as its parent.
    pub open spec fn linked(&self, id: int) -> bool {
        let instance = self.spec_instances()[id];
        &&& instance.spec_id() == id
        &&& match instance.spec_parent() {
            Some(parent) => parent < id,
            None => id == 0,
        }
        &&& forall|k: int|
            0 <= k < instance.spec_children().len() ==> {
                let child = #[trigger] instance.spec_children()[k];
                &&& id < child < self.spec_len()
                &&& self.spec_instances()[child as int].spec_parent() == Some(id as NodeId)
            }
    }

    /// Whether the tree is well formed: it has a root, and every instance is
    /// linked as a tree demands.
    pub open spec fn wf(&self) -> bool {
        &&& self.spec_len() > 0
        &&& forall|id: int| 0 <= id < self.spec_len() ==> #[trigger] self.linked(id)
    }

    /// Constructs a tree whose root instance has the given properties.
    pub fn new(root_properties: InstanceProperties) -> (tree: Tree)
        ensures
            tree.wf(),
            tree.spec_len() == 1,
            tree.spec_instances()[0].spec_properties() == root_properties,
            tree.spec_instances()[0].spec_children() == Seq::<NodeId>::empty(),
            tree@ == seq![
                InstanceView {
                    properties: root_properties@,
                    children: Seq::empty(),
                    parent: None,
                },
            ],
    {
        let root = Instance {
            properties: root_properties,
            id: 0,
            children: Vec::new(),
            parent: None,
        };
        let mut instances = Vec::new();
        instances.push(root);
        let tree = Tree { instances };
        assert(tree.linked(0));
        assert(tree@ =~= seq![
            InstanceView { properties: root_properties@, children: Seq::empty(), parent: None },
        ]);
        tree
    }

    /// Returns the id of the root instance of the tree.
    pub fn get_root_id(&self) -> (id: NodeId)
        ensures
            id == 0,
    {
        0
    }

    /// Returns the number of instances in the tree. A tree in executable
    /// code is well formed.
    pub fn len(&self) -> (len: usize)
        ensures
            len == self.spec_len(),
            len > 0 ==> self.wf(),
    {
        proof {
            use_type_invariant(self);
        }
        let len = self.instances.len();
        len
    }

    /// Returns the instance with the given id if the tree holds it. A tree
    /// in executable code that holds an instance is well formed.
    pub fn get_instance(&self, id: NodeId) -> (instance: Option<&Instance>)
        ensures
            match instance {
                Some(found) => self.contains(id) && *found == self.spec_instances()[id as int]
                    && self.wf(),
                None => !self.contains(id),
            },
    {
        proof {
            use_type_invariant(self);
        }
        if id < self.instances.len() {
            Some(&self.instances[id])
        } else {
            None
        }
    }

    /// Inserts a new instance with the given properties into the tree, as
    /// the last child of the instance with the id `parent_id`, which must be
    /// in the tree. Returns the id of the new instance.
    pub fn insert_instance(&mut self, properties: InstanceProperties, parent_id: NodeId) -> (id:
        NodeId)
        requires
            old(self).contains(parent_id),
        ensures
            final(self).wf(),
            id == old(self).spec_len(),
            final(self).spec_len() == old(self).spec_len() + 1,
            final(self)@ == inserted(old(self)@, properties@, parent_id),
            final(self).spec_instances()[id as int].spec_properties() == properties,
            final(self).spec_instances()[id as int].spec_children() == Seq::<NodeId>::empty(),
            final(self).spec_instances()[id as int].spec_parent() == Some(parent_id),
            forall|other: int|
                0 <= other < old(self).spec_len() ==> {
                    let before = #[trigger] old(self).spec_instances()[other];
                    let after = final(self).spec_instances()[other];
                    &&& after.spec_properties() == before.spec_properties()
                    &&& after.spec_parent() == before.spec_parent()
                    &&& after.spec_children() == if other == parent_id {
                        before.spec_children().push(id)
                    } else {
                        before.spec_children()
                    }
                },
    {
        proof {
            use_type_invariant(&*self);
        }
        let ghost before = *self;
        // The instances are taken out while they are changed, so that the
        // tree is never seen half linked.
        let mut instances: Vec<Instance> = Vec::new();
        core::mem::swap(&mut self.instances, &mut instances);
        let id = instances.len();
        instances.push(Instance { properties, id, children: Vec::new(), parent: Some(parent_id) });
        instances[parent_id].children.push(id);
        proof {
            let after = Tree { instances };
            assert forall|at: int| 0 <= at < after.spec_len() implies #[trigger] after.linked(
                at,
            ) by {
                if at < id {
                    assert(before.linked(at));
                }
            }
        }
        core::mem::swap(&mut self.instances, &mut instances);
        assert(self@ =~= inserted(old(self)@, properties@, parent_id));
        id
    }
}

} // verus!
