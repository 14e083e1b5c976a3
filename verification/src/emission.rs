//! What an encoding emits: the events of a document as a function of the
//! tree, and what holds of them.

use crate::database::ReflectionDatabase;
use crate::error::EncodeError;
use crate::error::EncodeErrorView;
use crate::order::distinct_names;
use crate::order::emission_order;
use crate::order::lemma_emission_order_shape;
use crate::order::lemma_order_independent_of_storage;
use crate::order::names_of;
use crate::order::sorted_properties;
use crate::plan::property_plan;
use crate::plan::PropertyPlan;
use crate::serializer::EncodePropertyBehavior;
use crate::shared_string::base64_text;
use crate::shared_string::SharedBlob;
use crate::shared_string::SharedString;
use crate::state::StateModel;
use crate::text::decimal;
use crate::tree::InstanceView;
use crate::tree::NodeId;
use crate::tree::PropertyView;
use crate::value::ValueView;
use crate::wire::events_view;
use crate::wire::start_plain;
use crate::wire::start_with_two;
use crate::wire::start_with;
use crate::wire::WireEvent;
use crate::wire::WireEventView;
use vstd::prelude::*;

verus! {

/// The document under construction: the events emitted so far and the
/// state of the encoding.
#[verifier::ext_equal]
pub struct Emission {
    pub events: Seq<WireEventView>,
    pub state: StateModel,
}

/// The document that `output` and `state` hold.
pub open spec fn emission_of(output: Seq<WireEvent>, state: StateModel) -> Emission {
    Emission { events: events_view(output), state }
}

impl Emission {
    /// The emission after one more event.
    pub open spec fn push(self, event: WireEventView) -> Emission {
        Emission { events: self.events.push(event), state: self.state }
    }

    /// The emission after the instance's name was written: always as a
    /// string property called `Name`.
    pub open spec fn write_name(self, name: Seq<char>) -> Emission {
        self.push(start_with("string"@, "name"@, "Name"@)).push(
            WireEventView::Characters(name),
        ).push(WireEventView::EndElement)
    }

    /// The emission after a value was written under `name`: an element with
    /// the wire tag of the value's kind, the name as attribute, and the
    /// content. A reference is written as the referent of its target, which
    /// gets one if it has none yet, or as `null`. A shared string is written
    /// as the base64 text of its digest, and is noted for the dictionary.
    pub open spec fn write_value(self, name: Seq<char>, value: ValueView) -> Emission {
        let opened = self.push(start_with(value.kind().spec_wire_tag(), "name"@, name));
        let written = match value {
            ValueView::Data(data) => opened.push(WireEventView::Payload(data.spec_payload())),
            ValueView::Ref(None) => opened.push(WireEventView::Characters("null"@)),
            ValueView::Ref(Some(target)) => Emission {
                events: opened.events.push(
                    WireEventView::Characters(decimal(opened.state.referent_of(target))),
                ),
                state: opened.state.map_id(target),
            },
            ValueView::SharedString(shared) => Emission {
                events: opened.events.push(WireEventView::Characters(base64_text(shared.hash))),
                state: opened.state.add_shared_string(shared),
            },
        };
        written.push(WireEventView::EndElement)
    }

    /// The emission after the dictionary entry of a shared string.
    pub open spec fn write_shared_entry(self, blob: SharedBlob) -> Emission {
        self.push(start_with("SharedString"@, "md5"@, base64_text(blob.hash))).push(
            WireEventView::Characters(base64_text(blob.data)),
        ).push(WireEventView::EndElement)
    }

    /// The emission after the dictionary entries of the shared strings from
    /// position `from` on, in the order in which they were first met.
    pub open spec fn write_shared_entries(self, from: int) -> Emission
        decreases self.state.shared_strings.len() - from,
    {
        if from < 0 || from >= self.state.shared_strings.len() {
            self
        } else {
            self.write_shared_entry(self.state.shared_strings[from]).write_shared_entries(from + 1)
        }
    }

    /// The emission after the dictionary of shared strings: nothing where
    /// no shared string was met, else one block with one entry for each.
    pub open spec fn write_shared_strings(self) -> Emission {
        if self.state.shared_strings.len() == 0 {
            self
        } else {
            self.push(start_plain("SharedStrings"@)).write_shared_entries(0).push(
                WireEventView::EndElement,
            )
        }
    }
}

/// The emission after the properties at the positions `order[from..]` were
/// treated, each as [`property_plan`] says, or the first error.
pub open spec fn emit_properties(
    database: &ReflectionDatabase,
    behavior: EncodePropertyBehavior,
    class_name: Seq<char>,
    properties: Seq<PropertyView>,
    order: Seq<usize>,
    from: int,
    emission: Emission,
) -> Result<Emission, EncodeErrorView>
    decreases order.len() - from,
{
    if from < 0 || from >= order.len() {
        Ok(emission)
    } else {
        match property_plan(database, behavior, class_name, properties[order[from] as int]) {
            PropertyPlan::Skip => emit_properties(
                database,
                behavior,
                class_name,
                properties,
                order,
                from + 1,
                emission,
            ),
            PropertyPlan::Write { name, value } => emit_properties(
                database,
                behavior,
                class_name,
                properties,
                order,
                from + 1,
                emission.write_value(name, value),
            ),
            PropertyPlan::Fail(error) => Err(error),
        }
    }
}

/// The emission after the instance `id` and all its descendants were
/// written, or the first error.
///
/// The instance gets a referent unless it has one. Its element holds the
/// class name and the referent, then the properties: the name first, the
/// others sorted by name. The children follow in their stored order, each
/// with its own descendants before the next.
pub open spec fn emit_instance(
    tree: Seq<InstanceView>,
    database: &ReflectionDatabase,
    behavior: EncodePropertyBehavior,
    id: NodeId,
    emission: Emission,
) -> Result<Emission, EncodeErrorView>
    decreases tree.len() - id, tree[id as int].children.len() + 1,
{
    if id >= tree.len() {
        Ok(emission)
    } else {
        let properties = tree[id as int].properties;
        let opened = Emission {
            events: emission.events.push(
                start_with_two(
                    "Item"@,
                    ("class"@, properties.class_name),
                    ("referent"@, decimal(emission.state.referent_of(id))),
                ),
            ).push(start_plain("Properties"@)),
            state: emission.state.map_id(id),
        }.write_name(properties.name);
        match emit_properties(
            database,
            behavior,
            properties.class_name,
            properties.properties,
            emission_order(properties.names()),
            0,
            opened,
        ) {
            Err(error) => Err(error),
            Ok(written) => match emit_children(
                tree,
                database,
                behavior,
                id,
                0,
                written.push(WireEventView::EndElement),
            ) {
                Err(error) => Err(error),
                Ok(done) => Ok(done.push(WireEventView::EndElement)),
            },
        }
    }
}

/// The emission after the children of `parent` from position `from` on
/// were written with their descendants, or the first error.
pub open spec fn emit_children(
    tree: Seq<InstanceView>,
    database: &ReflectionDatabase,
    behavior: EncodePropertyBehavior,
    parent: NodeId,
    from: int,
    emission: Emission,
) -> Result<Emission, EncodeErrorView>
    decreases tree.len() - parent, tree[parent as int].children.len() - from,
{
    let children = tree[parent as int].children;
    if parent >= tree.len() || from < 0 || from >= children.len() {
        Ok(emission)
    } else if parent < children[from] && children[from] < tree.len() {
        match emit_instance(tree, database, behavior, children[from], emission) {
            Err(error) => Err(error),
            Ok(next) => emit_children(tree, database, behavior, parent, from + 1, next),
        }
    } else {
        Ok(emission)
    }
}

/// The emission after the instances `ids[from..]` were written one after
/// the other, each with its descendants, or the first error.
pub open spec fn emit_roots(
    tree: Seq<InstanceView>,
    database: &ReflectionDatabase,
    behavior: EncodePropertyBehavior,
    ids: Seq<NodeId>,
    from: int,
    emission: Emission,
) -> Result<Emission, EncodeErrorView>
    decreases ids.len() - from,
{
    if from < 0 || from >= ids.len() {
        Ok(emission)
    } else {
        match emit_instance(tree, database, behavior, ids[from], emission) {
            Err(error) => Err(error),
            Ok(next) => emit_roots(tree, database, behavior, ids, from + 1, next),
        }
    }
}

/// The events of the whole document for the instances `ids` of `tree`, or
/// the error with which the encoding fails.
///
/// The document element carries the format version. The instances follow in
/// the given order, then the dictionary of the shared strings that were
/// referenced, if any.
pub open spec fn encoded_document(
    tree: Seq<InstanceView>,
    database: &ReflectionDatabase,
    behavior: EncodePropertyBehavior,
    ids: Seq<NodeId>,
) -> Result<Seq<WireEventView>, EncodeErrorView> {
    let start = Emission {
        events: seq![start_with("roblox"@, "version"@, "4"@)],
        state: StateModel::empty(),
    };
    match emit_roots(tree, database, behavior, ids, 0, start) {
        Err(error) => Err(error),
        Ok(walked) => Ok(walked.write_shared_strings().push(WireEventView::EndElement).events),
    }
}

/// Whether `result` is what encoding the instances `ids` of `tree` gives:
/// the events of [`encoded_document`], or its error.
pub open spec fn encodes(
    result: Result<Vec<WireEvent>, EncodeError>,
    tree: Seq<InstanceView>,
    database: &ReflectionDatabase,
    behavior: EncodePropertyBehavior,
    ids: Seq<NodeId>,
) -> bool {
    match encoded_document(tree, database, behavior, ids) {
        Ok(events) => result matches Ok(output) && events_view(output@) == events,
        Err(error) => result matches Err(e) && e@ == error,
    }
}

/// What the result of an encoding holds: the events, or the error.
pub open spec fn result_view(result: Result<Vec<WireEvent>, EncodeError>) -> Result<
    Seq<WireEventView>,
    EncodeErrorView,
> {
    match result {
        Ok(output) => Ok(events_view(output@)),
        Err(error) => Err(error@),
    }
}

/// Encoding is deterministic: two encodings of the same instances of the
/// same tree, with the same database and behavior, hold the same events, or
/// fail with the same error.
pub proof fn lemma_encoding_is_deterministic(
    first: Result<Vec<WireEvent>, EncodeError>,
    second: Result<Vec<WireEvent>, EncodeError>,
    tree: Seq<InstanceView>,
    database: &ReflectionDatabase,
    behavior: EncodePropertyBehavior,
    ids: Seq<NodeId>,
)
    requires
        encodes(first, tree, database, behavior, ids),
        encodes(second, tree, database, behavior, ids),
    ensures
        result_view(first) == result_view(second),
{
}

impl Emission {
    /// Whether `after` continues this emission: its state is well formed,
    /// the events and the shared strings of this emission are kept in front
    /// of what was added, and every id that has a referent keeps it.
    pub open spec fn grows_to(self, after: Emission) -> bool {
        &&& after.state.wf()
        &&& self.events.is_prefix_of(after.events)
        &&& self.state.shared_strings.is_prefix_of(after.state.shared_strings)
        &&& forall|id: NodeId| #[trigger]
            self.state.referents.contains_key(id) ==> after.state.referents.contains_key(id)
                && after.state.referents[id] == self.state.referents[id]
    }

    /// An emission that continues one that continues this one continues
    /// this one.
    pub proof fn lemma_grows_transitive(self, middle: Emission, after: Emission)
        requires
            self.grows_to(middle),
            middle.grows_to(after),
        ensures
            self.grows_to(after),
    {
    }

    /// Writing a value continues the emission: referents stay dense and
    /// unique, no digest is listed twice, and nothing written or assigned
    /// before changes.
    pub proof fn lemma_write_value_grows(self, name: Seq<char>, value: ValueView)
        requires
            self.state.wf(),
        ensures
            self.grows_to(self.write_value(name, value)),
    {
        match value {
            ValueView::Ref(Some(target)) => {
                self.state.lemma_map_id_keeps_dense(target);
            },
            ValueView::SharedString(shared) => {
                self.state.lemma_shared_string_listed_once(shared);
            },
            _ => {},
        }
    }
}

/// Writing properties continues the emission.
pub proof fn lemma_emit_properties_grows(
    database: &ReflectionDatabase,
    behavior: EncodePropertyBehavior,
    class_name: Seq<char>,
    properties: Seq<PropertyView>,
    order: Seq<usize>,
    from: int,
    emission: Emission,
)
    requires
        emission.state.wf(),
    ensures
        emit_properties(
            database,
            behavior,
            class_name,
            properties,
            order,
            from,
            emission,
        ) matches Ok(after) ==> emission.grows_to(after),
    decreases order.len() - from,
{
    if 0 <= from < order.len() {
        match property_plan(database, behavior, class_name, properties[order[from] as int]) {
            PropertyPlan::Skip => {
                lemma_emit_properties_grows(
                    database,
                    behavior,
                    class_name,
                    properties,
                    order,
                    from + 1,
                    emission,
                );
            },
            PropertyPlan::Write { name, value } => {
                let written = emission.write_value(name, value);
                emission.lemma_write_value_grows(name, value);
                lemma_emit_properties_grows(
                    database,
                    behavior,
                    class_name,
                    properties,
                    order,
                    from + 1,
                    written,
                );
                match emit_properties(
                    database,
                    behavior,
                    class_name,
                    properties,
                    order,
                    from + 1,
                    written,
                ) {
                    Ok(after) => {
                        emission.lemma_grows_transitive(written, after);
                    },
                    Err(_) => {},
                }
            },
            PropertyPlan::Fail(_) => {},
        }
    }
}

/// Referents are dense, unique and stable throughout an encoding: writing
/// an instance with its descendants continues the emission, and gives the
/// instance a referent.
pub proof fn lemma_emit_instance_grows(
    tree: Seq<InstanceView>,
    database: &ReflectionDatabase,
    behavior: EncodePropertyBehavior,
    id: NodeId,
    emission: Emission,
)
    requires
        emission.state.wf(),
    ensures
        emit_instance(tree, database, behavior, id, emission) matches Ok(after) ==> {
            &&& emission.grows_to(after)
            &&& id < tree.len() ==> after.state.referents.contains_key(id)
            &&& id < tree.len() ==> after.state.referents[id] == emission.state.referent_of(id)
        },
    decreases tree.len() - id, tree[id as int].children.len() + 1,
{
    if id < tree.len() {
        let properties = tree[id as int].properties;
        let mapped = Emission {
            events: emission.events.push(
                start_with_two(
                    "Item"@,
                    ("class"@, properties.class_name),
                    ("referent"@, decimal(emission.state.referent_of(id))),
                ),
            ).push(start_plain("Properties"@)),
            state: emission.state.map_id(id),
        };
        let opened = mapped.write_name(properties.name);
        emission.state.lemma_map_id_keeps_dense(id);
        assert(emission.grows_to(opened));
        lemma_emit_properties_grows(
            database,
            behavior,
            properties.class_name,
            properties.properties,
            emission_order(properties.names()),
            0,
            opened,
        );
        match emit_properties(
            database,
            behavior,
            properties.class_name,
            properties.properties,
            emission_order(properties.names()),
            0,
            opened,
        ) {
            Ok(written) => {
                let closed = written.push(WireEventView::EndElement);
                assert(written.grows_to(closed));
                lemma_emit_children_grows(tree, database, behavior, id, 0, closed);
                match emit_children(tree, database, behavior, id, 0, closed) {
                    Ok(done) => {
                        let after = done.push(WireEventView::EndElement);
                        assert(done.grows_to(after));
                        emission.lemma_grows_transitive(opened, written);
                        emission.lemma_grows_transitive(written, closed);
                        emission.lemma_grows_transitive(closed, done);
                        emission.lemma_grows_transitive(done, after);
                    },
                    Err(_) => {},
                }
            },
            Err(_) => {},
        }
    }
}

/// Writing the children of an instance continues the emission.
pub proof fn lemma_emit_children_grows(
    tree: Seq<InstanceView>,
    database: &ReflectionDatabase,
    behavior: EncodePropertyBehavior,
    parent: NodeId,
    from: int,
    emission: Emission,
)
    requires
        emission.state.wf(),
    ensures
        emit_children(tree, database, behavior, parent, from, emission) matches Ok(after)
            ==> emission.grows_to(after),
    decreases tree.len() - parent, tree[parent as int].children.len() - from,
{
    let children = tree[parent as int].children;
    if parent < tree.len() && 0 <= from < children.len() && parent < children[from]
        && children[from] < tree.len() {
        lemma_emit_instance_grows(tree, database, behavior, children[from], emission);
        match emit_instance(tree, database, behavior, children[from], emission) {
            Ok(next) => {
                lemma_emit_children_grows(tree, database, behavior, parent, from + 1, next);
                match emit_children(tree, database, behavior, parent, from + 1, next) {
                    Ok(after) => {
                        emission.lemma_grows_transitive(next, after);
                    },
                    Err(_) => {},
                }
            },
            Err(_) => {},
        }
    }
}

/// Writing several instances one after the other continues the emission.
pub proof fn lemma_emit_roots_grows(
    tree: Seq<InstanceView>,
    database: &ReflectionDatabase,
    behavior: EncodePropertyBehavior,
    ids: Seq<NodeId>,
    from: int,
    emission: Emission,
)
    requires
        emission.state.wf(),
    ensures
        emit_roots(tree, database, behavior, ids, from, emission) matches Ok(after)
            ==> emission.grows_to(after),
    decreases ids.len() - from,
{
    if 0 <= from < ids.len() {
        lemma_emit_instance_grows(tree, database, behavior, ids[from], emission);
        match emit_instance(tree, database, behavior, ids[from], emission) {
            Ok(next) => {
                lemma_emit_roots_grows(tree, database, behavior, ids, from + 1, next);
                match emit_roots(tree, database, behavior, ids, from + 1, next) {
                    Ok(after) => {
                        emission.lemma_grows_transitive(next, after);
                    },
                    Err(_) => {},
                }
            },
            Err(_) => {},
        }
    }
}

/// The referents that one encoding gives out are dense and unique, and
/// its dictionary lists no digest twice: the state at the end of an
/// encoding that succeeds is well formed. The referents are the numbers
/// below their count, which is the number of distinct ids that were met.
pub proof fn lemma_referents_dense_at_end(
    tree: Seq<InstanceView>,
    database: &ReflectionDatabase,
    behavior: EncodePropertyBehavior,
    ids: Seq<NodeId>,
)
    ensures
        emit_roots(
            tree,
            database,
            behavior,
            ids,
            0,
            Emission {
                events: seq![start_with("roblox"@, "version"@, "4"@)],
                state: StateModel::empty(),
            },
        ) matches Ok(walked) ==> walked.state.wf() && walked.state.next_referent
            == walked.state.referents.dom().len(),
{
    let start = Emission {
        events: seq![start_with("roblox"@, "version"@, "4"@)],
        state: StateModel::empty(),
    };
    lemma_emit_roots_grows(tree, database, behavior, ids, 0, start);
}

/// What is emitted for a list of properties depends only on the properties
/// in emission order.
pub proof fn lemma_emit_follows_sorted(
    database: &ReflectionDatabase,
    behavior: EncodePropertyBehavior,
    class_name: Seq<char>,
    first: Seq<PropertyView>,
    second: Seq<PropertyView>,
    from: int,
    emission: Emission,
)
    requires
        sorted_properties(first) == sorted_properties(second),
        first.len() <= usize::MAX,
        second.len() <= usize::MAX,
    ensures
        emit_properties(
            database,
            behavior,
            class_name,
            first,
            emission_order(names_of(first)),
            from,
            emission,
        ) == emit_properties(
            database,
            behavior,
            class_name,
            second,
            emission_order(names_of(second)),
            from,
            emission,
        ),
    decreases first.len() - from,
{
    let first_order = emission_order(names_of(first));
    let second_order = emission_order(names_of(second));
    lemma_emission_order_shape(names_of(first), first.len());
    lemma_emission_order_shape(names_of(second), second.len());
    assert(sorted_properties(first).len() == first_order.len());
    assert(sorted_properties(second).len() == second_order.len());
    if 0 <= from < first_order.len() {
        assert(sorted_properties(first)[from] == first[first_order[from] as int]);
        assert(sorted_properties(second)[from] == second[second_order[from] as int]);
        match property_plan(database, behavior, class_name, first[first_order[from] as int]) {
            PropertyPlan::Skip => {
                lemma_emit_follows_sorted(
                    database,
                    behavior,
                    class_name,
                    first,
                    second,
                    from + 1,
                    emission,
                );
            },
            PropertyPlan::Write { name, value } => {
                lemma_emit_follows_sorted(
                    database,
                    behavior,
                    class_name,
                    first,
                    second,
                    from + 1,
                    emission.write_value(name, value),
                );
            },
            PropertyPlan::Fail(_) => {},
        }
    }
}

/// Whether two trees are the same but for the order in which instances
/// store their properties, and no instance has two properties of the same
/// name.
pub open spec fn same_but_for_storage_order(
    first: Seq<InstanceView>,
    second: Seq<InstanceView>,
) -> bool {
    &&& first.len() == second.len()
    &&& forall|id: int|
        0 <= id < first.len() ==> {
            let a = (#[trigger] first[id]);
            let b = second[id];
            &&& a.children == b.children
            &&& a.parent == b.parent
            &&& a.properties.name == b.properties.name
            &&& a.properties.class_name == b.properties.class_name
            &&& a.properties.properties.to_multiset() == b.properties.properties.to_multiset()
            &&& a.properties.properties.len() <= usize::MAX
            &&& distinct_names(a.properties.properties)
            &&& distinct_names(b.properties.properties)
        }
}

/// The encoding of an instance does not depend on the order in which
/// instances store their properties.
pub proof fn lemma_instance_independent_of_storage_order(
    first: Seq<InstanceView>,
    second: Seq<InstanceView>,
    database: &ReflectionDatabase,
    behavior: EncodePropertyBehavior,
    id: NodeId,
    emission: Emission,
)
    requires
        same_but_for_storage_order(first, second),
    ensures
        emit_instance(first, database, behavior, id, emission) == emit_instance(
            second,
            database,
            behavior,
            id,
            emission,
        ),
    decreases first.len() - id, first[id as int].children.len() + 1,
{
    if id < first.len() {
        let a = first[id as int].properties;
        let b = second[id as int].properties;
        vstd::seq_lib::to_multiset_len(a.properties);
        vstd::seq_lib::to_multiset_len(b.properties);
        lemma_order_independent_of_storage(a.properties, b.properties);
        let opened = Emission {
            events: emission.events.push(
                start_with_two(
                    "Item"@,
                    ("class"@, a.class_name),
                    ("referent"@, decimal(emission.state.referent_of(id))),
                ),
            ).push(start_plain("Properties"@)),
            state: emission.state.map_id(id),
        }.write_name(a.name);
        lemma_emit_follows_sorted(
            database,
            behavior,
            a.class_name,
            a.properties,
            b.properties,
            0,
            opened,
        );
        match emit_properties(
            database,
            behavior,
            a.class_name,
            a.properties,
            emission_order(a.names()),
            0,
            opened,
        ) {
            Ok(written) => {
                lemma_children_independent_of_storage_order(
                    first,
                    second,
                    database,
                    behavior,
                    id,
                    0,
                    written.push(WireEventView::EndElement),
                );
            },
            Err(_) => {},
        }
    }
}

/// The encoding of the children of an instance does not depend on the
/// order in which instances store their properties.
pub proof fn lemma_children_independent_of_storage_order(
    first: Seq<InstanceView>,
    second: Seq<InstanceView>,
    database: &ReflectionDatabase,
    behavior: EncodePropertyBehavior,
    parent: NodeId,
    from: int,
    emission: Emission,
)
    requires
        same_but_for_storage_order(first, second),
    ensures
        emit_children(first, database, behavior, parent, from, emission) == emit_children(
            second,
            database,
            behavior,
            parent,
            from,
            emission,
        ),
    decreases first.len() - parent, first[parent as int].children.len() - from,
{
    let children = first[parent as int].children;
    if parent < first.len() && 0 <= from < children.len() && parent < children[from]
        && children[from] < first.len() {
        lemma_instance_independent_of_storage_order(
            first,
            second,
            database,
            behavior,
            children[from],
            emission,
        );
        match emit_instance(first, database, behavior, children[from], emission) {
            Ok(next) => {
                lemma_children_independent_of_storage_order(
                    first,
                    second,
                    database,
                    behavior,
                    parent,
                    from + 1,
                    next,
                );
            },
            Err(_) => {},
        }
    }
}

/// Semantically identical inputs give identical documents: two trees that
/// are the same but for the order in which instances store their
/// properties are encoded alike.
pub proof fn lemma_document_independent_of_storage_order(
    first: Seq<InstanceView>,
    second: Seq<InstanceView>,
    database: &ReflectionDatabase,
    behavior: EncodePropertyBehavior,
    ids: Seq<NodeId>,
)
    requires
        same_but_for_storage_order(first, second),
    ensures
        encoded_document(first, database, behavior, ids) == encoded_document(
            second,
            database,
            behavior,
            ids,
        ),
{
    let start = Emission {
        events: seq![start_with("roblox"@, "version"@, "4"@)],
        state: StateModel::empty(),
    };
    lemma_roots_independent_of_storage_order(first, second, database, behavior, ids, 0, start);
}

/// The encoding of several instances does not depend on the order in which
/// instances store their properties.
pub proof fn lemma_roots_independent_of_storage_order(
    first: Seq<InstanceView>,
    second: Seq<InstanceView>,
    database: &ReflectionDatabase,
    behavior: EncodePropertyBehavior,
    ids: Seq<NodeId>,
    from: int,
    emission: Emission,
)
    requires
        same_but_for_storage_order(first, second),
    ensures
        emit_roots(first, database, behavior, ids, from, emission) == emit_roots(
            second,
            database,
            behavior,
            ids,
            from,
            emission,
        ),
    decreases ids.len() - from,
{
    if 0 <= from < ids.len() {
        lemma_instance_independent_of_storage_order(
            first,
            second,
            database,
            behavior,
            ids[from],
            emission,
        );
        match emit_instance(first, database, behavior, ids[from], emission) {
            Ok(next) => {
                lemma_roots_independent_of_storage_order(
                    first,
                    second,
                    database,
                    behavior,
                    ids,
                    from + 1,
                    next,
                );
            },
            Err(_) => {},
        }
    }
}

} // verus!
