//! The tree encoder and the options that steer it.

use crate::database::ReflectionDatabase;
use crate::emission::emission_of;
use crate::emission::Emission;
use crate::emission::emit_children;
use crate::emission::emit_instance;
use crate::emission::emit_properties;
use crate::emission::emit_roots;
use crate::emission::encodes;
use crate::error::EncodeError;
use crate::order::emission_order;
use crate::order::positions_below;
use crate::order::property_names;
use crate::order::sorted_property_order;
use crate::plan::plan_property;
use crate::plan::PlannedProperty;
use crate::plan::PlannedValue;
use crate::shared_string::encode_base64;
use crate::shared_string::SharedString;
use crate::state::EmitState;
use crate::state::StateModel;
use crate::text::decimal_string;
use crate::text::decimal;
use crate::tree::NodeId;
use crate::tree::Property;
use crate::tree::PropertyView;
use crate::tree::Tree;
use crate::value::Value;
use crate::wire::emit_characters;
use crate::wire::emit_end;
use crate::wire::emit_start_plain;
use crate::wire::emit_start_with_two;
use crate::wire::emit_start_with;
use crate::wire::emit;
use crate::wire::events_view;
use crate::wire::start_plain;
use crate::wire::start_with_two;
use crate::wire::start_with;
use crate::wire::WireEvent;
use crate::wire::WireEventView;
use vstd::prelude::*;

verus! {

/// Describes the strategy used when serializing properties.
#[derive(Debug, Clone, Copy, PartialEq, Eq, Hash, Structural)]
pub enum EncodePropertyBehavior {
    /// Ignores properties that the reflection database does not know.
    ///
    /// This is the default.
    IgnoreUnknown,
    /// Writes unrecognized properties under the name and type that they have
    /// in the tree.
    WriteUnknown,
    /// Returns an error if any property is found that the reflection database
    /// does not know.
    ErrorOnUnknown,
    /// Turns the reflection database off altogether. Property names and types
    /// appear exactly as they are in the tree.
    NoReflection,
}

/// Options available for serializing a model or place.
#[derive(Debug, Clone)]
pub struct EncodeOptions {
    property_behavior: EncodePropertyBehavior,
}

impl View for EncodeOptions {
    type V = EncodePropertyBehavior;

    /// The options are fully described by the behavior they select.
    closed spec fn view(&self) -> EncodePropertyBehavior {
        self.property_behavior
    }
}

impl EncodeOptions {
    /// Constructs an `EncodeOptions` with all values set to their defaults.
    #[inline]
    pub fn new() -> (options: Self)
        ensures
            options@ == EncodePropertyBehavior::IgnoreUnknown,
    {
        EncodeOptions { property_behavior: EncodePropertyBehavior::IgnoreUnknown }
    }

    /// Determines how properties are serialized, especially unknown ones.
    #[inline]
    pub fn property_behavior(self, property_behavior: EncodePropertyBehavior) -> (options: Self)
        ensures
            options@ == property_behavior,
    {
        EncodeOptions { property_behavior }
    }

    /// The behavior that these options select.
    pub fn behavior(&self) -> (behavior: EncodePropertyBehavior)
        ensures
            behavior == self@,
    {
        self.property_behavior
    }

    /// Whether property names and types are looked up in the reflection
    /// database at all.
    pub fn use_reflection(&self) -> (reflect: bool)
        ensures
            reflect == (self@ != EncodePropertyBehavior::NoReflection),
    {
        self.property_behavior != EncodePropertyBehavior::NoReflection
    }
}

impl Default for EncodeOptions {
    fn default() -> (options: EncodeOptions)
        ensures
            options@ == EncodePropertyBehavior::IgnoreUnknown,
    {
        EncodeOptions::new()
    }
}

/// Writes the name of an instance as the string property `Name`.
pub fn write_name(output: &mut Vec<WireEvent>, name: &str)
    ensures
        events_view(final(output)@) == events_view(old(output)@).push(
            start_with("string"@, "name"@, "Name"@),
        ).push(WireEventView::Characters(name@)).push(WireEventView::EndElement),
{
    emit_start_with(output, "string", "name", "Name");
    emit_characters(output, name);
    emit_end(output);
}

/// What a sequence of properties holds.
pub open spec fn properties_view(properties: Seq<Property>) -> Seq<PropertyView> {
    properties.map_values(|p: Property| p@)
}

/// Writes a value under a name.
pub fn write_value(output: &mut Vec<WireEvent>, state: &mut EmitState, name: &str, value: &Value)
    requires
        old(state).wf(),
    ensures
        final(state).wf(),
        final(state).behavior() == old(state).behavior(),
        emission_of(final(output)@, final(state)@) == emission_of(
            old(output)@,
            old(state)@,
        ).write_value(name@, value@),
{
    emit_start_with(output, value.kind().wire_tag(), "name", name);
    match value {
        Value::Data(data) => {
            emit(output, WireEvent::Payload(data.payload().clone()));
        },
        Value::Ref(None) => {
            emit_characters(output, "null");
        },
        Value::Ref(Some(target)) => {
            let referent = state.map_id(*target);
            let text = decimal_string(referent);
            emit_characters(output, text.as_str());
        },
        Value::SharedString(shared) => {
            state.add_shared_string(shared.duplicate());
            let hash = shared.md5_hash();
            let text = encode_base64(hash.as_slice());
            emit_characters(output, text.as_str());
        },
    }
    emit_end(output);
    assert(emission_of(output@, state@) =~= emission_of(old(output)@, old(state)@).write_value(
        name@,
        value@,
    ));
}

/// Writes the properties of an instance of the class `class_name`, sorted
/// by name, each treated as the options of `state` and the database say.
#[verifier::loop_isolation(false)]
pub fn serialize_properties(
    output: &mut Vec<WireEvent>,
    state: &mut EmitState,
    database: &ReflectionDatabase,
    class_name: &str,
    properties: &Vec<Property>,
) -> (result: Result<(), EncodeError>)
    requires
        old(state).wf(),
        old(state).behavior() != EncodePropertyBehavior::NoReflection ==> database.wf(),
    ensures
        final(state).wf(),
        final(state).behavior() == old(state).behavior(),
        match emit_properties(
            database,
            old(state).behavior(),
            class_name@,
            properties_view(properties@),
            emission_order(property_names(properties@)),
            0,
            emission_of(old(output)@, old(state)@),
        ) {
            Ok(emission) => result is Ok && emission_of(final(output)@, final(state)@) == emission,
            Err(error) => result matches Err(e) && e@ == error,
        },
{
    let behavior = state.property_behavior();
    let order = sorted_property_order(properties);
    let ghost start = emission_of(output@, state@);
    let mut i: usize = 0;
    while i < order.len()
        invariant
            i <= order@.len(),
            order@ == emission_order(property_names(properties@)),
            positions_below(order@, properties@.len() as int),
            state.wf(),
            state.behavior() == behavior,
            behavior != EncodePropertyBehavior::NoReflection ==> database.wf(),
            emit_properties(
                database,
                behavior,
                class_name@,
                properties_view(properties@),
                order@,
                0,
                start,
            ) == emit_properties(
                database,
                behavior,
                class_name@,
                properties_view(properties@),
                order@,
                i as int,
                emission_of(output@, state@),
            ),
        decreases order@.len() - i,
    {
        let property = &properties[order[i]];
        match plan_property(database, behavior, class_name, property) {
            PlannedProperty::Skip => {},
            PlannedProperty::Write { name, value } => match value {
                PlannedValue::Stored(stored) => {
                    write_value(output, state, name, stored);
                },
                PlannedValue::Converted(data) => {
                    let converted = Value::Data(data);
                    write_value(output, state, name, &converted);
                },
            },
            PlannedProperty::Fail(error) => {
                return Err(error);
            },
        }
        i += 1;
    }
    Ok(())
}

/// Serializes a single instance with all its descendants.
#[verifier::loop_isolation(false)]
pub fn serialize_instance(
    output: &mut Vec<WireEvent>,
    state: &mut EmitState,
    tree: &Tree,
    database: &ReflectionDatabase,
    id: NodeId,
) -> (result: Result<(), EncodeError>)
    requires
        tree.contains(id),
        old(state).wf(),
        old(state).behavior() != EncodePropertyBehavior::NoReflection ==> database.wf(),
    ensures
        final(state).wf(),
        final(state).behavior() == old(state).behavior(),
        match emit_instance(
            tree@,
            database,
            old(state).behavior(),
            id,
            emission_of(old(output)@, old(state)@),
        ) {
            Ok(emission) => result is Ok && emission_of(final(output)@, final(state)@) == emission,
            Err(error) => result matches Err(e) && e@ == error,
        },
    decreases tree.spec_len() - id,
{
    let ghost behavior = state.behavior();
    let ghost start = emission_of(output@, state@);
    let instance = match tree.get_instance(id) {
        Some(instance) => instance,
        None => {
            return Ok(());
        },
    };
    let properties = instance.properties();
    let mapped_id = state.map_id(id);
    let referent = decimal_string(mapped_id);
    emit_start_with_two(
        output,
        "Item",
        ("class", properties.class_name.as_str()),
        ("referent", referent.as_str()),
    );
    emit_start_plain(output, "Properties");
    write_name(output, properties.name.as_str());
    let ghost opened = emission_of(output@, state@);
    assert(opened =~= Emission {
        events: start.events.push(
            start_with_two(
                "Item"@,
                ("class"@, properties@.class_name),
                ("referent"@, decimal(start.state.referent_of(id))),
            ),
        ).push(start_plain("Properties"@)),
        state: start.state.map_id(id),
    }.write_name(properties@.name));
    assert(property_names(properties.properties@) =~= properties@.names());
    assert(properties_view(properties.properties@) =~= properties@.properties);
    assert(tree@[id as int] == instance@);
    match serialize_properties(
        output,
        state,
        database,
        properties.class_name.as_str(),
        &properties.properties,
    ) {
        Err(error) => {
            return Err(error);
        },
        Ok(()) => {},
    }
    emit_end(output);
    let ghost written = emission_of(output@, state@);
    assert(emit_instance(tree@, database, behavior, id, start) == match emit_children(
        tree@,
        database,
        behavior,
        id,
        0,
        written,
    ) {
        Err(error) => Err(error),
        Ok(done) => Ok(done.push(WireEventView::EndElement)),
    });
    let children = instance.get_children_ids();
    let mut i: usize = 0;
    while i < children.len()
        invariant
            i <= children@.len(),
            tree.wf(),
            tree.contains(id),
            children@ == tree@[id as int].children,
            state.wf(),
            state.behavior() == behavior,
            behavior != EncodePropertyBehavior::NoReflection ==> database.wf(),
            emit_children(tree@, database, behavior, id, 0, written) == emit_children(
                tree@,
                database,
                behavior,
                id,
                i as int,
                emission_of(output@, state@),
            ),
        decreases children@.len() - i,
    {
        let child = children[i];
        assert(tree.linked(id as int));
        assert(id < tree.spec_instances()[id as int].spec_children()[i as int] < tree.spec_len());
        match serialize_instance(output, state, tree, database, child) {
            Err(error) => {
                return Err(error);
            },
            Ok(()) => {},
        }
        i += 1;
    }
    emit_end(output);
    assert(emit_children(tree@, database, behavior, id, 0, written) matches Ok(done)
        && emission_of(output@, state@) =~= done.push(WireEventView::EndElement));
    Ok(())
}

/// Writes the dictionary of the shared strings that were referenced, if
/// there are any.
pub fn serialize_shared_strings(output: &mut Vec<WireEvent>, state: &EmitState)
    ensures
        emission_of(final(output)@, state@) == emission_of(
            old(output)@,
            state@,
        ).write_shared_strings(),
{
    let shared = state.shared_strings();
    if shared.len() == 0 {
        return ;
    }
    emit_start_plain(output, "SharedStrings");
    let ghost opened = emission_of(output@, state@);
    let mut i: usize = 0;
    while i < shared.len()
        invariant
            i <= shared@.len(),
            shared@.len() == state@.shared_strings.len(),
            forall|k: int| 0 <= k < shared@.len() ==> (#[trigger] shared@[k])@
                == state@.shared_strings[k],
            opened.write_shared_entries(0) == emission_of(output@, state@).write_shared_entries(
                i as int,
            ),
        decreases shared@.len() - i,
    {
        let value = &shared[i];
        let hash = value.md5_hash();
        let hash_text = encode_base64(hash.as_slice());
        emit_start_with(output, "SharedString", "md5", hash_text.as_str());
        let data_text = encode_base64(value.data());
        emit_characters(output, data_text.as_str());
        emit_end(output);
        assert(state@.shared_strings[i as int] == value@);
        i += 1;
    }
    emit_end(output);
}

/// Encodes the instances `ids` of `tree`, each with its descendants, into
/// the events of one document.
///
/// Every id must be in the tree. The database is consulted, and must be
/// consistent, unless the options turn reflection off.
#[verifier::loop_isolation(false)]
pub fn encode_internal(
    tree: &Tree,
    database: &ReflectionDatabase,
    ids: &[NodeId],
    options: EncodeOptions,
) -> (result: Result<Vec<WireEvent>, EncodeError>)
    requires
        forall|i: int| 0 <= i < ids@.len() ==> tree.contains(#[trigger] ids@[i]),
        options@ != EncodePropertyBehavior::NoReflection ==> database.wf(),
    ensures
        encodes(result, tree@, database, options@, ids@),
{
    let ghost behavior = options@;
    let mut output: Vec<WireEvent> = Vec::new();
    let mut state = EmitState::new(options);
    emit_start_with(&mut output, "roblox", "version", "4");
    let ghost start = emission_of(output@, state@);
    assert(start =~= Emission {
        events: seq![start_with("roblox"@, "version"@, "4"@)],
        state: StateModel::empty(),
    });
    let mut i: usize = 0;
    while i < ids.len()
        invariant
            i <= ids@.len(),
            forall|k: int| 0 <= k < ids@.len() ==> tree.contains(#[trigger] ids@[k]),
            state.wf(),
            state.behavior() == behavior,
            behavior != EncodePropertyBehavior::NoReflection ==> database.wf(),
            emit_roots(tree@, database, behavior, ids@, 0, start) == emit_roots(
                tree@,
                database,
                behavior,
                ids@,
                i as int,
                emission_of(output@, state@),
            ),
        decreases ids@.len() - i,
    {
        match serialize_instance(&mut output, &mut state, tree, database, ids[i]) {
            Err(error) => {
                return Err(error);
            },
            Ok(()) => {},
        }
        i += 1;
    }
    serialize_shared_strings(&mut output, &state);
    emit_end(&mut output);
    Ok(output)
}

} // verus!
