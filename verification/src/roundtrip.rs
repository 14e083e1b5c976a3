//! Decoding undoes encoding: what the parser reads from the events that the
//! encoder writes.

use crate::database::ReflectionDatabase;
use crate::deserializer::built;
use crate::deserializer::children_of;
use crate::deserializer::lemma_built_children;
use crate::deserializer::lemma_roots_are_children_of_root;
use crate::deserializer::decoded_document;
use crate::deserializer::decoded_instance;
use crate::deserializer::decoded_properties;
use crate::deserializer::decoded_property;
use crate::deserializer::DecodePropertyBehavior;
use crate::deserializer::entry_position;
use crate::deserializer::node_of;
use crate::deserializer::parent_of;
use crate::deserializer::referent_position;
use crate::deserializer::resolved_value;
use crate::deserializer::root_ids;
use crate::deserializer::root_instance;
use crate::emission::Emission;
use crate::emission::emit_children;
use crate::emission::emit_instance;
use crate::emission::emit_properties;
use crate::emission::emit_roots;
use crate::emission::encoded_document;
use crate::emission::lemma_emit_children_grows;
use crate::emission::lemma_emit_instance_grows;
use crate::emission::lemma_emit_properties_grows;
use crate::emission::lemma_emit_roots_grows;
use crate::error::DecodeErrorView;
use crate::order::emission_order;
use crate::order::lemma_emission_order_shape;
use crate::order::lemma_emission_order_sorted;
use crate::order::names_of;
use crate::order::sorted_properties;
use crate::parse::attribute_from;
use crate::parse::ContentView;
use crate::parse::interpret;
use crate::parse::Interpreted;
use crate::parse::parsed;
use crate::parse::ParsedDocumentView;
use crate::parse::ParsedItemView;
use crate::parse::ParsedPropertyView;
use crate::parse::ParsedValueView;
use crate::parse::ParserView;
use crate::parse::PhaseView;
use crate::parse::SharedEntryView;
use crate::plan::canonical_plan;
use crate::plan::property_plan;
use crate::plan::PropertyPlan;
use crate::serializer::EncodePropertyBehavior;
use crate::shared_string::base64_bytes;
use crate::shared_string::base64_text;
use crate::shared_string::md5_digest;
use crate::shared_string::SharedBlob;
use crate::state::StateModel;
use crate::text::decimal;
use crate::text::lemma_decimal_injective;
use crate::text::lemma_decimal_is_not_null;
use crate::tree::inserted;
use crate::tree::InstancePropertiesView;
use crate::tree::InstanceView;
use crate::tree::NodeId;
use crate::tree::PropertyView;
use crate::value::ValueKind;
use crate::value::ValueView;
use crate::wire::start_plain;
use crate::wire::start_with_two;
use crate::wire::start_with;
use crate::wire::WireEventView;
use vstd::prelude::*;

verus! {

impl ParserView {
    /// The parser after the events at the positions from `from` up to, but
    /// not including, `to`, or the first error.
    pub open spec fn run_to(self, events: Seq<WireEventView>, from: int, to: int) -> Result<
        ParserView,
        DecodeErrorView,
    >
        decreases to - from,
    {
        if from < 0 || from >= to || to > events.len() {
            Ok(self)
        } else {
            match self.step(events[from], from as usize) {
                Ok(next) => next.run_to(events, from + 1, to),
                Err(error) => Err(error),
            }
        }
    }

    /// Reading a stretch of events is reading its first part and then the
    /// rest.
    pub proof fn lemma_run_to_split(
        self,
        events: Seq<WireEventView>,
        from: int,
        middle: int,
        to: int,
    )
        requires
            0 <= from <= middle <= to <= events.len(),
        ensures
            self.run_to(events, from, to) == match self.run_to(events, from, middle) {
                Ok(parser) => parser.run_to(events, middle, to),
                Err(error) => Err(error),
            },
        decreases middle - from,
    {
        if from < middle {
            match self.step(events[from], from as usize) {
                Ok(next) => {
                    next.lemma_run_to_split(events, from + 1, middle, to);
                },
                Err(_) => {},
            }
        }
    }

    /// Reading to the end is reading the stretch up to the end.
    pub proof fn lemma_run_is_run_to(self, events: Seq<WireEventView>, from: int)
        requires
            0 <= from,
        ensures
            self.run(events, from) == self.run_to(events, from, events.len() as int),
        decreases events.len() - from,
    {
        if from < events.len() {
            match self.step(events[from], from as usize) {
                Ok(next) => {
                    next.lemma_run_is_run_to(events, from + 1);
                },
                Err(_) => {},
            }
        }
    }

    /// Whether the parser stands inside the properties of an item that it
    /// holds.
    pub open spec fn in_properties(self) -> bool {
        &&& self.phase is Properties
        &&& self.open.len() > 0
        &&& self.open.last() < self.items.len()
    }

    /// The parser after the innermost open item took a property.
    pub open spec fn with_property(self, property: ParsedPropertyView) -> ParserView {
        let at = self.open.last() as int;
        let item = self.items[at];
        ParserView {
            phase: PhaseView::Properties,
            open: self.open,
            items: self.items.update(
                at,
                ParsedItemView {
                    class_name: item.class_name,
                    referent: item.referent,
                    name: item.name,
                    properties: item.properties.push(property),
                    parent: item.parent,
                },
            ),
            shared_strings: self.shared_strings,
        }
    }

    /// The parser after the innermost open item took a name.
    pub open spec fn with_name(self, name: Seq<char>) -> ParserView {
        let at = self.open.last() as int;
        let item = self.items[at];
        ParserView {
            phase: PhaseView::Properties,
            open: self.open,
            items: self.items.update(
                at,
                ParsedItemView {
                    class_name: item.class_name,
                    referent: item.referent,
                    name,
                    properties: item.properties,
                    parent: item.parent,
                },
            ),
            shared_strings: self.shared_strings,
        }
    }
}

/// Whether a state gives every id that has a referent the referent that
/// `referents` names.
pub open spec fn follows(state: StateModel, referents: spec_fn(NodeId) -> nat) -> bool {
    forall|id: NodeId| #[trigger]
        state.referents.contains_key(id) ==> state.referents[id] == referents(id)
}

/// The form in which a value stands in a document, where `referents` gives
/// the referent of every instance.
pub open spec fn parsed_value(
    value: ValueView,
    referents: spec_fn(NodeId) -> nat,
) -> ParsedValueView {
    match value {
        ValueView::Data(data) => ParsedValueView::Data(data),
        ValueView::Ref(None) => ParsedValueView::NoReference,
        ValueView::Ref(Some(target)) => ParsedValueView::Reference(decimal(referents(target))),
        ValueView::SharedString(shared) => ParsedValueView::Shared(base64_text(shared.hash)),
    }
}

/// The form in which a property stands in a document.
pub open spec fn parsed_property(
    property: PropertyView,
    referents: spec_fn(NodeId) -> nat,
) -> ParsedPropertyView {
    ParsedPropertyView { name: property.name, value: parsed_value(property.value, referents) }
}

/// Whether a value can be written and read back: a data value must be
/// typed, as every data value in executable code is.
pub open spec fn readable(value: ValueView) -> bool {
    value matches ValueView::Data(data) ==> data.typed()
}

/// The tags of references, shared strings and strings differ from each
/// other, and only values of these kinds are written under them.
pub proof fn lemma_special_tags(kind: ValueKind)
    ensures
        "Ref"@ != "string"@,
        "SharedString"@ != "string"@,
        "SharedString"@ != "Ref"@,
        kind.spec_wire_tag() == "Ref"@ ==> kind == ValueKind::Ref,
        kind.spec_wire_tag() == "SharedString"@ ==> kind == ValueKind::SharedString,
        ValueKind::spec_from_wire_tag(kind.spec_wire_tag()) is Some,
        ValueKind::Ref.spec_wire_tag() == "Ref"@,
        ValueKind::SharedString.spec_wire_tag() == "SharedString"@,
{
    kind.lemma_wire_tag_round_trip("Ref"@);
    ValueKind::Ref.lemma_wire_tag_round_trip("Ref"@);
    ValueKind::SharedString.lemma_wire_tag_round_trip("Ref"@);
    ValueKind::String.lemma_wire_tag_round_trip("Ref"@);
}

/// What is written for a value is read back as that value: the parser reads
/// the events that the encoder writes for a property as the property in
/// its document form.
pub proof fn lemma_value_is_read_back(
    parser: ParserView,
    emission: Emission,
    name: Seq<char>,
    value: ValueView,
    referents: spec_fn(NodeId) -> nat,
    events: Seq<WireEventView>,
)
    requires
        parser.in_properties(),
        readable(value),
        follows(emission.write_value(name, value).state, referents),
        emission.write_value(name, value).events.is_prefix_of(events),
        events.len() <= usize::MAX,
    ensures
        emission.write_value(name, value).events.len() == emission.events.len() + 3,
        parser.run_to(
            events,
            emission.events.len() as int,
            emission.write_value(name, value).events.len() as int,
        ) == Ok::<ParserView, DecodeErrorView>(
            parser.with_property(
                parsed_property(PropertyView { name, value }, referents),
            ),
        ),
{
    let written = emission.write_value(name, value);
    let at = emission.events.len() as int;
    let tag = value.kind().spec_wire_tag();
    lemma_special_tags(value.kind());
    assert(events[at] == written.events[at]);
    assert(events[at + 1] == written.events[at + 1]);
    assert(events[at + 2] == written.events[at + 2]);
    assert(events[at] == start_with(tag, "name"@, name));
    assert(events[at + 2] == WireEventView::EndElement);
    let attributes = seq![("name"@, name)];
    assert(attribute_from(attributes, "name"@, 0) == Some(name));
    let opened = parser.at(PhaseView::Value { tag, name, content: ContentView::Empty });
    assert(parser.step(events[at], at as usize) == Ok::<ParserView, DecodeErrorView>(opened));
    let content = match value {
        ValueView::Data(data) => ContentView::Payload(data.spec_payload()),
        ValueView::Ref(None) => ContentView::Text("null"@),
        ValueView::Ref(Some(target)) => ContentView::Text(
            decimal(emission.state.referent_of(target)),
        ),
        ValueView::SharedString(shared) => ContentView::Text(base64_text(shared.hash)),
    };
    let filled = parser.at(PhaseView::Value { tag, name, content });
    assert(opened.step(events[at + 1], (at + 1) as usize) == Ok::<ParserView, DecodeErrorView>(
        filled,
    ));
    let property = parsed_property(PropertyView { name, value }, referents);
    match value {
        ValueView::Data(data) => {
            data.lemma_typed();
        },
        ValueView::Ref(None) => {},
        ValueView::Ref(Some(target)) => {
            emission.state.lemma_map_id_gives_referent(target);
            lemma_decimal_is_not_null(emission.state.referent_of(target));
            assert(written.state.referents.contains_key(target));
        },
        ValueView::SharedString(shared) => {},
    }
    assert(interpret(tag, name, content, (at + 2) as usize) == Ok::<Interpreted, DecodeErrorView>(
        Interpreted::Property(property.value),
    ));
    assert(filled.attach(name, Interpreted::Property(property.value), (at + 2) as usize) == Ok::<
        ParserView,
        DecodeErrorView,
    >(parser.with_property(property)));
    assert(filled.step(events[at + 2], (at + 2) as usize) == Ok::<ParserView, DecodeErrorView>(
        parser.with_property(property),
    ));
    reveal_with_fuel(ParserView::run_to, 4);
}

/// The name of an instance is read back as it was written.
pub proof fn lemma_name_is_read_back(
    parser: ParserView,
    emission: Emission,
    name: Seq<char>,
    events: Seq<WireEventView>,
)
    requires
        parser.in_properties(),
        emission.write_name(name).events.is_prefix_of(events),
        events.len() <= usize::MAX,
    ensures
        emission.write_name(name).events.len() == emission.events.len() + 3,
        parser.run_to(
            events,
            emission.events.len() as int,
            emission.write_name(name).events.len() as int,
        ) == Ok::<ParserView, DecodeErrorView>(parser.with_name(name)),
{
    let written = emission.write_name(name);
    let at = emission.events.len() as int;
    assert(events[at] == written.events[at]);
    assert(events[at + 1] == written.events[at + 1]);
    assert(events[at + 2] == written.events[at + 2]);
    let attributes = seq![("name"@, "Name"@)];
    assert(attribute_from(attributes, "name"@, 0) == Some("Name"@));
    let opened = parser.at(
        PhaseView::Value { tag: "string"@, name: "Name"@, content: ContentView::Empty },
    );
    assert(parser.step(events[at], at as usize) == Ok::<ParserView, DecodeErrorView>(opened));
    let filled = parser.at(
        PhaseView::Value { tag: "string"@, name: "Name"@, content: ContentView::Text(name) },
    );
    assert(opened.step(events[at + 1], (at + 1) as usize) == Ok::<ParserView, DecodeErrorView>(
        filled,
    ));
    assert(filled.attach("Name"@, Interpreted::Name(name), (at + 2) as usize) == Ok::<
        ParserView,
        DecodeErrorView,
    >(parser.with_name(name)));
    assert(filled.step(events[at + 2], (at + 2) as usize) == Ok::<ParserView, DecodeErrorView>(
        parser.with_name(name),
    ));
    reveal_with_fuel(ParserView::run_to, 4);
}

impl ParserView {
    /// The parser after the innermost open item took several properties.
    pub open spec fn with_properties(self, properties: Seq<ParsedPropertyView>) -> ParserView {
        let at = self.open.last() as int;
        let item = self.items[at];
        ParserView {
            phase: PhaseView::Properties,
            open: self.open,
            items: self.items.update(
                at,
                ParsedItemView {
                    class_name: item.class_name,
                    referent: item.referent,
                    name: item.name,
                    properties: item.properties + properties,
                    parent: item.parent,
                },
            ),
            shared_strings: self.shared_strings,
        }
    }
}

/// The document forms of the properties from position `from` on.
pub open spec fn parsed_properties(
    properties: Seq<PropertyView>,
    from: int,
    referents: spec_fn(NodeId) -> nat,
) -> Seq<ParsedPropertyView> {
    properties.skip(from).map_values(|p: PropertyView| parsed_property(p, referents))
}

/// Whether every value of the properties can be written and read back.
pub open spec fn all_readable(properties: Seq<PropertyView>) -> bool {
    forall|i: int| 0 <= i < properties.len() ==> readable((#[trigger] properties[i]).value)
}

/// With reflection off, the properties that are written are read back in
/// the order in which they were written, each as it is stored.
pub proof fn lemma_properties_are_read_back(
    parser: ParserView,
    emission: Emission,
    database: &ReflectionDatabase,
    class_name: Seq<char>,
    properties: Seq<PropertyView>,
    from: int,
    referents: spec_fn(NodeId) -> nat,
    events: Seq<WireEventView>,
)
    requires
        parser.in_properties(),
        emission.state.wf(),
        0 <= from <= properties.len(),
        properties.len() <= usize::MAX,
        all_readable(properties),
        events.len() <= usize::MAX,
        emit_properties(
            database,
            EncodePropertyBehavior::NoReflection,
            class_name,
            properties,
            emission_order(names_of(properties)),
            from,
            emission,
        ) matches Ok(written) ==> follows(written.state, referents) && written.events.is_prefix_of(
            events,
        ),
    ensures
        emit_properties(
            database,
            EncodePropertyBehavior::NoReflection,
            class_name,
            properties,
            emission_order(names_of(properties)),
            from,
            emission,
        ) matches Ok(written) && emission.grows_to(written) && parser.run_to(
            events,
            emission.events.len() as int,
            written.events.len() as int,
        ) == Ok::<ParserView, DecodeErrorView>(
            parser.with_properties(
                parsed_properties(sorted_properties(properties), from, referents),
            ),
        ),
    decreases properties.len() - from,
{
    let behavior = EncodePropertyBehavior::NoReflection;
    let order = emission_order(names_of(properties));
    let sorted = sorted_properties(properties);
    lemma_emission_order_shape(names_of(properties), properties.len());
    lemma_emit_properties_grows(database, behavior, class_name, properties, order, from, emission);
    let at = parser.open.last() as int;
    if from >= order.len() {
        assert(parsed_properties(sorted, from, referents) =~= Seq::empty());
        assert(parser.items[at].properties + Seq::<ParsedPropertyView>::empty()
            =~= parser.items[at].properties);
        assert(parser.with_properties(Seq::empty()) =~= parser);
    } else {
        let property = properties[order[from] as int];
        assert(sorted[from] == property);
        assert(property_plan(database, behavior, class_name, property) == (PropertyPlan::Write {
            name: property.name,
            value: property.value,
        }));
        let next = emission.write_value(property.name, property.value);
        emission.lemma_write_value_grows(property.name, property.value);
        lemma_emit_properties_grows(
            database,
            behavior,
            class_name,
            properties,
            order,
            from + 1,
            next,
        );
        let written = emit_properties(
            database,
            behavior,
            class_name,
            properties,
            order,
            from + 1,
            next,
        );
        match written {
            Ok(last) => {
                assert(written == emit_properties(
                    database,
                    behavior,
                    class_name,
                    properties,
                    order,
                    from,
                    emission,
                ));
                assert(follows(next.state, referents));
                assert(next.events.is_prefix_of(events));
                lemma_value_is_read_back(
                    parser,
                    emission,
                    property.name,
                    property.value,
                    referents,
                    events,
                );
                let read = parser.with_property(parsed_property(property, referents));
                lemma_properties_are_read_back(
                    read,
                    next,
                    database,
                    class_name,
                    properties,
                    from + 1,
                    referents,
                    events,
                );
                parser.lemma_run_to_split(
                    events,
                    emission.events.len() as int,
                    next.events.len() as int,
                    last.events.len() as int,
                );
                let rest = parsed_properties(sorted, from + 1, referents);
                let all = parsed_properties(sorted, from, referents);
                assert(all =~= seq![parsed_property(property, referents)] + rest);
                assert(parser.items[at].properties.push(parsed_property(property, referents))
                    + rest =~= parser.items[at].properties + all);
                assert(read.with_properties(rest) =~= parser.with_properties(all));
                emission.lemma_grows_transitive(next, last);
            },
            Err(_) => {
                assert(written == emit_properties(
                    database,
                    behavior,
                    class_name,
                    properties,
                    order,
                    from,
                    emission,
                ));
            },
        }
        lemma_properties_never_fail(database, class_name, properties, from, emission);
    }
}

/// With reflection off, writing properties never fails.
pub proof fn lemma_properties_never_fail(
    database: &ReflectionDatabase,
    class_name: Seq<char>,
    properties: Seq<PropertyView>,
    from: int,
    emission: Emission,
)
    ensures
        emit_properties(
            database,
            EncodePropertyBehavior::NoReflection,
            class_name,
            properties,
            emission_order(names_of(properties)),
            from,
            emission,
        ) is Ok,
    decreases emission_order(names_of(properties)).len() - from,
{
    let order = emission_order(names_of(properties));
    if 0 <= from < order.len() {
        let property = properties[order[from] as int];
        lemma_properties_never_fail(
            database,
            class_name,
            properties,
            from + 1,
            emission.write_value(property.name, property.value),
        );
    }
}

impl ParserView {
    /// The position of the innermost open item, if an item is open.
    pub open spec fn top(self) -> Option<usize> {
        if self.open.len() > 0 {
            Some(self.open.last())
        } else {
            None
        }
    }

    /// The parser between items, after it read several more items in full.
    pub open spec fn with_items(self, items: Seq<ParsedItemView>) -> ParserView {
        ParserView {
            phase: PhaseView::Items,
            open: self.open,
            items: self.items + items,
            shared_strings: self.shared_strings,
        }
    }
}

/// The item that stands for an instance in a document: its class, its
/// referent, its name, and its properties sorted by name.
pub open spec fn item_of(
    tree: Seq<InstanceView>,
    id: NodeId,
    parent: Option<usize>,
    referents: spec_fn(NodeId) -> nat,
) -> ParsedItemView {
    let properties = tree[id as int].properties;
    ParsedItemView {
        class_name: properties.class_name,
        referent: decimal(referents(id)),
        name: properties.name,
        properties: parsed_properties(sorted_properties(properties.properties), 0, referents),
        parent,
    }
}

/// The items that stand for an instance and its descendants: the instance
/// first, then each child with its own descendants. `parent` is the
/// position of the item that encloses the instance, `base` the position of
/// its own item.
pub open spec fn items_of_instance(
    tree: Seq<InstanceView>,
    id: NodeId,
    parent: Option<usize>,
    base: nat,
    referents: spec_fn(NodeId) -> nat,
) -> Seq<ParsedItemView>
    decreases tree.len() - id, tree[id as int].children.len() + 1,
{
    if id >= tree.len() {
        Seq::empty()
    } else {
        seq![item_of(tree, id, parent, referents)] + items_of_children(
            tree,
            id,
            0,
            base,
            base + 1,
            referents,
        )
    }
}

/// The items that stand for the children of `parent` from position `from`
/// on, with their descendants. `position` is the position of the item of
/// `parent`, `next` the position of the first of these items.
pub open spec fn items_of_children(
    tree: Seq<InstanceView>,
    parent: NodeId,
    from: int,
    position: nat,
    next: nat,
    referents: spec_fn(NodeId) -> nat,
) -> Seq<ParsedItemView>
    decreases tree.len() - parent, tree[parent as int].children.len() - from,
{
    let children = tree[parent as int].children;
    if parent >= tree.len() || from < 0 || from >= children.len() {
        Seq::empty()
    } else if parent < children[from] && children[from] < tree.len() {
        let first = items_of_instance(
            tree,
            children[from],
            Some(position as usize),
            next,
            referents,
        );
        first + items_of_children(
            tree,
            parent,
            from + 1,
            position,
            next + first.len(),
            referents,
        )
    } else {
        Seq::empty()
    }
}

/// Whether every value in the tree can be written and read back, and no
/// instance has more properties than can be counted.
pub open spec fn readable_tree(tree: Seq<InstanceView>) -> bool {
    forall|id: int|
        0 <= id < tree.len() ==> all_readable((#[trigger] tree[id]).properties.properties)
            && tree[id].properties.properties.len() <= usize::MAX
}

/// With reflection off, an instance that is written with its descendants
/// is read back as the items that stand for them.
pub proof fn lemma_instance_is_read_back(
    parser: ParserView,
    emission: Emission,
    tree: Seq<InstanceView>,
    database: &ReflectionDatabase,
    id: NodeId,
    referents: spec_fn(NodeId) -> nat,
    events: Seq<WireEventView>,
)
    requires
        parser.phase is Items,
        emission.state.wf(),
        readable_tree(tree),
        events.len() <= usize::MAX,
        parser.items.len() + items_of_instance(
            tree,
            id,
            parser.top(),
            parser.items.len(),
            referents,
        ).len() <= usize::MAX,
        emit_instance(
            tree,
            database,
            EncodePropertyBehavior::NoReflection,
            id,
            emission,
        ) matches Ok(written) ==> follows(written.state, referents)
            && written.events.is_prefix_of(events),
    ensures
        emit_instance(
            tree,
            database,
            EncodePropertyBehavior::NoReflection,
            id,
            emission,
        ) matches Ok(written) && emission.grows_to(written) && parser.run_to(
            events,
            emission.events.len() as int,
            written.events.len() as int,
        ) == Ok::<ParserView, DecodeErrorView>(
            parser.with_items(
                items_of_instance(tree, id, parser.top(), parser.items.len(), referents),
            ),
        ),
    decreases tree.len() - id, tree[id as int].children.len() + 1,
{
    let behavior = EncodePropertyBehavior::NoReflection;
    lemma_emit_instance_grows(tree, database, behavior, id, emission);
    if id >= tree.len() {
        assert(parser.items + Seq::<ParsedItemView>::empty() =~= parser.items);
        assert(parser.with_items(Seq::empty()) =~= parser);
    } else {
        let properties = tree[id as int].properties;
        let a = emission.events.len() as int;
        let position = parser.items.len();
        let text = decimal(emission.state.referent_of(id));
        let mapped = Emission {
            events: emission.events.push(
                start_with_two("Item"@, ("class"@, properties.class_name), ("referent"@, text)),
            ).push(start_plain("Properties"@)),
            state: emission.state.map_id(id),
        };
        let opened = mapped.write_name(properties.name);
        emission.state.lemma_map_id_keeps_dense(id);
        assert(emission.grows_to(mapped));
        assert(mapped.grows_to(opened));
        lemma_properties_never_fail(
            database,
            properties.class_name,
            properties.properties,
            0,
            opened,
        );
        lemma_emit_properties_grows(
            database,
            behavior,
            properties.class_name,
            properties.properties,
            emission_order(properties.names()),
            0,
            opened,
        );
        let filled = emit_properties(
            database,
            behavior,
            properties.class_name,
            properties.properties,
            emission_order(properties.names()),
            0,
            opened,
        )->Ok_0;
        let closed = filled.push(WireEventView::EndElement);
        assert(filled.grows_to(closed));
        lemma_emit_children_grows(tree, database, behavior, id, 0, closed);
        // the parser after the opening of the item and of its properties
        let first = parser.open_item(properties.class_name, text);
        let second = first.at(PhaseView::Properties);
        let third = second.with_name(properties.name);
        let parsed = parsed_properties(sorted_properties(properties.properties), 0, referents);
        let fourth = third.with_properties(parsed);
        let fifth = fourth.at(PhaseView::Items);
        let item = item_of(tree, id, parser.top(), referents);
        assert(fifth.open == parser.open.push(position as usize));
        assert(fifth.open.last() == position);
        assert(fifth.top() == Some(position as usize));
        assert(fifth.items.len() == position + 1);
        let descendants = items_of_children(
            tree,
            id,
            0,
            position,
            position + 1,
            referents,
        );
        assert(items_of_instance(tree, id, parser.top(), position, referents) == seq![item]
            + descendants);
        assert(items_of_children(
            tree,
            id,
            0,
            fifth.open.last() as nat,
            fifth.items.len(),
            referents,
        ) == descendants);
        let walked = emit_children(tree, database, behavior, id, 0, closed);
        match walked {
            Ok(done) => {
                let last = done.push(WireEventView::EndElement);
                assert(emit_instance(tree, database, behavior, id, emission) == Ok::<
                    Emission,
                    crate::error::EncodeErrorView,
                >(last));
                assert(done.grows_to(last));
                emission.lemma_grows_transitive(mapped, opened);
                emission.lemma_grows_transitive(opened, filled);
                emission.lemma_grows_transitive(filled, closed);
                emission.lemma_grows_transitive(closed, done);
                opened.lemma_grows_transitive(filled, closed);
                opened.lemma_grows_transitive(closed, done);
                opened.lemma_grows_transitive(done, last);
                filled.lemma_grows_transitive(closed, done);
                filled.lemma_grows_transitive(done, last);
                closed.lemma_grows_transitive(done, last);
                mapped.lemma_grows_transitive(opened, last);
                // the two opening events
                assert(events[a] == last.events[a]);
                assert(events[a + 1] == last.events[a + 1]);
                assert(last.events[a] == mapped.events[a]);
                assert(last.events[a + 1] == mapped.events[a + 1]);
                reveal_strlit("class");
                reveal_strlit("referent");
                assert("class"@.len() == 5);
                assert("referent"@.len() == 8);
                let attributes = seq![("class"@, properties.class_name), ("referent"@, text)];
                assert(attribute_from(attributes, "referent"@, 1) == Some(text));
                assert(attribute_from(attributes, "referent"@, 0) == Some(text));
                assert(attribute_from(attributes, "class"@, 0) == Some(properties.class_name));
                assert(parser.step(events[a], a as usize) == Ok::<ParserView, DecodeErrorView>(
                    first,
                ));
                assert(first.step(events[a + 1], (a + 1) as usize) == Ok::<
                    ParserView,
                    DecodeErrorView,
                >(second));
                assert(parser.run_to(events, a, a + 2) == Ok::<ParserView, DecodeErrorView>(
                    second,
                )) by {
                    reveal_with_fuel(ParserView::run_to, 3);
                }
                // the name
                assert(opened.events.is_prefix_of(events));
                lemma_name_is_read_back(second, mapped, properties.name, events);
                // the properties
                assert(follows(filled.state, referents));
                assert(filled.events.is_prefix_of(events));
                lemma_properties_are_read_back(
                    third,
                    opened,
                    database,
                    properties.class_name,
                    properties.properties,
                    0,
                    referents,
                    events,
                );
                // the end of the properties
                let b = filled.events.len() as int;
                assert(events[b] == last.events[b]);
                assert(last.events[b] == closed.events[b]);
                assert(fourth.step(events[b], b as usize) == Ok::<ParserView, DecodeErrorView>(
                    fifth,
                ));
                assert(fourth.run_to(events, b, b + 1) == Ok::<ParserView, DecodeErrorView>(
                    fifth,
                )) by {
                    reveal_with_fuel(ParserView::run_to, 2);
                }
                // the children
                assert(follows(done.state, referents));
                assert(done.events.is_prefix_of(events));
                lemma_children_are_read_back(
                    fifth,
                    closed,
                    tree,
                    database,
                    id,
                    0,
                    referents,
                    events,
                );
                let sixth = fifth.with_items(descendants);
                // the end of the item
                let c = done.events.len() as int;
                assert(events[c] == last.events[c]);
                let seventh = parser.with_items(seq![item] + descendants);
                assert(sixth.open.drop_last() =~= parser.open);
                assert(referents(id) == emission.state.referent_of(id));
                assert(parsed =~= Seq::<ParsedPropertyView>::empty() + parsed);
                assert(fourth.items =~= parser.items.push(item));
                assert(sixth.items =~= parser.items + (seq![item] + descendants));
                assert(sixth.step(events[c], c as usize) == Ok::<ParserView, DecodeErrorView>(
                    seventh,
                ));
                assert(sixth.run_to(events, c, c + 1) == Ok::<ParserView, DecodeErrorView>(
                    seventh,
                )) by {
                    reveal_with_fuel(ParserView::run_to, 2);
                }
                parser.lemma_run_to_split(events, a, a + 2, c + 1);
                second.lemma_run_to_split(events, a + 2, a + 5, c + 1);
                third.lemma_run_to_split(events, a + 5, b, c + 1);
                fourth.lemma_run_to_split(events, b, b + 1, c + 1);
                fifth.lemma_run_to_split(events, b + 1, c, c + 1);
            },
            Err(_) => {
                lemma_children_never_fail(tree, database, id, 0, closed);
            },
        }
    }
}

/// With reflection off, the children of an instance that are written with
/// their descendants are read back as the items that stand for them.
pub proof fn lemma_children_are_read_back(
    parser: ParserView,
    emission: Emission,
    tree: Seq<InstanceView>,
    database: &ReflectionDatabase,
    parent: NodeId,
    from: int,
    referents: spec_fn(NodeId) -> nat,
    events: Seq<WireEventView>,
)
    requires
        parser.phase is Items,
        parser.open.len() > 0,
        emission.state.wf(),
        readable_tree(tree),
        events.len() <= usize::MAX,
        parser.items.len() + items_of_children(
            tree,
            parent,
            from,
            parser.open.last() as nat,
            parser.items.len(),
            referents,
        ).len() <= usize::MAX,
        emit_children(
            tree,
            database,
            EncodePropertyBehavior::NoReflection,
            parent,
            from,
            emission,
        ) matches Ok(written) ==> follows(written.state, referents) && written.events.is_prefix_of(
            events,
        ),
    ensures
        emit_children(
            tree,
            database,
            EncodePropertyBehavior::NoReflection,
            parent,
            from,
            emission,
        ) matches Ok(written) && emission.grows_to(written) && parser.run_to(
            events,
            emission.events.len() as int,
            written.events.len() as int,
        ) == Ok::<ParserView, DecodeErrorView>(
            parser.with_items(
                items_of_children(
                    tree,
                    parent,
                    from,
                    parser.open.last() as nat,
                    parser.items.len(),
                    referents,
                ),
            ),
        ),
    decreases tree.len() - parent, tree[parent as int].children.len() - from,
{
    let behavior = EncodePropertyBehavior::NoReflection;
    let children = tree[parent as int].children;
    lemma_emit_children_grows(tree, database, behavior, parent, from, emission);
    if parent < tree.len() && 0 <= from < children.len() && parent < children[from]
        && children[from] < tree.len() {
        let child = children[from];
        let first = items_of_instance(tree, child, parser.top(), parser.items.len(), referents);
        let rest = items_of_children(
            tree,
            parent,
            from + 1,
            parser.open.last() as nat,
            parser.items.len() + first.len(),
            referents,
        );
        lemma_emit_instance_grows(tree, database, behavior, child, emission);
        lemma_instance_never_fails(tree, database, child, emission);
        let next = emit_instance(tree, database, behavior, child, emission)->Ok_0;
        lemma_emit_children_grows(tree, database, behavior, parent, from + 1, next);
        lemma_children_never_fail(tree, database, parent, from + 1, next);
        let last = emit_children(tree, database, behavior, parent, from + 1, next)->Ok_0;
        emission.lemma_grows_transitive(next, last);
        assert(follows(next.state, referents));
        assert(next.events.is_prefix_of(events));
        lemma_instance_is_read_back(parser, emission, tree, database, child, referents, events);
        let read = parser.with_items(first);
        lemma_children_are_read_back(
            read,
            next,
            tree,
            database,
            parent,
            from + 1,
            referents,
            events,
        );
        parser.lemma_run_to_split(
            events,
            emission.events.len() as int,
            next.events.len() as int,
            last.events.len() as int,
        );
        assert(parser.items + first + rest =~= parser.items + (first + rest));
        assert(read.with_items(rest) =~= parser.with_items(first + rest));
    } else {
        assert(parser.items + Seq::<ParsedItemView>::empty() =~= parser.items);
        assert(parser.with_items(Seq::empty()) =~= parser);
    }
}

/// With reflection off, writing an instance never fails.
pub proof fn lemma_instance_never_fails(
    tree: Seq<InstanceView>,
    database: &ReflectionDatabase,
    id: NodeId,
    emission: Emission,
)
    ensures
        emit_instance(tree, database, EncodePropertyBehavior::NoReflection, id, emission) is Ok,
    decreases tree.len() - id, tree[id as int].children.len() + 1,
{
    if id < tree.len() {
        let properties = tree[id as int].properties;
        let opened = Emission {
            events: emission.events.push(
                start_with_two(
                    "Item"@,
                    ("class"@, properties.class_name),
                    ("referent"@, decimal(emission.state.referent_of(id))),
                ),
            ).push(start_plain("Properties"@)),
            state: emission.state.map_id(id),
        }.write_name(properties.name);
        lemma_properties_never_fail(
            database,
            properties.class_name,
            properties.properties,
            0,
            opened,
        );
        let filled = emit_properties(
            database,
            EncodePropertyBehavior::NoReflection,
            properties.class_name,
            properties.properties,
            emission_order(properties.names()),
            0,
            opened,
        )->Ok_0;
        lemma_children_never_fail(tree, database, id, 0, filled.push(WireEventView::EndElement));
    }
}

/// With reflection off, writing the children of an instance never fails.
pub proof fn lemma_children_never_fail(
    tree: Seq<InstanceView>,
    database: &ReflectionDatabase,
    parent: NodeId,
    from: int,
    emission: Emission,
)
    ensures
        emit_children(
            tree,
            database,
            EncodePropertyBehavior::NoReflection,
            parent,
            from,
            emission,
        ) is Ok,
    decreases tree.len() - parent, tree[parent as int].children.len() - from,
{
    let children = tree[parent as int].children;
    if parent < tree.len() && 0 <= from < children.len() && parent < children[from]
        && children[from] < tree.len() {
        lemma_instance_never_fails(tree, database, children[from], emission);
        lemma_children_never_fail(
            tree,
            database,
            parent,
            from + 1,
            emit_instance(
                tree,
                database,
                EncodePropertyBehavior::NoReflection,
                children[from],
                emission,
            )->Ok_0,
        );
    }
}

/// The items that stand for the instances `ids` from position `from` on,
/// with their descendants. No item encloses them. `next` is the position
/// of the first of these items.
pub open spec fn items_of_roots(
    tree: Seq<InstanceView>,
    ids: Seq<NodeId>,
    from: int,
    next: nat,
    referents: spec_fn(NodeId) -> nat,
) -> Seq<ParsedItemView>
    decreases ids.len() - from,
{
    if from < 0 || from >= ids.len() {
        Seq::empty()
    } else {
        let first = items_of_instance(tree, ids[from], None, next, referents);
        first + items_of_roots(tree, ids, from + 1, next + first.len(), referents)
    }
}

/// With reflection off, writing several instances never fails.
pub proof fn lemma_roots_never_fail(
    tree: Seq<InstanceView>,
    database: &ReflectionDatabase,
    ids: Seq<NodeId>,
    from: int,
    emission: Emission,
)
    ensures
        emit_roots(tree, database, EncodePropertyBehavior::NoReflection, ids, from, emission) is Ok,
    decreases ids.len() - from,
{
    if 0 <= from < ids.len() {
        lemma_instance_never_fails(tree, database, ids[from], emission);
        lemma_roots_never_fail(
            tree,
            database,
            ids,
            from + 1,
            emit_instance(
                tree,
                database,
                EncodePropertyBehavior::NoReflection,
                ids[from],
                emission,
            )->Ok_0,
        );
    }
}

/// With reflection off, instances that are written one after the other are
/// read back as the items that stand for them and their descendants.
pub proof fn lemma_roots_are_read_back(
    parser: ParserView,
    emission: Emission,
    tree: Seq<InstanceView>,
    database: &ReflectionDatabase,
    ids: Seq<NodeId>,
    from: int,
    referents: spec_fn(NodeId) -> nat,
    events: Seq<WireEventView>,
)
    requires
        parser.phase is Items,
        parser.open.len() == 0,
        emission.state.wf(),
        readable_tree(tree),
        events.len() <= usize::MAX,
        parser.items.len() + items_of_roots(tree, ids, from, parser.items.len(), referents).len()
            <= usize::MAX,
        emit_roots(
            tree,
            database,
            EncodePropertyBehavior::NoReflection,
            ids,
            from,
            emission,
        ) matches Ok(written) ==> follows(written.state, referents)
            && written.events.is_prefix_of(events),
    ensures
        emit_roots(
            tree,
            database,
            EncodePropertyBehavior::NoReflection,
            ids,
            from,
            emission,
        ) matches Ok(written) && emission.grows_to(written) && parser.run_to(
            events,
            emission.events.len() as int,
            written.events.len() as int,
        ) == Ok::<ParserView, DecodeErrorView>(
            parser.with_items(items_of_roots(tree, ids, from, parser.items.len(), referents)),
        ),
    decreases ids.len() - from,
{
    let behavior = EncodePropertyBehavior::NoReflection;
    lemma_emit_roots_grows(tree, database, behavior, ids, from, emission);
    if 0 <= from < ids.len() {
        let first = items_of_instance(tree, ids[from], None, parser.items.len(), referents);
        let rest = items_of_roots(
            tree,
            ids,
            from + 1,
            parser.items.len() + first.len(),
            referents,
        );
        lemma_emit_instance_grows(tree, database, behavior, ids[from], emission);
        lemma_instance_never_fails(tree, database, ids[from], emission);
        let next = emit_instance(tree, database, behavior, ids[from], emission)->Ok_0;
        lemma_emit_roots_grows(tree, database, behavior, ids, from + 1, next);
        lemma_roots_never_fail(tree, database, ids, from + 1, next);
        let last = emit_roots(tree, database, behavior, ids, from + 1, next)->Ok_0;
        emission.lemma_grows_transitive(next, last);
        assert(follows(next.state, referents));
        assert(next.events.is_prefix_of(events));
        lemma_instance_is_read_back(parser, emission, tree, database, ids[from], referents, events);
        let read = parser.with_items(first);
        lemma_roots_are_read_back(read, next, tree, database, ids, from + 1, referents, events);
        parser.lemma_run_to_split(
            events,
            emission.events.len() as int,
            next.events.len() as int,
            last.events.len() as int,
        );
        assert(parser.items + first + rest =~= parser.items + (first + rest));
        assert(read.with_items(rest) =~= parser.with_items(first + rest));
    } else {
        assert(parser.items + Seq::<ParsedItemView>::empty() =~= parser.items);
        assert(parser.with_items(Seq::empty()) =~= parser);
    }
}

/// The entry that lists a shared string in the dictionary.
pub open spec fn entry_of(blob: SharedBlob) -> SharedEntryView {
    SharedEntryView { md5: base64_text(blob.hash), data: base64_text(blob.data) }
}

/// The entries that list the shared strings from position `from` on.
pub open spec fn entries_of(blobs: Seq<SharedBlob>, from: int) -> Seq<SharedEntryView> {
    blobs.skip(from).map_values(|blob: SharedBlob| entry_of(blob))
}

/// The entries of the dictionary are read back as they were written.
pub proof fn lemma_entries_are_read_back(
    parser: ParserView,
    emission: Emission,
    from: int,
    events: Seq<WireEventView>,
)
    requires
        parser.phase is SharedStrings,
        0 <= from <= emission.state.shared_strings.len(),
        emission.write_shared_entries(from).events.is_prefix_of(events),
        events.len() <= usize::MAX,
    ensures
        emission.events.is_prefix_of(emission.write_shared_entries(from).events),
        emission.write_shared_entries(from).state == emission.state,
        parser.run_to(
            events,
            emission.events.len() as int,
            emission.write_shared_entries(from).events.len() as int,
        ) == Ok::<ParserView, DecodeErrorView>(
            ParserView {
                phase: PhaseView::SharedStrings,
                open: parser.open,
                items: parser.items,
                shared_strings: parser.shared_strings + entries_of(
                    emission.state.shared_strings,
                    from,
                ),
            },
        ),
    decreases emission.state.shared_strings.len() - from,
{
    let blobs = emission.state.shared_strings;
    if from >= blobs.len() {
        assert(entries_of(blobs, from) =~= Seq::empty());
        assert(parser.shared_strings + Seq::<SharedEntryView>::empty() =~= parser.shared_strings);
        assert(parser =~= ParserView {
            phase: PhaseView::SharedStrings,
            open: parser.open,
            items: parser.items,
            shared_strings: parser.shared_strings + entries_of(blobs, from),
        });
    } else {
        let blob = blobs[from];
        let next = emission.write_shared_entry(blob);
        let last = next.write_shared_entries(from + 1);
        let a = emission.events.len() as int;
        let read = ParserView {
            phase: PhaseView::SharedStrings,
            open: parser.open,
            items: parser.items,
            shared_strings: parser.shared_strings.push(entry_of(blob)),
        };
        assert(last == emission.write_shared_entries(from));
        lemma_entries_are_read_back(read, next, from + 1, events);
        assert(events[a] == last.events[a]);
        assert(events[a + 1] == last.events[a + 1]);
        assert(events[a + 2] == last.events[a + 2]);
        assert(last.events[a] == next.events[a]);
        assert(last.events[a + 1] == next.events[a + 1]);
        assert(last.events[a + 2] == next.events[a + 2]);
        let attributes = seq![("md5"@, base64_text(blob.hash))];
        assert(attribute_from(attributes, "md5"@, 0) == Some(base64_text(blob.hash)));
        let opened = parser.at(
            PhaseView::SharedEntry { md5: base64_text(blob.hash), data: None },
        );
        assert(parser.step(events[a], a as usize) == Ok::<ParserView, DecodeErrorView>(opened));
        let filled = parser.at(
            PhaseView::SharedEntry {
                md5: base64_text(blob.hash),
                data: Some(base64_text(blob.data)),
            },
        );
        assert(opened.step(events[a + 1], (a + 1) as usize) == Ok::<ParserView, DecodeErrorView>(
            filled,
        ));
        assert(filled.step(events[a + 2], (a + 2) as usize) == Ok::<ParserView, DecodeErrorView>(
            read,
        ));
        assert(parser.run_to(events, a, a + 3) == Ok::<ParserView, DecodeErrorView>(read)) by {
            reveal_with_fuel(ParserView::run_to, 4);
        }
        parser.lemma_run_to_split(events, a, a + 3, last.events.len() as int);
        assert(entries_of(blobs, from) =~= seq![entry_of(blob)] + entries_of(blobs, from + 1));
        assert(parser.shared_strings.push(entry_of(blob)) + entries_of(blobs, from + 1)
            =~= parser.shared_strings + entries_of(blobs, from));
    }
}

/// The document that stands for the instances `ids` of a tree: the items
/// of the instances and their descendants, and the dictionary with one
/// entry for each shared string that was met. `state` is the state of the
/// encoding at its end.
pub open spec fn document_of(
    tree: Seq<InstanceView>,
    ids: Seq<NodeId>,
    state: StateModel,
) -> ParsedDocumentView {
    ParsedDocumentView {
        items: items_of_roots(tree, ids, 0, 0, |id: NodeId| state.referent_of(id)),
        shared_strings: entries_of(state.shared_strings, 0),
    }
}

/// The state at the end of an encoding with reflection off.
pub open spec fn final_state(
    tree: Seq<InstanceView>,
    database: &ReflectionDatabase,
    ids: Seq<NodeId>,
) -> StateModel {
    emit_roots(
        tree,
        database,
        EncodePropertyBehavior::NoReflection,
        ids,
        0,
        Emission {
            events: seq![start_with("roblox"@, "version"@, "4"@)],
            state: StateModel::empty(),
        },
    )->Ok_0.state
}

/// Parsing undoes writing: with reflection off, the events of an encoded
/// document are parsed as the document that stands for the encoded
/// instances.
pub proof fn lemma_document_is_read_back(
    tree: Seq<InstanceView>,
    database: &ReflectionDatabase,
    ids: Seq<NodeId>,
)
    requires
        readable_tree(tree),
        encoded_document(tree, database, EncodePropertyBehavior::NoReflection, ids) matches Ok(
            events,
        ) ==> events.len() <= usize::MAX,
        document_of(tree, ids, final_state(tree, database, ids)).items.len() <= usize::MAX,
    ensures
        encoded_document(tree, database, EncodePropertyBehavior::NoReflection, ids) matches Ok(
            events,
        ) && parsed(events) == Ok::<ParsedDocumentView, DecodeErrorView>(
            document_of(tree, ids, final_state(tree, database, ids)),
        ),
{
    let behavior = EncodePropertyBehavior::NoReflection;
    let start = Emission {
        events: seq![start_with("roblox"@, "version"@, "4"@)],
        state: StateModel::empty(),
    };
    lemma_roots_never_fail(tree, database, ids, 0, start);
    lemma_emit_roots_grows(tree, database, behavior, ids, 0, start);
    let walked = emit_roots(tree, database, behavior, ids, 0, start)->Ok_0;
    let state = walked.state;
    let referents = |id: NodeId| state.referent_of(id);
    let listed = walked.write_shared_strings();
    let last = listed.push(WireEventView::EndElement);
    let events = last.events;
    assert(encoded_document(tree, database, behavior, ids) == Ok::<
        Seq<WireEventView>,
        crate::error::EncodeErrorView,
    >(events));
    let blobs = state.shared_strings;
    let b = walked.events.len() as int;
    // the dictionary, where there is one
    let opened = walked.push(start_plain("SharedStrings"@));
    if blobs.len() > 0 {
        assert(opened.write_shared_entries(0).events.is_prefix_of(events)) by {
            assert(listed.events == opened.write_shared_entries(0).events.push(
                WireEventView::EndElement,
            ));
        }
    } else {
        assert(opened.write_shared_entries(0).events.is_prefix_of(opened.events));
    }
    lemma_entries_grow(opened, 0);
    let entered = opened.write_shared_entries(0);
    assert(walked.events.is_prefix_of(opened.events));
    if blobs.len() > 0 {
        assert(listed.events == entered.events.push(WireEventView::EndElement));
        assert(entered.events.is_prefix_of(listed.events));
        assert(listed.events.is_prefix_of(events));
        lemma_prefix_transitive(walked.events, opened.events, entered.events);
        lemma_prefix_transitive(walked.events, entered.events, listed.events);
        lemma_prefix_transitive(walked.events, listed.events, events);
        lemma_prefix_transitive(opened.events, entered.events, listed.events);
        lemma_prefix_transitive(opened.events, listed.events, events);
        lemma_prefix_transitive(entered.events, listed.events, events);
    } else {
        assert(listed == walked);
        assert(walked.events.is_prefix_of(events));
    }
    assert(follows(state, referents));
    // the opening of the document
    let first = ParserView::start();
    let second = first.at(PhaseView::Items);
    assert(events[0] == start.events[0]);
    assert(first.step(events[0], 0) == Ok::<ParserView, DecodeErrorView>(second));
    assert(first.run_to(events, 0, 1) == Ok::<ParserView, DecodeErrorView>(second)) by {
        reveal_with_fuel(ParserView::run_to, 2);
    }
    // the instances
    lemma_roots_are_read_back(second, start, tree, database, ids, 0, referents, events);
    let items = items_of_roots(tree, ids, 0, 0, referents);
    let third = second.with_items(items);
    assert(third.items =~= items);
    // the dictionary
    let entries = entries_of(blobs, 0);
    let c = listed.events.len() as int;
    let fourth = ParserView {
        phase: PhaseView::Items,
        open: Seq::empty(),
        items,
        shared_strings: entries,
    };
    if blobs.len() > 0 {
        reveal_strlit("Item");
        reveal_strlit("SharedStrings");
        assert("Item"@.len() == 4);
        assert("SharedStrings"@.len() == 13);
        let inside = third.at(PhaseView::SharedStrings);
        assert(events[b] == opened.events[b]);
        assert(third.step(events[b], b as usize) == Ok::<ParserView, DecodeErrorView>(inside));
        assert(third.run_to(events, b, b + 1) == Ok::<ParserView, DecodeErrorView>(inside)) by {
            reveal_with_fuel(ParserView::run_to, 2);
        }
        lemma_entries_are_read_back(inside, opened, 0, events);
        let read = ParserView {
            phase: PhaseView::SharedStrings,
            open: Seq::empty(),
            items,
            shared_strings: entries,
        };
        assert(Seq::<SharedEntryView>::empty() + entries =~= entries);
        assert(events[c - 1] == WireEventView::EndElement);
        assert(read.step(events[c - 1], (c - 1) as usize) == Ok::<ParserView, DecodeErrorView>(
            fourth,
        ));
        assert(read.run_to(events, c - 1, c) == Ok::<ParserView, DecodeErrorView>(fourth)) by {
            reveal_with_fuel(ParserView::run_to, 2);
        }
        third.lemma_run_to_split(events, b, b + 1, c);
        inside.lemma_run_to_split(events, b + 1, c - 1, c);
    } else {
        assert(entries =~= Seq::empty());
        assert(third =~= fourth);
    }
    // the end of the document
    let fifth = fourth.at(PhaseView::Done);
    assert(events[c] == WireEventView::EndElement);
    assert(fourth.step(events[c], c as usize) == Ok::<ParserView, DecodeErrorView>(fifth));
    assert(fourth.run_to(events, c, c + 1) == Ok::<ParserView, DecodeErrorView>(fifth)) by {
        reveal_with_fuel(ParserView::run_to, 2);
    }
    first.lemma_run_to_split(events, 0, 1, c + 1);
    second.lemma_run_to_split(events, 1, b, c + 1);
    third.lemma_run_to_split(events, b, c, c + 1);
    first.lemma_run_is_run_to(events, 0);
}

/// A prefix of a prefix is a prefix.
pub proof fn lemma_prefix_transitive(
    first: Seq<WireEventView>,
    second: Seq<WireEventView>,
    third: Seq<WireEventView>,
)
    requires
        first.is_prefix_of(second),
        second.is_prefix_of(third),
    ensures
        first.is_prefix_of(third),
{
}

/// Writing entries of the dictionary keeps what was written before.
pub proof fn lemma_entries_grow(emission: Emission, from: int)
    requires
        0 <= from,
    ensures
        emission.events.is_prefix_of(emission.write_shared_entries(from).events),
        emission.write_shared_entries(from).state == emission.state,
    decreases emission.state.shared_strings.len() - from,
{
    if from < emission.state.shared_strings.len() {
        let next = emission.write_shared_entry(emission.state.shared_strings[from]);
        lemma_entries_grow(next, from + 1);
    }
}

/// Whether the state has a referent for every instance that the properties
/// refer to, and lists the digest of every shared string among them.
pub open spec fn held(properties: Seq<PropertyView>, state: StateModel) -> bool {
    forall|j: int|
        0 <= j < properties.len() ==> match (#[trigger] properties[j]).value {
            ValueView::Ref(Some(target)) => state.referents.contains_key(target),
            ValueView::SharedString(shared) => state.holds_hash(shared.hash),
            _ => true,
        }
}

/// Whether the item stands for the instance `id`: it carries its class,
/// its referent, its name and its properties, and the state has met the
/// instance and everything that its properties name.
pub open spec fn stands_for(
    item: ParsedItemView,
    tree: Seq<InstanceView>,
    id: NodeId,
    referents: spec_fn(NodeId) -> nat,
    state: StateModel,
) -> bool {
    &&& id < tree.len()
    &&& item == item_of(tree, id, item.parent, referents)
    &&& state.referents.contains_key(id)
    &&& held(tree[id as int].properties.properties, state)
}

/// Whether the item stands for some instance of the tree.
pub open spec fn stands(
    item: ParsedItemView,
    tree: Seq<InstanceView>,
    referents: spec_fn(NodeId) -> nat,
    state: StateModel,
) -> bool {
    exists|id: NodeId| stands_for(item, tree, id, referents, state)
}

/// Whether every item stands for some instance of the tree.
pub open spec fn all_stand(
    items: Seq<ParsedItemView>,
    tree: Seq<InstanceView>,
    referents: spec_fn(NodeId) -> nat,
    state: StateModel,
) -> bool {
    forall|k: int| 0 <= k < items.len() ==> stands(#[trigger] items[k], tree, referents, state)
}

/// Whether a shared string is the value of some property in the tree.
pub open spec fn in_tree(tree: Seq<InstanceView>, blob: SharedBlob) -> bool {
    exists|id: int, j: int|
        0 <= id < tree.len() && 0 <= j < tree[id].properties.properties.len() && (
        #[trigger] tree[id].properties.properties[j]).value == ValueView::SharedString(blob)
}

/// Whether every shared string that `after` lists is listed by `before`
/// or is the value of some property in the tree.
pub open spec fn listed_from(
    tree: Seq<InstanceView>,
    before: StateModel,
    after: StateModel,
) -> bool {
    forall|i: int|
        0 <= i < after.shared_strings.len() ==> before.shared_strings.contains(
            #[trigger] after.shared_strings[i],
        ) || in_tree(tree, after.shared_strings[i])
}

/// What a state holds, a state that grows from it holds too.
pub proof fn lemma_held_grows(properties: Seq<PropertyView>, before: Emission, after: Emission)
    requires
        held(properties, before.state),
        before.grows_to(after),
    ensures
        held(properties, after.state),
{
    assert forall|j: int| 0 <= j < properties.len() implies match (#[trigger] properties[j]).value {
        ValueView::Ref(Some(target)) => after.state.referents.contains_key(target),
        ValueView::SharedString(shared) => after.state.holds_hash(shared.hash),
        _ => true,
    } by {
        match properties[j].value {
            ValueView::SharedString(shared) => {
                let i = choose|i: int|
                    0 <= i < before.state.shared_strings.len() && (
                    #[trigger] before.state.shared_strings[i]).hash == shared.hash;
                assert(after.state.shared_strings[i] == before.state.shared_strings[i]);
            },
            _ => {},
        }
    }
}

/// Items that stand for instances keep doing so when the state grows.
pub proof fn lemma_all_stand_grows(
    items: Seq<ParsedItemView>,
    tree: Seq<InstanceView>,
    referents: spec_fn(NodeId) -> nat,
    before: Emission,
    after: Emission,
)
    requires
        all_stand(items, tree, referents, before.state),
        before.grows_to(after),
    ensures
        all_stand(items, tree, referents, after.state),
{
    assert forall|k: int| 0 <= k < items.len() implies stands(
        #[trigger] items[k],
        tree,
        referents,
        after.state,
    ) by {
        assert(stands(items[k], tree, referents, before.state));
        let id = choose|id: NodeId| stands_for(items[k], tree, id, referents, before.state);
        lemma_held_grows(tree[id as int].properties.properties, before, after);
        assert(stands_for(items[k], tree, id, referents, after.state));
    }
}

/// What is listed from the tree stays listed from the tree when more is
/// listed from the tree.
pub proof fn lemma_listed_from_transitive(
    tree: Seq<InstanceView>,
    first: Emission,
    second: Emission,
    third: Emission,
)
    requires
        listed_from(tree, first.state, second.state),
        listed_from(tree, second.state, third.state),
    ensures
        listed_from(tree, first.state, third.state),
{
    assert forall|i: int| 0 <= i < third.state.shared_strings.len() implies
        first.state.shared_strings.contains(
        #[trigger] third.state.shared_strings[i],
    ) || in_tree(tree, third.state.shared_strings[i]) by {
        let blob = third.state.shared_strings[i];
        if second.state.shared_strings.contains(blob) {
            let j = choose|j: int|
                0 <= j < second.state.shared_strings.len() && second.state.shared_strings[j]
                    == blob;
            assert(first.state.shared_strings.contains(second.state.shared_strings[j])
                || in_tree(tree, second.state.shared_strings[j]));
        }
    }
}

/// After the properties of an instance were written, the state has met
/// everything that they name, and lists no shared string that is not in
/// the tree or was listed before.
pub proof fn lemma_properties_are_held(
    tree: Seq<InstanceView>,
    id: NodeId,
    database: &ReflectionDatabase,
    from: int,
    emission: Emission,
)
    requires
        id < tree.len(),
        emission.state.wf(),
        0 <= from <= tree[id as int].properties.properties.len(),
        tree[id as int].properties.properties.len() <= usize::MAX,
    ensures
        emit_properties(
            database,
            EncodePropertyBehavior::NoReflection,
            tree[id as int].properties.class_name,
            tree[id as int].properties.properties,
            emission_order(names_of(tree[id as int].properties.properties)),
            from,
            emission,
        ) matches Ok(written) && listed_from(tree, emission.state, written.state) && forall|k: int|
            from <= k < tree[id as int].properties.properties.len() ==> match (
            #[trigger] sorted_properties(tree[id as int].properties.properties)[k]).value {
                ValueView::Ref(Some(target)) => written.state.referents.contains_key(target),
                ValueView::SharedString(shared) => written.state.holds_hash(shared.hash),
                _ => true,
            },
    decreases tree[id as int].properties.properties.len() - from,
{
    let behavior = EncodePropertyBehavior::NoReflection;
    let properties = tree[id as int].properties.properties;
    let class_name = tree[id as int].properties.class_name;
    let order = emission_order(names_of(properties));
    let sorted = sorted_properties(properties);
    lemma_emission_order_shape(names_of(properties), properties.len());
    lemma_properties_never_fail(database, class_name, properties, from, emission);
    if from < order.len() {
        let property = properties[order[from] as int];
        assert(sorted[from] == property);
        let next = emission.write_value(property.name, property.value);
        emission.lemma_write_value_grows(property.name, property.value);
        lemma_properties_are_held(tree, id, database, from + 1, next);
        lemma_emit_properties_grows(
            database,
            behavior,
            class_name,
            properties,
            order,
            from + 1,
            next,
        );
        let written = emit_properties(
            database,
            behavior,
            class_name,
            properties,
            order,
            from + 1,
            next,
        )->Ok_0;
        assert(listed_from(tree, emission.state, next.state)) by {
            assert forall|i: int| 0 <= i < next.state.shared_strings.len() implies
                emission.state.shared_strings.contains(
                #[trigger] next.state.shared_strings[i],
            ) || in_tree(tree, next.state.shared_strings[i]) by {
                if i < emission.state.shared_strings.len() {
                    assert(next.state.shared_strings[i] == emission.state.shared_strings[i]);
                } else {
                    assert(property.value == ValueView::SharedString(
                        next.state.shared_strings[i],
                    ));
                    assert(properties[order[from] as int].value == ValueView::SharedString(
                        next.state.shared_strings[i],
                    ));
                }
            }
        }
        lemma_listed_from_transitive(tree, emission, next, written);
        match property.value {
            ValueView::Ref(Some(target)) => {
                emission.state.lemma_map_id_gives_referent(target);
                assert(written.state.referents.contains_key(target));
            },
            ValueView::SharedString(shared) => {
                emission.state.lemma_shared_string_is_listed(shared);
                let i = choose|i: int|
                    0 <= i < next.state.shared_strings.len() && (
                    #[trigger] next.state.shared_strings[i]).hash == shared.hash;
                assert(written.state.shared_strings[i] == next.state.shared_strings[i]);
            },
            _ => {},
        }
    } else {
        assert forall|i: int| 0 <= i < emission.state.shared_strings.len() implies
            emission.state.shared_strings.contains(
            #[trigger] emission.state.shared_strings[i],
        ) by {}
    }
}

/// After an instance was written with its descendants, every item that
/// stands in the document for one of them stands for an instance that the
/// state has met, with everything that its properties name.
pub proof fn lemma_instance_items_stand(
    tree: Seq<InstanceView>,
    database: &ReflectionDatabase,
    id: NodeId,
    emission: Emission,
    parent: Option<usize>,
    base: nat,
    referents: spec_fn(NodeId) -> nat,
)
    requires
        emission.state.wf(),
        readable_tree(tree),
    ensures
        emit_instance(
            tree,
            database,
            EncodePropertyBehavior::NoReflection,
            id,
            emission,
        ) matches Ok(written) && emission.grows_to(written)
            && listed_from(tree, emission.state, written.state)
            && all_stand(
            items_of_instance(tree, id, parent, base, referents),
            tree,
            referents,
            written.state,
        ),
    decreases tree.len() - id, tree[id as int].children.len() + 1,
{
    let behavior = EncodePropertyBehavior::NoReflection;
    lemma_emit_instance_grows(tree, database, behavior, id, emission);
    lemma_instance_never_fails(tree, database, id, emission);
    if id < tree.len() {
        let properties = tree[id as int].properties;
        let mapped = Emission {
            events: emission.events.push(
                start_with_two(
                    "Item"@,
                    ("class"@, properties.class_name),
                    ("referent"@, decimal(emission.state.referent_of(id))),
                ),
            ).push(start_plain("Properties"@)),
            state: emission.state.map_id(id),
        };
        let opened = mapped.write_name(properties.name);
        emission.state.lemma_map_id_keeps_dense(id);
        assert(emission.grows_to(opened));
        lemma_properties_are_held(tree, id, database, 0, opened);
        lemma_emit_properties_grows(
            database,
            behavior,
            properties.class_name,
            properties.properties,
            emission_order(properties.names()),
            0,
            opened,
        );
        let filled = emit_properties(
            database,
            behavior,
            properties.class_name,
            properties.properties,
            emission_order(properties.names()),
            0,
            opened,
        )->Ok_0;
        let closed = filled.push(WireEventView::EndElement);
        assert(filled.grows_to(closed));
        lemma_children_items_stand(tree, database, id, 0, closed, base, base + 1, referents);
        lemma_emit_children_grows(tree, database, behavior, id, 0, closed);
        lemma_children_never_fail(tree, database, id, 0, closed);
        let done = emit_children(tree, database, behavior, id, 0, closed)->Ok_0;
        let last = done.push(WireEventView::EndElement);
        assert(done.grows_to(last));
        opened.lemma_grows_transitive(filled, closed);
        opened.lemma_grows_transitive(closed, done);
        opened.lemma_grows_transitive(done, last);
        filled.lemma_grows_transitive(closed, done);
        filled.lemma_grows_transitive(done, last);
        let item = item_of(tree, id, parent, referents);
        let descendants = items_of_children(tree, id, 0, base, base + 1, referents);
        let items = items_of_instance(tree, id, parent, base, referents);
        assert(items == seq![item] + descendants);
        // the properties in storage order are held, since they all occur in emission order
        let sorted = sorted_properties(properties.properties);
        let order = emission_order(names_of(properties.properties));
        lemma_emission_order_sorted(names_of(properties.properties), properties.properties.len());
        assert(held(properties.properties, filled.state)) by {
            assert forall|j: int| 0 <= j < properties.properties.len() implies match (
            #[trigger] properties.properties[j]).value {
                ValueView::Ref(Some(target)) => filled.state.referents.contains_key(target),
                ValueView::SharedString(shared) => filled.state.holds_hash(shared.hash),
                _ => true,
            } by {
                assert(order.contains(j as usize));
                let k = choose|k: int| 0 <= k < order.len() && order[k] == j as usize;
                assert(sorted[k] == properties.properties[j]);
            }
        }
        lemma_held_grows(properties.properties, filled, last);
        assert(stands_for(item, tree, id, referents, last.state));
        assert(listed_from(tree, emission.state, opened.state)) by {
            assert forall|i: int| 0 <= i < opened.state.shared_strings.len() implies
                emission.state.shared_strings.contains(
                #[trigger] opened.state.shared_strings[i],
            ) by {
                assert(opened.state.shared_strings[i] == emission.state.shared_strings[i]);
            }
        }
        assert(listed_from(tree, filled.state, closed.state)) by {
            assert forall|i: int| 0 <= i < closed.state.shared_strings.len() implies
                filled.state.shared_strings.contains(
                #[trigger] closed.state.shared_strings[i],
            ) by {}
        }
        lemma_listed_from_transitive(tree, emission, opened, filled);
        lemma_listed_from_transitive(tree, emission, filled, closed);
        lemma_listed_from_transitive(tree, emission, closed, done);
        assert(listed_from(tree, emission.state, last.state));
        assert forall|k: int| 0 <= k < items.len() implies stands(
            #[trigger] items[k],
            tree,
            referents,
            last.state,
        ) by {
            if k > 0 {
                assert(items[k] == descendants[k - 1]);
                let descendant = descendants[k - 1];
                assert(stands(descendant, tree, referents, done.state));
                let v = choose|v: NodeId| stands_for(descendant, tree, v, referents, done.state);
                assert(stands_for(items[k], tree, v, referents, last.state));
            } else {
                assert(items[0] == item);
            }
        }
    } else {
        assert forall|i: int| 0 <= i < emission.state.shared_strings.len() implies
            emission.state.shared_strings.contains(
            #[trigger] emission.state.shared_strings[i],
        ) by {}
    }
}

/// After the children of an instance were written with their descendants,
/// every item that stands in the document for one of them stands for an
/// instance that the state has met.
pub proof fn lemma_children_items_stand(
    tree: Seq<InstanceView>,
    database: &ReflectionDatabase,
    parent: NodeId,
    from: int,
    emission: Emission,
    position: nat,
    next: nat,
    referents: spec_fn(NodeId) -> nat,
)
    requires
        emission.state.wf(),
        readable_tree(tree),
    ensures
        emit_children(
            tree,
            database,
            EncodePropertyBehavior::NoReflection,
            parent,
            from,
            emission,
        ) matches Ok(written) && emission.grows_to(written) && listed_from(
            tree,
            emission.state,
            written.state,
        ) && all_stand(
            items_of_children(tree, parent, from, position, next, referents),
            tree,
            referents,
            written.state,
        ),
    decreases tree.len() - parent, tree[parent as int].children.len() - from,
{
    let behavior = EncodePropertyBehavior::NoReflection;
    let children = tree[parent as int].children;
    lemma_emit_children_grows(tree, database, behavior, parent, from, emission);
    lemma_children_never_fail(tree, database, parent, from, emission);
    if parent < tree.len() && 0 <= from < children.len() && parent < children[from]
        && children[from] < tree.len() {
        let child = children[from];
        let first = items_of_instance(tree, child, Some(position as usize), next, referents);
        let rest = items_of_children(
            tree,
            parent,
            from + 1,
            position,
            next + first.len(),
            referents,
        );
        lemma_instance_items_stand(
            tree,
            database,
            child,
            emission,
            Some(position as usize),
            next,
            referents,
        );
        let middle = emit_instance(tree, database, behavior, child, emission)->Ok_0;
        lemma_children_items_stand(
            tree,
            database,
            parent,
            from + 1,
            middle,
            position,
            next + first.len(),
            referents,
        );
        let last = emit_children(tree, database, behavior, parent, from + 1, middle)->Ok_0;
        lemma_all_stand_grows(first, tree, referents, middle, last);
        lemma_listed_from_transitive(tree, emission, middle, last);
        emission.lemma_grows_transitive(middle, last);
        let items = first + rest;
        assert forall|k: int| 0 <= k < items.len() implies stands(
            #[trigger] items[k],
            tree,
            referents,
            last.state,
        ) by {
            if k < first.len() {
                assert(items[k] == first[k]);
            } else {
                assert(items[k] == rest[k - first.len()]);
            }
        }
    } else {
        assert forall|i: int| 0 <= i < emission.state.shared_strings.len() implies
            emission.state.shared_strings.contains(
            #[trigger] emission.state.shared_strings[i],
        ) by {}
    }
}

/// After several instances were written with their descendants, every
/// item that stands in the document for one of them stands for an instance
/// that the state has met.
pub proof fn lemma_roots_items_stand(
    tree: Seq<InstanceView>,
    database: &ReflectionDatabase,
    ids: Seq<NodeId>,
    from: int,
    emission: Emission,
    next: nat,
    referents: spec_fn(NodeId) -> nat,
)
    requires
        emission.state.wf(),
        readable_tree(tree),
    ensures
        emit_roots(
            tree,
            database,
            EncodePropertyBehavior::NoReflection,
            ids,
            from,
            emission,
        ) matches Ok(written) && emission.grows_to(written)
            && listed_from(tree, emission.state, written.state)
            && all_stand(
            items_of_roots(tree, ids, from, next, referents),
            tree,
            referents,
            written.state,
        ),
    decreases ids.len() - from,
{
    let behavior = EncodePropertyBehavior::NoReflection;
    lemma_emit_roots_grows(tree, database, behavior, ids, from, emission);
    lemma_roots_never_fail(tree, database, ids, from, emission);
    if 0 <= from < ids.len() {
        let first = items_of_instance(tree, ids[from], None, next, referents);
        let rest = items_of_roots(tree, ids, from + 1, next + first.len(), referents);
        lemma_instance_items_stand(tree, database, ids[from], emission, None, next, referents);
        let middle = emit_instance(tree, database, behavior, ids[from], emission)->Ok_0;
        lemma_roots_items_stand(
            tree,
            database,
            ids,
            from + 1,
            middle,
            next + first.len(),
            referents,
        );
        let last = emit_roots(tree, database, behavior, ids, from + 1, middle)->Ok_0;
        lemma_all_stand_grows(first, tree, referents, middle, last);
        lemma_listed_from_transitive(tree, emission, middle, last);
        emission.lemma_grows_transitive(middle, last);
        let items = first + rest;
        assert forall|k: int| 0 <= k < items.len() implies stands(
            #[trigger] items[k],
            tree,
            referents,
            last.state,
        ) by {
            if k < first.len() {
                assert(items[k] == first[k]);
            } else {
                assert(items[k] == rest[k - first.len()]);
            }
        }
    } else {
        assert forall|i: int| 0 <= i < emission.state.shared_strings.len() implies
            emission.state.shared_strings.contains(
            #[trigger] emission.state.shared_strings[i],
        ) by {}
    }
}

/// Whether every item that is enclosed by an item is enclosed by an item
/// before it. `offset` is the position of the first item.
pub open spec fn enclosed_in_order(items: Seq<ParsedItemView>, offset: nat) -> bool {
    forall|k: int|
        0 <= k < items.len() ==> ((#[trigger] items[k]).parent matches Some(p) ==> p < offset + k)
}

/// The items of an instance and its descendants stand behind the items
/// that enclose them.
pub proof fn lemma_instance_items_in_order(
    tree: Seq<InstanceView>,
    id: NodeId,
    parent: Option<usize>,
    base: nat,
    referents: spec_fn(NodeId) -> nat,
)
    requires
        base + items_of_instance(tree, id, parent, base, referents).len() <= usize::MAX,
        parent matches Some(p) ==> p < base,
    ensures
        enclosed_in_order(items_of_instance(tree, id, parent, base, referents), base),
    decreases tree.len() - id, tree[id as int].children.len() + 1,
{
    if id < tree.len() {
        let item = item_of(tree, id, parent, referents);
        let descendants = items_of_children(tree, id, 0, base, base + 1, referents);
        let items = items_of_instance(tree, id, parent, base, referents);
        assert(items == seq![item] + descendants);
        lemma_children_items_in_order(tree, id, 0, base, base + 1, referents);
        assert forall|k: int| 0 <= k < items.len() implies
            ((#[trigger] items[k]).parent matches Some(
            p,
        ) ==> p < base + k) by {
            if k > 0 {
                assert(items[k] == descendants[k - 1]);
            }
        }
    }
}

/// The items of the children of an instance and of their descendants
/// stand behind the items that enclose them.
pub proof fn lemma_children_items_in_order(
    tree: Seq<InstanceView>,
    parent: NodeId,
    from: int,
    position: nat,
    next: nat,
    referents: spec_fn(NodeId) -> nat,
)
    requires
        next + items_of_children(tree, parent, from, position, next, referents).len()
            <= usize::MAX,
        position < next,
    ensures
        enclosed_in_order(items_of_children(tree, parent, from, position, next, referents), next),
    decreases tree.len() - parent, tree[parent as int].children.len() - from,
{
    let children = tree[parent as int].children;
    if parent < tree.len() && 0 <= from < children.len() && parent < children[from]
        && children[from] < tree.len() {
        let first = items_of_instance(
            tree,
            children[from],
            Some(position as usize),
            next,
            referents,
        );
        let rest = items_of_children(
            tree,
            parent,
            from + 1,
            position,
            next + first.len(),
            referents,
        );
        lemma_instance_items_in_order(
            tree,
            children[from],
            Some(position as usize),
            next,
            referents,
        );
        lemma_children_items_in_order(
            tree,
            parent,
            from + 1,
            position,
            next + first.len(),
            referents,
        );
        let items = first + rest;
        assert forall|k: int| 0 <= k < items.len() implies
            ((#[trigger] items[k]).parent matches Some(
            p,
        ) ==> p < next + k) by {
            if k < first.len() {
                assert(items[k] == first[k]);
            } else {
                assert(items[k] == rest[k - first.len()]);
            }
        }
    }
}

/// The items of several instances and of their descendants stand behind
/// the items that enclose them.
pub proof fn lemma_roots_items_in_order(
    tree: Seq<InstanceView>,
    ids: Seq<NodeId>,
    from: int,
    next: nat,
    referents: spec_fn(NodeId) -> nat,
)
    requires
        next + items_of_roots(tree, ids, from, next, referents).len() <= usize::MAX,
    ensures
        enclosed_in_order(items_of_roots(tree, ids, from, next, referents), next),
    decreases ids.len() - from,
{
    if 0 <= from < ids.len() {
        let first = items_of_instance(tree, ids[from], None, next, referents);
        let rest = items_of_roots(tree, ids, from + 1, next + first.len(), referents);
        lemma_instance_items_in_order(tree, ids[from], None, next, referents);
        lemma_roots_items_in_order(tree, ids, from + 1, next + first.len(), referents);
        let items = first + rest;
        assert forall|k: int| 0 <= k < items.len() implies
            ((#[trigger] items[k]).parent matches Some(
            p,
        ) ==> p < next + k) by {
            if k < first.len() {
                assert(items[k] == first[k]);
            } else {
                assert(items[k] == rest[k - first.len()]);
            }
        }
    }
}

/// What `referent_position` finds is the first item that carries the
/// referent.
pub proof fn lemma_referent_position(items: Seq<ParsedItemView>, referent: Seq<char>, from: int)
    requires
        0 <= from,
    ensures
        match referent_position(items, referent, from) {
            Some(i) => from <= i < items.len() && items[i].referent == referent,
            None => forall|k: int| from <= k < items.len() ==> items[k].referent != referent,
        },
    decreases items.len() - from,
{
    if from < items.len() && items[from].referent != referent {
        lemma_referent_position(items, referent, from + 1);
    }
}

/// What `entry_position` finds is the first entry that is listed under the
/// digest text.
pub proof fn lemma_entry_position(entries: Seq<SharedEntryView>, md5: Seq<char>, from: int)
    requires
        0 <= from,
    ensures
        match entry_position(entries, md5, from) {
            Some(i) => from <= i < entries.len() && entries[i].md5 == md5,
            None => forall|k: int| from <= k < entries.len() ==> entries[k].md5 != md5,
        },
    decreases entries.len() - from,
{
    if from < entries.len() && entries[from].md5 != md5 {
        lemma_entry_position(entries, md5, from + 1);
    }
}

/// Whether `base64::decode` undoes `base64::encode`.
pub open spec fn base64_round_trips() -> bool {
    forall|data: Seq<u8>| #[trigger] base64_bytes(base64_text(data)) == Some(data)
}

/// Whether every shared string in the tree carries the digest of its
/// content, and no two shared strings in the tree with different content
/// carry the same digest.
pub open spec fn sound_shared_strings(tree: Seq<InstanceView>) -> bool {
    &&& forall|blob: SharedBlob| #[trigger]
        in_tree(tree, blob) ==> blob.hash == md5_digest(blob.data)
    &&& forall|first: SharedBlob, second: SharedBlob|
        #[trigger] in_tree(tree, first) && #[trigger] in_tree(tree, second) && first.hash
            == second.hash ==> first == second
}

/// Whether every reference in the document names the referent of an item
/// of the document.
pub open spec fn closed_references(document: ParsedDocumentView) -> bool {
    forall|k: int, j: int|
        0 <= k < document.items.len() && 0 <= j < document.items[k].properties.len() ==> ((
        #[trigger] document.items[k].properties[j]).value matches ParsedValueView::Reference(
            referent,
        ) ==> referent_position(document.items, referent, 0) is Some)
}

/// The value that a value of the tree is decoded as: a reference points to
/// the instance of the first item that carries the referent of its target,
/// every other value is the value itself.
pub open spec fn replanted_value(
    document: ParsedDocumentView,
    value: ValueView,
    referents: spec_fn(NodeId) -> nat,
) -> ValueView {
    match value {
        ValueView::Ref(Some(target)) => ValueView::Ref(
            Some(
                node_of(referent_position(document.items, decimal(referents(target)), 0)->Some_0),
            ),
        ),
        _ => value,
    }
}

/// The properties that the properties of an instance are decoded as, from
/// position `from` of their emission order on.
pub open spec fn replanted_properties(
    document: ParsedDocumentView,
    properties: Seq<PropertyView>,
    from: int,
    referents: spec_fn(NodeId) -> nat,
) -> Seq<PropertyView> {
    sorted_properties(properties).skip(from).map_values(
        |p: PropertyView|
            PropertyView { name: p.name, value: replanted_value(document, p.value, referents) },
    )
}

/// A value that was written is resolved to the value itself, a reference
/// to a reference to the instance that stands for its target.
pub proof fn lemma_value_resolves(
    tree: Seq<InstanceView>,
    document: ParsedDocumentView,
    state: StateModel,
    referents: spec_fn(NodeId) -> nat,
    value: ValueView,
)
    requires
        base64_round_trips(),
        sound_shared_strings(tree),
        document.shared_strings == entries_of(state.shared_strings, 0),
        listed_from(tree, StateModel::empty(), state),
        value matches ValueView::SharedString(shared) ==> state.holds_hash(shared.hash) && in_tree(
            tree,
            shared,
        ),
        value matches ValueView::Ref(Some(target)) ==> referent_position(
            document.items,
            decimal(referents(target)),
            0,
        ) is Some,
    ensures
        resolved_value(document, parsed_value(value, referents)) == Ok::<
            ValueView,
            DecodeErrorView,
        >(replanted_value(document, value, referents)),
{
    match value {
        ValueView::SharedString(shared) => {
            let entries = document.shared_strings;
            let md5 = base64_text(shared.hash);
            let held = choose|i: int|
                0 <= i < state.shared_strings.len() && (#[trigger] state.shared_strings[i]).hash
                    == shared.hash;
            assert(entries[held].md5 == md5);
            lemma_entry_position(entries, md5, 0);
            let found = entry_position(entries, md5, 0)->Some_0;
            let listed = state.shared_strings[found];
            assert(entries[found] == entry_of(listed));
            assert(base64_bytes(base64_text(listed.hash)) == Some(listed.hash));
            assert(base64_bytes(base64_text(shared.hash)) == Some(shared.hash));
            assert(listed.hash == shared.hash);
            assert(StateModel::empty().shared_strings.contains(listed) || in_tree(tree, listed));
            assert(in_tree(tree, listed));
            assert(listed == shared);
            assert(base64_bytes(base64_text(shared.data)) == Some(shared.data));
            assert(SharedBlob { hash: md5_digest(shared.data), data: shared.data } =~= shared);
        },
        _ => {},
    }
}

/// With reflection off, the properties of an item that stands for an
/// instance are decoded as the properties of the instance in emission
/// order, each with its own name and its value replanted.
pub proof fn lemma_properties_decode(
    tree: Seq<InstanceView>,
    document: ParsedDocumentView,
    state: StateModel,
    referents: spec_fn(NodeId) -> nat,
    database: &ReflectionDatabase,
    at: int,
    id: NodeId,
    from: int,
    done: Seq<PropertyView>,
)
    requires
        base64_round_trips(),
        sound_shared_strings(tree),
        closed_references(document),
        document.shared_strings == entries_of(state.shared_strings, 0),
        listed_from(tree, StateModel::empty(), state),
        0 <= at < document.items.len(),
        stands_for(document.items[at], tree, id, referents, state),
        tree[id as int].properties.properties.len() <= usize::MAX,
        0 <= from <= tree[id as int].properties.properties.len(),
    ensures
        decoded_properties(
            document,
            database,
            DecodePropertyBehavior::NoReflection,
            tree[id as int].properties.class_name,
            document.items[at].properties,
            from,
            done,
        ) == Ok::<Seq<PropertyView>, DecodeErrorView>(
            done + replanted_properties(
                document,
                tree[id as int].properties.properties,
                from,
                referents,
            ),
        ),
    decreases tree[id as int].properties.properties.len() - from,
{
    let behavior = DecodePropertyBehavior::NoReflection;
    let properties = tree[id as int].properties.properties;
    let class_name = tree[id as int].properties.class_name;
    let sorted = sorted_properties(properties);
    let order = emission_order(names_of(properties));
    let parsed = document.items[at].properties;
    lemma_emission_order_shape(names_of(properties), properties.len());
    assert(parsed == parsed_properties(sorted, 0, referents));
    assert(parsed.len() == properties.len());
    let replanted = replanted_properties(document, properties, from, referents);
    if from >= parsed.len() {
        assert(replanted =~= Seq::empty());
        assert(done + replanted =~= done);
    } else {
        let property = sorted[from];
        assert(property == properties[order[from] as int]);
        assert(parsed[from] == parsed_property(property, referents));
        assert(held(properties, state));
        match property.value {
            ValueView::SharedString(shared) => {
                assert(properties[order[from] as int].value == ValueView::SharedString(shared));
                assert(in_tree(tree, shared));
            },
            ValueView::Ref(Some(target)) => {
                assert(document.items[at].properties[from].value == ParsedValueView::Reference(
                    decimal(referents(target)),
                ));
            },
            _ => {},
        }
        lemma_value_resolves(tree, document, state, referents, property.value);
        let value = replanted_value(document, property.value, referents);
        let decoded = PropertyView { name: property.name, value };
        assert(canonical_plan(
            database,
            behavior.mirrored(),
            class_name,
            PropertyView { name: property.name, value },
        ) == (crate::plan::PropertyPlan::Write { name: property.name, value }));
        assert(decoded_property(document, database, behavior, class_name, parsed[from]) == Ok::<
            Option<PropertyView>,
            DecodeErrorView,
        >(Some(decoded)));
        lemma_properties_decode(
            tree,
            document,
            state,
            referents,
            database,
            at,
            id,
            from + 1,
            done.push(decoded),
        );
        assert(replanted =~= seq![decoded] + replanted_properties(
            document,
            properties,
            from + 1,
            referents,
        ));
        assert(done.push(decoded) + replanted_properties(
            document,
            properties,
            from + 1,
            referents,
        ) =~= done + replanted);
    }
}

/// The name, class and properties as which an instance is decoded.
pub open spec fn replanted_instance(
    document: ParsedDocumentView,
    tree: Seq<InstanceView>,
    id: NodeId,
    referents: spec_fn(NodeId) -> nat,
) -> InstancePropertiesView {
    InstancePropertiesView {
        name: tree[id as int].properties.name,
        class_name: tree[id as int].properties.class_name,
        properties: replanted_properties(
            document,
            tree[id as int].properties.properties,
            0,
            referents,
        ),
    }
}

/// The tree that is built from a document has one instance for each item,
/// behind the instances that were there before, with the properties that
/// the item is decoded as, under the instance of the enclosing item.
pub proof fn lemma_built_shape(
    document: ParsedDocumentView,
    database: &ReflectionDatabase,
    behavior: DecodePropertyBehavior,
    from: int,
    tree: Seq<InstanceView>,
)
    requires
        0 <= from <= document.items.len(),
        tree.len() == from + 1,
        document.items.len() < usize::MAX,
        enclosed_in_order(document.items, 0),
        forall|k: int|
            from <= k < document.items.len() ==> #[trigger] decoded_instance(
                document,
                database,
                behavior,
                document.items[k],
            ) is Ok,
    ensures
        built(document, database, behavior, from, tree) matches Ok(grown) && grown.len()
            == document.items.len() + 1 && (forall|j: int|
            0 <= j <= from ==> (#[trigger] grown[j]).properties == tree[j].properties
                && grown[j].parent == tree[j].parent) && (forall|k: int|
            from <= k < document.items.len() ==> (#[trigger] grown[k + 1]).properties
                == decoded_instance(document, database, behavior, document.items[k])->Ok_0
                && grown[k + 1].parent == Some(parent_of(document.items[k]))),
    decreases document.items.len() - from,
{
    if from < document.items.len() {
        let item = document.items[from];
        assert(item.parent matches Some(p) ==> p < 0 + from);
        let parent = parent_of(item);
        assert(parent < tree.len());
        assert(decoded_instance(document, database, behavior, document.items[from]) is Ok);
        let properties = decoded_instance(document, database, behavior, item)->Ok_0;
        let next = inserted(tree, properties, parent);
        lemma_built_shape(document, database, behavior, from + 1, next);
        let grown = built(document, database, behavior, from + 1, next)->Ok_0;
        assert(built(document, database, behavior, from, tree) == Ok::<
            Seq<InstanceView>,
            DecodeErrorView,
        >(grown));
        assert forall|j: int| 0 <= j <= from implies (#[trigger] grown[j]).properties
            == tree[j].properties && grown[j].parent == tree[j].parent by {
            assert(grown[j].properties == next[j].properties);
        }
        assert forall|k: int| from <= k < document.items.len() implies (
        #[trigger] grown[k + 1]).properties == decoded_instance(
            document,
            database,
            behavior,
            document.items[k],
        )->Ok_0 && grown[k + 1].parent == Some(parent_of(document.items[k])) by {
            if k == from {
                assert(grown[from + 1].properties == next[from + 1].properties);
            }
        }
    }
}

/// Whether an instance of the decoded tree is what the instance `id` was
/// encoded and decoded as: the item stands for the instance, and the
/// decoded instance has its name, its class and its properties, under the
/// instance of the enclosing item.
pub open spec fn replants(
    decoded: InstanceView,
    item: ParsedItemView,
    document: ParsedDocumentView,
    tree: Seq<InstanceView>,
    id: NodeId,
    referents: spec_fn(NodeId) -> nat,
    state: StateModel,
) -> bool {
    &&& stands_for(item, tree, id, referents, state)
    &&& decoded.properties == replanted_instance(document, tree, id, referents)
    &&& decoded.parent == Some(parent_of(item))
}

/// Whether the instance behind the item at position `at` of the document
/// is what some instance of the tree was encoded and decoded as.
pub open spec fn replanted_at(
    decoded: Seq<InstanceView>,
    document: ParsedDocumentView,
    tree: Seq<InstanceView>,
    referents: spec_fn(NodeId) -> nat,
    state: StateModel,
    at: int,
) -> bool {
    let instance = decoded[at + 1];
    exists|id: NodeId|
        replants(instance, document.items[at], document, tree, id, referents, state)
}

/// A referent names one instance: an item that carries the referent of an
/// instance that the state has met stands for that instance.
pub proof fn lemma_referent_names_one_instance(
    item: ParsedItemView,
    tree: Seq<InstanceView>,
    id: NodeId,
    target: NodeId,
    state: StateModel,
)
    requires
        state.wf(),
        stands_for(item, tree, id, |id: NodeId| state.referent_of(id), state),
        state.referents.contains_key(target),
        item.referent == decimal(state.referent_of(target)),
    ensures
        id == target,
{
    lemma_decimal_injective(state.referent_of(id), state.referent_of(target));
}

/// A decoded reference points to the instance that stands for its target:
/// the first item that carries the referent of an instance that the state
/// has met stands for that instance.
pub proof fn lemma_reference_points_to_target(
    items: Seq<ParsedItemView>,
    tree: Seq<InstanceView>,
    target: NodeId,
    state: StateModel,
)
    requires
        state.wf(),
        all_stand(items, tree, |id: NodeId| state.referent_of(id), state),
        state.referents.contains_key(target),
        referent_position(items, decimal(state.referent_of(target)), 0) is Some,
    ensures
        stands_for(
            items[referent_position(items, decimal(state.referent_of(target)), 0)->Some_0],
            tree,
            target,
            |id: NodeId| state.referent_of(id),
            state,
        ),
{
    let referents = |id: NodeId| state.referent_of(id);
    lemma_referent_position(items, decimal(state.referent_of(target)), 0);
    let found = referent_position(items, decimal(state.referent_of(target)), 0)->Some_0;
    assert(stands(items[found], tree, referents, state));
    let id = choose|id: NodeId| stands_for(items[found], tree, id, referents, state);
    assert(items[found].referent == decimal(referents(id)));
    lemma_referent_names_one_instance(items[found], tree, id, target, state);
}

/// Whether the instance `target` is written when the instance `id` is
/// written with its descendants.
pub open spec fn written_under(tree: Seq<InstanceView>, id: NodeId, target: NodeId) -> bool
    decreases tree.len() - id, tree[id as int].children.len() + 1,
{
    id < tree.len() && (id == target || written_among(tree, id, 0, target))
}

/// Whether the instance `target` is written when the children of `parent`
/// from position `from` on are written with their descendants.
pub open spec fn written_among(
    tree: Seq<InstanceView>,
    parent: NodeId,
    from: int,
    target: NodeId,
) -> bool
    decreases tree.len() - parent, tree[parent as int].children.len() - from,
{
    let children = tree[parent as int].children;
    parent < tree.len() && 0 <= from < children.len() && parent < children[from]
        && children[from] < tree.len() && (written_under(tree, children[from], target)
        || written_among(tree, parent, from + 1, target))
}

/// Whether the instance `target` is written when the instances `ids` from
/// position `from` on are written with their descendants.
pub open spec fn written_by(
    tree: Seq<InstanceView>,
    ids: Seq<NodeId>,
    from: int,
    target: NodeId,
) -> bool
    decreases ids.len() - from,
{
    0 <= from < ids.len() && (written_under(tree, ids[from], target) || written_by(
        tree,
        ids,
        from + 1,
        target,
    ))
}

/// Whether the item is the item of the instance `id`.
pub open spec fn is_item_of(
    item: ParsedItemView,
    tree: Seq<InstanceView>,
    id: NodeId,
    referents: spec_fn(NodeId) -> nat,
) -> bool {
    id < tree.len() && item == item_of(tree, id, item.parent, referents)
}

/// Whether the item is the item of an instance that is written with the
/// instance `id`.
pub open spec fn item_written_under(
    item: ParsedItemView,
    tree: Seq<InstanceView>,
    id: NodeId,
    referents: spec_fn(NodeId) -> nat,
) -> bool {
    exists|v: NodeId| written_under(tree, id, v) && #[trigger] is_item_of(item, tree, v, referents)
}

/// Whether the item is the item of an instance that is written with the
/// children of `parent` from position `from` on.
pub open spec fn item_written_among(
    item: ParsedItemView,
    tree: Seq<InstanceView>,
    parent: NodeId,
    from: int,
    referents: spec_fn(NodeId) -> nat,
) -> bool {
    exists|v: NodeId|
        written_among(tree, parent, from, v) && #[trigger] is_item_of(item, tree, v, referents)
}

/// Whether the item is the item of an instance that is written with the
/// instances `ids` from position `from` on.
pub open spec fn item_written_by(
    item: ParsedItemView,
    tree: Seq<InstanceView>,
    ids: Seq<NodeId>,
    from: int,
    referents: spec_fn(NodeId) -> nat,
) -> bool {
    exists|v: NodeId|
        written_by(tree, ids, from, v) && #[trigger] is_item_of(item, tree, v, referents)
}

/// Whether some item carries the referent of the instance `target`.
pub open spec fn carries(
    items: Seq<ParsedItemView>,
    target: NodeId,
    referents: spec_fn(NodeId) -> nat,
) -> bool {
    exists|k: int|
        0 <= k < items.len() && (#[trigger] items[k]).referent == decimal(referents(target))
}

/// An item that some of the items in front carry is carried by all.
pub proof fn lemma_carries_in_front(
    first: Seq<ParsedItemView>,
    rest: Seq<ParsedItemView>,
    target: NodeId,
    referents: spec_fn(NodeId) -> nat,
)
    requires
        carries(first, target, referents),
    ensures
        carries(first + rest, target, referents),
{
    let k = choose|k: int|
        0 <= k < first.len() && (#[trigger] first[k]).referent == decimal(referents(target));
    assert((first + rest)[k] == first[k]);
}

/// An item that some of the items behind carry is carried by all.
pub proof fn lemma_carries_behind(
    first: Seq<ParsedItemView>,
    rest: Seq<ParsedItemView>,
    target: NodeId,
    referents: spec_fn(NodeId) -> nat,
)
    requires
        carries(rest, target, referents),
    ensures
        carries(first + rest, target, referents),
{
    let k = choose|k: int|
        0 <= k < rest.len() && (#[trigger] rest[k]).referent == decimal(referents(target));
    assert((first + rest)[k + first.len()] == rest[k]);
}

/// The items that stand for an instance and its descendants are the items
/// of the instances that are written, and every instance that is written
/// has an item that carries its referent.
pub proof fn lemma_instance_items_are_the_written(
    tree: Seq<InstanceView>,
    id: NodeId,
    parent: Option<usize>,
    base: nat,
    referents: spec_fn(NodeId) -> nat,
)
    ensures
        forall|k: int|
            0 <= k < items_of_instance(tree, id, parent, base, referents).len()
                ==> item_written_under(
                #[trigger] items_of_instance(tree, id, parent, base, referents)[k],
                tree,
                id,
                referents,
            ),
        forall|target: NodeId| #[trigger]
            written_under(tree, id, target) ==> carries(
                items_of_instance(tree, id, parent, base, referents),
                target,
                referents,
            ),
    decreases tree.len() - id, tree[id as int].children.len() + 1,
{
    let items = items_of_instance(tree, id, parent, base, referents);
    if id < tree.len() {
        let item = item_of(tree, id, parent, referents);
        let descendants = items_of_children(tree, id, 0, base, base + 1, referents);
        assert(items == seq![item] + descendants);
        lemma_children_items_are_the_written(tree, id, 0, base, base + 1, referents);
        assert forall|k: int| 0 <= k < items.len() implies item_written_under(
            #[trigger] items[k],
            tree,
            id,
            referents,
        ) by {
            if k == 0 {
                assert(written_under(tree, id, id));
                assert(is_item_of(items[0], tree, id, referents));
            } else {
                let descendant = descendants[k - 1];
                assert(items[k] == descendant);
                assert(item_written_among(descendant, tree, id, 0, referents));
                let v = choose|v: NodeId|
                    written_among(tree, id, 0, v) && #[trigger] is_item_of(
                        descendant,
                        tree,
                        v,
                        referents,
                    );
                assert(written_under(tree, id, v));
            }
        }
        assert forall|target: NodeId| #[trigger] written_under(tree, id, target) implies carries(
            items,
            target,
            referents,
        ) by {
            if id == target {
                assert(items[0].referent == decimal(referents(target)));
            } else {
                assert(written_among(tree, id, 0, target));
                lemma_carries_behind(seq![item], descendants, target, referents);
            }
        }
    }
}

/// The items that stand for the children of an instance and their
/// descendants are the items of the instances that are written, and every
/// instance that is written has an item that carries its referent.
pub proof fn lemma_children_items_are_the_written(
    tree: Seq<InstanceView>,
    parent: NodeId,
    from: int,
    position: nat,
    next: nat,
    referents: spec_fn(NodeId) -> nat,
)
    ensures
        forall|k: int|
            0 <= k < items_of_children(tree, parent, from, position, next, referents).len()
                ==> item_written_among(
                #[trigger] items_of_children(tree, parent, from, position, next, referents)[k],
                tree,
                parent,
                from,
                referents,
            ),
        forall|target: NodeId| #[trigger]
            written_among(tree, parent, from, target) ==> carries(
                items_of_children(tree, parent, from, position, next, referents),
                target,
                referents,
            ),
    decreases tree.len() - parent, tree[parent as int].children.len() - from,
{
    let children = tree[parent as int].children;
    let items = items_of_children(tree, parent, from, position, next, referents);
    if parent < tree.len() && 0 <= from < children.len() && parent < children[from]
        && children[from] < tree.len() {
        let child = children[from];
        let first = items_of_instance(tree, child, Some(position as usize), next, referents);
        let rest = items_of_children(
            tree,
            parent,
            from + 1,
            position,
            next + first.len(),
            referents,
        );
        assert(items == first + rest);
        lemma_instance_items_are_the_written(
            tree,
            child,
            Some(position as usize),
            next,
            referents,
        );
        lemma_children_items_are_the_written(
            tree,
            parent,
            from + 1,
            position,
            next + first.len(),
            referents,
        );
        assert forall|k: int| 0 <= k < items.len() implies item_written_among(
            #[trigger] items[k],
            tree,
            parent,
            from,
            referents,
        ) by {
            if k < first.len() {
                let item = first[k];
                assert(items[k] == item);
                assert(item_written_under(item, tree, child, referents));
                let v = choose|v: NodeId|
                    written_under(tree, child, v) && #[trigger] is_item_of(
                        item,
                        tree,
                        v,
                        referents,
                    );
                assert(written_among(tree, parent, from, v));
            } else {
                let item = rest[k - first.len()];
                assert(items[k] == item);
                assert(item_written_among(item, tree, parent, from + 1, referents));
                let v = choose|v: NodeId|
                    written_among(tree, parent, from + 1, v) && #[trigger] is_item_of(
                        item,
                        tree,
                        v,
                        referents,
                    );
                assert(written_among(tree, parent, from, v));
            }
        }
        assert forall|target: NodeId| #[trigger]
            written_among(tree, parent, from, target) implies carries(items, target, referents) by {
            if written_under(tree, child, target) {
                lemma_carries_in_front(first, rest, target, referents);
            } else {
                assert(written_among(tree, parent, from + 1, target));
                lemma_carries_behind(first, rest, target, referents);
            }
        }
    }
}

/// The items that stand for several instances and their descendants are
/// the items of the instances that are written, and every instance that is
/// written has an item that carries its referent.
pub proof fn lemma_roots_items_are_the_written(
    tree: Seq<InstanceView>,
    ids: Seq<NodeId>,
    from: int,
    next: nat,
    referents: spec_fn(NodeId) -> nat,
)
    ensures
        forall|k: int|
            0 <= k < items_of_roots(tree, ids, from, next, referents).len() ==> item_written_by(
                #[trigger] items_of_roots(tree, ids, from, next, referents)[k],
                tree,
                ids,
                from,
                referents,
            ),
        forall|target: NodeId| #[trigger]
            written_by(tree, ids, from, target) ==> carries(
                items_of_roots(tree, ids, from, next, referents),
                target,
                referents,
            ),
    decreases ids.len() - from,
{
    let items = items_of_roots(tree, ids, from, next, referents);
    if 0 <= from < ids.len() {
        let first = items_of_instance(tree, ids[from], None, next, referents);
        let rest = items_of_roots(tree, ids, from + 1, next + first.len(), referents);
        assert(items == first + rest);
        lemma_instance_items_are_the_written(tree, ids[from], None, next, referents);
        lemma_roots_items_are_the_written(tree, ids, from + 1, next + first.len(), referents);
        assert forall|k: int| 0 <= k < items.len() implies item_written_by(
            #[trigger] items[k],
            tree,
            ids,
            from,
            referents,
        ) by {
            if k < first.len() {
                let item = first[k];
                assert(items[k] == item);
                assert(item_written_under(item, tree, ids[from], referents));
                let v = choose|v: NodeId|
                    written_under(tree, ids[from], v) && #[trigger] is_item_of(
                        item,
                        tree,
                        v,
                        referents,
                    );
                assert(written_by(tree, ids, from, v));
            } else {
                let item = rest[k - first.len()];
                assert(items[k] == item);
                assert(item_written_by(item, tree, ids, from + 1, referents));
                let v = choose|v: NodeId|
                    written_by(tree, ids, from + 1, v) && #[trigger] is_item_of(
                        item,
                        tree,
                        v,
                        referents,
                    );
                assert(written_by(tree, ids, from, v));
            }
        }
        assert forall|target: NodeId| #[trigger]
            written_by(tree, ids, from, target) implies carries(items, target, referents) by {
            if written_under(tree, ids[from], target) {
                lemma_carries_in_front(first, rest, target, referents);
            } else {
                assert(written_by(tree, ids, from + 1, target));
                lemma_carries_behind(first, rest, target, referents);
            }
        }
    }
}

/// Whether every reference of an instance that is written with the
/// instances `ids` points to an instance that is written with them.
pub open spec fn closed_tree(tree: Seq<InstanceView>, ids: Seq<NodeId>) -> bool {
    forall|id: NodeId, j: int|
        written_by(tree, ids, 0, id) && 0 <= j < tree[id as int].properties.properties.len() ==> ((
        #[trigger] tree[id as int].properties.properties[j]).value matches ValueView::Ref(
            Some(target),
        ) ==> written_by(tree, ids, 0, target))
}

/// A reference of the item of an instance that is written names the
/// referent of an item, where every reference points to an instance that
/// is written.
pub proof fn lemma_reference_of_item_is_closed(
    tree: Seq<InstanceView>,
    ids: Seq<NodeId>,
    items: Seq<ParsedItemView>,
    referents: spec_fn(NodeId) -> nat,
    item: ParsedItemView,
    id: NodeId,
    j: int,
)
    requires
        closed_tree(tree, ids),
        tree[id as int].properties.properties.len() <= usize::MAX,
        written_by(tree, ids, 0, id),
        is_item_of(item, tree, id, referents),
        0 <= j < item.properties.len(),
        forall|target: NodeId| #[trigger]
            written_by(tree, ids, 0, target) ==> carries(items, target, referents),
    ensures
        item.properties[j].value matches ParsedValueView::Reference(referent) ==> referent_position(
            items,
            referent,
            0,
        ) is Some,
{
    let properties = tree[id as int].properties.properties;
    let sorted = sorted_properties(properties);
    let order = emission_order(names_of(properties));
    lemma_emission_order_shape(names_of(properties), properties.len());
    assert(item.properties == parsed_properties(sorted, 0, referents));
    assert(item.properties[j] == parsed_property(sorted[j], referents));
    assert(sorted[j] == properties[order[j] as int]);
    match sorted[j].value {
        ValueView::Ref(Some(target)) => {
            assert(properties[order[j] as int].value == ValueView::Ref(Some(target)));
            assert(written_by(tree, ids, 0, target));
            assert(carries(items, target, referents));
            lemma_referent_position(items, decimal(referents(target)), 0);
        },
        _ => {},
    }
}

/// Where every reference points to an instance that is written, every
/// reference in the document names the referent of an item.
pub proof fn lemma_closed_tree_gives_closed_references(
    tree: Seq<InstanceView>,
    ids: Seq<NodeId>,
    state: StateModel,
)
    requires
        closed_tree(tree, ids),
        readable_tree(tree),
    ensures
        closed_references(document_of(tree, ids, state)),
{
    let referents = |id: NodeId| state.referent_of(id);
    let document = document_of(tree, ids, state);
    let items = document.items;
    lemma_roots_items_are_the_written(tree, ids, 0, 0, referents);
    assert forall|k: int, j: int|
        0 <= k < items.len() && 0 <= j < items[k].properties.len() implies ((
    #[trigger] items[k].properties[j]).value matches ParsedValueView::Reference(referent)
        ==> referent_position(items, referent, 0) is Some) by {
        let item = items[k];
        assert(item_written_by(item, tree, ids, 0, referents));
        let id = choose|id: NodeId|
            written_by(tree, ids, 0, id) && #[trigger] is_item_of(item, tree, id, referents);
        lemma_reference_of_item_is_closed(tree, ids, items, referents, item, id, j);
    }
}

/// Decoding undoes encoding: with reflection off on both sides, an encoded
/// document is decoded as a tree that has, behind its root, one instance
/// for each instance that was written, in the order in which they were
/// written. Each has the class, the name and the properties of the
/// instance that it stands for, the properties sorted by name; a reference
/// points to the instance whose item carries the referent of its target.
/// The children of a decoded instance are the instances of the items that
/// its item encloses, in document order.
///
/// This holds of a tree whose values can be read back, whose shared
/// strings carry the digest of their content and do not collide, and in
/// which every reference of an instance that is written points to an
/// instance that is written; and it holds given that base64 decoding
/// undoes base64 encoding.
pub proof fn lemma_decoding_undoes_encoding(
    tree: Seq<InstanceView>,
    database: &ReflectionDatabase,
    other: &ReflectionDatabase,
    ids: Seq<NodeId>,
)
    requires
        readable_tree(tree),
        sound_shared_strings(tree),
        base64_round_trips(),
        closed_tree(tree, ids),
        document_of(tree, ids, final_state(tree, database, ids)).items.len() < usize::MAX,
        encoded_document(tree, database, EncodePropertyBehavior::NoReflection, ids) matches Ok(
            events,
        ) ==> events.len() <= usize::MAX,
    ensures
        encoded_document(tree, database, EncodePropertyBehavior::NoReflection, ids) matches Ok(
            events,
        ) && decoded_document(events, other, DecodePropertyBehavior::NoReflection) matches Ok(
            model,
        ) && {
            let state = final_state(tree, database, ids);
            let document = document_of(tree, ids, state);
            let referents = |id: NodeId| state.referent_of(id);
            &&& state.wf()
            &&& all_stand(document.items, tree, referents, state)
            &&& model.roots == root_ids(document.items, 0, Seq::empty())
            &&& model.tree.len() == document.items.len() + 1
            &&& model.tree[0].properties == root_instance().properties
            &&& model.tree[0].children == model.roots
            &&& forall|p: int|
                0 < p <= document.items.len() ==> (#[trigger] model.tree[p]).children
                    == children_of(document.items, p as NodeId, p, Seq::empty())
            &&& forall|k: int|
                0 <= k < document.items.len() ==> #[trigger] replanted_at(
                    model.tree,
                    document,
                    tree,
                    referents,
                    state,
                    k,
                )
        },
{
    let behavior = DecodePropertyBehavior::NoReflection;
    let state = final_state(tree, database, ids);
    let document = document_of(tree, ids, state);
    let referents = |id: NodeId| state.referent_of(id);
    let start = Emission {
        events: seq![start_with("roblox"@, "version"@, "4"@)],
        state: StateModel::empty(),
    };
    lemma_document_is_read_back(tree, database, ids);
    lemma_closed_tree_gives_closed_references(tree, ids, state);
    lemma_roots_items_stand(tree, database, ids, 0, start, 0, referents);
    lemma_roots_items_in_order(tree, ids, 0, 0, referents);
    let items = document.items;
    assert forall|k: int| 0 <= k < items.len() implies #[trigger] decoded_instance(
        document,
        other,
        behavior,
        items[k],
    ) is Ok by {
        assert(stands(items[k], tree, referents, state));
        let id = choose|id: NodeId| stands_for(items[k], tree, id, referents, state);
        lemma_properties_decode(
            tree,
            document,
            state,
            referents,
            other,
            k,
            id,
            0,
            Seq::empty(),
        );
    }
    let planted = seq![root_instance()];
    lemma_built_shape(document, other, behavior, 0, planted);
    lemma_built_children(document, other, behavior, 0, planted);
    assert forall|k: int| 0 <= k < document.items.len() implies ((
    #[trigger] document.items[k]).parent matches Some(position) ==> position
        < document.items.len()) by {
        assert(document.items[k].parent matches Some(position) ==> position < 0 + k);
    }
    lemma_roots_are_children_of_root(document.items, 0, Seq::empty());
    let grown = built(document, other, behavior, 0, planted)->Ok_0;
    assert forall|k: int| 0 <= k < items.len() implies #[trigger] replanted_at(
        grown,
        document,
        tree,
        referents,
        state,
        k,
    ) by {
        assert(stands(items[k], tree, referents, state));
        let id = choose|id: NodeId| stands_for(items[k], tree, id, referents, state);
        lemma_properties_decode(
            tree,
            document,
            state,
            referents,
            other,
            k,
            id,
            0,
            Seq::empty(),
        );
        let replanted = replanted_properties(
            document,
            tree[id as int].properties.properties,
            0,
            referents,
        );
        assert(Seq::<PropertyView>::empty() + replanted =~= replanted);
        assert(items[k].class_name == tree[id as int].properties.class_name);
        assert(decoded_instance(document, other, behavior, items[k]) == Ok::<
            InstancePropertiesView,
            DecodeErrorView,
        >(replanted_instance(document, tree, id, referents)));
        assert(replants(grown[k + 1], items[k], document, tree, id, referents, state));
    }
}

} // verus!
