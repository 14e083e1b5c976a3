//! The tree decoder and the options that steer it.

use crate::database::ReflectionDatabase;
use crate::error::DecodeError;
use crate::error::DecodeErrorView;
use crate::error::EncodeError;
use crate::error::EncodeErrorView;
use crate::parse::parse;
use crate::parse::parsed;
use crate::parse::ParsedDocument;
use crate::parse::ParsedDocumentView;
use crate::parse::ParsedItem;
use crate::parse::ParsedItemView;
use crate::parse::ParsedProperty;
use crate::parse::ParsedPropertyView;
use crate::parse::ParsedValue;
use crate::parse::ParsedValueView;
use crate::parse::SharedEntry;
use crate::parse::SharedEntryView;
use crate::plan::canonical_plan;
use crate::plan::plan_canonical_property;
use crate::plan::PlannedProperty;
use crate::plan::PlannedValue;
use crate::plan::PropertyPlan;
use crate::serializer::EncodePropertyBehavior;
use crate::shared_string::base64_bytes;
use crate::shared_string::decode_base64;
use crate::shared_string::md5_digest;
use crate::shared_string::SharedBlob;
use crate::shared_string::SharedString;
use crate::text::str_eq;
use crate::tree::inserted;
use crate::tree::InstanceProperties;
use crate::tree::InstancePropertiesView;
use crate::tree::InstanceView;
use crate::tree::NodeId;
use crate::tree::Property;
use crate::tree::PropertyView;
use crate::tree::Tree;
use crate::value::DataValue;
use crate::value::Value;
use crate::value::ValueView;
use crate::wire::events_view;
use crate::wire::WireEvent;
use crate::wire::WireEventView;
use vstd::prelude::*;

verus! {

/// Describes the strategy used when reading properties.
#[derive(Debug, Clone, Copy, PartialEq, Eq, Hash, Structural)]
pub enum DecodePropertyBehavior {
    /// Ignores properties that the reflection database does not know.
    ///
    /// This is the default.
    IgnoreUnknown,
    /// Reads unrecognized properties under the name and type that they have
    /// in the document.
    ReadUnknown,
    /// Returns an error if any property is found that the reflection database
    /// does not know.
    ErrorOnUnknown,
    /// Turns the reflection database off altogether. Property names and types
    /// are taken exactly as they are in the document.
    NoReflection,
}

impl DecodePropertyBehavior {
    /// The behavior of the encoder that mirrors this one.
    pub open spec fn mirrored(self) -> EncodePropertyBehavior {
        match self {
            DecodePropertyBehavior::IgnoreUnknown => EncodePropertyBehavior::IgnoreUnknown,
            DecodePropertyBehavior::ReadUnknown => EncodePropertyBehavior::WriteUnknown,
            DecodePropertyBehavior::ErrorOnUnknown => EncodePropertyBehavior::ErrorOnUnknown,
            DecodePropertyBehavior::NoReflection => EncodePropertyBehavior::NoReflection,
        }
    }

    /// Returns the behavior of the encoder that mirrors this one.
    pub fn mirror(self) -> (behavior: EncodePropertyBehavior)
        ensures
            behavior == self.mirrored(),
    {
        match self {
            DecodePropertyBehavior::IgnoreUnknown => EncodePropertyBehavior::IgnoreUnknown,
            DecodePropertyBehavior::ReadUnknown => EncodePropertyBehavior::WriteUnknown,
            DecodePropertyBehavior::ErrorOnUnknown => EncodePropertyBehavior::ErrorOnUnknown,
            DecodePropertyBehavior::NoReflection => EncodePropertyBehavior::NoReflection,
        }
    }
}

/// Options available for reading a model or place.
#[derive(Debug, Clone)]
pub struct DecodeOptions {
    property_behavior: DecodePropertyBehavior,
}

impl View for DecodeOptions {
    type V = DecodePropertyBehavior;

    /// The options are fully described by the behavior they select.
    closed spec fn view(&self) -> DecodePropertyBehavior {
        self.property_behavior
    }
}

impl DecodeOptions {
    /// Constructs a `DecodeOptions` with all values set to their defaults.
    #[inline]
    pub fn new() -> (options: Self)
        ensures
            options@ == DecodePropertyBehavior::IgnoreUnknown,
    {
        DecodeOptions { property_behavior: DecodePropertyBehavior::IgnoreUnknown }
    }

    /// Determines how properties are read, especially unknown ones.
    #[inline]
    pub fn property_behavior(self, property_behavior: DecodePropertyBehavior) -> (options: Self)
        ensures
            options@ == property_behavior,
    {
        DecodeOptions { property_behavior }
    }

    /// The behavior that these options select.
    pub fn behavior(&self) -> (behavior: DecodePropertyBehavior)
        ensures
            behavior == self@,
    {
        self.property_behavior
    }

    /// Whether property names and types are looked up in the reflection
    /// database at all.
    pub fn use_reflection(&self) -> (reflect: bool)
        ensures
            reflect == (self@ != DecodePropertyBehavior::NoReflection),
    {
        self.property_behavior != DecodePropertyBehavior::NoReflection
    }
}

impl Default for DecodeOptions {
    fn default() -> (options: DecodeOptions)
        ensures
            options@ == DecodePropertyBehavior::IgnoreUnknown,
    {
        DecodeOptions::new()
    }
}

/// The position of the first item at or after `from` that carries the
/// referent.
pub open spec fn referent_position(
    items: Seq<ParsedItemView>,
    referent: Seq<char>,
    from: int,
) -> Option<
    int,
>
    decreases items.len() - from,
{
    if from < 0 || from >= items.len() {
        None
    } else if items[from].referent == referent {
        Some(from)
    } else {
        referent_position(items, referent, from + 1)
    }
}

/// The position of the first entry at or after `from` that is listed under
/// the digest text.
pub open spec fn entry_position(entries: Seq<SharedEntryView>, md5: Seq<char>, from: int) -> Option<
    int,
>
    decreases entries.len() - from,
{
    if from < 0 || from >= entries.len() {
        None
    } else if entries[from].md5 == md5 {
        Some(from)
    } else {
        entry_position(entries, md5, from + 1)
    }
}

/// The id that the item at `position` gets in the decoded tree. The root
/// of the tree has the id 0, and the items follow in document order.
pub open spec fn node_of(position: int) -> NodeId {
    (position + 1) as NodeId
}

/// The value that a value of the document stands for.
///
/// A reference is resolved to the instance whose item carries the referent,
/// a shared string to the content that the dictionary lists under its
/// digest text. A referent that no item carries and a digest that the
/// dictionary does not list are errors.
pub open spec fn resolved_value(document: ParsedDocumentView, value: ParsedValueView) -> Result<
    ValueView,
    DecodeErrorView,
> {
    match value {
        ParsedValueView::Data(data) => Ok(ValueView::Data(data)),
        ParsedValueView::NoReference => Ok(ValueView::Ref(None)),
        ParsedValueView::Reference(referent) => match referent_position(
            document.items,
            referent,
            0,
        ) {
            Some(position) => Ok(ValueView::Ref(Some(node_of(position)))),
            None => Err(DecodeErrorView::UnresolvedReferent { referent }),
        },
        ParsedValueView::Shared(md5) => match entry_position(document.shared_strings, md5, 0) {
            Some(position) => match base64_bytes(document.shared_strings[position].data) {
                Some(data) => Ok(
                    ValueView::SharedString(SharedBlob { hash: md5_digest(data), data }),
                ),
                None => Err(DecodeErrorView::UnresolvedSharedString { md5 }),
            },
            None => Err(DecodeErrorView::UnresolvedSharedString { md5 }),
        },
    }
}

/// The decode error that stands for an error of a property plan.
pub open spec fn plan_error(error: EncodeErrorView) -> DecodeErrorView {
    match error {
        EncodeErrorView::UnknownProperty {
            class_name,
            property_name,
        } => DecodeErrorView::UnknownProperty { class_name, property_name },
        EncodeErrorView::UnsupportedPropertyConversion {
            class_name,
            property_name,
            expected_type,
            actual_type,
        } => DecodeErrorView::UnsupportedPropertyConversion {
            class_name,
            property_name,
            expected_type,
            actual_type,
        },
    }
}

/// The property that a property of the document becomes, `None` if it is
/// left out, or the error with which decoding fails.
pub open spec fn decoded_property(
    document: ParsedDocumentView,
    database: &ReflectionDatabase,
    behavior: DecodePropertyBehavior,
    class_name: Seq<char>,
    property: ParsedPropertyView,
) -> Result<Option<PropertyView>, DecodeErrorView> {
    match resolved_value(document, property.value) {
        Err(error) => Err(error),
        Ok(value) => match canonical_plan(
            database,
            behavior.mirrored(),
            class_name,
            PropertyView { name: property.name, value },
        ) {
            PropertyPlan::Skip => Ok(None),
            PropertyPlan::Write { name, value } => Ok(Some(PropertyView { name, value })),
            PropertyPlan::Fail(error) => Err(plan_error(error)),
        },
    }
}

/// The properties that the properties of an item from position `from` on
/// become, behind those in `done`, or the first error.
pub open spec fn decoded_properties(
    document: ParsedDocumentView,
    database: &ReflectionDatabase,
    behavior: DecodePropertyBehavior,
    class_name: Seq<char>,
    properties: Seq<ParsedPropertyView>,
    from: int,
    done: Seq<PropertyView>,
) -> Result<Seq<PropertyView>, DecodeErrorView>
    decreases properties.len() - from,
{
    if from < 0 || from >= properties.len() {
        Ok(done)
    } else {
        match decoded_property(document, database, behavior, class_name, properties[from]) {
            Err(error) => Err(error),
            Ok(None) => decoded_properties(
                document,
                database,
                behavior,
                class_name,
                properties,
                from + 1,
                done,
            ),
            Ok(Some(property)) => decoded_properties(
                document,
                database,
                behavior,
                class_name,
                properties,
                from + 1,
                done.push(property),
            ),
        }
    }
}

/// The name, class and properties of the instance that an item becomes.
pub open spec fn decoded_instance(
    document: ParsedDocumentView,
    database: &ReflectionDatabase,
    behavior: DecodePropertyBehavior,
    item: ParsedItemView,
) -> Result<InstancePropertiesView, DecodeErrorView> {
    match decoded_properties(
        document,
        database,
        behavior,
        item.class_name,
        item.properties,
        0,
        Seq::empty(),
    ) {
        Err(error) => Err(error),
        Ok(properties) => Ok(
            InstancePropertiesView { name: item.name, class_name: item.class_name, properties },
        ),
    }
}

/// The id of the instance under which the item is inserted: the instance of
/// the item that encloses it, or the root.
pub open spec fn parent_of(item: ParsedItemView) -> NodeId {
    match item.parent {
        Some(position) => node_of(position as int),
        None => 0,
    }
}

/// The tree after the items from position `from` on were inserted into
/// `tree`, in document order, or the first error. An item whose enclosing
/// item does not come before it cannot be inserted.
pub open spec fn built(
    document: ParsedDocumentView,
    database: &ReflectionDatabase,
    behavior: DecodePropertyBehavior,
    from: int,
    tree: Seq<InstanceView>,
) -> Result<Seq<InstanceView>, DecodeErrorView>
    decreases document.items.len() - from,
{
    if from < 0 || from >= document.items.len() {
        Ok(tree)
    } else if document.items[from].parent matches Some(position) && position >= from {
        Err(DecodeErrorView::Malformed { position: from as usize })
    } else {
        match decoded_instance(document, database, behavior, document.items[from]) {
            Err(error) => Err(error),
            Ok(properties) => built(
                document,
                database,
                behavior,
                from + 1,
                inserted(tree, properties, parent_of(document.items[from])),
            ),
        }
    }
}

/// The ids of the instances whose items are enclosed by no item, behind
/// those in `done`.
pub open spec fn root_ids(items: Seq<ParsedItemView>, from: int, done: Seq<NodeId>) -> Seq<NodeId>
    decreases items.len() - from,
{
    if from < 0 || from >= items.len() {
        done
    } else if items[from].parent is None {
        root_ids(items, from + 1, done.push(node_of(from)))
    } else {
        root_ids(items, from + 1, done)
    }
}

/// The root instance of every decoded tree.
pub open spec fn root_instance() -> InstanceView {
    InstanceView {
        properties: InstancePropertiesView {
            name: "DataModel"@,
            class_name: "DataModel"@,
            properties: Seq::empty(),
        },
        children: Seq::empty(),
        parent: None,
    }
}

/// What a decoded document holds.
#[verifier::ext_equal]
pub struct DecodedModelView {
    pub tree: Seq<InstanceView>,
    pub roots: Seq<NodeId>,
}

/// The tree that the events of a document stand for, with the ids of the
/// instances of its outermost items in document order, or the error with
/// which decoding fails.
///
/// The tree has a root of its own, under which the outermost items are
/// inserted. Every item becomes an instance; the items inside an item
/// become its children, in document order.
pub open spec fn decoded_document(
    events: Seq<WireEventView>,
    database: &ReflectionDatabase,
    behavior: DecodePropertyBehavior,
) -> Result<DecodedModelView, DecodeErrorView> {
    match parsed(events) {
        Err(error) => Err(error),
        Ok(document) => match built(document, database, behavior, 0, seq![root_instance()]) {
            Err(error) => Err(error),
            Ok(tree) => Ok(
                DecodedModelView { tree, roots: root_ids(document.items, 0, Seq::empty()) },
            ),
        },
    }
}

/// The ids of the instances of the items from position `from` on that are
/// inserted under the instance `parent`, behind those in `done`.
pub open spec fn children_of(
    items: Seq<ParsedItemView>,
    parent: NodeId,
    from: int,
    done: Seq<NodeId>,
) -> Seq<NodeId>
    decreases items.len() - from,
{
    if from < 0 || from >= items.len() {
        done
    } else if parent_of(items[from]) == parent {
        children_of(items, parent, from + 1, done.push(node_of(from)))
    } else {
        children_of(items, parent, from + 1, done)
    }
}

/// The child lists follow the nesting of the document: in the tree that is
/// built, the children of an instance are the instances of the items that
/// its item encloses, in document order; the children of the root are the
/// instances of the outermost items.
pub proof fn lemma_built_children(
    document: ParsedDocumentView,
    database: &ReflectionDatabase,
    behavior: DecodePropertyBehavior,
    from: int,
    tree: Seq<InstanceView>,
)
    requires
        0 <= from <= document.items.len(),
        tree.len() == from + 1,
        document.items.len() < usize::MAX,
        built(document, database, behavior, from, tree) is Ok,
    ensures
        built(document, database, behavior, from, tree) matches Ok(grown) && grown.len()
            == document.items.len() + 1 && (forall|p: int|
            0 <= p <= from ==> (#[trigger] grown[p]).children == children_of(
                document.items,
                p as NodeId,
                from,
                tree[p].children,
            )) && (forall|p: int|
            from < p <= document.items.len() ==> (#[trigger] grown[p]).children == children_of(
                document.items,
                p as NodeId,
                p,
                Seq::empty(),
            )),
    decreases document.items.len() - from,
{
    let items = document.items;
    if from < items.len() {
        let item = items[from];
        let parent = parent_of(item);
        assert(!(item.parent matches Some(position) && position >= from));
        assert(parent < tree.len());
        let properties = decoded_instance(document, database, behavior, item)->Ok_0;
        let next = inserted(tree, properties, parent);
        lemma_built_children(document, database, behavior, from + 1, next);
        let grown = built(document, database, behavior, from + 1, next)->Ok_0;
        assert forall|p: int| 0 <= p <= from implies (#[trigger] grown[p]).children == children_of(
            items,
            p as NodeId,
            from,
            tree[p].children,
        ) by {
            if p == parent {
                assert(next[p].children == tree[p].children.push(node_of(from)));
            } else {
                assert(next[p].children == tree[p].children);
            }
        }
        assert forall|p: int| from < p <= items.len() implies (#[trigger] grown[p]).children
            == children_of(items, p as NodeId, p, Seq::empty()) by {
            if p == from + 1 {
                assert(next[p].children == Seq::<NodeId>::empty());
            }
        }
    }
}

/// The instances of the outermost items are the children of the root,
/// where every item that is enclosed is enclosed by an item of the
/// document.
pub proof fn lemma_roots_are_children_of_root(
    items: Seq<ParsedItemView>,
    from: int,
    done: Seq<NodeId>,
)
    requires
        0 <= from,
        items.len() < usize::MAX,
        forall|k: int|
            0 <= k < items.len() ==> ((#[trigger] items[k]).parent matches Some(position)
                ==> position < items.len()),
    ensures
        children_of(items, 0, from, done) == root_ids(items, from, done),
    decreases items.len() - from,
{
    if from < items.len() {
        if items[from].parent is None {
            lemma_roots_are_children_of_root(items, from + 1, done.push(node_of(from)));
        } else {
            lemma_roots_are_children_of_root(items, from + 1, done);
        }
    }
}

/// A dangling reference is an error whatever comes behind it: where a
/// property from position `from` on refers to a referent that no item
/// carries, the properties are not decoded.
pub proof fn lemma_dangling_reference_stops_properties(
    document: ParsedDocumentView,
    database: &ReflectionDatabase,
    behavior: DecodePropertyBehavior,
    class_name: Seq<char>,
    properties: Seq<ParsedPropertyView>,
    from: int,
    done: Seq<PropertyView>,
    at: int,
)
    requires
        0 <= from <= at < properties.len(),
        properties[at].value matches ParsedValueView::Reference(referent) && referent_position(
            document.items,
            referent,
            0,
        ) is None,
    ensures
        decoded_properties(document, database, behavior, class_name, properties, from, done) is Err,
    decreases at - from,
{
    if from < at {
        match decoded_property(document, database, behavior, class_name, properties[from]) {
            Ok(None) => {
                lemma_dangling_reference_stops_properties(
                    document,
                    database,
                    behavior,
                    class_name,
                    properties,
                    from + 1,
                    done,
                    at,
                );
            },
            Ok(Some(property)) => {
                lemma_dangling_reference_stops_properties(
                    document,
                    database,
                    behavior,
                    class_name,
                    properties,
                    from + 1,
                    done.push(property),
                    at,
                );
            },
            Err(_) => {},
        }
    }
}

/// A dangling reference is never read as a reference to nothing: a
/// document in which some property refers to a referent that no item
/// carries is not decoded, whatever the behavior.
pub proof fn lemma_dangling_reference_is_an_error(
    document: ParsedDocumentView,
    database: &ReflectionDatabase,
    behavior: DecodePropertyBehavior,
    from: int,
    tree: Seq<InstanceView>,
    item: int,
    property: int,
)
    requires
        0 <= from <= item < document.items.len(),
        0 <= property < document.items[item].properties.len(),
        document.items[item].properties[property].value matches ParsedValueView::Reference(
            referent,
        ) && referent_position(document.items, referent, 0) is None,
    ensures
        built(document, database, behavior, from, tree) is Err,
    decreases item - from,
{
    if from < item {
        if !(document.items[from].parent matches Some(position) && position >= from) {
            match decoded_instance(document, database, behavior, document.items[from]) {
                Ok(properties) => {
                    lemma_dangling_reference_is_an_error(
                        document,
                        database,
                        behavior,
                        from + 1,
                        inserted(tree, properties, parent_of(document.items[from])),
                        item,
                        property,
                    );
                },
                Err(_) => {},
            }
        }
    } else {
        lemma_dangling_reference_stops_properties(
            document,
            database,
            behavior,
            document.items[item].class_name,
            document.items[item].properties,
            0,
            Seq::empty(),
            property,
        );
    }
}

/// A decoded document: the tree, and the ids of the instances of the
/// outermost items in document order.
#[derive(Debug)]
pub struct DecodedModel {
    pub tree: Tree,
    pub roots: Vec<NodeId>,
}

impl View for DecodedModel {
    type V = DecodedModelView;

    open spec fn view(&self) -> DecodedModelView {
        DecodedModelView { tree: self.tree@, roots: self.roots@ }
    }
}

/// What the items of a document hold.
pub open spec fn items_view(items: Seq<ParsedItem>) -> Seq<ParsedItemView> {
    items.map_values(|item: ParsedItem| item@)
}

/// Finds the first item that carries the referent.
fn find_referent(items: &Vec<ParsedItem>, referent: &str) -> (found: Option<usize>)
    ensures
        match found {
            Some(position) => referent_position(items_view(items@), referent@, 0) == Some(
                position as int,
            ) && position < items@.len() && position < usize::MAX,
            None => referent_position(items_view(items@), referent@, 0) is None,
        },
{
    let ghost views = items_view(items@);
    let mut i: usize = 0;
    while i < items.len()
        invariant
            i <= items@.len(),
            views == items_view(items@),
            referent_position(views, referent@, 0) == referent_position(views, referent@, i as int),
        decreases items@.len() - i,
    {
        if str_eq(items[i].referent.as_str(), referent) {
            return Some(i);
        }
        i += 1;
    }
    None
}

/// What the entries of a dictionary hold.
pub open spec fn entries_view(entries: Seq<SharedEntry>) -> Seq<SharedEntryView> {
    entries.map_values(|entry: SharedEntry| entry@)
}

/// Finds the first entry that is listed under the digest text.
fn find_entry(entries: &Vec<SharedEntry>, md5: &str) -> (found: Option<usize>)
    ensures
        match found {
            Some(position) => entry_position(entries_view(entries@), md5@, 0) == Some(
                position as int,
            ) && position < entries@.len(),
            None => entry_position(entries_view(entries@), md5@, 0) is None,
        },
{
    let ghost views = entries_view(entries@);
    let mut i: usize = 0;
    while i < entries.len()
        invariant
            i <= entries@.len(),
            views == entries_view(entries@),
            entry_position(views, md5@, 0) == entry_position(views, md5@, i as int),
        decreases entries@.len() - i,
    {
        if str_eq(entries[i].md5.as_str(), md5) {
            return Some(i);
        }
        i += 1;
    }
    None
}

/// Resolves a value of the document.
pub fn resolve_value(document: &ParsedDocument, value: &ParsedValue) -> (result: Result<
    Value,
    DecodeError,
>)
    ensures
        match resolved_value(document@, value@) {
            Ok(resolved) => result matches Ok(v) && v@ == resolved,
            Err(error) => result matches Err(e) && e@ == error,
        },
{
    match value {
        ParsedValue::Data(data) => Ok(Value::Data(data.duplicate())),
        ParsedValue::NoReference => Ok(Value::Ref(None)),
        ParsedValue::Reference(referent) => match find_referent(
            &document.items,
            referent.as_str(),
        ) {
            Some(position) => Ok(Value::Ref(Some(position + 1))),
            None => Err(DecodeError::UnresolvedReferent { referent: referent.clone() }),
        },
        ParsedValue::Shared(md5) => match find_entry(&document.shared_strings, md5.as_str()) {
            Some(position) => match decode_base64(
                document.shared_strings[position].data.as_str(),
            ) {
                Some(data) => {
                    let shared = SharedString::new(data);
                    assert(shared@ =~= SharedBlob { hash: md5_digest(data@), data: data@ });
                    Ok(Value::SharedString(shared))
                },
                None => Err(DecodeError::UnresolvedSharedString { md5: md5.clone() }),
            },
            None => Err(DecodeError::UnresolvedSharedString { md5: md5.clone() }),
        },
    }
}

/// Turns an error of a property plan into the decode error that stands for
/// it.
fn plan_failure(error: EncodeError) -> (failure: DecodeError)
    ensures
        failure@ == plan_error(error@),
{
    match error {
        EncodeError::UnknownProperty {
            class_name,
            property_name,
        } => DecodeError::UnknownProperty { class_name, property_name },
        EncodeError::UnsupportedPropertyConversion {
            class_name,
            property_name,
            expected_type,
            actual_type,
        } => DecodeError::UnsupportedPropertyConversion {
            class_name,
            property_name,
            expected_type,
            actual_type,
        },
    }
}

/// What becomes of a property: it is left out, kept under a name, replaced
/// by a converted value under a name, or refused.
enum Decision {
    Skip,
    Keep(String),
    Replace(String, DataValue),
    Fail(EncodeError),
}

/// Decodes a property of an item of the class `class_name`.
pub fn decode_property(
    document: &ParsedDocument,
    database: &ReflectionDatabase,
    behavior: DecodePropertyBehavior,
    class_name: &str,
    property: &ParsedProperty,
) -> (result: Result<Option<Property>, DecodeError>)
    requires
        behavior != DecodePropertyBehavior::NoReflection ==> database.wf(),
    ensures
        match decoded_property(document@, database, behavior, class_name@, property@) {
            Ok(Some(decoded)) => result matches Ok(Some(p)) && p@ == decoded,
            Ok(None) => result matches Ok(None),
            Err(error) => result matches Err(e) && e@ == error,
        },
{
    let value = match resolve_value(document, &property.value) {
        Ok(value) => value,
        Err(error) => {
            return Err(error);
        },
    };
    let resolved = Property { name: property.name.clone(), value };
    assert(resolved@ == PropertyView { name: property@.name, value: value@ });
    let decision = match plan_canonical_property(
        database,
        behavior.mirror(),
        class_name,
        &resolved,
    ) {
        PlannedProperty::Skip => Decision::Skip,
        PlannedProperty::Write { name, value } => match value {
            PlannedValue::Stored(_) => Decision::Keep(String::from_str(name)),
            PlannedValue::Converted(converted) => Decision::Replace(
                String::from_str(name),
                converted,
            ),
        },
        PlannedProperty::Fail(error) => Decision::Fail(error),
    };
    match decision {
        Decision::Skip => Ok(None),
        Decision::Keep(name) => Ok(Some(Property { name, value: resolved.value })),
        Decision::Replace(name, converted) => Ok(
            Some(Property { name, value: Value::Data(converted) }),
        ),
        Decision::Fail(error) => Err(plan_failure(error)),
    }
}

/// Decodes the name, class and properties of an item.
pub fn decode_instance(
    document: &ParsedDocument,
    database: &ReflectionDatabase,
    behavior: DecodePropertyBehavior,
    item: &ParsedItem,
) -> (result: Result<InstanceProperties, DecodeError>)
    requires
        behavior != DecodePropertyBehavior::NoReflection ==> database.wf(),
    ensures
        match decoded_instance(document@, database, behavior, item@) {
            Ok(decoded) => result matches Ok(properties) && properties@ == decoded,
            Err(error) => result matches Err(e) && e@ == error,
        },
{
    let mut properties: Vec<Property> = Vec::new();
    let ghost parsed_properties = item@.properties;
    assert(properties@.map_values(|p: Property| p@) =~= Seq::empty());
    let mut i: usize = 0;
    while i < item.properties.len()
        invariant
            i <= item.properties@.len(),
            parsed_properties == item@.properties,
            parsed_properties.len() == item.properties@.len(),
            behavior != DecodePropertyBehavior::NoReflection ==> database.wf(),
            decoded_properties(
                document@,
                database,
                behavior,
                item@.class_name,
                parsed_properties,
                0,
                Seq::empty(),
            ) == decoded_properties(
                document@,
                database,
                behavior,
                item@.class_name,
                parsed_properties,
                i as int,
                properties@.map_values(|p: Property| p@),
            ),
        decreases item.properties@.len() - i,
    {
        let ghost done = properties@.map_values(|p: Property| p@);
        assert(parsed_properties[i as int] == item.properties@[i as int]@);
        match decode_property(
            document,
            database,
            behavior,
            item.class_name.as_str(),
            &item.properties[i],
        ) {
            Err(error) => {
                return Err(error);
            },
            Ok(None) => {},
            Ok(Some(property)) => {
                properties.push(property);
                assert(properties@.map_values(|p: Property| p@) =~= done.push(property@));
            },
        }
        i += 1;
    }
    let decoded = InstanceProperties {
        name: item.name.clone(),
        class_name: item.class_name.clone(),
        properties,
    };
    assert(decoded@ =~= InstancePropertiesView {
        name: item@.name,
        class_name: item@.class_name,
        properties: properties@.map_values(|p: Property| p@),
    });
    Ok(decoded)
}

/// Lists the ids of the instances whose items are enclosed by no item.
pub fn outermost_ids(items: &Vec<ParsedItem>) -> (roots: Vec<NodeId>)
    ensures
        roots@ == root_ids(items_view(items@), 0, Seq::empty()),
{
    let ghost views = items_view(items@);
    let mut roots: Vec<NodeId> = Vec::new();
    let mut i: usize = 0;
    while i < items.len()
        invariant
            i <= items@.len(),
            views == items_view(items@),
            root_ids(views, 0, Seq::empty()) == root_ids(views, i as int, roots@),
        decreases items@.len() - i,
    {
        if items[i].parent.is_none() {
            roots.push(i + 1);
        }
        i += 1;
    }
    roots
}

/// Builds the tree that a parsed document stands for.
pub fn build_tree(
    document: &ParsedDocument,
    database: &ReflectionDatabase,
    behavior: DecodePropertyBehavior,
) -> (result: Result<Tree, DecodeError>)
    requires
        behavior != DecodePropertyBehavior::NoReflection ==> database.wf(),
    ensures
        match built(document@, database, behavior, 0, seq![root_instance()]) {
            Ok(tree) => result matches Ok(t) && t@ == tree,
            Err(error) => result matches Err(e) && e@ == error,
        },
{
    let root = InstanceProperties {
        name: String::from_str("DataModel"),
        class_name: String::from_str("DataModel"),
        properties: Vec::new(),
    };
    assert(root@ =~= root_instance().properties);
    let mut tree = Tree::new(root);
    let mut i: usize = 0;
    while i < document.items.len()
        invariant
            i <= document.items@.len(),
            document@.items.len() == document.items@.len(),
            tree.spec_len() == i + 1,
            behavior != DecodePropertyBehavior::NoReflection ==> database.wf(),
            built(document@, database, behavior, 0, seq![root_instance()]) == built(
                document@,
                database,
                behavior,
                i as int,
                tree@,
            ),
        decreases document.items@.len() - i,
    {
        let item = &document.items[i];
        assert(document@.items[i as int] == item@);
        let parent = match item.parent {
            Some(position) => {
                if position >= i {
                    return Err(DecodeError::Malformed { position: i });
                }
                position + 1
            },
            None => 0,
        };
        let properties = match decode_instance(document, database, behavior, item) {
            Ok(properties) => properties,
            Err(error) => {
                return Err(error);
            },
        };
        tree.insert_instance(properties, parent);
        i += 1;
    }
    Ok(tree)
}

/// Decodes the events of a document into a tree.
///
/// The database is consulted, and must be consistent, unless the options
/// turn reflection off.
pub fn decode_internal(
    events: &[WireEvent],
    database: &ReflectionDatabase,
    options: DecodeOptions,
) -> (result:
    Result<DecodedModel, DecodeError>)
    requires
        options@ != DecodePropertyBehavior::NoReflection ==> database.wf(),
    ensures
        match decoded_document(events_view(events@), database, options@) {
            Ok(model) => result matches Ok(m) && m@ == model,
            Err(error) => result matches Err(e) && e@ == error,
        },
{
    let document = match parse(events) {
        Ok(document) => document,
        Err(error) => {
            return Err(error);
        },
    };
    let tree = match build_tree(&document, database, options.behavior()) {
        Ok(tree) => tree,
        Err(error) => {
            return Err(error);
        },
    };
    let roots = outermost_ids(&document.items);
    let model = DecodedModel { tree, roots };
    assert(model@ =~= DecodedModelView {
        tree: tree@,
        roots: root_ids(document@.items, 0, Seq::empty()),
    });
    Ok(model)
}

} // verus!
