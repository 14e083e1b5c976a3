use rbx_dom_weak::{RbxValue, RbxValueType};
use rbx_xml::api_dump::Dump;
use rbx_xml::database::{ClassDescriptor, PropertyDescriptor, PropertyType, ReflectionDatabase};
use rbx_xml::deserializer::{
    build_tree, decode_internal, outermost_ids, resolve_value, DecodeOptions,
    DecodePropertyBehavior, DecodedModel,
};
use rbx_xml::error::DecodeError;
use rbx_xml::parse::{parse, ParsedDocument, ParsedItem, ParsedValue, Parser, Phase};
use rbx_xml::serializer::{encode_internal, EncodeOptions, EncodePropertyBehavior};
use rbx_xml::shared_string::SharedString;
use rbx_xml::tree::{InstanceProperties, Property, Tree};
use rbx_xml::value::{DataType, DataValue, Value, ValueKind};
use rbx_xml::wire::WireEvent;

fn start(name: &str, attributes: &[(&str, &str)]) -> WireEvent {
    WireEvent::StartElement {
        name: name.to_owned(),
        attributes: attributes.iter().map(|(k, v)| ((*k).to_owned(), (*v).to_owned())).collect(),
    }
}

fn chars(text: &str) -> WireEvent {
    WireEvent::Characters(text.to_owned())
}

fn end() -> WireEvent {
    WireEvent::EndElement
}

fn number(value: i32) -> Value {
    Value::Data(DataValue::new(RbxValue::Int32 { value }).unwrap())
}

fn named(name: &str, value: Value) -> Property {
    Property { name: name.to_owned(), value }
}

fn node(class_name: &str, name: &str, properties: Vec<Property>) -> InstanceProperties {
    InstanceProperties { name: name.to_owned(), class_name: class_name.to_owned(), properties }
}

fn no_database() -> ReflectionDatabase {
    ReflectionDatabase {
        dump: Dump { classes: Vec::new(), enums: Vec::new() },
        studio_version: [0, 0, 0, 0],
        classes: Vec::new(),
    }
}

fn described(
    name: &str,
    value_type: RbxValueType,
    is_canonical: bool,
    canonical_name: Option<&str>,
    serialized_name: Option<&str>,
) -> PropertyDescriptor {
    PropertyDescriptor {
        name: name.to_owned(),
        value_type: PropertyType::Data(DataType::new(value_type).unwrap()),
        is_canonical,
        canonical_name: canonical_name.map(|s| s.to_owned()),
        serialized_name: serialized_name.map(|s| s.to_owned()),
    }
}

fn part_database() -> ReflectionDatabase {
    ReflectionDatabase {
        dump: Dump { classes: Vec::new(), enums: Vec::new() },
        studio_version: [0, 0, 0, 0],
        classes: vec![
            ClassDescriptor {
                name: "Instance".to_owned(),
                superclass: None,
                properties: vec![
                    described("Archivable", RbxValueType::Bool, true, None, None),
                    described("DataCost", RbxValueType::Int32, false, None, None),
                ],
            },
            ClassDescriptor {
                name: "Part".to_owned(),
                superclass: Some("Instance".to_owned()),
                properties: vec![
                    described("Mass", RbxValueType::Int32, true, None, Some("mass_xml")),
                    described("mass_xml", RbxValueType::Int64, false, Some("Mass"), None),
                    described("Target", RbxValueType::Ref, true, None, None),
                    described("Mesh", RbxValueType::SharedString, true, None, None),
                    PropertyDescriptor {
                        name: "Future".to_owned(),
                        value_type: PropertyType::UnimplementedType("QDir".to_owned()),
                        is_canonical: true,
                        canonical_name: None,
                        serialized_name: None,
                    },
                ],
            },
        ],
    }
}

fn decode(
    events: &[WireEvent],
    database: &ReflectionDatabase,
    behavior: DecodePropertyBehavior,
) -> Result<DecodedModel, DecodeError> {
    assert!(database.is_consistent());
    decode_internal(events, database, DecodeOptions::new().property_behavior(behavior))
}

fn show_value(value: &Value) -> String {
    match value {
        Value::Ref(target) => format!("Ref({:?})", target),
        Value::SharedString(shared) => format!("Shared({:?})", shared.data()),
        Value::Data(data) => format!("{:?}", data.payload()),
    }
}

fn show(tree: &Tree) -> Vec<String> {
    let mut lines = Vec::new();
    for id in 0..tree.len() {
        let instance = tree.get_instance(id).unwrap();
        let properties: Vec<String> = instance
            .properties()
            .properties
            .iter()
            .map(|p| format!("{}={}", p.name, show_value(&p.value)))
            .collect();
        lines.push(format!(
            "{} {}:{} parent={:?} children={:?} [{}]",
            id,
            instance.properties().class_name,
            instance.properties().name,
            instance.get_parent_id(),
            instance.get_children_ids(),
            properties.join(", ")
        ));
    }
    lines
}

fn lines(expected: &[&str]) -> Vec<String> {
    expected.iter().map(|line| (*line).to_owned()).collect()
}

#[test]
fn empty_document_gives_a_tree_with_its_root_only() {
    let model = decode(
        &[start("roblox", &[("version", "4")]), end()],
        &no_database(),
        DecodePropertyBehavior::NoReflection,
    )
    .unwrap();
    assert_eq!(show(&model.tree), lines(&["0 DataModel:DataModel parent=None children=[] []"]));
    assert_eq!(model.roots, Vec::<usize>::new());
}

fn small_document() -> Vec<WireEvent> {
    vec![
        start("roblox", &[("version", "4")]),
        start("Item", &[("class", "Folder"), ("referent", "RBX1")]),
        start("Properties", &[]),
        start("string", &[("name", "Name")]),
        chars("Root"),
        end(),
        start("Ref", &[("name", "Link")]),
        chars("RBX2"),
        end(),
        start("Ref", &[("name", "None")]),
        chars("null"),
        end(),
        end(),
        start("Item", &[("class", "Part"), ("referent", "RBX2")]),
        start("Properties", &[]),
        start("string", &[("name", "Name")]),
        end(),
        start("int", &[("name", "Count")]),
        WireEvent::Payload(RbxValue::Int32 { value: 3 }),
        end(),
        start("SharedString", &[("name", "Mesh")]),
        chars("XUFAKrxLKna5cZ2REBfFkg=="),
        end(),
        end(),
        end(),
        end(),
        start("Item", &[("class", "Folder"), ("referent", "RBX3")]),
        start("Properties", &[]),
        end(),
        end(),
        start("SharedStrings", &[]),
        start("SharedString", &[("md5", "XUFAKrxLKna5cZ2REBfFkg==")]),
        chars("aGVsbG8="),
        end(),
        end(),
        end(),
    ]
}

#[test]
fn items_become_instances_in_document_order() {
    let model =
        decode(&small_document(), &no_database(), DecodePropertyBehavior::NoReflection).unwrap();
    assert_eq!(
        show(&model.tree),
        lines(&[
            "0 DataModel:DataModel parent=None children=[1, 3] []",
            "1 Folder:Root parent=Some(0) children=[2] [Link=Ref(Some(2)), None=Ref(None)]",
            "2 Part: parent=Some(1) children=[] [Count=Int32 { value: 3 }, \
             Mesh=Shared([104, 101, 108, 108, 111])]",
            "3 Folder: parent=Some(0) children=[] []",
        ])
    );
    assert_eq!(model.roots, vec![1, 3]);
}

#[test]
fn unknown_properties_are_dropped_read_or_refused() {
    let database = part_database();
    let model = decode(&small_document(), &database, DecodePropertyBehavior::IgnoreUnknown).unwrap();
    assert_eq!(
        show(&model.tree),
        lines(&[
            "0 DataModel:DataModel parent=None children=[1, 3] []",
            "1 Folder:Root parent=Some(0) children=[2] []",
            "2 Part: parent=Some(1) children=[] [Mesh=Shared([104, 101, 108, 108, 111])]",
            "3 Folder: parent=Some(0) children=[] []",
        ])
    );
    let model = decode(&small_document(), &database, DecodePropertyBehavior::ReadUnknown).unwrap();
    assert_eq!(show(&model.tree)[1], "1 Folder:Root parent=Some(0) children=[2] [Link=Ref(Some(2)), None=Ref(None)]");
    let refused = decode(&small_document(), &database, DecodePropertyBehavior::ErrorOnUnknown);
    assert_eq!(
        refused.err(),
        Some(DecodeError::UnknownProperty {
            class_name: "Folder".to_owned(),
            property_name: "Link".to_owned(),
        })
    );
}

fn brick(properties: Vec<WireEvent>) -> Vec<WireEvent> {
    let mut events = vec![
        start("roblox", &[("version", "4")]),
        start("Item", &[("class", "Part"), ("referent", "0")]),
        start("Properties", &[]),
    ];
    events.extend(properties);
    events.extend(vec![end(), end(), end()]);
    events
}

#[test]
fn serialized_property_is_converted_back_under_its_canonical_name() {
    let events = brick(vec![
        start("int64", &[("name", "mass_xml")]),
        WireEvent::Payload(RbxValue::Int64 { value: 7 }),
        end(),
    ]);
    for behavior in [
        DecodePropertyBehavior::IgnoreUnknown,
        DecodePropertyBehavior::ReadUnknown,
        DecodePropertyBehavior::ErrorOnUnknown,
    ] {
        let model = decode(&events, &part_database(), behavior).unwrap();
        assert_eq!(
            show(&model.tree)[1],
            "1 Part: parent=Some(0) children=[] [Mass=Int32 { value: 7 }]"
        );
    }
    let model = decode(&events, &part_database(), DecodePropertyBehavior::NoReflection).unwrap();
    assert_eq!(
        show(&model.tree)[1],
        "1 Part: parent=Some(0) children=[] [mass_xml=Int64 { value: 7 }]"
    );
}

#[test]
fn converting_property_round_trips() {
    let tree = Tree::new(node("Part", "Brick", vec![named("Mass", number(7))]));
    let database = part_database();
    let events = encode_internal(&tree, &database, &[0], EncodeOptions::new()).unwrap();
    assert_eq!(
        events[6..9].to_vec(),
        vec![
            start("int64", &[("name", "mass_xml")]),
            WireEvent::Payload(RbxValue::Int64 { value: 7 }),
            end(),
        ]
    );
    let model = decode(&events, &database, DecodePropertyBehavior::IgnoreUnknown).unwrap();
    assert_eq!(
        show(&model.tree)[1],
        "1 Part:Brick parent=Some(0) children=[] [Mass=Int32 { value: 7 }]"
    );
}

#[test]
fn inconvertible_value_is_refused() {
    let events = brick(vec![
        start("bool", &[("name", "Mass")]),
        WireEvent::Payload(RbxValue::Bool { value: true }),
        end(),
    ]);
    assert_eq!(
        decode(&events, &part_database(), DecodePropertyBehavior::IgnoreUnknown).err(),
        Some(DecodeError::UnsupportedPropertyConversion {
            class_name: "Part".to_owned(),
            property_name: "Mass".to_owned(),
            expected_type: ValueKind::Int32,
            actual_type: ValueKind::Bool,
        })
    );
}

#[test]
fn property_without_canonical_form_is_dropped() {
    let events = brick(vec![
        start("int", &[("name", "DataCost")]),
        WireEvent::Payload(RbxValue::Int32 { value: 1 }),
        end(),
    ]);
    for behavior in [
        DecodePropertyBehavior::IgnoreUnknown,
        DecodePropertyBehavior::ReadUnknown,
        DecodePropertyBehavior::ErrorOnUnknown,
    ] {
        let model = decode(&events, &part_database(), behavior).unwrap();
        assert_eq!(show(&model.tree)[1], "1 Part: parent=Some(0) children=[] []");
    }
}

#[test]
fn dangling_reference_is_an_error() {
    let events = brick(vec![start("Ref", &[("name", "Target")]), chars("RBX9"), end()]);
    for behavior in [
        DecodePropertyBehavior::IgnoreUnknown,
        DecodePropertyBehavior::ReadUnknown,
        DecodePropertyBehavior::ErrorOnUnknown,
        DecodePropertyBehavior::NoReflection,
    ] {
        assert_eq!(
            decode(&events, &part_database(), behavior).err(),
            Some(DecodeError::UnresolvedReferent { referent: "RBX9".to_owned() })
        );
    }
}

#[test]
fn reference_outside_the_encoded_roots_does_not_decode() {
    let mut tree = Tree::new(node("Folder", "Root", vec![]));
    let a = tree.insert_instance(node("Folder", "A", vec![named("Link", Value::Ref(Some(2)))]), 0);
    tree.insert_instance(node("Folder", "B", vec![]), 0);
    let options = EncodeOptions::new().property_behavior(EncodePropertyBehavior::NoReflection);
    let events = encode_internal(&tree, &no_database(), &[a], options.clone()).unwrap();
    assert_eq!(
        decode(&events, &no_database(), DecodePropertyBehavior::NoReflection).err(),
        Some(DecodeError::UnresolvedReferent { referent: "1".to_owned() })
    );
    let events = encode_internal(&tree, &no_database(), &[0], options).unwrap();
    let model = decode(&events, &no_database(), DecodePropertyBehavior::NoReflection).unwrap();
    assert_eq!(
        show(&model.tree),
        lines(&[
            "0 DataModel:DataModel parent=None children=[1] []",
            "1 Folder:Root parent=Some(0) children=[2, 3] []",
            "2 Folder:A parent=Some(1) children=[] [Link=Ref(Some(3))]",
            "3 Folder:B parent=Some(1) children=[] []",
        ])
    );
}

#[test]
fn unlisted_shared_string_is_an_error() {
    let events = brick(vec![start("SharedString", &[("name", "Mesh")]), chars("abcd"), end()]);
    assert_eq!(
        decode(&events, &part_database(), DecodePropertyBehavior::IgnoreUnknown).err(),
        Some(DecodeError::UnresolvedSharedString { md5: "abcd".to_owned() })
    );
}

#[test]
fn shared_string_that_is_no_base64_is_an_error() {
    let mut events = brick(vec![start("SharedString", &[("name", "Mesh")]), chars("k"), end()]);
    events.pop();
    events.extend(vec![
        start("SharedStrings", &[]),
        start("SharedString", &[("md5", "k")]),
        chars("not base64!"),
        end(),
        end(),
        end(),
    ]);
    assert_eq!(
        decode(&events, &part_database(), DecodePropertyBehavior::IgnoreUnknown).err(),
        Some(DecodeError::UnresolvedSharedString { md5: "k".to_owned() })
    );
}

#[test]
fn unregistered_tag_is_an_error() {
    let events = brick(vec![
        start("Quaternion", &[("name", "Spin")]),
        WireEvent::Payload(RbxValue::Int32 { value: 1 }),
        end(),
    ]);
    for behavior in [DecodePropertyBehavior::IgnoreUnknown, DecodePropertyBehavior::NoReflection] {
        assert_eq!(
            decode(&events, &part_database(), behavior).err(),
            Some(DecodeError::UnknownTag { tag: "Quaternion".to_owned() })
        );
    }
}

#[test]
fn content_that_does_not_fit_the_tag_is_malformed() {
    let events = brick(vec![
        start("bool", &[("name", "Flag")]),
        WireEvent::Payload(RbxValue::Int32 { value: 1 }),
        end(),
    ]);
    assert_eq!(
        decode(&events, &no_database(), DecodePropertyBehavior::NoReflection).err(),
        Some(DecodeError::Malformed { position: 5 })
    );
    let events = brick(vec![start("bool", &[("name", "Flag")]), chars("true"), end()]);
    assert_eq!(
        decode(&events, &no_database(), DecodePropertyBehavior::NoReflection).err(),
        Some(DecodeError::Malformed { position: 5 })
    );
    let events = brick(vec![start("Ref", &[("name", "Target")]), end()]);
    assert_eq!(
        decode(&events, &no_database(), DecodePropertyBehavior::NoReflection).err(),
        Some(DecodeError::Malformed { position: 4 })
    );
}

fn malformed_at(events: &[WireEvent]) -> Option<usize> {
    match parse(events) {
        Err(DecodeError::Malformed { position }) => Some(position),
        _ => None,
    }
}

#[test]
fn documents_of_the_wrong_shape_are_malformed() {
    assert_eq!(malformed_at(&[]), Some(0));
    assert_eq!(malformed_at(&[end()]), Some(0));
    assert_eq!(malformed_at(&[start("model", &[])]), Some(0));
    assert_eq!(malformed_at(&[start("roblox", &[])]), Some(1));
    assert_eq!(malformed_at(&[start("roblox", &[]), end(), end()]), Some(2));
    assert_eq!(malformed_at(&[start("roblox", &[]), chars("text")]), Some(1));
    assert_eq!(malformed_at(&[start("roblox", &[]), start("Item", &[("class", "Part")])]), Some(1));
    assert_eq!(
        malformed_at(&[start("roblox", &[]), start("Item", &[("referent", "1")])]),
        Some(1)
    );
    let item = start("Item", &[("class", "Part"), ("referent", "1")]);
    assert_eq!(malformed_at(&[start("roblox", &[]), item, end()]), Some(2));
    let item = start("Item", &[("class", "Part"), ("referent", "1")]);
    assert_eq!(
        malformed_at(&[start("roblox", &[]), item, start("Properties", &[]), start("int", &[])]),
        Some(3)
    );
    let item = start("Item", &[("class", "Part"), ("referent", "1")]);
    assert_eq!(
        malformed_at(&[
            start("roblox", &[]),
            item,
            start("Properties", &[]),
            end(),
            start("SharedStrings", &[]),
        ]),
        Some(4)
    );
    assert_eq!(
        malformed_at(&[start("roblox", &[]), start("SharedStrings", &[]), start("Item", &[])]),
        Some(2)
    );
    assert_eq!(
        malformed_at(&[
            start("roblox", &[]),
            start("SharedStrings", &[]),
            start("SharedString", &[]),
        ]),
        Some(2)
    );
    let two = brick(vec![start("string", &[("name", "Name")]), chars("a"), chars("b"), end()]);
    assert_eq!(malformed_at(&two), Some(5));
    let nested = brick(vec![start("string", &[("name", "Name")]), start("b", &[]), end(), end()]);
    assert_eq!(malformed_at(&nested), Some(4));
}

#[test]
fn parser_takes_one_event_at_a_time() {
    let parser = Parser::new();
    assert!(matches!(parser.phase, Phase::Start));
    let parser = parser.step(&start("roblox", &[]), 0).unwrap();
    assert!(matches!(parser.phase, Phase::Items));
    let parser =
        parser.step(&start("Item", &[("class", "Part"), ("referent", "7")]), 1).unwrap();
    assert!(matches!(parser.phase, Phase::ItemOpened));
    assert_eq!(parser.open, vec![0]);
    let parser = parser.step(&start("Properties", &[]), 2).unwrap();
    let parser = parser.step(&start("string", &[("name", "Name")]), 3).unwrap();
    let parser = parser.step(&chars("Brick"), 4).unwrap();
    let parser = parser.step(&end(), 5).unwrap();
    assert!(matches!(parser.phase, Phase::Properties));
    assert_eq!(parser.items[0].name, "Brick");
    assert_eq!(parser.items[0].class_name, "Part");
    assert_eq!(parser.items[0].referent, "7");
    let parser = parser.step(&end(), 6).unwrap();
    let parser =
        parser.step(&start("Item", &[("class", "Decal"), ("referent", "8")]), 7).unwrap();
    assert_eq!(parser.open, vec![0, 1]);
    assert_eq!(parser.items[1].parent, Some(0));
    assert_eq!(
        parser.step(&end(), 8).err(),
        Some(DecodeError::Malformed { position: 8 })
    );
}

#[test]
fn name_given_as_a_string_value_is_an_ordinary_property() {
    let events = brick(vec![
        start("string", &[("name", "Name")]),
        WireEvent::Payload(RbxValue::String { value: "stored".to_owned() }),
        end(),
        start("string", &[("name", "Name")]),
        chars("Brick"),
        end(),
    ]);
    let model = decode(&events, &no_database(), DecodePropertyBehavior::NoReflection).unwrap();
    assert_eq!(
        show(&model.tree)[1],
        "1 Part:Brick parent=Some(0) children=[] [Name=String { value: \"stored\" }]"
    );
}

#[test]
fn first_item_with_a_referent_is_the_target() {
    let events = vec![
        start("roblox", &[]),
        start("Item", &[("class", "A"), ("referent", "same")]),
        start("Properties", &[]),
        end(),
        end(),
        start("Item", &[("class", "B"), ("referent", "same")]),
        start("Properties", &[]),
        start("Ref", &[("name", "Link")]),
        chars("same"),
        end(),
        end(),
        end(),
        end(),
    ];
    let model = decode(&events, &no_database(), DecodePropertyBehavior::NoReflection).unwrap();
    assert_eq!(show(&model.tree)[2], "2 B: parent=Some(0) children=[] [Link=Ref(Some(1))]");
}

#[test]
fn parsed_document_with_a_misplaced_item_does_not_build() {
    let item = |parent: Option<usize>| ParsedItem {
        class_name: "Part".to_owned(),
        referent: "r".to_owned(),
        name: "n".to_owned(),
        properties: vec![],
        parent,
    };
    let document = ParsedDocument { items: vec![item(None), item(Some(1))], shared_strings: vec![] };
    assert_eq!(
        build_tree(&document, &no_database(), DecodePropertyBehavior::NoReflection).err(),
        Some(DecodeError::Malformed { position: 1 })
    );
    let document = ParsedDocument {
        items: vec![item(None), item(Some(0)), item(None), item(Some(1))],
        shared_strings: vec![],
    };
    let tree = build_tree(&document, &no_database(), DecodePropertyBehavior::NoReflection).unwrap();
    assert_eq!(tree.len(), 5);
    assert_eq!(tree.get_instance(4).unwrap().get_parent_id(), Some(2));
    assert_eq!(outermost_ids(&document.items), vec![1, 3]);
    assert!(matches!(
        resolve_value(&document, &ParsedValue::Reference("r".to_owned())),
        Ok(Value::Ref(Some(1)))
    ));
    assert!(matches!(resolve_value(&document, &ParsedValue::NoReference), Ok(Value::Ref(None))));
}

fn sample_tree() -> Tree {
    let mut tree = Tree::new(node(
        "Folder",
        "Root",
        vec![named("Zeta", Value::Ref(Some(3))), named("Alpha", number(1))],
    ));
    let a = tree.insert_instance(
        node(
            "Part",
            "A",
            vec![
                named("Mesh", Value::SharedString(SharedString::new(b"hello".to_vec()))),
                named("Self", Value::Ref(Some(1))),
            ],
        ),
        0,
    );
    tree.insert_instance(
        node(
            "Part",
            "B",
            vec![named("Mesh", Value::SharedString(SharedString::new(b"world".to_vec())))],
        ),
        0,
    );
    tree.insert_instance(
        node(
            "Decal",
            "A1",
            vec![
                named("Up", Value::Ref(Some(0))),
                named("Nothing", Value::Ref(None)),
                named(
                    "Color",
                    Value::Data(DataValue::new(RbxValue::Color3 { value: [0.5, 0.25, 1.0] }).unwrap()),
                ),
            ],
        ),
        a,
    );
    tree
}

#[test]
fn tree_round_trips_without_reflection() {
    let tree = sample_tree();
    let options = EncodeOptions::new().property_behavior(EncodePropertyBehavior::NoReflection);
    let events = encode_internal(&tree, &no_database(), &[0], options.clone()).unwrap();
    let model = decode(&events, &no_database(), DecodePropertyBehavior::NoReflection).unwrap();
    assert_eq!(model.roots, vec![1]);
    assert_eq!(
        show(&model.tree),
        lines(&[
            "0 DataModel:DataModel parent=None children=[1] []",
            "1 Folder:Root parent=Some(0) children=[2, 4] [Alpha=Int32 { value: 1 }, \
             Zeta=Ref(Some(3))]",
            "2 Part:A parent=Some(1) children=[3] [Mesh=Shared([104, 101, 108, 108, 111]), \
             Self=Ref(Some(2))]",
            "3 Decal:A1 parent=Some(2) children=[] [Color=Color3 { value: [0.5, 0.25, 1.0] }, \
             Nothing=Ref(None), Up=Ref(Some(1))]",
            "4 Part:B parent=Some(1) children=[] [Mesh=Shared([119, 111, 114, 108, 100])]",
        ])
    );
    let again = encode_internal(&model.tree, &no_database(), &model.roots, options).unwrap();
    assert_eq!(again, events);
}

#[test]
fn decode_options_default_to_ignore_unknown() {
    assert_eq!(DecodeOptions::new().behavior(), DecodePropertyBehavior::IgnoreUnknown);
    assert_eq!(DecodeOptions::default().behavior(), DecodePropertyBehavior::IgnoreUnknown);
    assert!(DecodeOptions::new().use_reflection());
    let options = DecodeOptions::new().property_behavior(DecodePropertyBehavior::NoReflection);
    assert!(!options.use_reflection());
    assert_eq!(options.behavior().mirror(), EncodePropertyBehavior::NoReflection);
    assert_eq!(DecodePropertyBehavior::ReadUnknown.mirror(), EncodePropertyBehavior::WriteUnknown);
    assert_eq!(
        DecodePropertyBehavior::ErrorOnUnknown.mirror(),
        EncodePropertyBehavior::ErrorOnUnknown
    );
    assert_eq!(
        DecodePropertyBehavior::IgnoreUnknown.mirror(),
        EncodePropertyBehavior::IgnoreUnknown
    );
}
