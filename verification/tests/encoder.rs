use rbx_dom_weak::{RbxValue, RbxValueType};
use rbx_xml::api_dump::Dump;
use rbx_xml::database::{ClassDescriptor, PropertyDescriptor, PropertyType, ReflectionDatabase};
use rbx_xml::error::EncodeError;
use rbx_xml::serializer::{encode_internal, serialize_instance, serialize_shared_strings, EncodeOptions, EncodePropertyBehavior};
use rbx_xml::state::{EmitState};
use rbx_xml::shared_string::SharedString;
use rbx_xml::tree::{InstanceProperties, Property, Tree};
use rbx_xml::value::{DataType, DataValue, Value, ValueKind};
use rbx_xml::wire::WireEvent;

fn plain(value: RbxValue) -> Value {
    Value::Data(DataValue::new(value).unwrap())
}

fn int32(value: i32) -> Value {
    plain(RbxValue::Int32 { value })
}

fn text(value: &str) -> Value {
    plain(RbxValue::String { value: value.to_owned() })
}

fn property(name: &str, value: Value) -> Property {
    Property { name: name.to_owned(), value }
}

fn instance(class_name: &str, name: &str, properties: Vec<Property>) -> InstanceProperties {
    InstanceProperties { name: name.to_owned(), class_name: class_name.to_owned(), properties }
}

fn typed(value_type: RbxValueType) -> PropertyType {
    PropertyType::Data(DataType::new(value_type).unwrap())
}

fn descriptor(
    name: &str,
    value_type: PropertyType,
    is_canonical: bool,
    canonical_name: Option<&str>,
    serialized_name: Option<&str>,
) -> PropertyDescriptor {
    PropertyDescriptor {
        name: name.to_owned(),
        value_type,
        is_canonical,
        canonical_name: canonical_name.map(|s| s.to_owned()),
        serialized_name: serialized_name.map(|s| s.to_owned()),
    }
}

fn reflection(classes: Vec<ClassDescriptor>) -> ReflectionDatabase {
    ReflectionDatabase {
        dump: Dump { classes: Vec::new(), enums: Vec::new() },
        studio_version: [0, 0, 0, 0],
        classes,
    }
}

fn model_database() -> ReflectionDatabase {
    reflection(vec![
        ClassDescriptor {
            name: "Instance".to_owned(),
            superclass: None,
            properties: vec![
                descriptor("Archivable", typed(RbxValueType::Bool), true, None, None),
                descriptor("DataCost", typed(RbxValueType::Int32), false, None, None),
            ],
        },
        ClassDescriptor {
            name: "Part".to_owned(),
            superclass: Some("Instance".to_owned()),
            properties: vec![
                descriptor("Mass", typed(RbxValueType::Int64), true, None, Some("mass_xml")),
                descriptor("mass_xml", typed(RbxValueType::Int64), false, Some("Mass"), None),
                descriptor(
                    "Shape",
                    PropertyType::Enum("PartType".to_owned()),
                    true,
                    None,
                    None,
                ),
                descriptor("Target", typed(RbxValueType::Ref), true, None, None),
                descriptor("Mesh", typed(RbxValueType::SharedString), true, None, None),
                descriptor(
                    "Future",
                    PropertyType::UnimplementedType("QDir".to_owned()),
                    true,
                    None,
                    Some("future_xml"),
                ),
                descriptor(
                    "future_xml",
                    PropertyType::UnimplementedType("QDir".to_owned()),
                    false,
                    Some("Future"),
                    None,
                ),
            ],
        },
    ])
}

fn options(behavior: EncodePropertyBehavior) -> EncodeOptions {
    EncodeOptions::new().property_behavior(behavior)
}

fn render(events: &[WireEvent]) -> Vec<String> {
    let mut lines = Vec::new();
    for event in events {
        lines.push(match event {
            WireEvent::StartElement { name, attributes } => {
                let mut line = format!("<{}", name);
                for (key, value) in attributes {
                    line.push_str(&format!(" {}={}", key, value));
                }
                line.push('>');
                line
            }
            WireEvent::Characters(text) => format!("'{}'", text),
            WireEvent::Payload(value) => format!("{:?}", value),
            WireEvent::EndElement => "</>".to_owned(),
        });
    }
    lines
}

fn encode(
    tree: &Tree,
    database: &ReflectionDatabase,
    ids: &[usize],
    behavior: EncodePropertyBehavior,
) -> Result<Vec<String>, EncodeError> {
    for id in ids {
        assert!(*id < tree.len());
    }
    assert!(database.is_consistent());
    encode_internal(tree, database, ids, options(behavior)).map(|events| render(&events))
}

fn lines(expected: &[&str]) -> Vec<String> {
    expected.iter().map(|line| (*line).to_owned()).collect()
}

#[test]
fn lone_instance_without_properties() {
    let tree = Tree::new(instance("Folder", "Root", vec![]));
    let output = encode(&tree, &reflection(vec![]), &[0], EncodePropertyBehavior::NoReflection);
    assert_eq!(
        output,
        Ok(lines(&[
            "<roblox version=4>",
            "<Item class=Folder referent=0>",
            "<Properties>",
            "<string name=Name>",
            "'Root'",
            "</>",
            "</>",
            "</>",
            "</>",
        ]))
    );
}

#[test]
fn no_roots_give_an_empty_document() {
    let tree = Tree::new(instance("Folder", "Root", vec![]));
    let output = encode(&tree, &model_database(), &[], EncodePropertyBehavior::IgnoreUnknown);
    assert_eq!(output, Ok(lines(&["<roblox version=4>", "</>"])));
}

fn mystery_tree() -> Tree {
    Tree::new(instance("Part", "Brick", vec![property("Mystery", int32(5))]))
}

fn brick_without_properties() -> Vec<String> {
    lines(&[
        "<roblox version=4>",
        "<Item class=Part referent=0>",
        "<Properties>",
        "<string name=Name>",
        "'Brick'",
        "</>",
        "</>",
        "</>",
        "</>",
    ])
}

fn brick_with(tag: &str, name: &str, payload: &str) -> Vec<String> {
    let opened = format!("<{} name={}>", tag, name);
    lines(&[
        "<roblox version=4>",
        "<Item class=Part referent=0>",
        "<Properties>",
        "<string name=Name>",
        "'Brick'",
        "</>",
        &opened,
        payload,
        "</>",
        "</>",
        "</>",
        "</>",
    ])
}

#[test]
fn unknown_property_is_omitted_with_ignore_unknown() {
    let output =
        encode(&mystery_tree(), &model_database(), &[0], EncodePropertyBehavior::IgnoreUnknown);
    assert_eq!(output, Ok(brick_without_properties()));
}

#[test]
fn unknown_property_is_written_verbatim_with_write_unknown() {
    let output =
        encode(&mystery_tree(), &model_database(), &[0], EncodePropertyBehavior::WriteUnknown);
    assert_eq!(output, Ok(brick_with("int", "Mystery", "Int32 { value: 5 }")));
}

#[test]
fn unknown_property_fails_with_error_on_unknown() {
    let output =
        encode(&mystery_tree(), &model_database(), &[0], EncodePropertyBehavior::ErrorOnUnknown);
    assert_eq!(
        output,
        Err(EncodeError::UnknownProperty {
            class_name: "Part".to_owned(),
            property_name: "Mystery".to_owned(),
        })
    );
}

#[test]
fn unknown_property_is_written_verbatim_with_no_reflection() {
    let output =
        encode(&mystery_tree(), &model_database(), &[0], EncodePropertyBehavior::NoReflection);
    assert_eq!(output, Ok(brick_with("int", "Mystery", "Int32 { value: 5 }")));
}

#[test]
fn known_property_is_written_verbatim_with_no_reflection() {
    let tree = Tree::new(instance("Part", "Brick", vec![property("Mass", int32(7))]));
    let output = encode(&tree, &model_database(), &[0], EncodePropertyBehavior::NoReflection);
    assert_eq!(output, Ok(brick_with("int", "Mass", "Int32 { value: 7 }")));
}

#[test]
fn no_reflection_does_not_need_a_consistent_database() {
    let broken = reflection(vec![ClassDescriptor {
        name: "Part".to_owned(),
        superclass: Some("Part".to_owned()),
        properties: vec![],
    }]);
    assert!(!broken.is_consistent());
    let tree = mystery_tree();
    let events =
        encode_internal(&tree, &broken, &[0], options(EncodePropertyBehavior::NoReflection))
            .unwrap();
    assert_eq!(render(&events), brick_with("int", "Mystery", "Int32 { value: 5 }"));
}

#[test]
fn property_is_converted_and_written_under_its_serialized_name() {
    let tree = Tree::new(instance("Part", "Brick", vec![property("Mass", int32(7))]));
    for behavior in [
        EncodePropertyBehavior::IgnoreUnknown,
        EncodePropertyBehavior::WriteUnknown,
        EncodePropertyBehavior::ErrorOnUnknown,
    ] {
        let output = encode(&tree, &model_database(), &[0], behavior);
        assert_eq!(output, Ok(brick_with("int64", "mass_xml", "Int64 { value: 7 }")));
    }
}

#[test]
fn property_given_by_its_serialized_name_is_written_under_it() {
    let tree = Tree::new(instance(
        "Part",
        "Brick",
        vec![property("mass_xml", plain(RbxValue::Int64 { value: 9 }))],
    ));
    let output = encode(&tree, &model_database(), &[0], EncodePropertyBehavior::ErrorOnUnknown);
    assert_eq!(output, Ok(brick_with("int64", "mass_xml", "Int64 { value: 9 }")));
}

#[test]
fn inherited_property_of_matching_type_is_written_as_it_is() {
    let tree = Tree::new(instance(
        "Part",
        "Brick",
        vec![property("Archivable", plain(RbxValue::Bool { value: true }))],
    ));
    let output = encode(&tree, &model_database(), &[0], EncodePropertyBehavior::ErrorOnUnknown);
    assert_eq!(output, Ok(brick_with("bool", "Archivable", "Bool { value: true }")));
}

#[test]
fn inconvertible_value_fails_with_unsupported_conversion() {
    let tree = Tree::new(instance("Part", "Brick", vec![property("Mass", text("heavy"))]));
    for behavior in [
        EncodePropertyBehavior::IgnoreUnknown,
        EncodePropertyBehavior::WriteUnknown,
        EncodePropertyBehavior::ErrorOnUnknown,
    ] {
        let output = encode(&tree, &model_database(), &[0], behavior);
        assert_eq!(
            output,
            Err(EncodeError::UnsupportedPropertyConversion {
                class_name: "Part".to_owned(),
                property_name: "Mass".to_owned(),
                expected_type: ValueKind::Int64,
                actual_type: ValueKind::String,
            })
        );
    }
}

#[test]
fn unrepresentable_property_is_always_skipped() {
    let tree = Tree::new(instance("Part", "Brick", vec![property("DataCost", int32(3))]));
    for behavior in [
        EncodePropertyBehavior::IgnoreUnknown,
        EncodePropertyBehavior::WriteUnknown,
        EncodePropertyBehavior::ErrorOnUnknown,
    ] {
        let output = encode(&tree, &model_database(), &[0], behavior);
        assert_eq!(output, Ok(brick_without_properties()));
    }
}

#[test]
fn unimplemented_type_is_skipped_with_ignore_unknown() {
    let tree = Tree::new(instance("Part", "Brick", vec![property("Future", int32(1))]));
    let output = encode(&tree, &model_database(), &[0], EncodePropertyBehavior::IgnoreUnknown);
    assert_eq!(output, Ok(brick_without_properties()));
}

#[test]
fn unimplemented_type_is_written_under_serialized_name_with_write_unknown() {
    let tree = Tree::new(instance("Part", "Brick", vec![property("Future", int32(1))]));
    let output = encode(&tree, &model_database(), &[0], EncodePropertyBehavior::WriteUnknown);
    assert_eq!(output, Ok(brick_with("int", "future_xml", "Int32 { value: 1 }")));
}

#[test]
fn unimplemented_type_fails_with_error_on_unknown() {
    let tree = Tree::new(instance("Part", "Brick", vec![property("Future", int32(1))]));
    let output = encode(&tree, &model_database(), &[0], EncodePropertyBehavior::ErrorOnUnknown);
    assert_eq!(
        output,
        Err(EncodeError::UnknownProperty {
            class_name: "Part".to_owned(),
            property_name: "Future".to_owned(),
        })
    );
}

#[test]
fn enum_property_takes_enum_values_only() {
    let tree = Tree::new(instance(
        "Part",
        "Brick",
        vec![property("Shape", plain(RbxValue::Enum { value: 2 }))],
    ));
    let output = encode(&tree, &model_database(), &[0], EncodePropertyBehavior::ErrorOnUnknown);
    assert_eq!(output, Ok(brick_with("token", "Shape", "Enum { value: 2 }")));

    let tree = Tree::new(instance("Part", "Brick", vec![property("Shape", int32(2))]));
    let output = encode(&tree, &model_database(), &[0], EncodePropertyBehavior::ErrorOnUnknown);
    assert_eq!(
        output,
        Err(EncodeError::UnsupportedPropertyConversion {
            class_name: "Part".to_owned(),
            property_name: "Shape".to_owned(),
            expected_type: ValueKind::Enum,
            actual_type: ValueKind::Int32,
        })
    );
}

#[test]
fn reference_of_other_type_than_the_descriptor_fails() {
    let tree = Tree::new(instance("Part", "Brick", vec![property("Mass", Value::Ref(None))]));
    let output = encode(&tree, &model_database(), &[0], EncodePropertyBehavior::IgnoreUnknown);
    assert_eq!(
        output,
        Err(EncodeError::UnsupportedPropertyConversion {
            class_name: "Part".to_owned(),
            property_name: "Mass".to_owned(),
            expected_type: ValueKind::Int64,
            actual_type: ValueKind::Ref,
        })
    );
    let tree = Tree::new(instance("Part", "Brick", vec![property("Target", int32(1))]));
    let output = encode(&tree, &model_database(), &[0], EncodePropertyBehavior::IgnoreUnknown);
    assert_eq!(
        output,
        Err(EncodeError::UnsupportedPropertyConversion {
            class_name: "Part".to_owned(),
            property_name: "Target".to_owned(),
            expected_type: ValueKind::Ref,
            actual_type: ValueKind::Int32,
        })
    );
}

#[test]
fn first_error_in_name_order_is_reported() {
    let tree = Tree::new(instance(
        "Part",
        "Brick",
        vec![property("Zeta", int32(1)), property("Alpha", int32(2))],
    ));
    let output = encode(&tree, &model_database(), &[0], EncodePropertyBehavior::ErrorOnUnknown);
    assert_eq!(
        output,
        Err(EncodeError::UnknownProperty {
            class_name: "Part".to_owned(),
            property_name: "Alpha".to_owned(),
        })
    );
}

#[test]
fn properties_are_written_sorted_by_name() {
    let tree = Tree::new(instance(
        "Folder",
        "Root",
        vec![
            property("b", int32(2)),
            property("a", int32(1)),
            property("B", int32(4)),
            property("ab", int32(3)),
            property("", int32(0)),
        ],
    ));
    let output =
        encode(&tree, &reflection(vec![]), &[0], EncodePropertyBehavior::NoReflection).unwrap();
    let opened: Vec<&String> = output.iter().filter(|line| line.starts_with("<int ")).collect();
    assert_eq!(
        opened,
        vec!["<int name=>", "<int name=B>", "<int name=a>", "<int name=ab>", "<int name=b>"]
    );
}

#[test]
fn storage_order_of_properties_does_not_change_the_output() {
    let first = Tree::new(instance(
        "Folder",
        "Root",
        vec![property("x", int32(1)), property("y", text("two")), property("z", Value::Ref(None))],
    ));
    let second = Tree::new(instance(
        "Folder",
        "Root",
        vec![property("z", Value::Ref(None)), property("x", int32(1)), property("y", text("two"))],
    ));
    let database = reflection(vec![]);
    assert_eq!(
        encode(&first, &database, &[0], EncodePropertyBehavior::WriteUnknown),
        encode(&second, &database, &[0], EncodePropertyBehavior::WriteUnknown)
    );
}

#[test]
fn encoding_twice_gives_identical_events() {
    let mut tree = Tree::new(instance("Folder", "Root", vec![property("Link", Value::Ref(Some(1)))]));
    let shared = SharedString::new(b"shared data".to_vec());
    tree.insert_instance(
        instance(
            "Part",
            "Brick",
            vec![property("Mass", int32(7)), property("Mesh", Value::SharedString(shared))],
        ),
        0,
    );
    let database = model_database();
    let first = encode_internal(&tree, &database, &[0], EncodeOptions::new()).unwrap();
    let second = encode_internal(&tree, &database, &[0], EncodeOptions::new()).unwrap();
    assert_eq!(first, second);
    assert_eq!(first.len(), 27);
}

fn family() -> Tree {
    let mut tree = Tree::new(instance("Folder", "Root", vec![]));
    let a = tree.insert_instance(instance("Folder", "A", vec![]), 0);
    let b = tree.insert_instance(instance("Folder", "B", vec![]), 0);
    tree.insert_instance(instance("Folder", "A1", vec![]), a);
    tree.insert_instance(instance("Folder", "B1", vec![]), b);
    tree.insert_instance(instance("Folder", "A2", vec![]), a);
    tree
}

fn items(output: &[String]) -> Vec<String> {
    output.iter().filter(|line| line.starts_with("<Item ") || *line == "</>").cloned().collect()
}

fn names(output: &[String]) -> Vec<String> {
    let mut found = Vec::new();
    for (at, line) in output.iter().enumerate() {
        if line == "<string name=Name>" {
            found.push(output[at + 1].clone());
        }
    }
    found
}

#[test]
fn instances_are_written_depth_first_in_stored_order() {
    let tree = family();
    let output =
        encode(&tree, &reflection(vec![]), &[0], EncodePropertyBehavior::NoReflection).unwrap();
    assert_eq!(names(&output), lines(&["'Root'", "'A'", "'A1'", "'A2'", "'B'", "'B1'"]));
    let referents: Vec<&String> =
        output.iter().filter(|line| line.starts_with("<Item ")).collect();
    assert_eq!(
        referents,
        vec![
            "<Item class=Folder referent=0>",
            "<Item class=Folder referent=1>",
            "<Item class=Folder referent=2>",
            "<Item class=Folder referent=3>",
            "<Item class=Folder referent=4>",
            "<Item class=Folder referent=5>",
        ]
    );
}

#[test]
fn elements_nest_as_the_instances_do() {
    let mut tree = Tree::new(instance("Folder", "Root", vec![]));
    tree.insert_instance(instance("Folder", "Child", vec![]), 0);
    let output =
        encode(&tree, &reflection(vec![]), &[0], EncodePropertyBehavior::NoReflection).unwrap();
    assert_eq!(
        output,
        lines(&[
            "<roblox version=4>",
            "<Item class=Folder referent=0>",
            "<Properties>",
            "<string name=Name>",
            "'Root'",
            "</>",
            "</>",
            "<Item class=Folder referent=1>",
            "<Properties>",
            "<string name=Name>",
            "'Child'",
            "</>",
            "</>",
            "</>",
            "</>",
            "</>",
        ])
    );
    assert_eq!(items(&output).len(), 2 + 7);
}

#[test]
fn roots_are_written_in_the_given_order() {
    let tree = family();
    let output =
        encode(&tree, &reflection(vec![]), &[2, 1], EncodePropertyBehavior::NoReflection).unwrap();
    assert_eq!(names(&output), lines(&["'B'", "'B1'", "'A'", "'A1'", "'A2'"]));
    let referents: Vec<&String> =
        output.iter().filter(|line| line.starts_with("<Item ")).collect();
    assert_eq!(referents.len(), 5);
    assert_eq!(referents[0], "<Item class=Folder referent=0>");
    assert_eq!(referents[4], "<Item class=Folder referent=4>");
}

#[test]
fn instance_written_twice_keeps_its_referent() {
    let tree = family();
    let output =
        encode(&tree, &reflection(vec![]), &[4, 4], EncodePropertyBehavior::NoReflection).unwrap();
    let referents: Vec<&String> =
        output.iter().filter(|line| line.starts_with("<Item ")).collect();
    assert_eq!(
        referents,
        vec!["<Item class=Folder referent=0>", "<Item class=Folder referent=0>"]
    );
}

#[test]
fn reference_to_a_later_instance_gets_the_referent_it_is_written_with() {
    let mut tree =
        Tree::new(instance("Folder", "Root", vec![property("Link", Value::Ref(Some(2)))]));
    tree.insert_instance(instance("Folder", "First", vec![]), 0);
    tree.insert_instance(instance("Folder", "Second", vec![]), 0);
    let output =
        encode(&tree, &reflection(vec![]), &[0], EncodePropertyBehavior::NoReflection).unwrap();
    let at = output.iter().position(|line| line == "<Ref name=Link>").unwrap();
    assert_eq!(output[at + 1], "'1'");
    let referents: Vec<&String> =
        output.iter().filter(|line| line.starts_with("<Item ")).collect();
    assert_eq!(
        referents,
        vec![
            "<Item class=Folder referent=0>",
            "<Item class=Folder referent=2>",
            "<Item class=Folder referent=1>",
        ]
    );
}

#[test]
fn reference_to_an_instance_outside_the_roots_gets_a_referent_of_its_own() {
    let mut tree = Tree::new(instance("Folder", "Root", vec![]));
    let a = tree.insert_instance(
        instance("Folder", "A", vec![property("Link", Value::Ref(Some(2)))]),
        0,
    );
    tree.insert_instance(instance("Folder", "B", vec![]), 0);
    let output =
        encode(&tree, &reflection(vec![]), &[a], EncodePropertyBehavior::NoReflection).unwrap();
    assert_eq!(
        output,
        lines(&[
            "<roblox version=4>",
            "<Item class=Folder referent=0>",
            "<Properties>",
            "<string name=Name>",
            "'A'",
            "</>",
            "<Ref name=Link>",
            "'1'",
            "</>",
            "</>",
            "</>",
            "</>",
        ])
    );
}

#[test]
fn reference_to_an_id_outside_the_tree_gets_a_referent() {
    let tree = Tree::new(instance("Folder", "Root", vec![property("Link", Value::Ref(Some(77)))]));
    let output =
        encode(&tree, &reflection(vec![]), &[0], EncodePropertyBehavior::NoReflection).unwrap();
    let at = output.iter().position(|line| line == "<Ref name=Link>").unwrap();
    assert_eq!(output[at + 1], "'1'");
}

#[test]
fn reference_to_the_instance_itself_and_null_reference() {
    let tree = Tree::new(instance(
        "Part",
        "Brick",
        vec![property("Target", Value::Ref(Some(0))), property("Other", Value::Ref(None))],
    ));
    let output = encode(&tree, &model_database(), &[0], EncodePropertyBehavior::WriteUnknown);
    assert_eq!(
        output,
        Ok(lines(&[
            "<roblox version=4>",
            "<Item class=Part referent=0>",
            "<Properties>",
            "<string name=Name>",
            "'Brick'",
            "</>",
            "<Ref name=Other>",
            "'null'",
            "</>",
            "<Ref name=Target>",
            "'0'",
            "</>",
            "</>",
            "</>",
            "</>",
        ]))
    );
}

#[test]
fn shared_string_is_listed_once_in_the_dictionary() {
    let mut tree = Tree::new(instance(
        "Part",
        "One",
        vec![
            property("Mesh", Value::SharedString(SharedString::new(b"hello".to_vec()))),
            property("Other", Value::SharedString(SharedString::new(b"hello".to_vec()))),
        ],
    ));
    tree.insert_instance(
        instance(
            "Part",
            "Two",
            vec![property("Mesh", Value::SharedString(SharedString::new(b"hello".to_vec())))],
        ),
        0,
    );
    let output = encode(&tree, &model_database(), &[0], EncodePropertyBehavior::WriteUnknown);
    assert_eq!(
        output,
        Ok(lines(&[
            "<roblox version=4>",
            "<Item class=Part referent=0>",
            "<Properties>",
            "<string name=Name>",
            "'One'",
            "</>",
            "<SharedString name=Mesh>",
            "'XUFAKrxLKna5cZ2REBfFkg=='",
            "</>",
            "<SharedString name=Other>",
            "'XUFAKrxLKna5cZ2REBfFkg=='",
            "</>",
            "</>",
            "<Item class=Part referent=1>",
            "<Properties>",
            "<string name=Name>",
            "'Two'",
            "</>",
            "<SharedString name=Mesh>",
            "'XUFAKrxLKna5cZ2REBfFkg=='",
            "</>",
            "</>",
            "</>",
            "</>",
            "<SharedStrings>",
            "<SharedString md5=XUFAKrxLKna5cZ2REBfFkg==>",
            "'aGVsbG8='",
            "</>",
            "</>",
            "</>",
        ]))
    );
}

#[test]
fn shared_strings_are_listed_in_the_order_in_which_they_are_met() {
    let tree = Tree::new(instance(
        "Folder",
        "Root",
        vec![
            property("b", Value::SharedString(SharedString::new(b"hello".to_vec()))),
            property("a", Value::SharedString(SharedString::new(b"world".to_vec()))),
            property("c", Value::SharedString(SharedString::new(Vec::new()))),
        ],
    ));
    let output =
        encode(&tree, &reflection(vec![]), &[0], EncodePropertyBehavior::NoReflection).unwrap();
    let at = output.iter().position(|line| line == "<SharedStrings>").unwrap();
    assert_eq!(
        output[at..].to_vec(),
        lines(&[
            "<SharedStrings>",
            "<SharedString md5=fXkwN6B2AYZXSwKC8vQ15w==>",
            "'d29ybGQ='",
            "</>",
            "<SharedString md5=XUFAKrxLKna5cZ2REBfFkg==>",
            "'aGVsbG8='",
            "</>",
            "<SharedString md5=1B2M2Y8AsgTpgAmY7PhCfg==>",
            "''",
            "</>",
            "</>",
            "</>",
        ])
    );
}

#[test]
fn skipped_shared_string_is_not_listed() {
    let tree = Tree::new(instance(
        "Part",
        "Brick",
        vec![property("Unknown", Value::SharedString(SharedString::new(b"hello".to_vec())))],
    ));
    let output = encode(&tree, &model_database(), &[0], EncodePropertyBehavior::IgnoreUnknown);
    assert_eq!(output, Ok(brick_without_properties()));
}

#[test]
fn referents_are_dense_and_stable() {
    let mut state = EmitState::new(EncodeOptions::new());
    assert_eq!(state.map_id(40), 0);
    assert_eq!(state.map_id(7), 1);
    assert_eq!(state.map_id(40), 0);
    assert_eq!(state.map_id(0), 2);
    assert_eq!(state.map_id(7), 1);
    assert_eq!(state.map_id(usize::MAX), 3);
    assert_eq!(state.map_id(0), 2);
}

#[test]
fn emit_state_keeps_one_shared_string_for_each_digest() {
    let mut state = EmitState::new(EncodeOptions::new());
    let mut output = Vec::new();
    serialize_shared_strings(&mut output, &state);
    assert!(output.is_empty());
    state.add_shared_string(SharedString::new(b"hello".to_vec()));
    state.add_shared_string(SharedString::new(b"hello".to_vec()));
    state.add_shared_string(SharedString::new(b"world".to_vec()));
    state.add_shared_string(SharedString::new(b"hello".to_vec()));
    serialize_shared_strings(&mut output, &state);
    assert_eq!(
        render(&output),
        lines(&[
            "<SharedStrings>",
            "<SharedString md5=XUFAKrxLKna5cZ2REBfFkg==>",
            "'aGVsbG8='",
            "</>",
            "<SharedString md5=fXkwN6B2AYZXSwKC8vQ15w==>",
            "'d29ybGQ='",
            "</>",
            "</>",
        ])
    );
}

#[test]
fn emit_state_lists_shared_strings_in_the_order_in_which_they_are_met() {
    let mut state = EmitState::new(EncodeOptions::new());
    assert!(state.shared_strings().is_empty());
    state.add_shared_string(SharedString::new(b"world".to_vec()));
    state.add_shared_string(SharedString::new(b"hello".to_vec()));
    state.add_shared_string(SharedString::new(b"world".to_vec()));
    let listed: Vec<&[u8]> = state.shared_strings().iter().map(|shared| shared.data()).collect();
    assert_eq!(listed, vec![&b"world"[..], &b"hello"[..]]);
}

#[test]
fn serialize_instance_appends_to_the_output_and_keeps_the_state() {
    let tree = family();
    let database = reflection(vec![]);
    let mut state = EmitState::new(options(EncodePropertyBehavior::NoReflection));
    assert_eq!(state.property_behavior(), EncodePropertyBehavior::NoReflection);
    let mut output = Vec::new();
    assert_eq!(state.map_id(3), 0);
    assert_eq!(serialize_instance(&mut output, &mut state, &tree, &database, 1), Ok(()));
    let first = render(&output);
    assert_eq!(names(&first), lines(&["'A'", "'A1'", "'A2'"]));
    let referents: Vec<&String> = first.iter().filter(|line| line.starts_with("<Item ")).collect();
    assert_eq!(
        referents,
        vec![
            "<Item class=Folder referent=1>",
            "<Item class=Folder referent=0>",
            "<Item class=Folder referent=2>",
        ]
    );
    assert_eq!(serialize_instance(&mut output, &mut state, &tree, &database, 4), Ok(()));
    let second = render(&output);
    assert_eq!(second[..first.len()].to_vec(), first);
    assert_eq!(names(&second), lines(&["'A'", "'A1'", "'A2'", "'B1'"]));
}

#[test]
fn encode_options_default_to_ignore_unknown() {
    assert_eq!(EncodeOptions::new().behavior(), EncodePropertyBehavior::IgnoreUnknown);
    assert_eq!(EncodeOptions::default().behavior(), EncodePropertyBehavior::IgnoreUnknown);
    assert!(EncodeOptions::new().use_reflection());
}

#[test]
fn encode_options_take_the_behavior_given_last() {
    let options = EncodeOptions::new()
        .property_behavior(EncodePropertyBehavior::ErrorOnUnknown)
        .property_behavior(EncodePropertyBehavior::WriteUnknown);
    assert_eq!(options.behavior(), EncodePropertyBehavior::WriteUnknown);
    assert!(options.use_reflection());
    let options = options.property_behavior(EncodePropertyBehavior::NoReflection);
    assert!(!options.use_reflection());
    assert!(options.clone().property_behavior(EncodePropertyBehavior::ErrorOnUnknown).use_reflection());
}
