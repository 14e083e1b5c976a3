use rbx_dom_weak::{BrickColor, RbxId, RbxValue, RbxValueType, SharedString as WeakSharedString};
use rbx_xml::order::sorted_property_order;
use rbx_xml::plan::{
    convert_value, plan_property, plan_resolved, plan_unknown, PlannedProperty, PlannedValue,
};
use rbx_xml::api_dump::Dump;
use rbx_xml::database::{ClassDescriptor, PropertyDescriptor, PropertyType, ReflectionDatabase};
use rbx_xml::error::EncodeError;
use rbx_xml::serializer::{write_name, write_value, EncodeOptions, EncodePropertyBehavior};
use rbx_xml::state::{EmitState};
use rbx_xml::shared_string::SharedString;
use rbx_xml::text::{decimal_string, str_eq, str_lt};
use rbx_xml::tree::{InstanceProperties, Property, Tree};
use rbx_xml::value::{Conversion, DataType, DataValue, Value, ValueKind};
use rbx_xml::wire::{
    emit, emit_characters, emit_end, emit_start_plain, emit_start_with, emit_start_with_two,
    WireEvent,
};

fn all_types() -> Vec<(RbxValueType, ValueKind, &'static str)> {
    vec![
        (RbxValueType::BinaryString, ValueKind::BinaryString, "BinaryString"),
        (RbxValueType::BrickColor, ValueKind::BrickColor, "int"),
        (RbxValueType::Bool, ValueKind::Bool, "bool"),
        (RbxValueType::CFrame, ValueKind::CFrame, "CoordinateFrame"),
        (RbxValueType::Color3, ValueKind::Color3, "Color3"),
        (RbxValueType::Color3uint8, ValueKind::Color3uint8, "Color3uint8"),
        (RbxValueType::ColorSequence, ValueKind::ColorSequence, "ColorSequence"),
        (RbxValueType::Content, ValueKind::Content, "Content"),
        (RbxValueType::Enum, ValueKind::Enum, "token"),
        (RbxValueType::Float32, ValueKind::Float32, "float"),
        (RbxValueType::Float64, ValueKind::Float64, "double"),
        (RbxValueType::Int32, ValueKind::Int32, "int"),
        (RbxValueType::Int64, ValueKind::Int64, "int64"),
        (RbxValueType::NumberRange, ValueKind::NumberRange, "NumberRange"),
        (RbxValueType::NumberSequence, ValueKind::NumberSequence, "NumberSequence"),
        (RbxValueType::PhysicalProperties, ValueKind::PhysicalProperties, "PhysicalProperties"),
        (RbxValueType::Ray, ValueKind::Ray, "Ray"),
        (RbxValueType::Rect, ValueKind::Rect, "Rect2D"),
        (RbxValueType::Ref, ValueKind::Ref, "Ref"),
        (RbxValueType::SharedString, ValueKind::SharedString, "SharedString"),
        (RbxValueType::String, ValueKind::String, "string"),
        (RbxValueType::UDim, ValueKind::UDim, "UDim"),
        (RbxValueType::UDim2, ValueKind::UDim2, "UDim2"),
        (RbxValueType::Vector2, ValueKind::Vector2, "Vector2"),
        (RbxValueType::Vector2int16, ValueKind::Vector2int16, "Vector2int16"),
        (RbxValueType::Vector3, ValueKind::Vector3, "Vector3"),
        (RbxValueType::Vector3int16, ValueKind::Vector3int16, "Vector3int16"),
    ]
}

#[test]
fn every_type_tag_stands_for_the_kind_of_its_name() {
    for (value_type, kind, _) in all_types() {
        let data_type = DataType::new(value_type).unwrap();
        assert_eq!(data_type.kind(), kind);
        assert_eq!(data_type.tag(), value_type);
    }
}

#[test]
fn ordinals_follow_the_declaration_order() {
    for (ordinal, (_, kind, _)) in all_types().into_iter().enumerate() {
        assert_eq!(ValueKind::from_ordinal(ordinal as u8), Some(kind));
    }
    assert_eq!(ValueKind::from_ordinal(27), None);
    assert_eq!(ValueKind::from_ordinal(255), None);
}

#[test]
fn placeholder_type_tag_stands_for_no_kind() {
    assert!(DataType::new(RbxValueType::__Nonexhaustive).is_none());
}

#[test]
fn wire_tags_of_all_kinds() {
    for (_, kind, tag) in all_types() {
        assert_eq!(kind.wire_tag(), tag);
    }
}

#[test]
fn wire_tags_are_read_back_as_their_kind() {
    for (_, kind, tag) in all_types() {
        let expected = if kind == ValueKind::BrickColor { ValueKind::Int32 } else { kind };
        assert_eq!(ValueKind::from_wire_tag(tag), Some(expected));
    }
}

#[test]
fn unregistered_wire_tag_is_not_read() {
    assert_eq!(ValueKind::from_wire_tag("Int"), None);
    assert_eq!(ValueKind::from_wire_tag(""), None);
    assert_eq!(ValueKind::from_wire_tag("ProtectedString"), None);
    assert_eq!(ValueKind::from_wire_tag("int6"), None);
    assert_eq!(ValueKind::from_wire_tag("Vector4"), None);
}

fn sample_values() -> Vec<(RbxValue, ValueKind)> {
    vec![
        (RbxValue::BinaryString { value: vec![1, 2] }, ValueKind::BinaryString),
        (RbxValue::BrickColor { value: BrickColor::from_number(1).unwrap() }, ValueKind::BrickColor),
        (RbxValue::Bool { value: false }, ValueKind::Bool),
        (RbxValue::CFrame { value: [0.0; 12] }, ValueKind::CFrame),
        (RbxValue::Color3 { value: [0.0, 0.5, 1.0] }, ValueKind::Color3),
        (RbxValue::Color3uint8 { value: [1, 2, 3] }, ValueKind::Color3uint8),
        (RbxValue::Content { value: "rbxasset://x".to_owned() }, ValueKind::Content),
        (RbxValue::Enum { value: 3 }, ValueKind::Enum),
        (RbxValue::Float32 { value: 1.5 }, ValueKind::Float32),
        (RbxValue::Float64 { value: 2.5 }, ValueKind::Float64),
        (RbxValue::Int32 { value: -4 }, ValueKind::Int32),
        (RbxValue::Int64 { value: 1 << 40 }, ValueKind::Int64),
        (RbxValue::NumberRange { value: (0.0, 1.0) }, ValueKind::NumberRange),
        (RbxValue::PhysicalProperties { value: None }, ValueKind::PhysicalProperties),
        (RbxValue::String { value: "text".to_owned() }, ValueKind::String),
        (RbxValue::UDim { value: (0.5, 2) }, ValueKind::UDim),
        (RbxValue::UDim2 { value: (0.5, 2, 0.25, 4) }, ValueKind::UDim2),
        (RbxValue::Vector2 { value: [1.0, 2.0] }, ValueKind::Vector2),
        (RbxValue::Vector2int16 { value: [1, 2] }, ValueKind::Vector2int16),
        (RbxValue::Vector3 { value: [1.0, 2.0, 3.0] }, ValueKind::Vector3),
        (RbxValue::Vector3int16 { value: [1, 2, 3] }, ValueKind::Vector3int16),
    ]
}

#[test]
fn data_value_knows_the_kind_of_its_payload() {
    for (payload, kind) in sample_values() {
        let value = DataValue::new(payload.clone()).unwrap();
        assert_eq!(value.kind(), kind);
        assert_eq!(*value.payload(), payload);
        assert_eq!(Value::Data(value).kind(), kind);
    }
}

#[test]
fn data_value_refuses_references_shared_strings_and_the_placeholder() {
    assert!(DataValue::new(RbxValue::Ref { value: None }).is_none());
    assert!(DataValue::new(RbxValue::Ref { value: Some(RbxId::new()) }).is_none());
    assert!(DataValue::new(RbxValue::SharedString { value: WeakSharedString::new(vec![1]) })
        .is_none());
    assert!(DataValue::new(RbxValue::__Nonexhaustive).is_none());
}

#[test]
fn data_value_duplicate_is_equal() {
    let value = DataValue::new(RbxValue::String { value: "text".to_owned() }).unwrap();
    let copy = value.duplicate();
    assert_eq!(copy.kind(), ValueKind::String);
    assert_eq!(copy.payload(), value.payload());
}

#[test]
fn kinds_of_references_and_shared_strings() {
    assert_eq!(Value::Ref(None).kind(), ValueKind::Ref);
    assert_eq!(Value::Ref(Some(3)).kind(), ValueKind::Ref);
    assert_eq!(Value::SharedString(SharedString::new(vec![])).kind(), ValueKind::SharedString);
}

fn int64_type() -> DataType {
    DataType::new(RbxValueType::Int64).unwrap()
}

#[test]
fn conversion_widens_an_integer() {
    let value = DataValue::new(RbxValue::Int32 { value: -7 }).unwrap();
    let converted = value.convert(&int64_type()).unwrap().unwrap();
    assert_eq!(converted.kind(), ValueKind::Int64);
    assert_eq!(*converted.payload(), RbxValue::Int64 { value: -7 });
}

#[test]
fn conversion_to_the_own_type_is_unnecessary() {
    let value = DataValue::new(RbxValue::Int64 { value: 5 }).unwrap();
    assert!(matches!(value.convert(&int64_type()), Some(None)));
}

#[test]
fn conversion_between_unrelated_types_fails() {
    let value = DataValue::new(RbxValue::Bool { value: true }).unwrap();
    assert!(value.convert(&int64_type()).is_none());
    let to_ref = DataType::new(RbxValueType::Ref).unwrap();
    assert!(value.convert(&to_ref).is_none());
}

#[test]
fn conversion_of_an_integer_to_a_brick_color_depends_on_the_number() {
    let to_brick_color = DataType::new(RbxValueType::BrickColor).unwrap();
    let known = DataValue::new(RbxValue::Int32 { value: 1 }).unwrap();
    let converted = known.convert(&to_brick_color).unwrap().unwrap();
    assert_eq!(converted.kind(), ValueKind::BrickColor);
    let negative = DataValue::new(RbxValue::Int32 { value: -1 }).unwrap();
    assert!(negative.convert(&to_brick_color).is_none());
}

#[test]
fn conversion_of_a_string_to_content() {
    let to_content = DataType::new(RbxValueType::Content).unwrap();
    let value = DataValue::new(RbxValue::String { value: "rbxasset://a".to_owned() }).unwrap();
    let converted = value.convert(&to_content).unwrap().unwrap();
    assert_eq!(*converted.payload(), RbxValue::Content { value: "rbxasset://a".to_owned() });
}

#[test]
fn settle_tells_the_three_results_apart() {
    assert!(matches!(DataValue::settle(Conversion::Unnecessary), Some(None)));
    assert!(DataValue::settle(Conversion::Failed).is_none());
    let settled =
        DataValue::settle(Conversion::Converted(RbxValue::Float64 { value: 0.5 })).unwrap().unwrap();
    assert_eq!(settled.kind(), ValueKind::Float64);
    assert_eq!(*settled.payload(), RbxValue::Float64 { value: 0.5 });
}

#[test]
fn settle_refuses_a_converted_value_that_is_no_plain_data() {
    assert!(DataValue::settle(Conversion::Converted(RbxValue::Ref { value: None })).is_none());
    assert!(DataValue::settle(Conversion::Converted(RbxValue::__Nonexhaustive)).is_none());
}

#[test]
fn convert_value_keeps_references_of_reference_type_only() {
    let reference = Value::Ref(Some(1));
    let to_ref = DataType::new(RbxValueType::Ref).unwrap();
    assert!(matches!(convert_value(&reference, &to_ref), Some(PlannedValue::Stored(_))));
    assert!(convert_value(&reference, &int64_type()).is_none());
    let shared = Value::SharedString(SharedString::new(vec![1]));
    let to_shared = DataType::new(RbxValueType::SharedString).unwrap();
    assert!(matches!(convert_value(&shared, &to_shared), Some(PlannedValue::Stored(_))));
    assert!(convert_value(&shared, &to_ref).is_none());
    let number = Value::Data(DataValue::new(RbxValue::Int32 { value: 2 }).unwrap());
    match convert_value(&number, &int64_type()) {
        Some(PlannedValue::Converted(converted)) => {
            assert_eq!(*converted.payload(), RbxValue::Int64 { value: 2 })
        }
        _ => panic!("the integer is widened"),
    }
}

fn stored(name: &str, value: RbxValue) -> Property {
    Property { name: name.to_owned(), value: Value::Data(DataValue::new(value).unwrap()) }
}

fn described(name: &str, value_type: PropertyType) -> PropertyDescriptor {
    PropertyDescriptor {
        name: name.to_owned(),
        value_type,
        is_canonical: true,
        canonical_name: None,
        serialized_name: None,
    }
}

#[test]
fn plan_unknown_follows_the_behavior() {
    let property = stored("Mystery", RbxValue::Bool { value: true });
    assert!(matches!(
        plan_unknown(EncodePropertyBehavior::IgnoreUnknown, "Part", &property),
        PlannedProperty::Skip
    ));
    for behavior in [EncodePropertyBehavior::WriteUnknown, EncodePropertyBehavior::NoReflection] {
        match plan_unknown(behavior, "Part", &property) {
            PlannedProperty::Write { name, value: PlannedValue::Stored(value) } => {
                assert_eq!(name, "Mystery");
                assert_eq!(value.kind(), ValueKind::Bool);
            }
            _ => panic!("the property is written as it is stored"),
        }
    }
    match plan_unknown(EncodePropertyBehavior::ErrorOnUnknown, "Part", &property) {
        PlannedProperty::Fail(error) => assert_eq!(
            error,
            EncodeError::UnknownProperty {
                class_name: "Part".to_owned(),
                property_name: "Mystery".to_owned(),
            }
        ),
        _ => panic!("the property is refused"),
    }
}

#[test]
fn plan_resolved_converts_to_the_type_of_the_descriptor() {
    let property = stored("Mass", RbxValue::Int32 { value: 3 });
    let descriptor = described("mass_xml", PropertyType::Data(int64_type()));
    match plan_resolved(EncodePropertyBehavior::IgnoreUnknown, "Part", &property, &descriptor) {
        PlannedProperty::Write { name, value: PlannedValue::Converted(value) } => {
            assert_eq!(name, "mass_xml");
            assert_eq!(*value.payload(), RbxValue::Int64 { value: 3 });
        }
        _ => panic!("the property is converted and written"),
    }
    let property = stored("Mass", RbxValue::Bool { value: true });
    match plan_resolved(EncodePropertyBehavior::WriteUnknown, "Part", &property, &descriptor) {
        PlannedProperty::Fail(error) => assert_eq!(
            error,
            EncodeError::UnsupportedPropertyConversion {
                class_name: "Part".to_owned(),
                property_name: "Mass".to_owned(),
                expected_type: ValueKind::Int64,
                actual_type: ValueKind::Bool,
            }
        ),
        _ => panic!("the property is refused"),
    }
}

#[test]
fn plan_resolved_treats_an_unimplemented_type_as_the_behavior_says() {
    let property = stored("Future", RbxValue::Int32 { value: 3 });
    let descriptor = described("future_xml", PropertyType::UnimplementedType("QDir".to_owned()));
    assert!(matches!(
        plan_resolved(EncodePropertyBehavior::IgnoreUnknown, "Part", &property, &descriptor),
        PlannedProperty::Skip
    ));
    assert!(matches!(
        plan_resolved(EncodePropertyBehavior::WriteUnknown, "Part", &property, &descriptor),
        PlannedProperty::Write { name: "future_xml", value: PlannedValue::Stored(_) }
    ));
    assert!(matches!(
        plan_resolved(EncodePropertyBehavior::ErrorOnUnknown, "Part", &property, &descriptor),
        PlannedProperty::Fail(EncodeError::UnknownProperty { .. })
    ));
}

#[test]
fn plan_property_skips_what_has_no_canonical_form() {
    let database = ReflectionDatabase {
        dump: Dump { classes: Vec::new(), enums: Vec::new() },
        studio_version: [0, 0, 0, 0],
        classes: vec![ClassDescriptor {
            name: "Part".to_owned(),
            superclass: None,
            properties: vec![PropertyDescriptor {
                name: "Hidden".to_owned(),
                value_type: PropertyType::Data(int64_type()),
                is_canonical: false,
                canonical_name: None,
                serialized_name: None,
            }],
        }],
    };
    assert!(database.is_consistent());
    let property = stored("Hidden", RbxValue::Int64 { value: 3 });
    for behavior in [
        EncodePropertyBehavior::IgnoreUnknown,
        EncodePropertyBehavior::WriteUnknown,
        EncodePropertyBehavior::ErrorOnUnknown,
    ] {
        assert!(matches!(
            plan_property(&database, behavior, "Part", &property),
            PlannedProperty::Skip
        ));
    }
    assert!(matches!(
        plan_property(&database, EncodePropertyBehavior::NoReflection, "Part", &property),
        PlannedProperty::Write { name: "Hidden", value: PlannedValue::Stored(_) }
    ));
}

#[test]
fn shared_string_carries_the_digest_of_its_content() {
    let empty = SharedString::new(Vec::new());
    assert_eq!(
        empty.md5_hash(),
        [212, 29, 140, 217, 143, 0, 178, 4, 233, 128, 9, 152, 236, 248, 66, 126]
    );
    assert_eq!(empty.data(), &[] as &[u8]);
    let hello = SharedString::new(b"hello".to_vec());
    assert_eq!(
        hello.md5_hash(),
        [93, 65, 64, 42, 188, 75, 42, 118, 185, 113, 157, 145, 16, 23, 197, 146]
    );
    assert_eq!(hello.data(), b"hello");
}

#[test]
fn shared_strings_of_equal_content_have_the_same_digest() {
    let first = SharedString::new(b"hello".to_vec());
    let second = SharedString::new(b"hello".to_vec());
    let other = SharedString::new(b"world".to_vec());
    assert!(first.same_hash(&second));
    assert!(!first.same_hash(&other));
    let copy = first.duplicate();
    assert!(copy.same_hash(&first));
    assert_eq!(copy.data(), first.data());
}

#[test]
fn decimal_numerals() {
    assert_eq!(decimal_string(0), "0");
    assert_eq!(decimal_string(7), "7");
    assert_eq!(decimal_string(10), "10");
    assert_eq!(decimal_string(109), "109");
    assert_eq!(decimal_string(4294967296), "4294967296");
    assert_eq!(decimal_string(usize::MAX), usize::MAX.to_string());
}

#[test]
fn string_equality() {
    assert!(str_eq("", ""));
    assert!(str_eq("Name", "Name"));
    assert!(!str_eq("Name", "name"));
    assert!(!str_eq("Name", "Names"));
    assert!(!str_eq("", "a"));
    assert!(str_eq("caf\u{e9}", "caf\u{e9}"));
}

#[test]
fn names_are_ordered_by_their_bytes() {
    assert!(str_lt("", "a"));
    assert!(!str_lt("a", ""));
    assert!(!str_lt("a", "a"));
    assert!(str_lt("a", "ab"));
    assert!(str_lt("B", "a"));
    assert!(str_lt("ab", "b"));
    assert!(str_lt("z", "\u{e9}"));
    assert!(str_lt("\u{e9}", "\u{4e2d}"));
    for (left, right) in [("Anchored", "Archivable"), ("size", "Size"), ("a", "B")] {
        assert_eq!(str_lt(left, right), left < right);
        assert_eq!(str_lt(right, left), right < left);
    }
}

#[test]
fn property_order_is_sorted_and_stable() {
    let properties = vec![
        stored("b", RbxValue::Int32 { value: 0 }),
        stored("a", RbxValue::Int32 { value: 1 }),
        stored("c", RbxValue::Int32 { value: 2 }),
        stored("a", RbxValue::Int32 { value: 3 }),
        stored("", RbxValue::Int32 { value: 4 }),
    ];
    assert_eq!(sorted_property_order(&properties), vec![4, 1, 3, 0, 2]);
    assert_eq!(sorted_property_order(&Vec::new()), Vec::<usize>::new());
}

fn folder(name: &str) -> InstanceProperties {
    InstanceProperties { name: name.to_owned(), class_name: "Folder".to_owned(), properties: vec![] }
}

#[test]
fn tree_links_parents_and_children() {
    let mut tree = Tree::new(folder("Root"));
    assert_eq!(tree.get_root_id(), 0);
    assert_eq!(tree.len(), 1);
    let a = tree.insert_instance(folder("A"), 0);
    let b = tree.insert_instance(folder("B"), 0);
    let c = tree.insert_instance(folder("C"), a);
    assert_eq!((a, b, c), (1, 2, 3));
    assert_eq!(tree.len(), 4);
    let root = tree.get_instance(0).unwrap();
    assert_eq!(root.get_id(), 0);
    assert_eq!(root.get_parent_id(), None);
    assert_eq!(root.get_children_ids(), &[1, 2]);
    assert_eq!(root.properties().name, "Root");
    let first = tree.get_instance(a).unwrap();
    assert_eq!(first.get_parent_id(), Some(0));
    assert_eq!(first.get_children_ids(), &[3]);
    let last = tree.get_instance(c).unwrap();
    assert_eq!(last.get_parent_id(), Some(a));
    assert_eq!(last.get_children_ids(), &[] as &[usize]);
    assert_eq!(last.properties().class_name, "Folder");
    assert!(tree.get_instance(4).is_none());
}

fn shown(events: &[WireEvent]) -> Vec<String> {
    events.iter().map(|event| format!("{:?}", event)).collect()
}

#[test]
fn wire_events_are_appended_in_order() {
    let mut output = Vec::new();
    emit_start_plain(&mut output, "Properties");
    emit_start_with(&mut output, "string", "name", "Name");
    emit_start_with_two(&mut output, "Item", ("class", "Part"), ("referent", "0"));
    emit_characters(&mut output, "text");
    emit(&mut output, WireEvent::Payload(RbxValue::Bool { value: true }));
    emit_end(&mut output);
    assert_eq!(
        output,
        vec![
            WireEvent::StartElement { name: "Properties".to_owned(), attributes: vec![] },
            WireEvent::StartElement {
                name: "string".to_owned(),
                attributes: vec![("name".to_owned(), "Name".to_owned())],
            },
            WireEvent::StartElement {
                name: "Item".to_owned(),
                attributes: vec![
                    ("class".to_owned(), "Part".to_owned()),
                    ("referent".to_owned(), "0".to_owned()),
                ],
            },
            WireEvent::Characters("text".to_owned()),
            WireEvent::Payload(RbxValue::Bool { value: true }),
            WireEvent::EndElement,
        ]
    );
    assert_eq!(shown(&output).len(), 6);
}

#[test]
fn written_values_carry_tag_name_and_content() {
    let mut state = EmitState::new(EncodeOptions::new());
    let mut output = Vec::new();
    write_name(&mut output, "Brick");
    write_value(
        &mut output,
        &mut state,
        "Size",
        &Value::Data(DataValue::new(RbxValue::Vector3 { value: [1.0, 2.0, 3.0] }).unwrap()),
    );
    write_value(&mut output, &mut state, "Target", &Value::Ref(Some(9)));
    write_value(&mut output, &mut state, "Again", &Value::Ref(Some(9)));
    write_value(&mut output, &mut state, "Nothing", &Value::Ref(None));
    write_value(
        &mut output,
        &mut state,
        "Mesh",
        &Value::SharedString(SharedString::new(b"world".to_vec())),
    );
    let start = |tag: &str, name: &str| WireEvent::StartElement {
        name: tag.to_owned(),
        attributes: vec![("name".to_owned(), name.to_owned())],
    };
    assert_eq!(
        output,
        vec![
            start("string", "Name"),
            WireEvent::Characters("Brick".to_owned()),
            WireEvent::EndElement,
            start("Vector3", "Size"),
            WireEvent::Payload(RbxValue::Vector3 { value: [1.0, 2.0, 3.0] }),
            WireEvent::EndElement,
            start("Ref", "Target"),
            WireEvent::Characters("0".to_owned()),
            WireEvent::EndElement,
            start("Ref", "Again"),
            WireEvent::Characters("0".to_owned()),
            WireEvent::EndElement,
            start("Ref", "Nothing"),
            WireEvent::Characters("null".to_owned()),
            WireEvent::EndElement,
            start("SharedString", "Mesh"),
            WireEvent::Characters("fXkwN6B2AYZXSwKC8vQ15w==".to_owned()),
            WireEvent::EndElement,
        ]
    );
    assert_eq!(state.map_id(9), 0);
    assert_eq!(state.map_id(1), 1);
}
