use rbx_dom_weak::RbxValueType;
use rbx_xml::api_dump::Dump;
use rbx_xml::database::{ClassDescriptor, PropertyDescriptor, PropertyType, ReflectionDatabase};
use rbx_xml::resolver::{
    find_canonical_property_descriptor, find_property_descriptors,
    find_serialized_property_descriptor, resolve_property, Resolution,
};
use rbx_xml::value::DataType;

fn data(value_type: RbxValueType) -> PropertyType {
    PropertyType::Data(DataType::new(value_type).unwrap())
}

fn canonical(name: &str, value_type: PropertyType, serialized: Option<&str>) -> PropertyDescriptor {
    PropertyDescriptor {
        name: name.to_owned(),
        value_type,
        is_canonical: true,
        canonical_name: None,
        serialized_name: serialized.map(|s| s.to_owned()),
    }
}

fn alias(name: &str, value_type: PropertyType, canonical: Option<&str>) -> PropertyDescriptor {
    PropertyDescriptor {
        name: name.to_owned(),
        value_type,
        is_canonical: false,
        canonical_name: canonical.map(|s| s.to_owned()),
        serialized_name: None,
    }
}

fn class(name: &str, superclass: Option<&str>, properties: Vec<PropertyDescriptor>) -> ClassDescriptor {
    ClassDescriptor {
        name: name.to_owned(),
        superclass: superclass.map(|s| s.to_owned()),
        properties,
    }
}

fn database(classes: Vec<ClassDescriptor>) -> ReflectionDatabase {
    ReflectionDatabase {
        dump: Dump { classes: Vec::new(), enums: Vec::new() },
        studio_version: [0, 1, 2, 3],
        classes,
    }
}

fn part_database() -> ReflectionDatabase {
    database(vec![
        class(
            "Instance",
            None,
            vec![
                canonical("Archivable", data(RbxValueType::Bool), None),
                alias("archivable", data(RbxValueType::Bool), Some("Archivable")),
                alias("DataCost", data(RbxValueType::Int32), None),
            ],
        ),
        class("PVInstance", Some("Instance"), vec![]),
        class(
            "BasePart",
            Some("PVInstance"),
            vec![
                canonical("Color", data(RbxValueType::Color3), Some("Color3uint8")),
                alias("Color3uint8", data(RbxValueType::Color3uint8), Some("Color")),
                alias("BrickColor", data(RbxValueType::BrickColor), Some("Color")),
                canonical("Size", data(RbxValueType::Vector3), Some("size")),
                alias("size", data(RbxValueType::Vector3), Some("Size")),
            ],
        ),
        class(
            "Part",
            Some("BasePart"),
            vec![canonical("Shape", PropertyType::Enum("PartType".to_owned()), Some("shape")),
                 alias("shape", PropertyType::Enum("PartType".to_owned()), Some("Shape"))],
        ),
    ])
}

fn resolved_names(resolution: &Resolution<'_>) -> Option<(String, String)> {
    match resolution {
        Resolution::Resolved { canonical, serialized } => {
            Some((canonical.name.clone(), serialized.name.clone()))
        }
        _ => None,
    }
}

#[test]
fn database_of_parts_is_consistent() {
    assert!(part_database().is_consistent());
}

#[test]
fn canonical_property_without_serialized_name_resolves_to_itself() {
    let db = part_database();
    let resolution = resolve_property(&db, "Instance", "Archivable");
    assert_eq!(
        resolved_names(&resolution),
        Some(("Archivable".to_owned(), "Archivable".to_owned()))
    );
}

#[test]
fn canonical_property_with_serialized_name_resolves_to_both() {
    let db = part_database();
    let resolution = resolve_property(&db, "BasePart", "Color");
    assert_eq!(
        resolved_names(&resolution),
        Some(("Color".to_owned(), "Color3uint8".to_owned()))
    );
}

#[test]
fn alias_resolves_to_canonical_and_its_serialized_form() {
    let db = part_database();
    let resolution = resolve_property(&db, "BasePart", "BrickColor");
    assert_eq!(
        resolved_names(&resolution),
        Some(("Color".to_owned(), "Color3uint8".to_owned()))
    );
    let resolution = resolve_property(&db, "BasePart", "size");
    assert_eq!(resolved_names(&resolution), Some(("Size".to_owned(), "size".to_owned())));
}

#[test]
fn alias_without_serialized_name_on_canonical_resolves_to_canonical() {
    let db = part_database();
    let resolution = resolve_property(&db, "Instance", "archivable");
    assert_eq!(
        resolved_names(&resolution),
        Some(("Archivable".to_owned(), "Archivable".to_owned()))
    );
}

#[test]
fn property_is_found_on_a_superclass() {
    let db = part_database();
    let resolution = resolve_property(&db, "Part", "Archivable");
    assert_eq!(
        resolved_names(&resolution),
        Some(("Archivable".to_owned(), "Archivable".to_owned()))
    );
    let resolution = resolve_property(&db, "Part", "Color3uint8");
    assert_eq!(
        resolved_names(&resolution),
        Some(("Color".to_owned(), "Color3uint8".to_owned()))
    );
}

#[test]
fn property_without_canonical_form_is_unrepresentable() {
    let db = part_database();
    assert!(matches!(resolve_property(&db, "Instance", "DataCost"), Resolution::Unrepresentable));
    assert!(matches!(resolve_property(&db, "Part", "DataCost"), Resolution::Unrepresentable));
}

#[test]
fn property_absent_from_the_whole_chain_is_unknown() {
    let db = part_database();
    assert!(matches!(resolve_property(&db, "Part", "NoSuchProperty"), Resolution::Unknown));
    assert!(matches!(resolve_property(&db, "Instance", "Shape"), Resolution::Unknown));
}

#[test]
fn class_absent_from_the_database_is_unknown() {
    let db = part_database();
    assert!(matches!(resolve_property(&db, "NoSuchClass", "Archivable"), Resolution::Unknown));
}

#[test]
fn find_property_descriptors_gives_both_descriptors() {
    let db = part_database();
    let (canonical, serialized) = find_property_descriptors(&db, "Part", "Shape").unwrap();
    assert_eq!(canonical.name, "Shape");
    assert_eq!(serialized.name, "shape");
    assert!(canonical.is_canonical);
    assert!(!serialized.is_canonical);
}

#[test]
fn find_property_descriptors_gives_none_for_unknown_and_unrepresentable() {
    let db = part_database();
    assert!(find_property_descriptors(&db, "Part", "NoSuchProperty").is_none());
    assert!(find_property_descriptors(&db, "Part", "DataCost").is_none());
    assert!(find_property_descriptors(&db, "NoSuchClass", "Shape").is_none());
}

#[test]
fn find_canonical_property_descriptor_maps_serialized_name_back() {
    let db = part_database();
    let canonical = find_canonical_property_descriptor(&db, "Part", "Color3uint8").unwrap();
    assert_eq!(canonical.name, "Color");
    assert!(find_canonical_property_descriptor(&db, "Part", "Missing").is_none());
}

#[test]
fn find_serialized_property_descriptor_maps_canonical_name_forward() {
    let db = part_database();
    let serialized = find_serialized_property_descriptor(&db, "Part", "Color").unwrap();
    assert_eq!(serialized.name, "Color3uint8");
    assert!(find_serialized_property_descriptor(&db, "Part", "Missing").is_none());
}

#[test]
fn subclass_declaration_shadows_the_superclass() {
    let db = database(vec![
        class("Base", None, vec![canonical("Value", data(RbxValueType::Int32), None)]),
        class(
            "Derived",
            Some("Base"),
            vec![canonical("Value", data(RbxValueType::Int64), Some("value64")),
                 alias("value64", data(RbxValueType::Int64), Some("Value"))],
        ),
    ]);
    assert!(db.is_consistent());
    let serialized = find_serialized_property_descriptor(&db, "Derived", "Value").unwrap();
    assert_eq!(serialized.name, "value64");
    let serialized = find_serialized_property_descriptor(&db, "Base", "Value").unwrap();
    assert_eq!(serialized.name, "Value");
}

#[test]
fn chain_of_depth_three_resolves_at_the_root() {
    let db = database(vec![
        class("D", Some("C"), vec![]),
        class("C", Some("B"), vec![]),
        class("B", Some("A"), vec![]),
        class("A", None, vec![canonical("Deep", data(RbxValueType::String), None)]),
    ]);
    assert!(db.is_consistent());
    let resolution = resolve_property(&db, "D", "Deep");
    assert_eq!(resolved_names(&resolution), Some(("Deep".to_owned(), "Deep".to_owned())));
    assert!(matches!(resolve_property(&db, "D", "Shallow"), Resolution::Unknown));
}

#[test]
fn empty_database_is_consistent_and_knows_nothing() {
    let db = database(vec![]);
    assert!(db.is_consistent());
    assert!(matches!(resolve_property(&db, "Part", "Name"), Resolution::Unknown));
    assert!(db.get_class("Part").is_none());
}

#[test]
fn missing_superclass_is_inconsistent() {
    let db = database(vec![class("Part", Some("BasePart"), vec![])]);
    assert!(!db.is_consistent());
}

#[test]
fn cyclic_hierarchy_is_inconsistent() {
    let db = database(vec![class("A", Some("B"), vec![]), class("B", Some("A"), vec![])]);
    assert!(!db.is_consistent());
    let db = database(vec![class("A", Some("A"), vec![])]);
    assert!(!db.is_consistent());
}

#[test]
fn longest_possible_chain_is_consistent() {
    let db = database(vec![
        class("A", Some("B"), vec![]),
        class("B", Some("C"), vec![]),
        class("C", None, vec![]),
    ]);
    assert!(db.is_consistent());
}

#[test]
fn dangling_canonical_name_is_inconsistent() {
    let db = database(vec![class(
        "Part",
        None,
        vec![alias("size", data(RbxValueType::Vector3), Some("Size"))],
    )]);
    assert!(!db.is_consistent());
    assert!(!db.classes[0].is_consistent());
}

#[test]
fn dangling_serialized_name_is_inconsistent() {
    let db = database(vec![class(
        "Part",
        None,
        vec![canonical("Size", data(RbxValueType::Vector3), Some("size"))],
    )]);
    assert!(!db.is_consistent());
}

#[test]
fn canonical_descriptor_with_canonical_name_is_inconsistent() {
    let mut descriptor = canonical("Size", data(RbxValueType::Vector3), None);
    descriptor.canonical_name = Some("Size".to_owned());
    let db = database(vec![class("Part", None, vec![descriptor])]);
    assert!(!db.is_consistent());
}

#[test]
fn get_class_and_get_property_descriptor_find_by_name() {
    let db = part_database();
    let part = db.get_class("BasePart").unwrap();
    assert_eq!(part.name, "BasePart");
    assert_eq!(db.class_index("Part"), Some(3));
    assert_eq!(db.class_index("Nothing"), None);
    let size = part.get_property_descriptor("Size").unwrap();
    assert_eq!(size.serialized_name.as_deref(), Some("size"));
    assert!(part.get_property_descriptor("Archivable").is_none());
    assert_eq!(part.property_index("BrickColor"), Some(2));
}

#[test]
fn first_of_two_classes_with_the_same_name_is_found() {
    let db = database(vec![
        class("Twin", None, vec![canonical("First", data(RbxValueType::Bool), None)]),
        class("Twin", None, vec![canonical("Second", data(RbxValueType::Bool), None)]),
    ]);
    assert_eq!(db.class_index("Twin"), Some(0));
    assert!(matches!(resolve_property(&db, "Twin", "Second"), Resolution::Unknown));
}
