//! What is done with one property of an instance: whether it is left out,
//! written, and then under which name and with which value, or refused.

use crate::database::PropertyDescriptor;
use crate::database::PropertyType;
use crate::database::ReflectionDatabase;
use crate::error::EncodeError;
use crate::error::EncodeErrorView;
use crate::resolver::Lookup;
use crate::resolver::Resolution;
use crate::resolver::resolve_property;
use crate::serializer::EncodePropertyBehavior;
use crate::tree::Property;
use crate::tree::PropertyView;
use crate::value::DataType;
use crate::value::DataValue;
use crate::value::Value;
use crate::value::ValueKind;
use crate::value::ValueView;
use vstd::prelude::*;

verus! {

/// What is done with a property.
pub enum PropertyPlan {
    /// The property is left out of the document.
    Skip,
    /// The property is written under `name` with the value `value`.
    Write { name: Seq<char>, value: ValueView },
    /// The encoding fails with this error.
    Fail(EncodeErrorView),
}

/// The value that is written for a property: the one stored in the tree, or
/// one converted from it.
pub enum PlannedValue<'a> {
    Stored(&'a Value),
    Converted(DataValue),
}

impl<'a> PlannedValue<'a> {
    /// The value that is written.
    pub open spec fn value(self) -> ValueView {
        match self {
            PlannedValue::Stored(value) => value@,
            PlannedValue::Converted(data) => ValueView::Data(data),
        }
    }
}

/// What the encoder does with a property.
pub enum PlannedProperty<'a> {
    /// The property is left out of the document.
    Skip,
    /// The property is written under `name` with the value `value`.
    Write { name: &'a str, value: PlannedValue<'a> },
    /// The encoding fails with this error.
    Fail(EncodeError),
}

impl<'a> View for PlannedProperty<'a> {
    type V = PropertyPlan;

    open spec fn view(&self) -> PropertyPlan {
        match *self {
            PlannedProperty::Skip => PropertyPlan::Skip,
            PlannedProperty::Write { name, value } => PropertyPlan::Write {
                name: name@,
                value: value.value(),
            },
            PlannedProperty::Fail(error) => PropertyPlan::Fail(error@),
        }
    }
}

/// The value that stands for `value` under the type `target`: the value
/// itself where it has that type, a converted value where `rbx_dom_weak`
/// converts it, and `None` where the conversion is not supported.
/// References and shared strings convert to their own type only.
pub open spec fn converted_value(value: ValueView, target: DataType) -> Option<ValueView> {
    match value {
        ValueView::Data(data) => match data.spec_convert(target) {
            None => None,
            Some(None) => Some(value),
            Some(Some(converted)) => Some(ValueView::Data(converted)),
        },
        _ => if value.kind() == target.spec_kind() {
            Some(value)
        } else {
            None
        },
    }
}

/// The error for a property that the database does not know.
pub open spec fn unknown_property(
    class_name: Seq<char>,
    property: PropertyView,
) -> EncodeErrorView {
    EncodeErrorView::UnknownProperty { class_name, property_name: property.name }
}

/// The error for a property whose value cannot take the type `expected`.
pub open spec fn unsupported_conversion(
    class_name: Seq<char>,
    property: PropertyView,
    expected: ValueKind,
) -> EncodeErrorView {
    EncodeErrorView::UnsupportedPropertyConversion {
        class_name,
        property_name: property.name,
        expected_type: expected,
        actual_type: property.value.kind(),
    }
}

/// What is done with a property that the class hierarchy does not know, or
/// that is not looked up at all: it is left out, written as it is stored, or
/// refused, as the behavior says.
pub open spec fn unknown_plan(
    behavior: EncodePropertyBehavior,
    class_name: Seq<char>,
    property: PropertyView,
) -> PropertyPlan {
    match behavior {
        EncodePropertyBehavior::IgnoreUnknown => PropertyPlan::Skip,
        EncodePropertyBehavior::WriteUnknown
        | EncodePropertyBehavior::NoReflection => PropertyPlan::Write {
            name: property.name,
            value: property.value,
        },
        EncodePropertyBehavior::ErrorOnUnknown => PropertyPlan::Fail(
            unknown_property(class_name, property),
        ),
    }
}

/// What is done with a property whose serialized descriptor is `descriptor`.
///
/// Where the descriptor's type is not implemented, the property counts as
/// unknown, except that it is written under the descriptor's name. Otherwise
/// the value is converted to the descriptor's type and written under the
/// descriptor's name, or refused where it cannot be converted.
pub open spec fn resolved_plan(
    behavior: EncodePropertyBehavior,
    class_name: Seq<char>,
    property: PropertyView,
    descriptor: PropertyDescriptor,
) -> PropertyPlan {
    match descriptor.value_type {
        PropertyType::UnimplementedType(_) => match behavior {
            EncodePropertyBehavior::IgnoreUnknown => PropertyPlan::Skip,
            EncodePropertyBehavior::WriteUnknown
            | EncodePropertyBehavior::NoReflection => PropertyPlan::Write {
                name: descriptor.name@,
                value: property.value,
            },
            EncodePropertyBehavior::ErrorOnUnknown => PropertyPlan::Fail(
                unknown_property(class_name, property),
            ),
        },
        PropertyType::Data(target) => match converted_value(property.value, target) {
            Some(value) => PropertyPlan::Write { name: descriptor.name@, value },
            None => PropertyPlan::Fail(
                unsupported_conversion(class_name, property, target.spec_kind()),
            ),
        },
        PropertyType::Enum(_) => if property.value.kind() == ValueKind::Enum {
            PropertyPlan::Write { name: descriptor.name@, value: property.value }
        } else {
            PropertyPlan::Fail(unsupported_conversion(class_name, property, ValueKind::Enum))
        },
    }
}

/// What is done with a property of an instance of the class `class_name`.
///
/// With reflection off, every property is written as it is stored.
/// Otherwise the property is resolved in the database: a property with a
/// canonical form is treated as its serialized descriptor says, one that is
/// known to have no canonical form is always left out, and one that is
/// unknown is treated as the behavior says.
pub open spec fn property_plan(
    database: &ReflectionDatabase,
    behavior: EncodePropertyBehavior,
    class_name: Seq<char>,
    property: PropertyView,
) -> PropertyPlan {
    if behavior == EncodePropertyBehavior::NoReflection {
        unknown_plan(behavior, class_name, property)
    } else {
        match database.lookup(class_name, property.name) {
            Lookup::Resolved { class, canonical, serialized } => resolved_plan(
                behavior,
                class_name,
                property,
                database.classes@[class].properties@[serialized],
            ),
            Lookup::Unrepresentable => PropertyPlan::Skip,
            Lookup::Unknown => unknown_plan(behavior, class_name, property),
        }
    }
}

/// What is done with a property that a document gives for an instance of
/// the class `class_name`: the mirror image of [`property_plan`]. The
/// property is treated as its canonical descriptor says, so that it takes
/// its canonical name and type.
pub open spec fn canonical_plan(
    database: &ReflectionDatabase,
    behavior: EncodePropertyBehavior,
    class_name: Seq<char>,
    property: PropertyView,
) -> PropertyPlan {
    if behavior == EncodePropertyBehavior::NoReflection {
        unknown_plan(behavior, class_name, property)
    } else {
        match database.lookup(class_name, property.name) {
            Lookup::Resolved { class, canonical, serialized } => resolved_plan(
                behavior,
                class_name,
                property,
                database.classes@[class].properties@[canonical],
            ),
            Lookup::Unrepresentable => PropertyPlan::Skip,
            Lookup::Unknown => unknown_plan(behavior, class_name, property),
        }
    }
}

impl<'a> PlannedProperty<'a> {
    /// Whether a stored value that this plan writes is the value of
    /// `property`.
    pub open spec fn stores(self, property: &Property) -> bool {
        self matches PlannedProperty::Write { name, value: PlannedValue::Stored(stored) }
            ==> *stored == property.value
    }
}

/// Converts a value to the type `target`.
pub fn convert_value<'a>(value: &'a Value, target: &DataType) -> (converted: Option<
    PlannedValue<'a>,
>)
    ensures
        match converted {
            Some(planned) => converted_value(value@, *target) == Some(planned.value()),
            None => converted_value(value@, *target) is None,
        },
        converted matches Some(PlannedValue::Stored(stored)) ==> *stored == *value,
{
    match value {
        Value::Data(data) => match data.convert(target) {
            None => None,
            Some(None) => Some(PlannedValue::Stored(value)),
            Some(Some(converted)) => Some(PlannedValue::Converted(converted)),
        },
        Value::Ref(_) => match target.kind() {
            ValueKind::Ref => Some(PlannedValue::Stored(value)),
            _ => None,
        },
        Value::SharedString(_) => match target.kind() {
            ValueKind::SharedString => Some(PlannedValue::Stored(value)),
            _ => None,
        },
    }
}

fn unknown_property_error(class_name: &str, property: &Property) -> (error: EncodeError)
    ensures
        error@ == unknown_property(class_name@, property@),
{
    EncodeError::UnknownProperty {
        class_name: String::from_str(class_name),
        property_name: property.name.clone(),
    }
}

fn unsupported_conversion_error(
    class_name: &str,
    property: &Property,
    expected: ValueKind,
) -> (error:
    EncodeError)
    ensures
        error@ == unsupported_conversion(class_name@, property@, expected),
{
    EncodeError::UnsupportedPropertyConversion {
        class_name: String::from_str(class_name),
        property_name: property.name.clone(),
        expected_type: expected,
        actual_type: property.value.kind(),
    }
}

/// Decides what is done with a property that the class hierarchy does not
/// know, or that is not looked up at all.
pub fn plan_unknown<'a>(
    behavior: EncodePropertyBehavior,
    class_name: &str,
    property: &'a Property,
) -> (plan: PlannedProperty<'a>)
    ensures
        plan@ == unknown_plan(behavior, class_name@, property@),
        plan.stores(property),
{
    match behavior {
        EncodePropertyBehavior::IgnoreUnknown => PlannedProperty::Skip,
        EncodePropertyBehavior::WriteUnknown
        | EncodePropertyBehavior::NoReflection => PlannedProperty::Write {
            name: property.name.as_str(),
            value: PlannedValue::Stored(&property.value),
        },
        EncodePropertyBehavior::ErrorOnUnknown => PlannedProperty::Fail(
            unknown_property_error(class_name, property),
        ),
    }
}

/// Decides what is done with a property whose serialized descriptor is
/// `descriptor`.
pub fn plan_resolved<'a>(
    behavior: EncodePropertyBehavior,
    class_name: &str,
    property: &'a Property,
    descriptor: &'a PropertyDescriptor,
) -> (plan: PlannedProperty<'a>)
    ensures
        plan@ == resolved_plan(behavior, class_name@, property@, *descriptor),
        plan.stores(property),
{
    match &descriptor.value_type {
        PropertyType::UnimplementedType(_) => match behavior {
            EncodePropertyBehavior::IgnoreUnknown => PlannedProperty::Skip,
            EncodePropertyBehavior::WriteUnknown
            | EncodePropertyBehavior::NoReflection => PlannedProperty::Write {
                name: descriptor.name.as_str(),
                value: PlannedValue::Stored(&property.value),
            },
            EncodePropertyBehavior::ErrorOnUnknown => PlannedProperty::Fail(
                unknown_property_error(class_name, property),
            ),
        },
        PropertyType::Data(target) => match convert_value(&property.value, target) {
            Some(value) => PlannedProperty::Write { name: descriptor.name.as_str(), value },
            None => PlannedProperty::Fail(
                unsupported_conversion_error(class_name, property, target.kind()),
            ),
        },
        PropertyType::Enum(_) => match property.value.kind() {
            ValueKind::Enum => PlannedProperty::Write {
                name: descriptor.name.as_str(),
                value: PlannedValue::Stored(&property.value),
            },
            _ => PlannedProperty::Fail(
                unsupported_conversion_error(class_name, property, ValueKind::Enum),
            ),
        },
    }
}

/// Decides what is done with a property of an instance of the class
/// `class_name`. The database is consulted, and must be consistent, unless
/// the behavior turns reflection off.
pub fn plan_property<'a>(
    database: &'a ReflectionDatabase,
    behavior: EncodePropertyBehavior,
    class_name: &str,
    property: &'a Property,
) -> (plan: PlannedProperty<'a>)
    requires
        behavior != EncodePropertyBehavior::NoReflection ==> database.wf(),
    ensures
        plan@ == property_plan(database, behavior, class_name@, property@),
        plan.stores(property),
{
    match behavior {
        EncodePropertyBehavior::NoReflection => plan_unknown(behavior, class_name, property),
        _ => match resolve_property(database, class_name, property.name.as_str()) {
            Resolution::Resolved { canonical: _, serialized } => plan_resolved(
                behavior,
                class_name,
                property,
                serialized,
            ),
            Resolution::Unrepresentable => PlannedProperty::Skip,
            Resolution::Unknown => plan_unknown(behavior, class_name, property),
        },
    }
}

/// Decides what is done with a property that a document gives for an
/// instance of the class `class_name`. The database is consulted, and must
/// be consistent, unless the behavior turns reflection off.
pub fn plan_canonical_property<'a>(
    database: &'a ReflectionDatabase,
    behavior: EncodePropertyBehavior,
    class_name: &str,
    property: &'a Property,
) -> (plan: PlannedProperty<'a>)
    requires
        behavior != EncodePropertyBehavior::NoReflection ==> database.wf(),
    ensures
        plan@ == canonical_plan(database, behavior, class_name@, property@),
        plan.stores(property),
{
    match behavior {
        EncodePropertyBehavior::NoReflection => plan_unknown(behavior, class_name, property),
        _ => match resolve_property(database, class_name, property.name.as_str()) {
            Resolution::Resolved { canonical, serialized: _ } => plan_resolved(
                behavior,
                class_name,
                property,
                canonical,
            ),
            Resolution::Unrepresentable => PlannedProperty::Skip,
            Resolution::Unknown => plan_unknown(behavior, class_name, property),
        },
    }
}

} // verus!
