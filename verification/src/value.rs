//! Property values and the types they can have.

use crate::shared_string::SharedBlob;
use crate::shared_string::SharedString;
use crate::text::str_eq;
use crate::tree::NodeId;
use rbx_dom_weak::RbxValue;
use rbx_dom_weak::RbxValueConversion;
use rbx_dom_weak::RbxValueType;
use vstd::prelude::*;

verus! {

/// `rbx_dom_weak::RbxValue`: a typed property value. Its content is opaque
/// here; values are carried through, typed and converted by `rbx_dom_weak`.
#[verifier::external_type_specification]
#[verifier::external_body]
pub struct ExRbxValue(RbxValue);

/// `rbx_dom_weak::RbxValueType`: the type tag of an `RbxValue`.
#[verifier::external_type_specification]
#[verifier::external_body]
pub struct ExRbxValueType(RbxValueType);

/// The position of a type tag among the variants of `RbxValueType`, counted
/// from zero in the order in which the enum declares them.
pub uninterp spec fn type_ordinal(value_type: RbxValueType) -> int;

/// The type tag that `RbxValue::get_type` reports for a value, or `None` for
/// the hidden placeholder variant, which has no type.
pub uninterp spec fn payload_type(value: RbxValue) -> Option<RbxValueType>;

/// What `RbxValue::try_convert_ref` makes of a value and a target type.
pub uninterp spec fn conversion_of(value: RbxValue, target: RbxValueType) -> Conversion;

/// Casts an `RbxValueType` to its discriminant. The enum is fieldless and
/// declares no explicit discriminants, so that is the variant's position.
#[verifier::external_body]
fn ordinal_of(value_type: RbxValueType) -> (ordinal: u8)
    ensures
        ordinal as int == type_ordinal(value_type),
{
    value_type as u8
}

/// Calls `RbxValue::get_type`, except on the hidden placeholder variant, on
/// which `get_type` panics.
#[verifier::external_body]
fn type_of_payload(value: &RbxValue) -> (value_type: Option<RbxValueType>)
    ensures
        value_type == payload_type(*value),
{
    match value {
        RbxValue::__Nonexhaustive => None,
        typed => Some(typed.get_type()),
    }
}

/// Calls `RbxValue::try_convert_ref`. The call panics on the hidden
/// placeholder variant, which has no type.
#[verifier::external_body]
fn convert_payload(value: &RbxValue, target: RbxValueType) -> (conversion: Conversion)
    requires
        payload_type(*value) is Some,
    ensures
        conversion == conversion_of(*value, target),
{
    match value.try_convert_ref(target) {
        RbxValueConversion::Converted(converted) => Conversion::Converted(converted),
        RbxValueConversion::Unnecessary => Conversion::Unnecessary,
        RbxValueConversion::Failed => Conversion::Failed,
    }
}

/// `RbxValue`'s derived `Clone`: the copy equals the value it was made from.
pub assume_specification[ <RbxValue as Clone>::clone ](value: &RbxValue) -> (copy: RbxValue)
    ensures
        copy == *value,
;

/// The result of trying to convert a value to another type.
pub enum Conversion {
    /// The value was converted; the new value is attached.
    Converted(RbxValue),
    /// The value already has the requested type.
    Unnecessary,
    /// The value cannot be converted to the requested type.
    Failed,
}

/// The types that a property value can have.
#[derive(Debug, Clone, Copy, PartialEq, Eq, Hash, Structural)]
pub enum ValueKind {
    BinaryString,
    BrickColor,
    Bool,
    CFrame,
    Color3,
    Color3uint8,
    ColorSequence,
    Content,
    Enum,
    Float32,
    Float64,
    Int32,
    Int64,
    NumberRange,
    NumberSequence,
    PhysicalProperties,
    Ray,
    Rect,
    Ref,
    SharedString,
    String,
    UDim,
    UDim2,
    Vector2,
    Vector2int16,
    Vector3,
    Vector3int16,
}

impl ValueKind {
    /// The kind at a position of `RbxValueType`'s variant list, if the
    /// position is that of a type.
    pub open spec fn spec_from_ordinal(ordinal: int) -> Option<ValueKind> {
        if ordinal == 0 {
            Some(ValueKind::BinaryString)
        } else if ordinal == 1 {
            Some(ValueKind::BrickColor)
        } else if ordinal == 2 {
            Some(ValueKind::Bool)
        } else if ordinal == 3 {
            Some(ValueKind::CFrame)
        } else if ordinal == 4 {
            Some(ValueKind::Color3)
        } else if ordinal == 5 {
            Some(ValueKind::Color3uint8)
        } else if ordinal == 6 {
            Some(ValueKind::ColorSequence)
        } else if ordinal == 7 {
            Some(ValueKind::Content)
        } else if ordinal == 8 {
            Some(ValueKind::Enum)
        } else if ordinal == 9 {
            Some(ValueKind::Float32)
        } else if ordinal == 10 {
            Some(ValueKind::Float64)
        } else if ordinal == 11 {
            Some(ValueKind::Int32)
        } else if ordinal == 12 {
            Some(ValueKind::Int64)
        } else if ordinal == 13 {
            Some(ValueKind::NumberRange)
        } else if ordinal == 14 {
            Some(ValueKind::NumberSequence)
        } else if ordinal == 15 {
            Some(ValueKind::PhysicalProperties)
        } else if ordinal == 16 {
            Some(ValueKind::Ray)
        } else if ordinal == 17 {
            Some(ValueKind::Rect)
        } else if ordinal == 18 {
            Some(ValueKind::Ref)
        } else if ordinal == 19 {
            Some(ValueKind::SharedString)
        } else if ordinal == 20 {
            Some(ValueKind::String)
        } else if ordinal == 21 {
            Some(ValueKind::UDim)
        } else if ordinal == 22 {
            Some(ValueKind::UDim2)
        } else if ordinal == 23 {
            Some(ValueKind::Vector2)
        } else if ordinal == 24 {
            Some(ValueKind::Vector2int16)
        } else if ordinal == 25 {
            Some(ValueKind::Vector3)
        } else if ordinal == 26 {
            Some(ValueKind::Vector3int16)
        } else {
            None
        }
    }

    /// The kind that a type tag of `rbx_dom_weak` stands for.
    pub open spec fn of_type(value_type: RbxValueType) -> Option<ValueKind> {
        Self::spec_from_ordinal(type_ordinal(value_type))
    }

    /// The kind at a position of `RbxValueType`'s variant list.
    pub fn from_ordinal(ordinal: u8) -> (kind: Option<ValueKind>)
        ensures
            kind == Self::spec_from_ordinal(ordinal as int),
    {
        match ordinal {
            0 => Some(ValueKind::BinaryString),
            1 => Some(ValueKind::BrickColor),
            2 => Some(ValueKind::Bool),
            3 => Some(ValueKind::CFrame),
            4 => Some(ValueKind::Color3),
            5 => Some(ValueKind::Color3uint8),
            6 => Some(ValueKind::ColorSequence),
            7 => Some(ValueKind::Content),
            8 => Some(ValueKind::Enum),
            9 => Some(ValueKind::Float32),
            10 => Some(ValueKind::Float64),
            11 => Some(ValueKind::Int32),
            12 => Some(ValueKind::Int64),
            13 => Some(ValueKind::NumberRange),
            14 => Some(ValueKind::NumberSequence),
            15 => Some(ValueKind::PhysicalProperties),
            16 => Some(ValueKind::Ray),
            17 => Some(ValueKind::Rect),
            18 => Some(ValueKind::Ref),
            19 => Some(ValueKind::SharedString),
            20 => Some(ValueKind::String),
            21 => Some(ValueKind::UDim),
            22 => Some(ValueKind::UDim2),
            23 => Some(ValueKind::Vector2),
            24 => Some(ValueKind::Vector2int16),
            25 => Some(ValueKind::Vector3),
            26 => Some(ValueKind::Vector3int16),
            _ => None,
        }
    }
}

impl ValueKind {
    /// The tag of the element that holds a value of this kind on the wire.
    /// Brick colors are written as 32-bit integers and share their tag.
    pub open spec fn spec_wire_tag(self) -> Seq<char> {
        match self {
            ValueKind::BinaryString => "BinaryString"@,
            ValueKind::BrickColor => "int"@,
            ValueKind::Bool => "bool"@,
            ValueKind::CFrame => "CoordinateFrame"@,
            ValueKind::Color3 => "Color3"@,
            ValueKind::Color3uint8 => "Color3uint8"@,
            ValueKind::ColorSequence => "ColorSequence"@,
            ValueKind::Content => "Content"@,
            ValueKind::Enum => "token"@,
            ValueKind::Float32 => "float"@,
            ValueKind::Float64 => "double"@,
            ValueKind::Int32 => "int"@,
            ValueKind::Int64 => "int64"@,
            ValueKind::NumberRange => "NumberRange"@,
            ValueKind::NumberSequence => "NumberSequence"@,
            ValueKind::PhysicalProperties => "PhysicalProperties"@,
            ValueKind::Ray => "Ray"@,
            ValueKind::Rect => "Rect2D"@,
            ValueKind::Ref => "Ref"@,
            ValueKind::SharedString => "SharedString"@,
            ValueKind::String => "string"@,
            ValueKind::UDim => "UDim"@,
            ValueKind::UDim2 => "UDim2"@,
            ValueKind::Vector2 => "Vector2"@,
            ValueKind::Vector2int16 => "Vector2int16"@,
            ValueKind::Vector3 => "Vector3"@,
            ValueKind::Vector3int16 => "Vector3int16"@,
        }
    }

    /// The tag of the element that holds a value of this kind on the wire.
    pub fn wire_tag(self) -> (tag: &'static str)
        ensures
            tag@ == self.spec_wire_tag(),
    {
        match self {
            ValueKind::BinaryString => "BinaryString",
            ValueKind::BrickColor => "int",
            ValueKind::Bool => "bool",
            ValueKind::CFrame => "CoordinateFrame",
            ValueKind::Color3 => "Color3",
            ValueKind::Color3uint8 => "Color3uint8",
            ValueKind::ColorSequence => "ColorSequence",
            ValueKind::Content => "Content",
            ValueKind::Enum => "token",
            ValueKind::Float32 => "float",
            ValueKind::Float64 => "double",
            ValueKind::Int32 => "int",
            ValueKind::Int64 => "int64",
            ValueKind::NumberRange => "NumberRange",
            ValueKind::NumberSequence => "NumberSequence",
            ValueKind::PhysicalProperties => "PhysicalProperties",
            ValueKind::Ray => "Ray",
            ValueKind::Rect => "Rect2D",
            ValueKind::Ref => "Ref",
            ValueKind::SharedString => "SharedString",
            ValueKind::String => "string",
            ValueKind::UDim => "UDim",
            ValueKind::UDim2 => "UDim2",
            ValueKind::Vector2 => "Vector2",
            ValueKind::Vector2int16 => "Vector2int16",
            ValueKind::Vector3 => "Vector3",
            ValueKind::Vector3int16 => "Vector3int16",
        }
    }

    /// The kind as which the content of an element with the given tag is
    /// read, or `None` for a tag that stands for no kind.
    pub open spec fn spec_from_wire_tag(tag: Seq<char>) -> Option<ValueKind> {
        if tag == "BinaryString"@ {
            Some(ValueKind::BinaryString)
        } else if tag == "bool"@ {
            Some(ValueKind::Bool)
        } else if tag == "CoordinateFrame"@ {
            Some(ValueKind::CFrame)
        } else if tag == "Color3"@ {
            Some(ValueKind::Color3)
        } else if tag == "Color3uint8"@ {
            Some(ValueKind::Color3uint8)
        } else if tag == "ColorSequence"@ {
            Some(ValueKind::ColorSequence)
        } else if tag == "Content"@ {
            Some(ValueKind::Content)
        } else if tag == "token"@ {
            Some(ValueKind::Enum)
        } else if tag == "float"@ {
            Some(ValueKind::Float32)
        } else if tag == "double"@ {
            Some(ValueKind::Float64)
        } else if tag == "int"@ {
            Some(ValueKind::Int32)
        } else if tag == "int64"@ {
            Some(ValueKind::Int64)
        } else if tag == "NumberRange"@ {
            Some(ValueKind::NumberRange)
        } else if tag == "NumberSequence"@ {
            Some(ValueKind::NumberSequence)
        } else if tag == "PhysicalProperties"@ {
            Some(ValueKind::PhysicalProperties)
        } else if tag == "Ray"@ {
            Some(ValueKind::Ray)
        } else if tag == "Rect2D"@ {
            Some(ValueKind::Rect)
        } else if tag == "Ref"@ {
            Some(ValueKind::Ref)
        } else if tag == "SharedString"@ {
            Some(ValueKind::SharedString)
        } else if tag == "string"@ {
            Some(ValueKind::String)
        } else if tag == "UDim"@ {
            Some(ValueKind::UDim)
        } else if tag == "UDim2"@ {
            Some(ValueKind::UDim2)
        } else if tag == "Vector2"@ {
            Some(ValueKind::Vector2)
        } else if tag == "Vector2int16"@ {
            Some(ValueKind::Vector2int16)
        } else if tag == "Vector3"@ {
            Some(ValueKind::Vector3)
        } else if tag == "Vector3int16"@ {
            Some(ValueKind::Vector3int16)
        } else {
            None
        }
    }

    /// Finds the kind as which the content of an element with the given tag
    /// is read.
    pub fn from_wire_tag(tag: &str) -> (kind: Option<ValueKind>)
        ensures
            kind == Self::spec_from_wire_tag(tag@),
    {
        if str_eq(tag, "BinaryString") {
            Some(ValueKind::BinaryString)
        } else if str_eq(tag, "bool") {
            Some(ValueKind::Bool)
        } else if str_eq(tag, "CoordinateFrame") {
            Some(ValueKind::CFrame)
        } else if str_eq(tag, "Color3") {
            Some(ValueKind::Color3)
        } else if str_eq(tag, "Color3uint8") {
            Some(ValueKind::Color3uint8)
        } else if str_eq(tag, "ColorSequence") {
            Some(ValueKind::ColorSequence)
        } else if str_eq(tag, "Content") {
            Some(ValueKind::Content)
        } else if str_eq(tag, "token") {
            Some(ValueKind::Enum)
        } else if str_eq(tag, "float") {
            Some(ValueKind::Float32)
        } else if str_eq(tag, "double") {
            Some(ValueKind::Float64)
        } else if str_eq(tag, "int") {
            Some(ValueKind::Int32)
        } else if str_eq(tag, "int64") {
            Some(ValueKind::Int64)
        } else if str_eq(tag, "NumberRange") {
            Some(ValueKind::NumberRange)
        } else if str_eq(tag, "NumberSequence") {
            Some(ValueKind::NumberSequence)
        } else if str_eq(tag, "PhysicalProperties") {
            Some(ValueKind::PhysicalProperties)
        } else if str_eq(tag, "Ray") {
            Some(ValueKind::Ray)
        } else if str_eq(tag, "Rect2D") {
            Some(ValueKind::Rect)
        } else if str_eq(tag, "Ref") {
            Some(ValueKind::Ref)
        } else if str_eq(tag, "SharedString") {
            Some(ValueKind::SharedString)
        } else if str_eq(tag, "string") {
            Some(ValueKind::String)
        } else if str_eq(tag, "UDim") {
            Some(ValueKind::UDim)
        } else if str_eq(tag, "UDim2") {
            Some(ValueKind::UDim2)
        } else if str_eq(tag, "Vector2") {
            Some(ValueKind::Vector2)
        } else if str_eq(tag, "Vector2int16") {
            Some(ValueKind::Vector2int16)
        } else if str_eq(tag, "Vector3") {
            Some(ValueKind::Vector3)
        } else if str_eq(tag, "Vector3int16") {
            Some(ValueKind::Vector3int16)
        } else {
            None
        }
    }

    /// Reading undoes writing: the tag under which a kind is written is read
    /// as that kind, except that a brick color, which is written as a 32-bit
    /// integer, is read as one. And a tag that is read as a kind is the tag
    /// under which that kind is written.
    pub proof fn lemma_wire_tag_round_trip(self, tag: Seq<char>)
        ensures
            Self::spec_from_wire_tag(self.spec_wire_tag()) == Some(
                if self == ValueKind::BrickColor {
                    ValueKind::Int32
                } else {
                    self
                },
            ),
            Self::spec_from_wire_tag(tag) == Some(self) ==> self.spec_wire_tag() == tag,
    {
        reveal_strlit("BinaryString");
        reveal_strlit("bool");
        reveal_strlit("CoordinateFrame");
        reveal_strlit("Color3");
        reveal_strlit("Color3uint8");
        reveal_strlit("ColorSequence");
        reveal_strlit("Content");
        reveal_strlit("token");
        reveal_strlit("float");
        reveal_strlit("double");
        reveal_strlit("int");
        reveal_strlit("int64");
        reveal_strlit("NumberRange");
        reveal_strlit("NumberSequence");
        reveal_strlit("PhysicalProperties");
        reveal_strlit("Ray");
        reveal_strlit("Rect2D");
        reveal_strlit("Ref");
        reveal_strlit("SharedString");
        reveal_strlit("string");
        reveal_strlit("UDim");
        reveal_strlit("UDim2");
        reveal_strlit("Vector2");
        reveal_strlit("Vector2int16");
        reveal_strlit("Vector3");
        reveal_strlit("Vector3int16");
        // the tags differ in length, or in the character at one position
        assert("BinaryString"@.len() == 12);
        assert("bool"@.len() == 4);
        assert("CoordinateFrame"@.len() == 15);
        assert("Color3"@.len() == 6);
        assert("Color3uint8"@.len() == 11);
        assert("ColorSequence"@.len() == 13);
        assert("Content"@.len() == 7);
        assert("token"@.len() == 5);
        assert("float"@.len() == 5);
        assert("double"@.len() == 6);
        assert("int"@.len() == 3);
        assert("int64"@.len() == 5);
        assert("NumberRange"@.len() == 11);
        assert("NumberSequence"@.len() == 14);
        assert("PhysicalProperties"@.len() == 18);
        assert("Ray"@.len() == 3);
        assert("Rect2D"@.len() == 6);
        assert("Ref"@.len() == 3);
        assert("SharedString"@.len() == 12);
        assert("string"@.len() == 6);
        assert("UDim"@.len() == 4);
        assert("UDim2"@.len() == 5);
        assert("Vector2"@.len() == 7);
        assert("Vector2int16"@.len() == 12);
        assert("Vector3"@.len() == 7);
        assert("Vector3int16"@.len() == 12);
        assert("int"@[0] == 'i');
        assert("Ray"@[0] == 'R');
        assert("Ref"@[0] == 'R');
        assert("bool"@[0] == 'b');
        assert("UDim"@[0] == 'U');
        assert("token"@[0] == 't');
        assert("float"@[0] == 'f');
        assert("int64"@[0] == 'i');
        assert("UDim2"@[0] == 'U');
        assert("Color3"@[0] == 'C');
        assert("double"@[0] == 'd');
        assert("Rect2D"@[0] == 'R');
        assert("string"@[0] == 's');
        assert("Content"@[0] == 'C');
        assert("Vector2"@[0] == 'V');
        assert("Vector3"@[0] == 'V');
        assert("Color3uint8"@[0] == 'C');
        assert("NumberRange"@[0] == 'N');
        assert("BinaryString"@[0] == 'B');
        assert("SharedString"@[0] == 'S');
        assert("Vector2int16"@[0] == 'V');
        assert("Vector3int16"@[0] == 'V');
        assert("Ray"@[1] == 'a');
        assert("Ref"@[1] == 'e');
        assert("Vector2"@[6] == '2');
        assert("Vector3"@[6] == '3');
        assert("Vector2int16"@[6] == '2');
        assert("Vector3int16"@[6] == '3');
    }
}


/// A type tag of `rbx_dom_weak` together with the kind it stands for.
#[derive(Debug, Clone, Copy)]
pub struct DataType {
    tag: RbxValueType,
    kind: ValueKind,
}

impl DataType {
    #[verifier::type_invariant]
    spec fn kind_matches(self) -> bool {
        ValueKind::of_type(self.tag) == Some(self.kind)
    }

    /// The type tag as `rbx_dom_weak` has it.
    pub closed spec fn spec_tag(self) -> RbxValueType {
        self.tag
    }

    /// The kind that the tag stands for.
    pub closed spec fn spec_kind(self) -> ValueKind {
        self.kind
    }

    /// Wraps a type tag. Returns `None` for the hidden placeholder variant,
    /// which stands for no type.
    pub fn new(tag: RbxValueType) -> (data_type: Option<DataType>)
        ensures
            match data_type {
                Some(t) => t.spec_tag() == tag && ValueKind::of_type(tag) == Some(t.spec_kind()),
                None => ValueKind::of_type(tag) is None,
            },
    {
        match ValueKind::from_ordinal(ordinal_of(tag)) {
            Some(kind) => Some(DataType { tag, kind }),
            None => None,
        }
    }

    /// The type tag as `rbx_dom_weak` has it.
    pub fn tag(&self) -> (tag: RbxValueType)
        ensures
            tag == self.spec_tag(),
    {
        self.tag
    }

    /// The kind that the tag stands for.
    pub fn kind(&self) -> (kind: ValueKind)
        ensures
            kind == self.spec_kind(),
            ValueKind::of_type(self.spec_tag()) == Some(kind),
    {
        proof {
            use_type_invariant(self);
        }
        self.kind
    }
}

/// The kind of a value of `rbx_dom_weak`, where it has a type.
pub open spec fn payload_kind(payload: RbxValue) -> Option<ValueKind> {
    match payload_type(payload) {
        Some(value_type) => ValueKind::of_type(value_type),
        None => None,
    }
}

/// A value of `rbx_dom_weak` that is neither a reference nor a shared
/// string, together with its kind. References and shared strings are held
/// by [`Value`] itself, since the encoder reads what is inside them.
#[derive(Debug)]
pub struct DataValue {
    payload: RbxValue,
    kind: ValueKind,
}

impl DataValue {
    #[verifier::type_invariant]
    spec fn well_typed(self) -> bool {
        self.typed()
    }

    /// Whether a value of `rbx_dom_weak` can be held as plain data: it has a
    /// type, and is neither a reference nor a shared string.
    pub open spec fn admits(payload: RbxValue) -> bool {
        match payload_kind(payload) {
            Some(kind) => kind != ValueKind::Ref && kind != ValueKind::SharedString,
            None => false,
        }
    }

    /// The data value that holds `payload` under `kind`.
    pub closed spec fn spec_new(payload: RbxValue, kind: ValueKind) -> DataValue {
        DataValue { payload, kind }
    }

    /// The value as `rbx_dom_weak` has it.
    pub closed spec fn spec_payload(self) -> RbxValue {
        self.payload
    }

    /// The kind of the value.
    pub closed spec fn spec_kind(self) -> ValueKind {
        self.kind
    }

    /// Whether the value holds a payload that can be held as plain data,
    /// under the kind of that payload. Every data value in executable code
    /// does.
    pub closed spec fn typed(self) -> bool {
        Self::admits(self.payload) && payload_kind(self.payload) == Some(self.kind)
    }

    /// A typed data value is the data value of its payload.
    pub proof fn lemma_typed(self)
        requires
            self.typed(),
        ensures
            Self::admits(self.spec_payload()),
            payload_kind(self.spec_payload()) == Some(self.spec_kind()),
            self == Self::spec_new(self.spec_payload(), self.spec_kind()),
            self.spec_kind() != ValueKind::Ref,
            self.spec_kind() != ValueKind::SharedString,
    {
    }

    /// Wraps a value of `rbx_dom_weak`. Returns `None` for a reference, a
    /// shared string and the hidden placeholder variant.
    pub fn new(payload: RbxValue) -> (value: Option<DataValue>)
        ensures
            match value {
                Some(v) => {
                    &&& Self::admits(payload)
                    &&& v == Self::spec_new(payload, payload_kind(payload).unwrap())
                    &&& v.spec_payload() == payload
                    &&& v.spec_kind() == payload_kind(payload).unwrap()
                },
                None => !Self::admits(payload),
            },
    {
        let value_type = match type_of_payload(&payload) {
            Some(value_type) => value_type,
            None => {
                return None;
            },
        };
        match ValueKind::from_ordinal(ordinal_of(value_type)) {
            Some(ValueKind::Ref) => None,
            Some(ValueKind::SharedString) => None,
            Some(kind) => Some(DataValue { payload, kind }),
            None => None,
        }
    }

    /// The value as `rbx_dom_weak` has it.
    pub fn payload(&self) -> (payload: &RbxValue)
        ensures
            *payload == self.spec_payload(),
    {
        &self.payload
    }

    /// The kind of the value.
    pub fn kind(&self) -> (kind: ValueKind)
        ensures
            kind == self.spec_kind(),
            kind != ValueKind::Ref,
            kind != ValueKind::SharedString,
            payload_kind(self.spec_payload()) == Some(kind),
            self.typed(),
    {
        proof {
            use_type_invariant(self);
        }
        self.kind
    }

    /// What a conversion leaves to be written: `None` where the conversion
    /// failed, `Some(None)` where the value has the type already and is used
    /// as it is, and the converted value otherwise. A converted value that
    /// cannot be held as plain data counts as a failure.
    pub open spec fn settled(conversion: Conversion) -> Option<Option<DataValue>> {
        match conversion {
            Conversion::Unnecessary => Some(None),
            Conversion::Converted(converted) => if Self::admits(converted) {
                Some(Some(Self::spec_new(converted, payload_kind(converted).unwrap())))
            } else {
                None
            },
            Conversion::Failed => None,
        }
    }

    /// What `rbx_dom_weak` makes of this value when asked for the type
    /// `target`, settled as [`DataValue::settled`] says.
    pub open spec fn spec_convert(self, target: DataType) -> Option<Option<DataValue>> {
        Self::settled(conversion_of(self.spec_payload(), target.spec_tag()))
    }

    /// Settles the result of a conversion: tells failure, no change and a
    /// converted value apart, and wraps the converted value.
    pub fn settle(conversion: Conversion) -> (settled: Option<Option<DataValue>>)
        ensures
            settled == Self::settled(conversion),
    {
        match conversion {
            Conversion::Unnecessary => Some(None),
            Conversion::Converted(converted) => match DataValue::new(converted) {
                Some(value) => Some(Some(value)),
                None => None,
            },
            Conversion::Failed => None,
        }
    }

    /// Converts this value to the type `target`. Returns `None` where that
    /// is not supported, `Some(None)` where the value has the type already
    /// and is to be used as it is, and the converted value otherwise.
    pub fn convert(&self, target: &DataType) -> (converted: Option<Option<DataValue>>)
        ensures
            converted == self.spec_convert(*target),
    {
        proof {
            use_type_invariant(self);
        }
        Self::settle(convert_payload(&self.payload, target.tag()))
    }

    /// A copy of this value.
    pub fn duplicate(&self) -> (copy: DataValue)
        ensures
            copy == *self,
    {
        proof {
            use_type_invariant(self);
        }
        DataValue { payload: self.payload.clone(), kind: self.kind }
    }
}

/// A property value.
#[derive(Debug)]
pub enum Value {
    /// A reference to another instance, or to none.
    Ref(Option<NodeId>),
    /// A shared binary blob.
    SharedString(SharedString),
    /// Any other value.
    Data(DataValue),
}

/// What a [`Value`] holds.
#[verifier::ext_equal]
pub enum ValueView {
    Ref(Option<NodeId>),
    SharedString(SharedBlob),
    Data(DataValue),
}

impl ValueView {
    /// The kind of the value.
    pub open spec fn kind(self) -> ValueKind {
        match self {
            ValueView::Ref(_) => ValueKind::Ref,
            ValueView::SharedString(_) => ValueKind::SharedString,
            ValueView::Data(data) => data.spec_kind(),
        }
    }
}

impl View for Value {
    type V = ValueView;

    open spec fn view(&self) -> ValueView {
        match *self {
            Value::Ref(target) => ValueView::Ref(target),
            Value::SharedString(shared) => ValueView::SharedString(shared@),
            Value::Data(data) => ValueView::Data(data),
        }
    }
}

impl Value {
    /// The kind of the value.
    pub open spec fn spec_kind(self) -> ValueKind {
        match self {
            Value::Ref(_) => ValueKind::Ref,
            Value::SharedString(_) => ValueKind::SharedString,
            Value::Data(data) => data.spec_kind(),
        }
    }

    /// The kind of the value.
    pub fn kind(&self) -> (kind: ValueKind)
        ensures
            kind == self.spec_kind(),
            kind == self@.kind(),
    {
        match self {
            Value::Ref(_) => ValueKind::Ref,
            Value::SharedString(_) => ValueKind::SharedString,
            Value::Data(data) => data.kind(),
        }
    }
}

} // verus!
