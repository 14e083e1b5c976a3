//! The ways in which encoding fails.

use crate::value::ValueKind;
use vstd::prelude::*;

verus! {

/// Why a tree could not be encoded.
#[derive(Debug, PartialEq, Eq)]
pub enum EncodeError {
    /// A property of the tree is not known to the reflection database, and
    /// the options ask for an error in that case.
    UnknownProperty { class_name: String, property_name: String },
    /// The reflection database gives a property a type to which the value in
    /// the tree cannot be converted.
    UnsupportedPropertyConversion {
        class_name: String,
        property_name: String,
        expected_type: ValueKind,
        actual_type: ValueKind,
    },
}

/// What an [`EncodeError`] holds.
pub enum EncodeErrorView {
    UnknownProperty { class_name: Seq<char>, property_name: Seq<char> },
    UnsupportedPropertyConversion {
        class_name: Seq<char>,
        property_name: Seq<char>,
        expected_type: ValueKind,
        actual_type: ValueKind,
    },
}

impl View for EncodeError {
    type V = EncodeErrorView;

    open spec fn view(&self) -> EncodeErrorView {
        match *self {
            EncodeError::UnknownProperty {
                class_name,
                property_name,
            } => EncodeErrorView::UnknownProperty {
                class_name: class_name@,
                property_name: property_name@,
            },
            EncodeError::UnsupportedPropertyConversion {
                class_name,
                property_name,
                expected_type,
                actual_type,
            } => EncodeErrorView::UnsupportedPropertyConversion {
                class_name: class_name@,
                property_name: property_name@,
                expected_type,
                actual_type,
            },
        }
    }
}

/// Why a document could not be decoded.
#[derive(Debug, PartialEq, Eq)]
pub enum DecodeError {
    /// The event at `position` does not fit the shape of a document, or the
    /// document ends there too early.
    Malformed { position: usize },
    /// A property element carries a tag that stands for no type.
    UnknownTag { tag: String },
    /// A reference names a referent that no item of the document carries.
    UnresolvedReferent { referent: String },
    /// A property names a shared string that the dictionary does not list,
    /// or whose entry is no base64 text.
    UnresolvedSharedString { md5: String },
    /// A property of the document is not known to the reflection database,
    /// and the options ask for an error in that case.
    UnknownProperty { class_name: String, property_name: String },
    /// The reflection database gives a property a type to which the value in
    /// the document cannot be converted.
    UnsupportedPropertyConversion {
        class_name: String,
        property_name: String,
        expected_type: ValueKind,
        actual_type: ValueKind,
    },
}

/// What a [`DecodeError`] holds.
pub enum DecodeErrorView {
    Malformed { position: usize },
    UnknownTag { tag: Seq<char> },
    UnresolvedReferent { referent: Seq<char> },
    UnresolvedSharedString { md5: Seq<char> },
    UnknownProperty { class_name: Seq<char>, property_name: Seq<char> },
    UnsupportedPropertyConversion {
        class_name: Seq<char>,
        property_name: Seq<char>,
        expected_type: ValueKind,
        actual_type: ValueKind,
    },
}

impl View for DecodeError {
    type V = DecodeErrorView;

    open spec fn view(&self) -> DecodeErrorView {
        match *self {
            DecodeError::Malformed { position } => DecodeErrorView::Malformed { position },
            DecodeError::UnknownTag { tag } => DecodeErrorView::UnknownTag { tag: tag@ },
            DecodeError::UnresolvedReferent { referent } => DecodeErrorView::UnresolvedReferent {
                referent: referent@,
            },
            DecodeError::UnresolvedSharedString {
                md5,
            } => DecodeErrorView::UnresolvedSharedString { md5: md5@ },
            DecodeError::UnknownProperty {
                class_name,
                property_name,
            } => DecodeErrorView::UnknownProperty {
                class_name: class_name@,
                property_name: property_name@,
            },
            DecodeError::UnsupportedPropertyConversion {
                class_name,
                property_name,
                expected_type,
                actual_type,
            } => DecodeErrorView::UnsupportedPropertyConversion {
                class_name: class_name@,
                property_name: property_name@,
                expected_type,
                actual_type,
            },
        }
    }
}

} // verus!
