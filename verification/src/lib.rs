//! Reflection-driven encoding and decoding of instance trees in the XML
//! model format.
//!
//! [`serializer::encode_internal`] turns a forest of instances into a
//! deterministic stream of [`wire::WireEvent`]s, and
//! [`deserializer::decode_internal`] turns such a stream back into a tree.
//! Property names and types are mapped through a
//! [`database::ReflectionDatabase`]; how properties that the database does
//! not know are treated is chosen with [`serializer::EncodeOptions`] and
//! [`deserializer::DecodeOptions`].
//!
//! The content of a value's element is not read or written here: values are
//! carried as [`wire::WireEvent::Payload`], and converted between types by
//! `rbx_dom_weak`.
//!
//! What the encoder emits is defined in [`emission`] as a function of the
//! tree, and what the decoder builds in [`deserializer`] as a function of
//! the events. [`roundtrip`] proves that decoding undoes encoding where
//! reflection is off.

pub mod api_dump;
pub mod database;
pub mod deserializer;
pub mod emission;
pub mod error;
pub mod order;
pub mod parse;
pub mod plan;
pub mod resolver;
pub mod roundtrip;
pub mod serializer;
pub mod shared_string;
pub mod state;
pub mod text;
pub mod tree;
pub mod value;
pub mod wire;
