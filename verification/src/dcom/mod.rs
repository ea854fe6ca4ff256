//! The dynamic cognitive object model.
//!
//! A note, a document or a computed view is a *cognitive object*: an
//! identity, timestamps, a schema-less bag of properties, tags, aliases,
//! outbound links and any number of physical sources.
pub(crate) mod ambient;
pub mod object;
pub mod property;
pub mod serialization;

pub use object::{CognitiveObject, ObjectId};
pub use property::{Property, PropertyValue};
pub use serialization::{MarkdownSource, SerializationSource};
