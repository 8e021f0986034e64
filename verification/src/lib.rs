//! A typed record model for the Graphical Fragment Assembly (GFA) text
//! format: segments, links, containments and paths, together with the typed
//! optional fields that may trail each record and their canonical textual
//! encoding and decoding.
//!
//! The model is value-oriented: a driving reader splits a file into fields
//! and hands them here; this crate owns the grammar of each field, renders
//! every value back to its canonical text, and guarantees that decoding a
//! rendered value restores it exactly.

pub mod collection;
pub mod error;
pub mod optfield;
pub mod orientation;
pub mod records;
pub mod text;

pub use collection::GFA;
pub use collection::GFAParsingConfig;
pub use error::GfaError;
pub use optfield::FieldContent;
pub use optfield::OptionalField;
pub use optfield::OptionalFieldValue;
pub use orientation::Orientation;
pub use records::Containment;
pub use records::Header;
pub use records::Line;
pub use records::Link;
pub use records::Path;
pub use records::Segment;
