//! A verified JSON redactor: walks a JSON document, classifies scalar fields
//! under qualifying keys (phone / email / personal name / number / unknown),
//! normalizes their values, and replaces them with short stable tokens drawn
//! from a deduplicating, insertion-ordered registry, while collecting a
//! sorted, deduplicated audit log of every visited scalar field.

pub mod audit;
pub mod classify;
pub mod laws;
pub mod registry;
pub mod text;
pub mod tokens;
pub mod walk;
