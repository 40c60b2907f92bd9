//! The declaration processor: annotation reading and field
//! classification.

pub mod attributes;
pub mod fields;
