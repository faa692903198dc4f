//! A deterministic, immutable registry of consensus validators: each
//! identifier gets a dense index given by the identifiers' sorted order.
pub mod laws;
pub mod order;
pub mod validators;

pub use validators::{Validator, ValidatorIndex, Validators};
