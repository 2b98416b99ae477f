//! Structural failures of a configuration document.
//!
//! Every failure carries the offending property name or raw value, so a
//! caller can report it. Unknown presets and an absent or oddly typed
//! `rules` property are deliberately not failures.

use vstd::prelude::*;

use crate::json::{JsonModel, JsonValue};

verus! {

/// The mathematical model of a resolution failure.
pub enum ErrorModel {
    /// A property that must be an array holds something else.
    PropertyNotArray(Seq<char>),
    /// A `rules` entry's value is neither a severity string nor a non-empty
    /// array.
    InvalidRuleValue(JsonModel),
    /// A severity token is outside the fixed vocabulary.
    InvalidSeverity(JsonModel),
}

/// A structural failure of the configuration document, with the offending
/// property name or raw value.
#[derive(Debug)]
pub enum ConfigError {
    PropertyNotArray(String),
    InvalidRuleValue(JsonValue),
    InvalidSeverity(JsonValue),
}

impl View for ConfigError {
    type V = ErrorModel;

    open spec fn view(&self) -> ErrorModel {
        match *self {
            ConfigError::PropertyNotArray(p) => ErrorModel::PropertyNotArray(p@),
            ConfigError::InvalidRuleValue(v) => ErrorModel::InvalidRuleValue(v@),
            ConfigError::InvalidSeverity(v) => ErrorModel::InvalidSeverity(v@),
        }
    }
}

} // verus!
