//! Resolution of the active, fully configured set of lint rules for one run.
//!
//! Given a static catalog of rule descriptors and a user configuration
//! document (a generic JSON-like tree), this crate computes which rules are
//! enabled and with what rule-specific configuration. Presets named under
//! `extends` enable whole rule categories by default; entries under `rules`
//! override those defaults per rule. The result is ordered by rule name.

pub mod errors;
pub mod json;
pub mod overrides;
pub mod presets;
pub mod resolve;
pub mod keys;
pub mod laws;
pub mod text;

use vstd::prelude::*;

verus! {

/// Three-valued severity of a rule entry: `Off` disables a rule,
/// `Warn` and `Error` enable it.
#[derive(Clone, Copy, Debug, PartialEq, Eq, Structural)]
pub enum Severity {
    Off,
    Warn,
    Error,
}

impl Severity {
    /// A severity enables a rule exactly when it is not `Off`.
    pub open spec fn spec_is_enabled(self) -> bool {
        self != Severity::Off
    }

    #[verifier::when_used_as_spec(spec_is_enabled)]
    pub fn is_enabled(self) -> (r: bool)
        ensures
            r == self.spec_is_enabled(),
    {
        match self {
            Severity::Off => false,
            Severity::Warn => true,
            Severity::Error => true,
        }
    }
}

} // verus!
