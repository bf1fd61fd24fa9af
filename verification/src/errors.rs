//! Validation errors.
//!
//! Every condition that the engine must never see — duplicate names,
//! self/mutual/cyclic dependencies, missing dependency targets, a
//! missing contact address on an exposed app — is reported as a typed
//! error before any engine command is issued.

use vstd::prelude::*;

verus! {

/// A fatal validation error, raised before any engine call is made.
#[derive(Debug)]
pub enum ValidationError {
    /// Two apps in the project share a name (the payload).
    DuplicateName(String),
    /// The named app depends on itself.
    SelfDependency(String),
    /// The two named apps depend on each other directly.
    MutualDependency(String, String),
    /// The first named app depends on the second, which is not in the set.
    MissingDependency(String, String),
    /// The named app declares domains but no contact email.
    MissingEmail(String),
    /// The named app takes part in a dependency cycle.
    CircularDependency(String),
}

impl ValidationError {
    /// A short human-readable description of the error.
    pub fn message(&self) -> (r: String)
        ensures
            r@.len() > 0,
    {
        proof {
            reveal_strlit("duplicate app name: ");
            reveal_strlit("app depends on itself: ");
            reveal_strlit("apps depend on each other: ");
            reveal_strlit(" and ");
            reveal_strlit("app depends on a missing app: ");
            reveal_strlit(" -> ");
            reveal_strlit("app with domains has no email: ");
            reveal_strlit("circular dependency involving: ");
        }
        match self {
            ValidationError::DuplicateName(n) => {
                String::from_str("duplicate app name: ").concat(n.as_str())
            },
            ValidationError::SelfDependency(n) => {
                String::from_str("app depends on itself: ").concat(n.as_str())
            },
            ValidationError::MutualDependency(a, b) => {
                String::from_str("apps depend on each other: ")
                    .concat(a.as_str())
                    .concat(" and ")
                    .concat(b.as_str())
            },
            ValidationError::MissingDependency(a, d) => {
                String::from_str("app depends on a missing app: ")
                    .concat(a.as_str())
                    .concat(" -> ")
                    .concat(d.as_str())
            },
            ValidationError::MissingEmail(n) => {
                String::from_str("app with domains has no email: ").concat(n.as_str())
            },
            ValidationError::CircularDependency(n) => {
                String::from_str("circular dependency involving: ").concat(n.as_str())
            },
        }
    }
}

} // verus!
