//! Errors of loading a workspace configuration, and the messages shown for them.

use vstd::prelude::*;

verus! {

/// `std::io::Error` is carried through unchanged.
#[verifier::external_type_specification]
#[verifier::external_body]
pub struct ExIoError(std::io::Error);

/// Why a configuration could not be loaded.
#[derive(Debug)]
pub enum ConfigError {
    /// No `reach.toml` in the current directory or any parent.
    NotFound,
    /// The file exists but could not be read.
    ReadError(std::io::Error),
    /// The file is not valid TOML of the expected shape.
    ParseError(String),
    /// The file was read but breaks the rules; every problem on its own line.
    ValidationError(String),
}

/// The message for a missing `reach.toml`.
pub open spec fn not_found_message() -> Seq<char> {
    "No reach.toml found. Are you inside a ReachPy workspace?\n  Run `reach create <name>` to create one."@
}

impl ConfigError {
    /// The message shown for this error.
    pub fn to_string(&self) -> (r: String)
        ensures
            match self {
                ConfigError::NotFound => r@ == not_found_message(),
                ConfigError::ReadError(e) => exists|d: String|
                    vstd::string::to_string_from_display_ensures::<std::io::Error>(e, d) && r@
                        == "Could not read reach.toml: "@ + d@,
                ConfigError::ParseError(s) => r@ == "reach.toml is invalid:\n  "@ + s@,
                ConfigError::ValidationError(s) => r@ == "reach.toml validation failed:\n"@ + s@,
            },
    {
        match self {
            ConfigError::NotFound => String::from_str(
                "No reach.toml found. Are you inside a ReachPy workspace?\n  Run `reach create <name>` to create one.",
            ),
            ConfigError::ReadError(e) => {
                let mut r = String::from_str("Could not read reach.toml: ");
                let detail = e.to_string();
                r.append(detail.as_str());
                assert(vstd::string::to_string_from_display_ensures::<std::io::Error>(e, detail));
                r
            },
            ConfigError::ParseError(s) => {
                let mut r = String::from_str("reach.toml is invalid:\n  ");
                r.append(s.as_str());
                r
            },
            ConfigError::ValidationError(s) => {
                let mut r = String::from_str("reach.toml validation failed:\n");
                r.append(s.as_str());
                r
            },
        }
    }
}

} // verus!
