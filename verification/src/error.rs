//! The errors of configuration loading and of a render.

use std::num::{ParseFloatError, ParseIntError};
use std::str::ParseBoolError;
use vstd::prelude::*;
use vstd::string::{to_string_from_display_ensures, StringExecFns};

verus! {

/// std's error for a malformed integer.
#[verifier::external_type_specification]
#[verifier::external_body]
pub struct ExParseIntError(ParseIntError);

/// std's error for a malformed boolean.
#[verifier::external_type_specification]
#[verifier::external_body]
pub struct ExParseBoolError(ParseBoolError);

/// std's error for a malformed floating-point number.
#[verifier::external_type_specification]
#[verifier::external_body]
pub struct ExParseFloatError(ParseFloatError);

/// std's I/O error.
#[verifier::external_type_specification]
#[verifier::external_body]
pub struct ExIoError(std::io::Error);

/// Why a configuration value could not be had.
#[derive(Debug)]
pub enum ConfigError {
    ParseF64(ParseFloatError),
    ParseBool(ParseBoolError),
    ParseU32(ParseIntError),
    FileNotFound(String),
    KeyNotFound(String),
    Io(std::io::Error),
}

/// Why a render failed.
#[derive(Debug)]
pub enum AppError {
    Config(ConfigError),
    Thread(std::io::Error),
    Io(std::io::Error),
}

/// `msg` is `prefix` followed by what `Display` writes for `e`.
pub open spec fn is_prefixed_display<T: std::fmt::Display>(msg: Seq<char>, prefix: Seq<char>, e: &T) -> bool {
    exists|d: String| to_string_from_display_ensures::<T>(e, d) && msg == prefix + d@
}

/// `prefix` followed by what `Display` writes for `e`.
fn prefixed_display<T: std::fmt::Display>(prefix: &str, e: &T) -> (r: String)
    ensures
        is_prefixed_display(r@, prefix@, e),
{
    let d = e.to_string();
    let mut r = String::from_str(prefix);
    r.append(d.as_str());
    assert(to_string_from_display_ensures::<T>(e, d) && r@ == prefix@ + d@);
    r
}

impl ConfigError {
    /// The human-readable description of the error.
    pub fn message(&self) -> (r: String)
        ensures
            match self {
                ConfigError::FileNotFound(path) => r@ == "Configuration file '"@ + path@
                    + "' not found"@,
                ConfigError::KeyNotFound(key) => r@ == "Configuration key '"@ + key@
                    + "' not found"@,
                ConfigError::ParseBool(e) => is_prefixed_display(
                    r@,
                    "Failed to parse boolean: "@,
                    e,
                ),
                ConfigError::ParseU32(e) => is_prefixed_display(
                    r@,
                    "Failed to parse integer: "@,
                    e,
                ),
                ConfigError::ParseF64(e) => is_prefixed_display(r@, "Failed to parse float: "@, e),
                ConfigError::Io(e) => is_prefixed_display(r@, "I/O error reading config: "@, e),
            },
    {
        match self {
            ConfigError::FileNotFound(path) => {
                let mut r = String::from_str("Configuration file '");
                r.append(path.as_str());
                r.append("' not found");
                r
            },
            ConfigError::KeyNotFound(key) => {
                let mut r = String::from_str("Configuration key '");
                r.append(key.as_str());
                r.append("' not found");
                r
            },
            ConfigError::ParseBool(e) => prefixed_display("Failed to parse boolean: ", e),
            ConfigError::ParseU32(e) => prefixed_display("Failed to parse integer: ", e),
            ConfigError::ParseF64(e) => prefixed_display("Failed to parse float: ", e),
            ConfigError::Io(e) => prefixed_display("I/O error reading config: ", e),
        }
    }
}

impl AppError {
    /// The human-readable description of the error.
    pub fn message(&self) -> (r: String)
        ensures
            match self {
                AppError::Thread(e) => is_prefixed_display(
                    r@,
                    "[Thread Failure] A rendering thread panicked "@,
                    e,
                ),
                AppError::Config(e) => exists|m: String|
                    r@ == "[Config Failure] "@ + m@ && #[trigger] e.message_spec(m),
                AppError::Io(e) => is_prefixed_display(r@, "[I/O Failure] "@, e),
            },
    {
        match self {
            AppError::Thread(e) => prefixed_display(
                "[Thread Failure] A rendering thread panicked ",
                e,
            ),
            AppError::Config(e) => {
                let m = e.message();
                let mut r = String::from_str("[Config Failure] ");
                r.append(m.as_str());
                assert(e.message_spec(m));
                r
            },
            AppError::Io(e) => prefixed_display("[I/O Failure] ", e),
        }
    }
}

impl ConfigError {
    /// `m` is a description that `message` may give of this error.
    pub open spec fn message_spec(&self, m: String) -> bool {
        match self {
            ConfigError::FileNotFound(path) => m@ == "Configuration file '"@ + path@
                + "' not found"@,
            ConfigError::KeyNotFound(key) => m@ == "Configuration key '"@ + key@ + "' not found"@,
            ConfigError::ParseBool(e) => is_prefixed_display(m@, "Failed to parse boolean: "@, e),
            ConfigError::ParseU32(e) => is_prefixed_display(m@, "Failed to parse integer: "@, e),
            ConfigError::ParseF64(e) => is_prefixed_display(m@, "Failed to parse float: "@, e),
            ConfigError::Io(e) => is_prefixed_display(m@, "I/O error reading config: "@, e),
        }
    }
}

impl From<std::io::Error> for AppError {
    fn from(e: std::io::Error) -> (r: Self) {
        AppError::Io(e)
    }
}

impl vstd::std_specs::convert::FromSpecImpl<std::io::Error> for AppError {
    open spec fn obeys_from_spec() -> bool {
        true
    }

    open spec fn from_spec(e: std::io::Error) -> Self {
        AppError::Io(e)
    }
}

impl From<ConfigError> for AppError {
    fn from(e: ConfigError) -> (r: Self) {
        AppError::Config(e)
    }
}

impl vstd::std_specs::convert::FromSpecImpl<ConfigError> for AppError {
    open spec fn obeys_from_spec() -> bool {
        true
    }

    open spec fn from_spec(e: ConfigError) -> Self {
        AppError::Config(e)
    }
}

impl From<std::io::Error> for ConfigError {
    fn from(e: std::io::Error) -> (r: Self) {
        ConfigError::Io(e)
    }
}

impl vstd::std_specs::convert::FromSpecImpl<std::io::Error> for ConfigError {
    open spec fn obeys_from_spec() -> bool {
        true
    }

    open spec fn from_spec(e: std::io::Error) -> Self {
        ConfigError::Io(e)
    }
}

impl From<ParseFloatError> for ConfigError {
    fn from(e: ParseFloatError) -> (r: Self) {
        ConfigError::ParseF64(e)
    }
}

impl vstd::std_specs::convert::FromSpecImpl<ParseFloatError> for ConfigError {
    open spec fn obeys_from_spec() -> bool {
        true
    }

    open spec fn from_spec(e: ParseFloatError) -> Self {
        ConfigError::ParseF64(e)
    }
}

impl From<ParseBoolError> for ConfigError {
    fn from(e: ParseBoolError) -> (r: Self) {
        ConfigError::ParseBool(e)
    }
}

impl vstd::std_specs::convert::FromSpecImpl<ParseBoolError> for ConfigError {
    open spec fn obeys_from_spec() -> bool {
        true
    }

    open spec fn from_spec(e: ParseBoolError) -> Self {
        ConfigError::ParseBool(e)
    }
}

impl From<ParseIntError> for ConfigError {
    fn from(e: ParseIntError) -> (r: Self) {
        ConfigError::ParseU32(e)
    }
}

impl vstd::std_specs::convert::FromSpecImpl<ParseIntError> for ConfigError {
    open spec fn obeys_from_spec() -> bool {
        true
    }

    open spec fn from_spec(e: ParseIntError) -> Self {
        ConfigError::ParseU32(e)
    }
}

} // verus!
