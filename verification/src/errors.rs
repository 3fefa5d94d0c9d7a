//! The fatal failures of schema resolution and binding generation.

use vstd::prelude::*;

use vstd::string::StringExecFns;

use crate::text::concat_strs;

verus! {

/// A fatal failure while loading a schema, resolving it, or generating
/// bindings from it.
#[derive(Debug, PartialEq)]
pub enum ConfigError {
    /// The document text is not well-formed; carries the parser's message.
    ParseError { message: String },
    /// The schema file does not use a supported format.
    UnsupportedFormat,
    /// A vector field declares a non-native element type; carries the id of
    /// the offending field.
    UnsupportedVectorElement { id: String },
    /// A declared default does not coerce to the field's resolved type;
    /// carries the id of the offending field.
    MalformedDefault { id: String },
}

/// Mathematical model of a fatal failure.
pub enum ConfigErrorV {
    ParseError { message: Seq<char> },
    UnsupportedFormat,
    UnsupportedVectorElement { id: Seq<char> },
    MalformedDefault { id: Seq<char> },
}

impl View for ConfigError {
    type V = ConfigErrorV;

    open spec fn view(&self) -> ConfigErrorV {
        match self {
            ConfigError::ParseError { message } => (ConfigErrorV::ParseError { message: message@ }),
            ConfigError::UnsupportedFormat => ConfigErrorV::UnsupportedFormat,
            ConfigError::UnsupportedVectorElement { id } => (ConfigErrorV::UnsupportedVectorElement {
                id: id@,
            }),
            ConfigError::MalformedDefault { id } => (ConfigErrorV::MalformedDefault { id: id@ }),
        }
    }
}

/// The message that a failure is reported with.
pub open spec fn describe_spec(e: ConfigErrorV) -> Seq<char> {
    match e {
        ConfigErrorV::ParseError { message } => "Failed to parse TOML config: "@ + message,
        ConfigErrorV::UnsupportedFormat => "Unsupported file format. Only .toml is supported."@,
        ConfigErrorV::UnsupportedVectorElement { id } => (
        "Non-native inner types in Vec are not supported yet: "@ + id),
        ConfigErrorV::MalformedDefault { id } => "Invalid default value: "@ + id,
    }
}

impl ConfigError {
    /// A human-readable message for this failure.
    pub fn describe(&self) -> (r: String)
        ensures
            r@ == describe_spec(self@),
    {
        match self {
            ConfigError::ParseError { message } => concat_strs(
                "Failed to parse TOML config: ",
                message.as_str(),
            ),
            ConfigError::UnsupportedFormat => String::from_str(
                "Unsupported file format. Only .toml is supported.",
            ),
            ConfigError::UnsupportedVectorElement { id } => concat_strs(
                "Non-native inner types in Vec are not supported yet: ",
                id.as_str(),
            ),
            ConfigError::MalformedDefault { id } => concat_strs("Invalid default value: ", id.as_str()),
        }
    }
}

} // verus!
