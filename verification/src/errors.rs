//! Fatal configuration and dispatch errors.
//!
//! Every error is fatal to the invocation: the caller prints the message
//! and terminates without partial execution.

use vstd::prelude::*;
use vstd::string::StringExecFns;

verus! {

/// A fatal error found while loading, merging or augmenting the
/// configuration, or while preparing a request or a script.
#[derive(Debug, PartialEq)]
pub enum ConfigError {
    /// A subcommand list element is not a mapping.
    SubcommandNotMapping,
    /// A subcommand mapping has no entries, so it has no name.
    SubcommandUnnamed,
    /// A merged layer has no `subcommands` key.
    SubcommandsMissing,
    /// The `subcommands` value is not an array.
    SubcommandsNotArray,
    /// The configuration declares no `version` string.
    VersionMissing,
    /// A declared flag reuses a reserved short flag letter.
    ReservedShortFlag(String),
    /// A declared flag reuses a reserved long flag name.
    ReservedLongFlag(String),
    /// A subcommand's `args` value is not an array.
    ArgsNotArray,
    /// A header or query-parameter value is not a string.
    ValueNotString(String),
    /// A value that must be a mapping is not one.
    NotAMapping,
    /// A template failed to compile or render.
    TemplateFailed(String),
    /// A required key is missing or is not a string scalar.
    KeyNotString(String),
    /// The recursion counter carried in the environment is not an integer.
    RecursionCountNotInt,
    /// The configured recursion bound is not an integer.
    MaxRecursionNotInt,
    /// The recursion bound was reached.
    RecursionLimit(i64),
    /// The terminal width carried in the environment is not an integer.
    ColumnsNotInt,
    /// The requested completion shell is not supported.
    ShellNotSupported(String),
    /// The `template` argument is not a string.
    TemplateArgNotString,
    /// No configuration layer was found for the application.
    NoConfigFound,
}

impl ConfigError {
    /// A human-readable diagnostic for this error.
    pub fn message(&self) -> String {
        match self {
            ConfigError::SubcommandNotMapping => "Invalid subcommand: not a mapping".to_owned(),
            ConfigError::SubcommandUnnamed => "Invalid subcommand: no name".to_owned(),
            ConfigError::SubcommandsMissing => "No subcommands in config, wrong yml format".to_owned(),
            ConfigError::SubcommandsNotArray => "Subcommands should be an array".to_owned(),
            ConfigError::VersionMissing => "Version not defined".to_owned(),
            ConfigError::ReservedShortFlag(s) => {
                let mut m = "'short: ".to_owned();
                m.append(s.as_str());
                m.append("' is reserved, check your yml");
                m
            },
            ConfigError::ReservedLongFlag(s) => {
                let mut m = "'long: ".to_owned();
                m.append(s.as_str());
                m.append("' is reserved, check your yml");
                m
            },
            ConfigError::ArgsNotArray => "Subcommand args should be an array".to_owned(),
            ConfigError::ValueNotString(k) => {
                let mut m = "Only string values are allowed for ".to_owned();
                m.append(k.as_str());
                m
            },
            ConfigError::NotAMapping => "Yaml should be a map value".to_owned(),
            ConfigError::TemplateFailed(e) => {
                let mut m = "Could not parse template: ".to_owned();
                m.append(e.as_str());
                m
            },
            ConfigError::KeyNotString(k) => {
                let mut m = "Missing or invalid key: ".to_owned();
                m.append(k.as_str());
                m
            },
            ConfigError::RecursionCountNotInt => {
                "Recursion count should be of type i64".to_owned()
            },
            ConfigError::MaxRecursionNotInt => "Max recursion should be an integer".to_owned(),
            ConfigError::RecursionLimit(_) => {
                "Max recursion count reached; check for infinite loops in your yaml or increase max_recursion_count config".to_owned()
            },
            ConfigError::ColumnsNotInt => "Columns should be u16 integers".to_owned(),
            ConfigError::ShellNotSupported(s) => {
                let mut m = "Shell not supported ".to_owned();
                m.append(s.as_str());
                m.append(". Options are: zsh, bash, fish, powershell, elvish");
                m
            },
            ConfigError::TemplateArgNotString => "Could not convert template str".to_owned(),
            ConfigError::NoConfigFound => "Could not find config file".to_owned(),
        }
    }
}

} // verus!
