//! A verified parser and in-memory representation for a line-oriented,
//! INI-like configuration format.
//!
//! A configuration document is a sequence of lines; each line is a comment
//! (`# ...`), a group header (`[name]`), a key/value item (`key = value`),
//! or blank.  Items are collected under the most recently opened group.
//! Parsing is exposed over plain line vectors; opening and reading the file
//! itself is left to the caller.

use vstd::prelude::*;

pub mod config;
pub mod errors;
pub mod grammar;
pub mod group;
pub mod numbers;
pub mod parse;
pub mod text;

pub use crate::config::Config;
pub use crate::errors::{ConfigReadError, ConfigValueError};
pub use crate::group::{ConfigurationItem, Group};

use crate::parse::{doc_view, parse_config_file, spec_build, spec_doc_valid, spec_would_abort};

verus! {

/// Policy governing which unquoted values are accepted as strings.
#[derive(Debug, Clone, Copy, PartialEq, Eq, Structural)]
pub enum StringStrictness {
    /// Unquoted string values are accepted as-is, white-space included.
    Loose,
    /// Unquoted string values must not contain white-space; values with
    /// white-space must be wrapped in quotes.
    Forgivable,
    /// Every string value, even a single word, must be wrapped in quotes.
    Very,
}

/// Caller-visible effect of a value rejected by the strictness policy.
#[derive(Debug, Clone, Copy, PartialEq, Eq, Structural)]
pub enum StringStrictnessBehavior {
    /// Abort processing fatally when a rejected value is encountered.
    Panic,
    /// Silently skip rejected values; they are never inserted.
    Ignore,
}

/// Options controlling how item values are validated while parsing.
#[derive(Debug, Clone, Copy, PartialEq, Eq, Structural)]
pub struct Options {
    pub string_strictness: StringStrictness,
    pub string_strictness_behavior: StringStrictnessBehavior,
}

/// The default options: `Loose` strictness, rejected values ignored.
pub open spec fn spec_default_options() -> Options {
    Options {
        string_strictness: StringStrictness::Loose,
        string_strictness_behavior: StringStrictnessBehavior::Ignore,
    }
}

/// Returns the default options: `Loose` strictness, rejected values ignored.
pub fn get_default_options() -> (r: Options)
    ensures
        r == spec_default_options(),
{
    Options {
        string_strictness: StringStrictness::Loose,
        string_strictness_behavior: StringStrictnessBehavior::Ignore,
    }
}

/// The options a parse runs with: the ones handed in, or the defaults.
pub open spec fn spec_effective_options(options: Option<Options>) -> Options {
    match options {
        Some(o) => o,
        None => spec_default_options(),
    }
}

/// Entry point for parsing a configuration document held as lines.
///
/// Opening the file and splitting it into lines is the caller's business;
/// everything from grammar validation to the finished `Config` happens
/// here.
pub struct ConfigReader;

impl ConfigReader {
    /// Parses the document's lines with the given options, or the default
    /// options when none are given.
    pub fn parse(lines: &Vec<String>, options: Option<Options>) -> (r: Result<
        Config,
        ConfigReadError,
    >)
        requires
            spec_effective_options(options).string_strictness_behavior
                == StringStrictnessBehavior::Panic ==> !spec_would_abort(
                doc_view(lines@),
                spec_effective_options(options).string_strictness,
            ),
        ensures
            r is Ok <==> spec_doc_valid(doc_view(lines@)),
            r matches Err(e) ==> e == ConfigReadError::InvalidSyntaxOnLine,
            r matches Ok(c) ==> {
                &&& c.wf()
                &&& c@ == spec_build(
                    doc_view(lines@),
                    spec_effective_options(options).string_strictness,
                ).groups
            },
    {
        let opts: Options = match options {
            Some(o) => o,
            None => get_default_options(),
        };
        parse_config_file(lines, &opts)
    }
}

} // verus!
