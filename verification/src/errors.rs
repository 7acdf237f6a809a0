//! Error kinds surfaced by the configuration reader.

use vstd::prelude::*;

verus! {

/// Errors that can be returned when reading a configuration document.
#[derive(Debug, Clone, Copy, PartialEq, Eq, Structural)]
pub enum ConfigReadError {
    /// The configuration file does not resolve to a readable file.
    FileNotFound,
    /// A line of the document matches none of the four grammar shapes
    /// (comment, group header, blank, key/value item).
    InvalidSyntaxOnLine,
    /// A two-level lookup named a group that does not exist.
    GroupNotFound,
    /// A two-level lookup named a key absent from the named group.
    KeyInGroupNotFound,
}

/// Errors raised by typed coercion of a configuration value.
#[derive(Debug, Clone, Copy, PartialEq, Eq, Structural)]
pub enum ConfigValueError {
    /// The value is none of the accepted boolean tokens:
    /// `1`, `0`, `true`, `false`, `yes`, `no`, `on`, `off`.
    InvalidBoolValue,
}

} // verus!
