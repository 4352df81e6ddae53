//! Errors met while resolving the parts that a document refers to.

use vstd::prelude::*;

verus! {

/// Why a referenced part could not be loaded.
#[derive(Debug, Clone, PartialEq, Eq)]
pub enum ResolutionError {
    /// No LDraw library directory was given.
    NoLDrawDir,
    /// No file of the referenced name was found.
    FileNotFound,
    /// Reading the file failed; the message describes how.
    IoError(String),
    /// The file was found but could not be parsed; the message says why.
    ParseError(String),
}

} // verus!
