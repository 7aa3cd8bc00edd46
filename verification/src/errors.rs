//! Failure taxonomy of the theme pipeline.

use vstd::prelude::*;

verus! {

/// Why a theme operation failed.
#[derive(Debug, Clone, Copy, PartialEq, Eq, Structural)]
pub enum ThemeError {
    /// The theme directory does not exist.
    NotFound,
    /// The theme lacks its required variable-source file.
    MissingVariables,
    /// The variable-source document is malformed.
    ParseError,
    /// A required directory (the templates root) is absent.
    ConfigError,
    /// A read, write, rename, symlink or remove failed at the OS boundary.
    IoError,
}

} // verus!
