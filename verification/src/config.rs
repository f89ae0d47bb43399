//! Global configuration.

use vstd::prelude::*;
use std::path::PathBuf;

verus! {

/// The standard library's owned path. Nothing is stated of it: the library
/// carries it through.
#[verifier::external_type_specification]
#[verifier::external_body]
pub struct ExPathBuf(PathBuf);

/// The global configuration.
#[derive(Debug, Clone, Default)]
pub struct Config {
    /// The default vault.
    pub vault: Option<PathBuf>,
    /// The editor that opens files.
    pub editor: Option<String>,
}

} // verus!
