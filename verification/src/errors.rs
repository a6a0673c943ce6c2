//! The error kinds the library surfaces.

use vstd::prelude::*;

verus! {

/// Everything that can go wrong while building or querying the tree.
#[derive(Clone, Copy, Debug, PartialEq, Eq, Structural)]
pub enum DotError {
    /// A configuration file was present but could not be parsed.
    ConfigParse,
    /// A directory could not be listed: the snapshot holds no directory
    /// where the entry's path says one stood.
    FilesystemRead,
    /// A path with no nameable component where a name was required.
    InvalidPath,
}

} // verus!
