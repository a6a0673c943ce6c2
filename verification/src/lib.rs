//! An in-memory mirror of a filesystem subtree, built for managing dotfiles.
//!
//! A scanned subtree becomes a tree of [`dotpath::DotPath`] entries.  Each
//! directory entry may carry the settings parsed from a local configuration
//! file ([`dotconfig::DotConfig`]), and entries are looked up again by
//! relative path.  The filesystem itself is handed in as a plain value
//! ([`fstree::FsTree`]), so every rule of the tree construction is stated
//! and proved here; reading the disk is the caller's business.

pub mod dotconfig;
pub mod dotpath;
pub mod errors;
pub mod fstree;
pub mod paths;
pub mod scanner;
