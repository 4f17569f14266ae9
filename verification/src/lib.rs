//! Verified core of a patched-source subsystem for a package manager.
//!
//! A consuming project can declare that a dependency fetched from a registry
//! or git repository must be materialized with one or more unified-diff patch
//! files applied before compilation.  This crate holds the verified logic of
//! that feature: the unified-diff applier, the identity scheme for patched
//! sources, the process-wide patch registry, the content-addressed cache of
//! patched trees, and the source adapter that wraps an inner source and
//! yields exactly one patched candidate per query.
//!
//! Filesystem state is modelled by [`fstree::FsTree`], a map from file paths
//! to file contents; the surrounding binary performs the real disk reads and
//! writes and hands trees and plain values in and out.

pub mod cache;
pub mod commands;
pub mod errors;
pub mod fstree;
pub mod hasher;
pub mod ids;
pub mod manifest;
pub mod patch;
pub mod patched;
pub mod profiles;
pub mod registry;
pub mod source;
pub mod strutil;
pub mod urlx;
