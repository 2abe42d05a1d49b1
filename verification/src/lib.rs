//! Metadata engine for video-production project folders.
//!
//! The library decides everything the desktop shell around it cannot be
//! trusted to decide: whether a folder on disk is a valid production
//! project, what its `breadcrumbs.json` sidecar should contain, whether a
//! sidecar has gone stale against the live file tree, and how a recursive
//! scan walks that tree.  All of it is stated over an in-memory snapshot of
//! the directory tree, so every rule is a function from plain values to
//! plain values and is verified.

use vstd::prelude::*;

pub mod breadcrumbs;
pub mod codec;
pub mod fstree;
pub mod json;
pub mod media;
pub mod numbers;
pub mod order;
pub mod registry;
pub mod scanner;
pub mod script_examples;
pub mod staleness;
pub mod strutil;
pub mod trello;
pub mod updater;
pub mod validator;

verus! {

/// The fixed threshold, in bytes, under which a folder-size change is
/// absorbed as filesystem jitter rather than reported as staleness.
pub const STALE_SIZE_THRESHOLD_BYTES: u64 = 1024;

} // verus!
