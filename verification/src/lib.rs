//! Verified core of a toolchain-provisioning engine.
//!
//! The library resolves platforms and download URLs for externally released
//! tool binaries, extracts their archives (gzip-tar or zip, flat or with the
//! leading path component stripped), locates the installed executables, and
//! manages an idempotent install/uninstall lifecycle.  All filesystem effects
//! are expressed against an explicit directory-tree value, so every step of
//! the pipeline carries a proved contract; thin unverified shims perform the
//! actual network and disk work.

use vstd::prelude::*;

pub mod archive;
pub mod config;
pub mod constants;
pub mod error;
pub mod fstree;
pub mod locator;
pub mod manager;
pub mod models;
pub mod node_runtime;
pub mod notes;
pub mod outcome;
pub mod pathname;
pub mod platform;
pub mod python_runtime;
pub mod sidecar;
pub mod skill;
pub mod template;
