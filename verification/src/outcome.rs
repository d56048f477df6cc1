//! Outcomes shared by the provisioning pipelines: what a transport handed
//! back, how an install ended, and the error taxonomy — unsupported platforms
//! are an ordinary outcome, never an error.

use vstd::prelude::*;

verus! {

/// What the transport produced for one URL: the body bytes, or a failure
/// (a transport error or a non-success status).
pub enum FetchResult {
    Fetched(Vec<u8>),
    Failed,
}

/// The bytes a fetch produced, if any.
pub open spec fn spec_fetch(f: FetchResult) -> Option<Seq<u8>> {
    match f {
        FetchResult::Fetched(b) => Some(b@),
        FetchResult::Failed => None,
    }
}

/// How an install call ended without error.
#[derive(PartialEq, Eq, Structural, Clone, Copy, Debug)]
pub enum InstallOutcome {
    /// The binaries were already in place; nothing was fetched or written.
    AlreadyInstalled,
    /// The tool has no release for this platform; skipped, not failed.
    SkippedUnsupported,
    /// The tool was fetched, extracted and installed.
    Installed,
}

/// A provisioning failure, always naming the tool and the version concerned.
#[derive(Debug)]
pub enum ProvisionError {
    /// The fetch failed: a transport error or a non-success status.
    Transport { tool: String, version: String, url: String },
    /// The archive could not be decompressed, read or extracted.
    ArchiveBad { tool: String, version: String },
    /// A directory or file could not be created or written.
    Filesystem { tool: String, version: String },
    /// The expected binary is absent: not installed, or gone after
    /// extraction.
    NotInstalled { tool: String, version: String },
}

/// Mathematical image of a failure, for the install transition functions.
pub enum InstallFailure {
    Transport { tool: Seq<char> },
    ArchiveBad { tool: Seq<char> },
    Filesystem { tool: Seq<char> },
    NotInstalled { tool: Seq<char> },
}

/// Whether an error value carries the failure a transition function names:
/// same variant, same tool, and the version the operation concerned.
pub open spec fn spec_err_matches(e: ProvisionError, f: InstallFailure, version: Seq<char>) -> bool {
    match f {
        InstallFailure::Transport { tool } => e matches ProvisionError::Transport {
            tool: t,
            version: ev,
            ..
        } && t@ == tool && ev@ == version,
        InstallFailure::ArchiveBad { tool } => e matches ProvisionError::ArchiveBad {
            tool: t,
            version: ev,
        } && t@ == tool && ev@ == version,
        InstallFailure::Filesystem { tool } => e matches ProvisionError::Filesystem {
            tool: t,
            version: ev,
        } && t@ == tool && ev@ == version,
        InstallFailure::NotInstalled { tool } => e matches ProvisionError::NotInstalled {
            tool: t,
            version: ev,
        } && t@ == tool && ev@ == version,
    }
}

impl ProvisionError {
    /// The name of the tool the failure concerns.
    pub fn tool(&self) -> (r: &String)
        ensures
            match self {
                ProvisionError::Transport { tool, .. } => r@ == tool@,
                ProvisionError::ArchiveBad { tool, .. } => r@ == tool@,
                ProvisionError::Filesystem { tool, .. } => r@ == tool@,
                ProvisionError::NotInstalled { tool, .. } => r@ == tool@,
            },
    {
        match self {
            ProvisionError::Transport { tool, .. } => tool,
            ProvisionError::ArchiveBad { tool, .. } => tool,
            ProvisionError::Filesystem { tool, .. } => tool,
            ProvisionError::NotInstalled { tool, .. } => tool,
        }
    }

    /// The version the failing operation concerned.
    pub fn version(&self) -> (r: &String)
        ensures
            match self {
                ProvisionError::Transport { version, .. } => r@ == version@,
                ProvisionError::ArchiveBad { version, .. } => r@ == version@,
                ProvisionError::Filesystem { version, .. } => r@ == version@,
                ProvisionError::NotInstalled { version, .. } => r@ == version@,
            },
    {
        match self {
            ProvisionError::Transport { version, .. } => version,
            ProvisionError::ArchiveBad { version, .. } => version,
            ProvisionError::Filesystem { version, .. } => version,
            ProvisionError::NotInstalled { version, .. } => version,
        }
    }
}

} // verus!
