//! Platform resolution: maps an (operating system, CPU architecture) pair to
//! the closed set of supported targets, and derives the archive format that a
//! release for that target uses.  Pure data, no I/O: the caller injects the
//! detected operating system and architecture as values.

use vstd::prelude::*;

verus! {

/// Operating systems the engine knows how to provision for.
#[derive(Clone, Copy, PartialEq, Eq, Structural, Debug)]
pub enum Os {
    MacOs,
    Windows,
    Linux,
}

/// CPU architectures the engine knows how to provision for.
#[derive(Clone, Copy, PartialEq, Eq, Structural, Debug)]
pub enum Arch {
    Aarch64,
    X86_64,
}

/// The closed set of supported (OS, architecture) combinations.
#[derive(Clone, Copy, PartialEq, Eq, Structural, Debug)]
pub enum PlatformId {
    MacArm64,
    MacX64,
    WindowsX64,
    LinuxX64,
}

/// Which combinations are supported, and which `PlatformId` each one maps to.
pub open spec fn spec_resolve_platform(os: Os, arch: Arch) -> Option<PlatformId> {
    match (os, arch) {
        (Os::MacOs, Arch::Aarch64) => Some(PlatformId::MacArm64),
        (Os::MacOs, Arch::X86_64) => Some(PlatformId::MacX64),
        (Os::Windows, Arch::X86_64) => Some(PlatformId::WindowsX64),
        (Os::Linux, Arch::X86_64) => Some(PlatformId::LinuxX64),
        _ => None,
    }
}

/// Resolve an (OS, architecture) pair to a supported platform, or `None` for
/// a combination outside the supported set.  `None` is an ordinary outcome,
/// not a failure: callers skip optional tools on it.
pub fn resolve_platform(os: Os, arch: Arch) -> (r: Option<PlatformId>)
    ensures
        r == spec_resolve_platform(os, arch),
{
    match (os, arch) {
        (Os::MacOs, Arch::Aarch64) => Some(PlatformId::MacArm64),
        (Os::MacOs, Arch::X86_64) => Some(PlatformId::MacX64),
        (Os::Windows, Arch::X86_64) => Some(PlatformId::WindowsX64),
        (Os::Linux, Arch::X86_64) => Some(PlatformId::LinuxX64),
        (Os::Windows, Arch::Aarch64) => None,
        (Os::Linux, Arch::Aarch64) => None,
    }
}

/// The operating system a platform belongs to.
pub open spec fn spec_platform_os(p: PlatformId) -> Os {
    match p {
        PlatformId::MacArm64 => Os::MacOs,
        PlatformId::MacX64 => Os::MacOs,
        PlatformId::WindowsX64 => Os::Windows,
        PlatformId::LinuxX64 => Os::Linux,
    }
}

pub fn platform_os(p: PlatformId) -> (r: Os)
    ensures
        r == spec_platform_os(p),
{
    match p {
        PlatformId::MacArm64 => Os::MacOs,
        PlatformId::MacX64 => Os::MacOs,
        PlatformId::WindowsX64 => Os::Windows,
        PlatformId::LinuxX64 => Os::Linux,
    }
}

/// Target identifier in the naming convention of the standalone-interpreter
/// releases (also used by the package-manager tool's releases).
pub open spec fn spec_platform_string(p: PlatformId) -> Seq<char> {
    match p {
        PlatformId::MacArm64 => "aarch64-apple-darwin"@,
        PlatformId::MacX64 => "x86_64-apple-darwin"@,
        PlatformId::WindowsX64 => "x86_64-pc-windows-msvc"@,
        PlatformId::LinuxX64 => "x86_64-unknown-linux-gnu"@,
    }
}

/// Executable counterpart of [`spec_platform_string`].
pub fn get_platform_string(p: PlatformId) -> (r: &'static str)
    ensures
        r@ == spec_platform_string(p),
{
    match p {
        PlatformId::MacArm64 => "aarch64-apple-darwin",
        PlatformId::MacX64 => "x86_64-apple-darwin",
        PlatformId::WindowsX64 => "x86_64-pc-windows-msvc",
        PlatformId::LinuxX64 => "x86_64-unknown-linux-gnu",
    }
}

/// Archive format by operating system: zip exactly on Windows, gzip-tar
/// everywhere else.
pub open spec fn spec_archive_ext(os: Os) -> Seq<char> {
    if os is Windows {
        "zip"@
    } else {
        "tar.gz"@
    }
}

pub fn archive_ext(os: Os) -> (r: &'static str)
    ensures
        r@ == spec_archive_ext(os),
{
    if os == Os::Windows {
        "zip"
    } else {
        "tar.gz"
    }
}

/// Every supported platform has a distinct, non-empty target identifier, and
/// the archive extension is `zip` exactly when the operating system is
/// Windows.
pub proof fn lemma_platform_coverage()
    ensures
        forall|p: PlatformId| (#[trigger] spec_platform_string(p)).len() > 0,
        forall|p1: PlatformId, p2: PlatformId|
            p1 != p2 ==> #[trigger] spec_platform_string(p1) != #[trigger] spec_platform_string(p2),
        forall|os: Os| (#[trigger] spec_archive_ext(os) == "zip"@) <==> os is Windows,
{
    reveal_strlit("aarch64-apple-darwin");
    reveal_strlit("x86_64-apple-darwin");
    reveal_strlit("x86_64-pc-windows-msvc");
    reveal_strlit("x86_64-unknown-linux-gnu");
    reveal_strlit("zip");
    reveal_strlit("tar.gz");
    assert(spec_platform_string(PlatformId::MacArm64).len() == 20);
    assert(spec_platform_string(PlatformId::MacX64).len() == 19);
    assert(spec_platform_string(PlatformId::WindowsX64).len() == 22);
    assert(spec_platform_string(PlatformId::LinuxX64).len() == 24);
    assert(spec_archive_ext(Os::Windows).len() == 3);
    assert(spec_archive_ext(Os::MacOs).len() == 6);
    assert(spec_archive_ext(Os::Linux).len() == 6);
}

} // verus!
