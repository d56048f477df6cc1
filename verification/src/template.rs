//! Download-URL construction.  Each tool family names its release artifacts
//! by its own convention, so every tool carries its own template: a sequence
//! of literal pieces and placeholders that substitution turns into the final
//! URL by plain concatenation, with no encoding of its own.

use vstd::prelude::*;
use vstd::string::StringExecFns;

use crate::platform::{Arch, Os, PlatformId};

verus! {

/// Release date pinned for the standalone-interpreter builds.
pub const PYTHON_RELEASE_DATE: &'static str = "20251217";

/// One piece of a URL template: a literal, or a placeholder filled at
/// substitution time.
pub enum TemplateSeg {
    Lit(String),
    Version,
    Platform,
    Ext,
    ReleaseDate,
}

/// A per-tool URL template.
pub struct UrlTemplate {
    pub segs: Vec<TemplateSeg>,
}

/// Value of one segment under a given substitution.
pub open spec fn spec_seg_value(
    seg: TemplateSeg,
    version: Seq<char>,
    platform: Seq<char>,
    ext: Seq<char>,
    release_date: Seq<char>,
) -> Seq<char> {
    match seg {
        TemplateSeg::Lit(s) => s@,
        TemplateSeg::Version => version,
        TemplateSeg::Platform => platform,
        TemplateSeg::Ext => ext,
        TemplateSeg::ReleaseDate => release_date,
    }
}

/// The URL denoted by a template under a given substitution: the
/// concatenation of its segment values.
pub open spec fn spec_render(
    segs: Seq<TemplateSeg>,
    version: Seq<char>,
    platform: Seq<char>,
    ext: Seq<char>,
    release_date: Seq<char>,
) -> Seq<char>
    decreases segs.len(),
{
    if segs.len() == 0 {
        Seq::empty()
    } else {
        spec_render(segs.drop_last(), version, platform, ext, release_date) + spec_seg_value(
            segs.last(),
            version,
            platform,
            ext,
            release_date,
        )
    }
}

/// Substitute the given values into a template by literal concatenation.
pub fn render(
    t: &UrlTemplate,
    version: &str,
    platform: &str,
    ext: &str,
    release_date: &str,
) -> (r: String)
    ensures
        r@ == spec_render(t.segs@, version@, platform@, ext@, release_date@),
{
    let mut url = String::new();
    let mut i: usize = 0;
    proof {
        assert(t.segs@.take(0) =~= Seq::<TemplateSeg>::empty());
    }
    while i < t.segs.len()
        invariant
            i <= t.segs@.len(),
            url@ == spec_render(t.segs@.take(i as int), version@, platform@, ext@, release_date@),
        decreases t.segs@.len() - i,
    {
        proof {
            assert(t.segs@.take(i + 1 as int).drop_last() =~= t.segs@.take(i as int));
            assert(t.segs@.take(i + 1 as int).last() == t.segs@[i as int]);
        }
        match &t.segs[i] {
            TemplateSeg::Lit(s) => url.append(s.as_str()),
            TemplateSeg::Version => url.append(version),
            TemplateSeg::Platform => url.append(platform),
            TemplateSeg::Ext => url.append(ext),
            TemplateSeg::ReleaseDate => url.append(release_date),
        }
        i += 1;
    }
    proof {
        assert(t.segs@.take(t.segs@.len() as int) =~= t.segs@);
    }
    url
}

/// Download URL of the standalone interpreter for a version and platform:
/// its release convention interpolates the release date twice.
pub open spec fn spec_python_url(version: Seq<char>, platform: Seq<char>) -> Seq<char> {
    "https://github.com/astral-sh/python-build-standalone/releases/download/"@
        + PYTHON_RELEASE_DATE@ + "/cpython-"@ + version + "+"@ + PYTHON_RELEASE_DATE@ + "-"@
        + platform + "-install_only.tar.gz"@
}

/// Download URL of the interpreter distribution for the given full version
/// and platform.
pub fn get_python_download_url(full_version: &str, platform: PlatformId) -> (r: String)
    ensures
        r@ == spec_python_url(full_version@, crate::platform::spec_platform_string(platform)),
{
    let mut url = String::new();
    url.append("https://github.com/astral-sh/python-build-standalone/releases/download/");
    url.append(PYTHON_RELEASE_DATE);
    url.append("/cpython-");
    url.append(full_version);
    url.append("+");
    url.append(PYTHON_RELEASE_DATE);
    url.append("-");
    url.append(crate::platform::get_platform_string(platform));
    url.append("-install_only.tar.gz");
    url
}

/// Download URL of the package-manager tool for a version, platform and
/// archive extension.
pub open spec fn spec_uv_url(version: Seq<char>, platform: Seq<char>, ext: Seq<char>) -> Seq<
    char,
> {
    "https://github.com/astral-sh/uv/releases/download/"@ + version + "/uv-"@ + platform + "."@
        + ext
}

/// Download URL of the package-manager tool for the given version and
/// platform; the archive extension follows the platform's operating system.
pub fn get_uv_download_url(uv_version: &str, platform: PlatformId) -> (r: String)
    ensures
        r@ == spec_uv_url(
            uv_version@,
            crate::platform::spec_platform_string(platform),
            crate::platform::spec_archive_ext(crate::platform::spec_platform_os(platform)),
        ),
{
    let os = crate::platform::platform_os(platform);
    let mut url = String::new();
    url.append("https://github.com/astral-sh/uv/releases/download/");
    url.append(uv_version);
    url.append("/uv-");
    url.append(crate::platform::get_platform_string(platform));
    url.append(".");
    url.append(crate::platform::archive_ext(os));
    url
}

/// Platform names used by the runtime distribution's release convention.
pub open spec fn spec_node_platform(p: PlatformId) -> Seq<char> {
    match p {
        PlatformId::MacArm64 => "darwin-arm64"@,
        PlatformId::MacX64 => "darwin-x64"@,
        PlatformId::WindowsX64 => "win-x64"@,
        PlatformId::LinuxX64 => "linux-x64"@,
    }
}

pub fn node_platform(p: PlatformId) -> (r: &'static str)
    ensures
        r@ == spec_node_platform(p),
{
    match p {
        PlatformId::MacArm64 => "darwin-arm64",
        PlatformId::MacX64 => "darwin-x64",
        PlatformId::WindowsX64 => "win-x64",
        PlatformId::LinuxX64 => "linux-x64",
    }
}

/// Download URL of the runtime distribution: version twice, then platform and
/// extension.
pub open spec fn spec_node_url(version: Seq<char>, platform: Seq<char>, ext: Seq<char>) -> Seq<
    char,
> {
    "https://nodejs.org/dist/v"@ + version + "/node-v"@ + version + "-"@ + platform + "."@ + ext
}

/// Download URL of the runtime distribution for the given full version and
/// platform.
pub fn get_node_download_url(full_version: &str, platform: PlatformId) -> (r: String)
    ensures
        r@ == spec_node_url(
            full_version@,
            spec_node_platform(platform),
            crate::platform::spec_archive_ext(crate::platform::spec_platform_os(platform)),
        ),
{
    let os = crate::platform::platform_os(platform);
    let mut url = String::new();
    url.append("https://nodejs.org/dist/v");
    url.append(full_version);
    url.append("/node-v");
    url.append(full_version);
    url.append("-");
    url.append(node_platform(platform));
    url.append(".");
    url.append(crate::platform::archive_ext(os));
    url
}

/// Sidecar package-manager release URL and archive-internal binary name for
/// an (OS, architecture) pair, or `None` off the supported set.  Windows
/// releases are zip archives with an `.exe` inside; the others gzip-tar.
pub open spec fn spec_uv_sidecar(os: Os, arch: Arch, version: Seq<char>) -> Option<
    (Seq<char>, Seq<char>),
> {
    match crate::platform::spec_resolve_platform(os, arch) {
        Some(p) => Some(
            (
                spec_uv_url(
                    version,
                    crate::platform::spec_platform_string(p),
                    crate::platform::spec_archive_ext(os),
                ),
                if os is Windows {
                    "uv.exe"@
                } else {
                    "uv"@
                },
            ),
        ),
        None => None,
    }
}

/// Sidecar URL generator for the package-manager tool.
pub fn get_uv_url(version: &str, os: Os, arch: Arch) -> (r: Option<(String, String)>)
    ensures
        r is Some <==> spec_uv_sidecar(os, arch, version@) is Some,
        r matches Some((url, name)) ==> spec_uv_sidecar(os, arch, version@) matches Some(v)
            && url@ == v.0 && name@ == v.1,
{
    match crate::platform::resolve_platform(os, arch) {
        Some(p) => {
            let url = get_uv_download_url(version, p);
            let name = if os == Os::Windows {
                "uv.exe".to_owned()
            } else {
                "uv".to_owned()
            };
            proof {
                assert(crate::platform::spec_platform_os(p) == os);
            }
            Some((url, name))
        },
        None => None,
    }
}

/// Sidecar version-manager release URL and binary name: one zip per operating
/// system, any architecture.
pub open spec fn spec_fnm_sidecar(os: Os, version: Seq<char>) -> (Seq<char>, Seq<char>) {
    (
        "https://github.com/Schniz/fnm/releases/download/v"@ + version + (match os {
            Os::MacOs => "/fnm-macos.zip"@,
            Os::Windows => "/fnm-windows.zip"@,
            Os::Linux => "/fnm-linux.zip"@,
        }),
        if os is Windows {
            "fnm.exe"@
        } else {
            "fnm"@
        },
    )
}

/// Sidecar URL generator for the version-manager tool; every supported
/// operating system has a release.
pub fn get_fnm_url(version: &str, os: Os) -> (r: (String, String))
    ensures
        r.0@ == spec_fnm_sidecar(os, version@).0,
        r.1@ == spec_fnm_sidecar(os, version@).1,
{
    let mut url = String::new();
    url.append("https://github.com/Schniz/fnm/releases/download/v");
    url.append(version);
    match os {
        Os::MacOs => url.append("/fnm-macos.zip"),
        Os::Windows => url.append("/fnm-windows.zip"),
        Os::Linux => url.append("/fnm-linux.zip"),
    }
    let name = if os == Os::Windows {
        "fnm.exe".to_owned()
    } else {
        "fnm".to_owned()
    };
    (url, name)
}

} // verus!
