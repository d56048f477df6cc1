//! Static add-on configuration: which interpreter and runtime versions are
//! offered, the pinned package-manager version, and the URL templates of the
//! release conventions.

use vstd::prelude::*;
use vstd::string::StringExecFns;

verus! {

/// The remote index document: the offered add-ons.
pub struct AddonIndex {
    pub addons: Addons,
}

/// The two provisionable add-on families.
pub struct Addons {
    pub python: PythonAddon,
    pub nodejs: NodeJsAddon,
}

/// Offered interpreter versions and the pinned package-manager companion.
pub struct PythonAddon {
    pub versions: Vec<String>,
    pub uv: UvConfig,
}

/// The pinned package-manager version.
pub struct UvConfig {
    pub version: String,
}

/// Offered runtime versions.
pub struct NodeJsAddon {
    pub versions: Vec<String>,
}

impl Default for AddonIndex {
    /// The built-in configuration used when no remote index is reachable:
    /// three interpreter versions, three runtime versions, one pinned
    /// package-manager version.
    fn default() -> (r: AddonIndex)
        ensures
            r.addons.python.versions@.len() == 3,
            r.addons.python.versions@[0]@ == "3.12.12"@,
            r.addons.python.versions@[1]@ == "3.13.11"@,
            r.addons.python.versions@[2]@ == "3.14.2"@,
            r.addons.python.uv.version@ == "0.9.21"@,
            r.addons.nodejs.versions@.len() == 3,
            r.addons.nodejs.versions@[0]@ == "20.19.6"@,
            r.addons.nodejs.versions@[1]@ == "22.21.1"@,
            r.addons.nodejs.versions@[2]@ == "24.12.0"@,
    {
        let mut python_versions: Vec<String> = Vec::new();
        python_versions.push("3.12.12".to_owned());
        python_versions.push("3.13.11".to_owned());
        python_versions.push("3.14.2".to_owned());
        let mut nodejs_versions: Vec<String> = Vec::new();
        nodejs_versions.push("20.19.6".to_owned());
        nodejs_versions.push("22.21.1".to_owned());
        nodejs_versions.push("24.12.0".to_owned());
        AddonIndex {
            addons: Addons {
                python: PythonAddon {
                    versions: python_versions,
                    uv: UvConfig { version: "0.9.21".to_owned() },
                },
                nodejs: NodeJsAddon { versions: nodejs_versions },
            },
        }
    }
}

/// Template of the standalone-interpreter release URLs.
pub const PYTHON_DOWNLOAD_TEMPLATE: &'static str =
    "https://github.com/astral-sh/python-build-standalone/releases/download/{release_date}/cpython-{version}+{release_date}-{platform}-install_only.tar.gz";

/// Template of the package-manager release URLs.
pub const UV_DOWNLOAD_TEMPLATE: &'static str =
    "https://github.com/astral-sh/uv/releases/download/{version}/uv-{platform}.{ext}";

/// Template of the runtime release URLs.
pub const NODEJS_DOWNLOAD_TEMPLATE: &'static str =
    "https://nodejs.org/dist/v{version}/node-v{version}-{platform}.{ext}";

/// Where the remote index document is hosted.
pub const REMOTE_INDEX_URL: &'static str =
    "https://raw.githubusercontent.com/your-repo/nexo-addons/main/index.yaml";

} // verus!
