//! Lifecycle of the runtime distribution.  Its archives keep a versioned
//! top-level folder, so the installed binary is resolved by the known-layout
//! strategy: the single expected subdirectory of the version root plus a
//! fixed relative path.  A stale version root is removed before a fresh
//! install.

use vstd::prelude::*;
use vstd::string::StringSliceAdditionalSpecFns;

use crate::archive::{extract_tar_gz, extract_zip, spec_tar_gz_extract, spec_zip_extract};
use crate::fstree::{lemma_agrees_outside_refl, lemma_agrees_outside_trans, lemma_exec_upgrade_chmod,
    lemma_exec_upgrade_refl, lemma_exec_upgrade_trans, lemma_insert_agrees, lemma_remove_agrees,
    lemma_remove_keys_agrees, lemma_with_dirs_agrees, spec_agrees_outside, spec_can_write,
    spec_dirs_ok, spec_exec_upgrade, spec_set_exec, spec_with_dirs, spec_written_node,
    FsNodeModel, FsState};
use crate::locator::{locate_known_layout, spec_sole_child};
use crate::outcome::{spec_err_matches, spec_fetch, FetchResult, InstallFailure, ProvisionError};
use crate::pathname::{clone_bytes, lemma_starts_with_refl, path_push, spec_starts_with,
    str_to_bytes, PathBuf};
use crate::platform::{platform_os, spec_platform_os, Os, PlatformId};
use crate::template::get_node_download_url;

verus! {

/// Version root: every file of one runtime version lives under it.
pub open spec fn spec_node_root(v: Seq<u8>) -> Seq<Seq<u8>> {
    seq!["node-runtimes".spec_bytes(), v]
}

/// Relative path of the runtime executable inside the versioned folder.
pub open spec fn spec_node_rel(os: Os) -> Seq<Seq<u8>> {
    if os is Windows {
        seq!["node.exe".spec_bytes()]
    } else {
        seq!["bin".spec_bytes(), "node".spec_bytes()]
    }
}

/// Relative path of the package-manager companion inside the versioned
/// folder.
pub open spec fn spec_npm_rel(os: Os) -> Seq<Seq<u8>> {
    if os is Windows {
        seq!["npm.cmd".spec_bytes()]
    } else {
        seq!["bin".spec_bytes(), "npm".spec_bytes()]
    }
}

/// The version root contains exactly one entry, a directory, holding `rel`
/// under it: the state in which the known-layout locator is guaranteed to
/// resolve `rel`.
pub open spec fn spec_rel_surely_installed(
    m: Map<Seq<Seq<u8>>, FsNodeModel>,
    v: Seq<u8>,
    rel: Seq<Seq<u8>>,
) -> bool {
    exists|c: Seq<u8>|
        {
            &&& #[trigger] spec_sole_child(m, spec_node_root(v), c)
            &&& m[spec_node_root(v).push(c)] is Dir
            &&& m.contains_key(spec_node_root(v).push(c) + rel)
        }
}

/// Some directory entry of the version root holds `rel` under it: what a
/// successful resolution witnesses.
pub open spec fn spec_rel_detectable(
    m: Map<Seq<Seq<u8>>, FsNodeModel>,
    v: Seq<u8>,
    rel: Seq<Seq<u8>>,
) -> bool {
    exists|c: Seq<u8>|
        {
            &&& #[trigger] m.contains_key(spec_node_root(v).push(c))
            &&& m[spec_node_root(v).push(c)] is Dir
            &&& m.contains_key(spec_node_root(v).push(c) + rel)
        }
}

/// [`spec_rel_surely_installed`], for the runtime executable.
pub open spec fn spec_node_surely_installed(
    m: Map<Seq<Seq<u8>>, FsNodeModel>,
    os: Os,
    v: Seq<u8>,
) -> bool {
    spec_rel_surely_installed(m, v, spec_node_rel(os))
}

/// [`spec_rel_detectable`], for the runtime executable.
pub open spec fn spec_node_detectable(
    m: Map<Seq<Seq<u8>>, FsNodeModel>,
    os: Os,
    v: Seq<u8>,
) -> bool {
    spec_rel_detectable(m, v, spec_node_rel(os))
}

/// No entry at all under the version root: surely not installed.
pub open spec fn spec_node_root_empty(
    m: Map<Seq<Seq<u8>>, FsNodeModel>,
    v: Seq<u8>,
) -> bool {
    forall|c: Seq<u8>| !m.contains_key(#[trigger] spec_node_root(v).push(c))
}

/// Version root of the runtime, as a path value.
pub fn node_root(version: &str) -> (r: PathBuf)
    ensures
        r.deep_view() == spec_node_root(version.spec_bytes()),
{
    let mut r: PathBuf = Vec::new();
    r.push(str_to_bytes("node-runtimes"));
    r.push(str_to_bytes(version));
    proof {
        crate::pathname::lemma_deep_view_is(r, spec_node_root(version.spec_bytes()));
    }
    r
}

fn node_rel(os: Os) -> (r: PathBuf)
    ensures
        r.deep_view() == spec_node_rel(os),
{
    let mut r: PathBuf = Vec::new();
    if os == Os::Windows {
        r.push(str_to_bytes("node.exe"));
    } else {
        r.push(str_to_bytes("bin"));
        r.push(str_to_bytes("node"));
    }
    proof {
        crate::pathname::lemma_deep_view_is(r, spec_node_rel(os));
    }
    r
}

fn npm_rel(os: Os) -> (r: PathBuf)
    ensures
        r.deep_view() == spec_npm_rel(os),
{
    let mut r: PathBuf = Vec::new();
    if os == Os::Windows {
        r.push(str_to_bytes("npm.cmd"));
    } else {
        r.push(str_to_bytes("bin"));
        r.push(str_to_bytes("npm"));
    }
    proof {
        crate::pathname::lemma_deep_view_is(r, spec_npm_rel(os));
    }
    r
}

/// The install transition on a tree: drop any stale version root, recreate
/// it, write the fetched archive beside the extraction, extract it flat (zip
/// on Windows, gzip-tar elsewhere), and drop the archive.  Permission
/// normalization is applied afterwards to whichever binaries resolve.
pub open spec fn spec_node_install(
    m0: Map<Seq<Seq<u8>>, FsNodeModel>,
    os: Os,
    v: Seq<u8>,
    b: Option<Seq<u8>>,
) -> Result<Map<Seq<Seq<u8>>, FsNodeModel>, InstallFailure> {
    let root = spec_node_root(v);
    let m1 = m0.remove_keys(Set::new(|q: Seq<Seq<u8>>| spec_starts_with(q, root)));
    if !spec_dirs_ok(m1, root) {
        Err(InstallFailure::Filesystem { tool: "node"@ })
    } else {
        let m2 = spec_with_dirs(m1, root);
        if b is None {
            Err(InstallFailure::Transport { tool: "node"@ })
        } else {
            let bytes = b->Some_0;
            let arcpath = root.push(
                if os is Windows {
                    "node.zip".spec_bytes()
                } else {
                    "node.tar.gz".spec_bytes()
                },
            );
            if !spec_can_write(m2, arcpath) {
                Err(InstallFailure::Filesystem { tool: "node"@ })
            } else {
                let m3 = m2.insert(arcpath, spec_written_node(m2, arcpath, bytes));
                let ex = if os is Windows {
                    spec_zip_extract(m3, root, bytes)
                } else {
                    spec_tar_gz_extract(m3, root, bytes, false)
                };
                match ex {
                    None => Err(InstallFailure::ArchiveBad { tool: "node"@ }),
                    Some(m4) => Ok(
                        if m4.contains_key(arcpath) && m4[arcpath] is File {
                            m4.remove(arcpath)
                        } else {
                            m4
                        },
                    ),
                }
            }
        }
    }
}

/// The runtime and companion executables differ in their final component.
proof fn lemma_node_npm_rel_distinct(os: Os)
    ensures
        spec_node_rel(os).len() >= 1,
        spec_npm_rel(os).len() >= 1,
        spec_node_rel(os).last() != spec_npm_rel(os).last(),
{
    reveal_strlit("node");
    reveal_strlit("npm");
    reveal_strlit("node.exe");
    reveal_strlit("npm.cmd");
    vstd::utf8::encode_utf8_decode_utf8("node"@);
    vstd::utf8::encode_utf8_decode_utf8("npm"@);
    vstd::utf8::encode_utf8_decode_utf8("node.exe"@);
    vstd::utf8::encode_utf8_decode_utf8("npm.cmd"@);
    if os is Windows {
        assert("node.exe"@.len() == 8 && "npm.cmd"@.len() == 7);
        if "node.exe".spec_bytes() == "npm.cmd".spec_bytes() {
            assert("node.exe"@ == "npm.cmd"@);
        }
    } else {
        assert("node"@.len() == 4 && "npm"@.len() == 3);
        if "node".spec_bytes() == "npm".spec_bytes() {
            assert("node"@ == "npm"@);
        }
    }
}

/// Resolved executable of one installed runtime version.
pub struct NodeRuntime {
    pub node_path: PathBuf,
}

impl NodeRuntime {
    /// Resolve the runtime executable by the known-layout strategy.  With a
    /// sole subdirectory holding the binary, the resolved path is pinned.
    pub fn get_installed_node(fs: &FsState, os: Os, full_version: &str) -> (r: Result<
        PathBuf,
        ProvisionError,
    >)
        requires
            fs.wf(),
        ensures
            r matches Ok(q) ==> spec_node_detectable(fs@, os, full_version.spec_bytes())
                && fs@.contains_key(q.deep_view()) && (exists|c: Seq<u8>|
                {
                    &&& #[trigger] fs@.contains_key(
                        spec_node_root(full_version.spec_bytes()).push(c),
                    )
                    &&& fs@[spec_node_root(full_version.spec_bytes()).push(c)] is Dir
                    &&& q.deep_view() == spec_node_root(full_version.spec_bytes()).push(c)
                        + spec_node_rel(os)
                }),
            spec_node_root_empty(fs@, full_version.spec_bytes()) ==> r is Err,
            spec_node_surely_installed(fs@, os, full_version.spec_bytes()) ==> r is Ok,
            forall|c: Seq<u8>|
                (#[trigger] spec_sole_child(fs@, spec_node_root(full_version.spec_bytes()), c)
                    && fs@[spec_node_root(full_version.spec_bytes()).push(c)] is Dir
                    && fs@.contains_key(
                    spec_node_root(full_version.spec_bytes()).push(c) + spec_node_rel(os),
                )) ==> (r matches Ok(q) && q.deep_view() == spec_node_root(
                    full_version.spec_bytes(),
                ).push(c) + spec_node_rel(os)),
            r matches Err(e) ==> e matches ProvisionError::NotInstalled { tool, version } && tool@
                == "node"@ && version@ == full_version@,
    {
        match Self::locate_rel(fs, full_version, &node_rel(os)) {
            Some(q) => Ok(q),
            None => Err(
                ProvisionError::NotInstalled {
                    tool: "node".to_owned(),
                    version: full_version.to_owned(),
                },
            ),
        }
    }

    /// Resolve the package-manager companion by the known-layout strategy,
    /// with the same guarantees as the runtime executable's resolution.
    pub fn get_installed_npm(fs: &FsState, os: Os, full_version: &str) -> (r: Result<
        PathBuf,
        ProvisionError,
    >)
        requires
            fs.wf(),
        ensures
            r matches Ok(q) ==> spec_rel_detectable(
                fs@,
                full_version.spec_bytes(),
                spec_npm_rel(os),
            ) && fs@.contains_key(q.deep_view()) && (exists|c: Seq<u8>|
                {
                    &&& #[trigger] fs@.contains_key(
                        spec_node_root(full_version.spec_bytes()).push(c),
                    )
                    &&& fs@[spec_node_root(full_version.spec_bytes()).push(c)] is Dir
                    &&& q.deep_view() == spec_node_root(full_version.spec_bytes()).push(c)
                        + spec_npm_rel(os)
                }),
            spec_node_root_empty(fs@, full_version.spec_bytes()) ==> r is Err,
            spec_rel_surely_installed(fs@, full_version.spec_bytes(), spec_npm_rel(os)) ==> r
                is Ok,
            forall|c: Seq<u8>|
                (#[trigger] spec_sole_child(fs@, spec_node_root(full_version.spec_bytes()), c)
                    && fs@[spec_node_root(full_version.spec_bytes()).push(c)] is Dir
                    && fs@.contains_key(
                    spec_node_root(full_version.spec_bytes()).push(c) + spec_npm_rel(os),
                )) ==> (r matches Ok(q) && q.deep_view() == spec_node_root(
                    full_version.spec_bytes(),
                ).push(c) + spec_npm_rel(os)),
            r matches Err(e) ==> e matches ProvisionError::NotInstalled { tool, version } && tool@
                == "npm"@ && version@ == full_version@,
    {
        match Self::locate_rel(fs, full_version, &npm_rel(os)) {
            Some(q) => Ok(q),
            None => Err(
                ProvisionError::NotInstalled {
                    tool: "npm".to_owned(),
                    version: full_version.to_owned(),
                },
            ),
        }
    }

    /// The shared known-layout resolution under the version root.
    fn locate_rel(fs: &FsState, full_version: &str, rel: &PathBuf) -> (r: Option<PathBuf>)
        requires
            fs.wf(),
        ensures
            r matches Some(q) ==> spec_rel_detectable(
                fs@,
                full_version.spec_bytes(),
                rel.deep_view(),
            ) && fs@.contains_key(q.deep_view()) && (exists|c: Seq<u8>|
                {
                    &&& #[trigger] fs@.contains_key(
                        spec_node_root(full_version.spec_bytes()).push(c),
                    )
                    &&& fs@[spec_node_root(full_version.spec_bytes()).push(c)] is Dir
                    &&& q.deep_view() == spec_node_root(full_version.spec_bytes()).push(c)
                        + rel.deep_view()
                }),
            spec_node_root_empty(fs@, full_version.spec_bytes()) ==> r is None,
            spec_rel_surely_installed(fs@, full_version.spec_bytes(), rel.deep_view()) ==> r
                is Some,
            forall|c: Seq<u8>|
                (#[trigger] spec_sole_child(fs@, spec_node_root(full_version.spec_bytes()), c)
                    && fs@[spec_node_root(full_version.spec_bytes()).push(c)] is Dir
                    && fs@.contains_key(
                    spec_node_root(full_version.spec_bytes()).push(c) + rel.deep_view(),
                )) ==> (r matches Some(q) && q.deep_view() == spec_node_root(
                    full_version.spec_bytes(),
                ).push(c) + rel.deep_view()),
    {
        let ghost v = full_version.spec_bytes();
        let root = node_root(full_version);
        let r = locate_known_layout(fs, &root, rel);
        proof {
            if r is Some {
                let q = r->Some_0;
                let c = choose|c: Seq<u8>|
                    {
                        &&& fs@.contains_key(root.deep_view().push(c))
                        &&& fs@[root.deep_view().push(c)] is Dir
                        &&& q.deep_view() == root.deep_view().push(c) + rel.deep_view()
                        &&& fs@.contains_key(q.deep_view())
                    };
                assert(fs@.contains_key(spec_node_root(v).push(c)));
            }
            if spec_rel_surely_installed(fs@, v, rel.deep_view()) && r is None {
                let c = choose|c: Seq<u8>|
                    {
                        &&& spec_sole_child(fs@, spec_node_root(v), c)
                        &&& fs@[spec_node_root(v).push(c)] is Dir
                        &&& fs@.contains_key(spec_node_root(v).push(c) + rel.deep_view())
                    };
                assert(false);
            }
        }
        r
    }

    /// Detect an installed runtime version; with a sole subdirectory holding
    /// the binary, the resolved path is pinned.
    pub fn detect(fs: &FsState, os: Os, full_version: &str) -> (r: Result<
        NodeRuntime,
        ProvisionError,
    >)
        requires
            fs.wf(),
        ensures
            r matches Ok(n) ==> spec_node_detectable(fs@, os, full_version.spec_bytes())
                && fs@.contains_key(n.node_path.deep_view()),
            spec_node_root_empty(fs@, full_version.spec_bytes()) ==> r is Err,
            spec_node_surely_installed(fs@, os, full_version.spec_bytes()) ==> r is Ok,
            forall|c: Seq<u8>|
                (#[trigger] spec_sole_child(fs@, spec_node_root(full_version.spec_bytes()), c)
                    && fs@[spec_node_root(full_version.spec_bytes()).push(c)] is Dir
                    && fs@.contains_key(
                    spec_node_root(full_version.spec_bytes()).push(c) + spec_node_rel(os),
                )) ==> (r matches Ok(n) && n.node_path.deep_view() == spec_node_root(
                    full_version.spec_bytes(),
                ).push(c) + spec_node_rel(os)),
            r matches Err(e) ==> e matches ProvisionError::NotInstalled { tool, version } && tool@
                == "node"@ && version@ == full_version@,
    {
        let node_path = Self::get_installed_node(fs, os, full_version)?;
        Ok(NodeRuntime { node_path })
    }

    /// Whether this runtime version is installed, re-derived from the tree on
    /// every call.
    pub fn is_installed(fs: &FsState, os: Os, full_version: &str) -> (r: bool)
        requires
            fs.wf(),
        ensures
            r ==> spec_node_detectable(fs@, os, full_version.spec_bytes()),
            spec_node_root_empty(fs@, full_version.spec_bytes()) ==> !r,
            spec_node_surely_installed(fs@, os, full_version.spec_bytes()) ==> r,
    {
        Self::get_installed_node(fs, os, full_version).is_ok()
    }

    /// Install one runtime version.  An installed version is left as it
    /// stands; otherwise any stale root is removed and the install transition
    /// runs on the fetched bytes, after which the binaries that resolve are
    /// marked executable.  Success or failure, nothing outside the version
    /// root is touched.
    pub fn install(
        fs: &mut FsState,
        platform: PlatformId,
        full_version: &str,
        fetch: FetchResult,
    ) -> (r: Result<(), ProvisionError>)
        requires
            old(fs).wf(),
        ensures
            final(fs).wf(),
            spec_agrees_outside(old(fs)@, final(fs)@, spec_node_root(full_version.spec_bytes())),
            spec_node_surely_installed(
                old(fs)@,
                spec_platform_os(platform),
                full_version.spec_bytes(),
            ) ==> r is Ok && final(fs)@ == old(fs)@,
            spec_node_root_empty(old(fs)@, full_version.spec_bytes()) ==> match spec_node_install(
                old(fs)@,
                spec_platform_os(platform),
                full_version.spec_bytes(),
                spec_fetch(fetch),
            ) {
                Ok(m) => r is Ok && spec_exec_upgrade(m, final(fs)@) && (spec_platform_os(platform)
                    is Windows ==> final(fs)@ == m),
                Err(f) => r matches Err(e) && spec_err_matches(e, f, full_version@),
            },
            spec_node_root_empty(old(fs)@, full_version.spec_bytes()) && !spec_dirs_ok(
                old(fs)@.remove_keys(
                    Set::new(
                        |q: Seq<Seq<u8>>|
                            spec_starts_with(q, spec_node_root(full_version.spec_bytes())),
                    ),
                ),
                spec_node_root(full_version.spec_bytes()),
            ) ==> final(fs)@ == old(fs)@.remove_keys(
                Set::new(
                    |q: Seq<Seq<u8>>|
                        spec_starts_with(q, spec_node_root(full_version.spec_bytes())),
                ),
            ),
            spec_node_root_empty(old(fs)@, full_version.spec_bytes()) && spec_dirs_ok(
                old(fs)@.remove_keys(
                    Set::new(
                        |q: Seq<Seq<u8>>|
                            spec_starts_with(q, spec_node_root(full_version.spec_bytes())),
                    ),
                ),
                spec_node_root(full_version.spec_bytes()),
            ) && spec_fetch(fetch) is None ==> final(fs)@ == spec_with_dirs(
                old(fs)@.remove_keys(
                    Set::new(
                        |q: Seq<Seq<u8>>|
                            spec_starts_with(q, spec_node_root(full_version.spec_bytes())),
                    ),
                ),
                spec_node_root(full_version.spec_bytes()),
            ),
            spec_node_root_empty(old(fs)@, full_version.spec_bytes()) && !(spec_platform_os(
                platform,
            ) is Windows) ==> match spec_node_install(
                old(fs)@,
                spec_platform_os(platform),
                full_version.spec_bytes(),
                spec_fetch(fetch),
            ) {
                Ok(m) => forall|c: Seq<u8>|
                    (#[trigger] spec_sole_child(m, spec_node_root(full_version.spec_bytes()), c)
                        && m[spec_node_root(full_version.spec_bytes()).push(c)] is Dir
                        && m.contains_key(
                        spec_node_root(full_version.spec_bytes()).push(c) + spec_node_rel(
                            spec_platform_os(platform),
                        ),
                    )) ==> {
                        let bin = spec_node_root(full_version.spec_bytes()).push(c)
                            + spec_node_rel(spec_platform_os(platform));
                        final(fs)@.contains_key(bin) && final(fs)@[bin] == spec_set_exec(m[bin])
                    },
                Err(_) => true,
            },
    {
        let ghost v = full_version.spec_bytes();
        let ghost rootv = spec_node_root(v);
        let ghost m0 = fs@;
        let os = platform_os(platform);
        proof {
            lemma_starts_with_refl(rootv);
        }
        if Self::is_installed(fs, os, full_version) {
            proof {
                lemma_agrees_outside_refl(fs@, rootv);
            }
            return Ok(());
        }
        let root = node_root(full_version);
        fs.remove_tree(&root);
        proof {
            lemma_remove_keys_agrees(m0, rootv);
        }
        let ghost m1 = fs@;
        if fs.create_dir_all(&root).is_err() {
            return Err(
                ProvisionError::Filesystem {
                    tool: "node".to_owned(),
                    version: full_version.to_owned(),
                },
            );
        }
        proof {
            lemma_with_dirs_agrees(m1, rootv, rootv);
            lemma_agrees_outside_trans(m0, m1, fs@, rootv);
        }
        let ghost m2 = fs@;
        let bytes = match fetch {
            FetchResult::Failed => {
                return Err(
                    ProvisionError::Transport {
                        tool: "node".to_owned(),
                        version: full_version.to_owned(),
                        url: get_node_download_url(full_version, platform),
                    },
                );
            },
            FetchResult::Fetched(b) => b,
        };
        let arcpath = path_push(
            &root,
            &str_to_bytes(
                if os == Os::Windows {
                    "node.zip"
                } else {
                    "node.tar.gz"
                },
            ),
        );
        proof {
            assert(spec_starts_with(arcpath.deep_view(), rootv)) by {
                assert(arcpath.deep_view().subrange(0, rootv.len() as int) =~= rootv);
            }
        }
        if fs.write_file(&arcpath, clone_bytes(&bytes)).is_err() {
            return Err(
                ProvisionError::Filesystem {
                    tool: "node".to_owned(),
                    version: full_version.to_owned(),
                },
            );
        }
        proof {
            lemma_insert_agrees(m2, arcpath.deep_view(), fs@[arcpath.deep_view()], rootv);
            lemma_agrees_outside_trans(m0, m2, fs@, rootv);
        }
        let ghost m3 = fs@;
        let extracted = if os == Os::Windows {
            extract_zip(fs, &bytes, &root)
        } else {
            extract_tar_gz(fs, &bytes, &root)
        };
        proof {
            lemma_agrees_outside_trans(m0, m3, fs@, rootv);
        }
        if extracted.is_err() {
            return Err(
                ProvisionError::ArchiveBad {
                    tool: "node".to_owned(),
                    version: full_version.to_owned(),
                },
            );
        }
        let ghost m4 = fs@;
        fs.remove_file(&arcpath);
        proof {
            lemma_remove_agrees(m4, arcpath.deep_view(), rootv);
            lemma_agrees_outside_trans(m0, m4, fs@, rootv);
        }
        let ghost m_done = fs@;
        proof {
            lemma_exec_upgrade_refl(m_done);
        }
        if os != Os::Windows {
            let located = Self::get_installed_node(fs, os, full_version);
            if let Ok(node_path) = located {
                proof {
                    let c0 = choose|c: Seq<u8>|
                        {
                            &&& m_done.contains_key(spec_node_root(v).push(c))
                            &&& m_done[spec_node_root(v).push(c)] is Dir
                            &&& node_path.deep_view() == spec_node_root(v).push(c)
                                + spec_node_rel(os)
                        };
                    assert(spec_starts_with(node_path.deep_view(), rootv)) by {
                        assert(node_path.deep_view().subrange(0, rootv.len() as int) =~= rootv);
                    }
                }
                let ghost m_a = fs@;
                let chmod_done = fs.set_executable(&node_path);
                proof {
                    assert(chmod_done is Ok);
                    lemma_exec_upgrade_chmod(m_a, node_path.deep_view());
                    lemma_exec_upgrade_trans(m_done, m_a, fs@);
                    lemma_insert_agrees(
                        m_a,
                        node_path.deep_view(),
                        fs@[node_path.deep_view()],
                        rootv,
                    );
                    lemma_agrees_outside_trans(m0, m_a, fs@, rootv);
                }
                let ghost m_b = fs@;
                let located_npm = Self::get_installed_npm(fs, os, full_version);
                if let Ok(npm_path) = located_npm {
                    proof {
                        let c0 = choose|c: Seq<u8>|
                            {
                                &&& m_b.contains_key(spec_node_root(v).push(c))
                                &&& m_b[spec_node_root(v).push(c)] is Dir
                                &&& npm_path.deep_view() == spec_node_root(v).push(c)
                                    + spec_npm_rel(os)
                            };
                        assert(spec_starts_with(npm_path.deep_view(), rootv)) by {
                            assert(npm_path.deep_view().subrange(0, rootv.len() as int) =~= rootv);
                        }
                    }
                    let chmod_npm = fs.set_executable(&npm_path);
                    proof {
                        assert(chmod_npm is Ok);
                        lemma_exec_upgrade_chmod(m_b, npm_path.deep_view());
                        lemma_exec_upgrade_trans(m_done, m_b, fs@);
                        lemma_insert_agrees(
                            m_b,
                            npm_path.deep_view(),
                            fs@[npm_path.deep_view()],
                            rootv,
                        );
                        lemma_agrees_outside_trans(m0, m_b, fs@, rootv);
                    }
                    proof {
                        lemma_node_npm_rel_distinct(os);
                        assert forall|c: Seq<u8>|
                            (#[trigger] spec_sole_child(m_done, rootv, c) && m_done[rootv.push(c)]
                                is Dir && m_done.contains_key(
                                rootv.push(c) + spec_node_rel(os),
                            )) implies {
                            let bin = rootv.push(c) + spec_node_rel(os);
                            fs@.contains_key(bin) && fs@[bin] == spec_set_exec(m_done[bin])
                        } by {
                            let bin = rootv.push(c) + spec_node_rel(os);
                            assert(node_path.deep_view() == bin);
                            let c2 = choose|c2: Seq<u8>|
                                {
                                    &&& m_b.contains_key(rootv.push(c2))
                                    &&& m_b[rootv.push(c2)] is Dir
                                    &&& npm_path.deep_view() == rootv.push(c2) + spec_npm_rel(os)
                                    &&& m_b.contains_key(npm_path.deep_view())
                                };
                            assert(npm_path.deep_view() != bin) by {
                                assert(npm_path.deep_view().last() == spec_npm_rel(os).last());
                                assert(bin.last() == spec_node_rel(os).last());
                            }
                        }
                    }
                } else {
                    proof {
                        assert forall|c: Seq<u8>|
                            (#[trigger] spec_sole_child(m_done, rootv, c) && m_done[rootv.push(c)]
                                is Dir && m_done.contains_key(
                                rootv.push(c) + spec_node_rel(os),
                            )) implies {
                            let bin = rootv.push(c) + spec_node_rel(os);
                            fs@.contains_key(bin) && fs@[bin] == spec_set_exec(m_done[bin])
                        } by {
                            let bin = rootv.push(c) + spec_node_rel(os);
                            assert(node_path.deep_view() == bin);
                        }
                    }
                }
            } else {
                proof {
                    assert forall|c: Seq<u8>|
                        !(#[trigger] spec_sole_child(m_done, rootv, c) && m_done[rootv.push(c)]
                            is Dir && m_done.contains_key(rootv.push(c) + spec_node_rel(os))) by {
                        if spec_sole_child(m_done, rootv, c) && m_done[rootv.push(c)] is Dir
                            && m_done.contains_key(rootv.push(c) + spec_node_rel(os)) {
                            assert(spec_rel_surely_installed(m_done, v, spec_node_rel(os)));
                            assert(false);
                        }
                    }
                }
            }
        }
        Ok(())
    }

    /// Remove the whole version root; a version never installed is already
    /// gone, and removal succeeds without change.
    pub fn uninstall(fs: &mut FsState, full_version: &str) -> (r: Result<(), ProvisionError>)
        requires
            old(fs).wf(),
        ensures
            final(fs).wf(),
            r is Ok,
            final(fs)@ == old(fs)@.remove_keys(
                Set::new(
                    |q: Seq<Seq<u8>>|
                        spec_starts_with(q, spec_node_root(full_version.spec_bytes())),
                ),
            ),
            forall|os: Os| !spec_node_detectable(final(fs)@, os, full_version.spec_bytes()),
            (forall|q: Seq<Seq<u8>>|
                spec_starts_with(q, spec_node_root(full_version.spec_bytes()))
                    ==> !old(fs)@.contains_key(q)) ==> final(fs)@ == old(fs)@,
    {
        let root = node_root(full_version);
        fs.remove_tree(&root);
        proof {
            let v = full_version.spec_bytes();
            assert forall|os: Os| !spec_node_detectable(fs@, os, v) by {
                if spec_node_detectable(fs@, os, v) {
                    let c = choose|c: Seq<u8>|
                        {
                            &&& #[trigger] fs@.contains_key(spec_node_root(v).push(c))
                            &&& fs@[spec_node_root(v).push(c)] is Dir
                            &&& fs@.contains_key(spec_node_root(v).push(c) + spec_node_rel(os))
                        };
                    assert(spec_starts_with(spec_node_root(v).push(c), spec_node_root(v))) by {
                        assert(spec_node_root(v).push(c).subrange(0, 2) =~= spec_node_root(v));
                    }
                    assert(false);
                }
            }
            if forall|q: Seq<Seq<u8>>|
                spec_starts_with(q, spec_node_root(v)) ==> !old(fs)@.contains_key(q) {
                assert(fs@ =~= old(fs)@);
            }
        }
        Ok(())
    }
}

} // verus!
