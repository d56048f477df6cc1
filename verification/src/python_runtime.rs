//! Lifecycle of the interpreter distribution: each version lives in its own
//! root together with its package-manager companion, so versions coexist.
//! Install is idempotent — an already-installed version is a no-op — and the
//! whole pipeline is a function of the tree and the fetched bytes.

use vstd::prelude::*;
use vstd::string::StringSliceAdditionalSpecFns;

use crate::archive::{extract_tar_gz, extract_zip, extract_tar_gz_uv, spec_tar_gz_extract,
    spec_zip_extract};
use crate::fstree::{lemma_agrees_outside_refl, lemma_agrees_outside_trans, lemma_insert_agrees,
    lemma_remove_agrees, lemma_with_dirs_agrees, spec_agrees_outside, spec_can_write,
    spec_dirs_ok, spec_set_exec, spec_with_dirs, spec_written_node, FsNodeModel, FsState};
use crate::outcome::{spec_err_matches, spec_fetch, FetchResult, InstallFailure, ProvisionError};
use crate::pathname::{clone_bytes, lemma_starts_with_refl, path_push, spec_starts_with,
    str_to_bytes, PathBuf};
use crate::platform::{platform_os, spec_platform_os, Os, PlatformId};
use crate::template::{get_python_download_url, get_uv_download_url};

verus! {

/// Version root: every file of one interpreter version lives under it.
pub open spec fn spec_python_root(v: Seq<u8>) -> Seq<Seq<u8>> {
    seq!["python-runtimes".spec_bytes(), v]
}

/// The interpreter executable inside a version root.
pub open spec fn spec_python_exe(v: Seq<u8>, os: Os) -> Seq<Seq<u8>> {
    if os is Windows {
        spec_python_root(v) + seq!["python".spec_bytes(), "python.exe".spec_bytes()]
    } else {
        spec_python_root(v) + seq![
            "python".spec_bytes(),
            "bin".spec_bytes(),
            "python3".spec_bytes(),
        ]
    }
}

/// The package-manager executable inside a version root.
pub open spec fn spec_uv_exe(v: Seq<u8>, os: Os) -> Seq<Seq<u8>> {
    spec_python_root(v).push(
        if os is Windows {
            "uv.exe".spec_bytes()
        } else {
            "uv".spec_bytes()
        },
    )
}

/// Installed means: both expected binary paths are bound.  Nothing else is
/// consulted — no marker file, no cache.
pub open spec fn spec_python_installed(
    m: Map<Seq<Seq<u8>>, FsNodeModel>,
    os: Os,
    v: Seq<u8>,
) -> bool {
    m.contains_key(spec_python_exe(v, os)) && m.contains_key(spec_uv_exe(v, os))
}

/// Version root of the interpreter, as a path value.
pub fn python_root(version: &str) -> (r: PathBuf)
    ensures
        r.deep_view() == spec_python_root(version.spec_bytes()),
{
    let mut r: PathBuf = Vec::new();
    r.push(str_to_bytes("python-runtimes"));
    r.push(str_to_bytes(version));
    proof {
        crate::pathname::lemma_deep_view_is(r, spec_python_root(version.spec_bytes()));
    }
    r
}

/// Path of the interpreter executable for a version.
pub fn python_exe_path(version: &str, os: Os) -> (r: PathBuf)
    ensures
        r.deep_view() == spec_python_exe(version.spec_bytes(), os),
{
    let mut r = python_root(version);
    let ghost root = r@;
    proof {
        crate::pathname::lemma_deep_view_elems(r);
    }
    r.push(str_to_bytes("python"));
    if os == Os::Windows {
        r.push(str_to_bytes("python.exe"));
    } else {
        r.push(str_to_bytes("bin"));
        r.push(str_to_bytes("python3"));
    }
    proof {
        assert(forall|j: int| 0 <= j < root.len() ==> r@[j] == root[j]);
        crate::pathname::lemma_deep_view_is(r, spec_python_exe(version.spec_bytes(), os));
    }
    r
}

/// Path of the package-manager executable for a version.
pub fn uv_exe_path(version: &str, os: Os) -> (r: PathBuf)
    ensures
        r.deep_view() == spec_uv_exe(version.spec_bytes(), os),
{
    let mut r = python_root(version);
    let ghost root = r@;
    proof {
        crate::pathname::lemma_deep_view_elems(r);
    }
    if os == Os::Windows {
        r.push(str_to_bytes("uv.exe"));
    } else {
        r.push(str_to_bytes("uv"));
    }
    proof {
        assert(forall|j: int| 0 <= j < root.len() ==> r@[j] == root[j]);
        crate::pathname::lemma_deep_view_is(r, spec_uv_exe(version.spec_bytes(), os));
    }
    r
}

/// The tree after installing the package-manager companion into the version
/// root: write its archive, extract it (zip flat on Windows, gzip-tar with
/// the first component stripped elsewhere), drop the archive, and on
/// POSIX-like systems mark both binaries executable.
pub open spec fn spec_uv_step(
    m4: Map<Seq<Seq<u8>>, FsNodeModel>,
    os: Os,
    v: Seq<u8>,
    ub: Option<Seq<u8>>,
) -> Result<Map<Seq<Seq<u8>>, FsNodeModel>, InstallFailure> {
    let root = spec_python_root(v);
    if ub is None {
        Err(InstallFailure::Transport { tool: "uv"@ })
    } else {
        let ubytes = ub->Some_0;
        let arcpath = root.push(
            if os is Windows {
                "uv.zip".spec_bytes()
            } else {
                "uv.tar.gz".spec_bytes()
            },
        );
        if !spec_can_write(m4, arcpath) {
            Err(InstallFailure::Filesystem { tool: "uv"@ })
        } else {
            let m5 = m4.insert(arcpath, spec_written_node(m4, arcpath, ubytes));
            let ex = if os is Windows {
                spec_zip_extract(m5, root, ubytes)
            } else {
                spec_tar_gz_extract(m5, root, ubytes, true)
            };
            match ex {
                None => Err(InstallFailure::ArchiveBad { tool: "uv"@ }),
                Some(m6) => {
                    let m7 = if m6.contains_key(arcpath) && m6[arcpath] is File {
                        m6.remove(arcpath)
                    } else {
                        m6
                    };
                    if os is Windows {
                        Ok(m7)
                    } else {
                        spec_chmod_step(m7, os, v)
                    }
                },
            }
        }
    }
}

/// The permission-normalization step: both binaries must be present, and
/// both get the executable bit.
pub open spec fn spec_chmod_step(
    m7: Map<Seq<Seq<u8>>, FsNodeModel>,
    os: Os,
    v: Seq<u8>,
) -> Result<Map<Seq<Seq<u8>>, FsNodeModel>, InstallFailure> {
    let exe = spec_python_exe(v, os);
    let uv = spec_uv_exe(v, os);
    if !m7.contains_key(exe) {
        Err(InstallFailure::NotInstalled { tool: "python"@ })
    } else {
        let m8 = m7.insert(exe, spec_set_exec(m7[exe]));
        if !m8.contains_key(uv) {
            Err(InstallFailure::NotInstalled { tool: "uv"@ })
        } else {
            Ok(m8.insert(uv, spec_set_exec(m8[uv])))
        }
    }
}

/// The whole install transition on a tree where the version is not yet
/// installed: create the version root, write and extract the interpreter
/// archive flat, drop the archive, then provision the companion.
pub open spec fn spec_python_install(
    m0: Map<Seq<Seq<u8>>, FsNodeModel>,
    os: Os,
    v: Seq<u8>,
    pb: Option<Seq<u8>>,
    ub: Option<Seq<u8>>,
) -> Result<Map<Seq<Seq<u8>>, FsNodeModel>, InstallFailure> {
    let root = spec_python_root(v);
    if !spec_dirs_ok(m0, root) {
        Err(InstallFailure::Filesystem { tool: "python"@ })
    } else {
        let m1 = spec_with_dirs(m0, root);
        if pb is None {
            Err(InstallFailure::Transport { tool: "python"@ })
        } else {
            let pbytes = pb->Some_0;
            let tarpath = root.push("python.tar.gz".spec_bytes());
            if !spec_can_write(m1, tarpath) {
                Err(InstallFailure::Filesystem { tool: "python"@ })
            } else {
                let m2 = m1.insert(tarpath, spec_written_node(m1, tarpath, pbytes));
                match spec_tar_gz_extract(m2, root, pbytes, false) {
                    None => Err(InstallFailure::ArchiveBad { tool: "python"@ }),
                    Some(m3) => {
                        let m4 = if m3.contains_key(tarpath) && m3[tarpath] is File {
                            m3.remove(tarpath)
                        } else {
                            m3
                        };
                        spec_uv_step(m4, os, v, ub)
                    },
                }
            }
        }
    }
}

/// Resolved executables of one installed interpreter version.
pub struct PythonRuntime {
    pub python_path: PathBuf,
    pub uv_path: PathBuf,
}

impl PythonRuntime {
    /// Detect an installed version: resolve both executables, or report which
    /// one is missing.
    pub fn detect(fs: &FsState, os: Os, full_version: &str) -> (r: Result<
        PythonRuntime,
        ProvisionError,
    >)
        requires
            fs.wf(),
        ensures
            r is Ok <==> spec_python_installed(fs@, os, full_version.spec_bytes()),
            r matches Ok(p) ==> p.python_path.deep_view() == spec_python_exe(
                full_version.spec_bytes(),
                os,
            ) && p.uv_path.deep_view() == spec_uv_exe(full_version.spec_bytes(), os),
            r matches Err(e) ==> e matches ProvisionError::NotInstalled { tool, version } && (
            tool@ == "python"@ || tool@ == "uv"@) && version@ == full_version@,
    {
        let python_path = python_exe_path(full_version, os);
        if !fs.exists_path(&python_path) {
            return Err(
                ProvisionError::NotInstalled {
                    tool: "python".to_owned(),
                    version: full_version.to_owned(),
                },
            );
        }
        let uv_path = uv_exe_path(full_version, os);
        if !fs.exists_path(&uv_path) {
            return Err(
                ProvisionError::NotInstalled {
                    tool: "uv".to_owned(),
                    version: full_version.to_owned(),
                },
            );
        }
        Ok(PythonRuntime { python_path, uv_path })
    }

    /// Whether this version is installed: both binaries resolve, re-derived
    /// from the tree on every call.
    pub fn is_installed(fs: &FsState, os: Os, full_version: &str) -> (r: bool)
        requires
            fs.wf(),
        ensures
            r == spec_python_installed(fs@, os, full_version.spec_bytes()),
    {
        let python_path = python_exe_path(full_version, os);
        let uv_path = uv_exe_path(full_version, os);
        fs.exists_path(&python_path) && fs.exists_path(&uv_path)
    }

    /// Install one interpreter version together with its package-manager
    /// companion.  A version already installed is left exactly as it stands;
    /// otherwise the install transition runs on the fetched bytes, every
    /// failure names the tool, version and stage, and — success or failure —
    /// nothing outside the version root is touched.
    pub fn install(
        fs: &mut FsState,
        platform: PlatformId,
        full_version: &str,
        uv_version: &str,
        python_fetch: FetchResult,
        uv_fetch: FetchResult,
    ) -> (r: Result<(), ProvisionError>)
        requires
            old(fs).wf(),
        ensures
            final(fs).wf(),
            spec_agrees_outside(
                old(fs)@,
                final(fs)@,
                spec_python_root(full_version.spec_bytes()),
            ),
            spec_python_installed(
                old(fs)@,
                spec_platform_os(platform),
                full_version.spec_bytes(),
            ) ==> r is Ok && final(fs)@ == old(fs)@,
            !spec_python_installed(
                old(fs)@,
                spec_platform_os(platform),
                full_version.spec_bytes(),
            ) ==> match spec_python_install(
                old(fs)@,
                spec_platform_os(platform),
                full_version.spec_bytes(),
                spec_fetch(python_fetch),
                spec_fetch(uv_fetch),
            ) {
                Ok(m) => r is Ok && final(fs)@ == m,
                Err(f) => r matches Err(e) && spec_err_matches(e, f, full_version@),
            },
            !spec_python_installed(
                old(fs)@,
                spec_platform_os(platform),
                full_version.spec_bytes(),
            ) && !spec_dirs_ok(old(fs)@, spec_python_root(full_version.spec_bytes()))
                ==> final(fs)@ == old(fs)@,
            !spec_python_installed(
                old(fs)@,
                spec_platform_os(platform),
                full_version.spec_bytes(),
            ) && spec_dirs_ok(old(fs)@, spec_python_root(full_version.spec_bytes())) && spec_fetch(
                python_fetch,
            ) is None ==> final(fs)@ == spec_with_dirs(
                old(fs)@,
                spec_python_root(full_version.spec_bytes()),
            ),
            r is Ok && !(spec_platform_os(platform) is Windows) ==> spec_python_installed(
                final(fs)@,
                spec_platform_os(platform),
                full_version.spec_bytes(),
            ),
    {
        let ghost v = full_version.spec_bytes();
        let ghost rootv = spec_python_root(v);
        let ghost m0 = fs@;
        let os = platform_os(platform);
        proof {
            lemma_starts_with_refl(rootv);
            lemma_python_paths_under_root(v, os);
        }
        if Self::is_installed(fs, os, full_version) {
            proof {
                lemma_agrees_outside_refl(fs@, rootv);
            }
            return Ok(());
        }
        let root = python_root(full_version);
        if fs.create_dir_all(&root).is_err() {
            proof {
                lemma_agrees_outside_refl(fs@, rootv);
            }
            return Err(
                ProvisionError::Filesystem {
                    tool: "python".to_owned(),
                    version: full_version.to_owned(),
                },
            );
        }
        proof {
            lemma_with_dirs_agrees(m0, rootv, rootv);
        }
        let ghost m1 = fs@;
        let python_bytes = match python_fetch {
            FetchResult::Failed => {
                return Err(
                    ProvisionError::Transport {
                        tool: "python".to_owned(),
                        version: full_version.to_owned(),
                        url: get_python_download_url(full_version, platform),
                    },
                );
            },
            FetchResult::Fetched(b) => b,
        };
        let tarpath = path_push(&root, &str_to_bytes("python.tar.gz"));
        proof {
            assert(spec_starts_with(tarpath.deep_view(), rootv)) by {
                assert(tarpath.deep_view().subrange(0, rootv.len() as int) =~= rootv);
            }
        }
        if fs.write_file(&tarpath, clone_bytes(&python_bytes)).is_err() {
            return Err(
                ProvisionError::Filesystem {
                    tool: "python".to_owned(),
                    version: full_version.to_owned(),
                },
            );
        }
        proof {
            lemma_insert_agrees(m1, tarpath.deep_view(), fs@[tarpath.deep_view()], rootv);
            lemma_agrees_outside_trans(m0, m1, fs@, rootv);
        }
        let ghost m2 = fs@;
        let python_extracted = extract_tar_gz(fs, &python_bytes, &root);
        proof {
            lemma_agrees_outside_trans(m0, m2, fs@, rootv);
        }
        if python_extracted.is_err() {
            return Err(
                ProvisionError::ArchiveBad {
                    tool: "python".to_owned(),
                    version: full_version.to_owned(),
                },
            );
        }
        let ghost m3 = fs@;
        fs.remove_file(&tarpath);
        proof {
            lemma_remove_agrees(m3, tarpath.deep_view(), rootv);
            lemma_agrees_outside_trans(m0, m3, fs@, rootv);
        }
        let ghost m4 = fs@;
        let uv_bytes = match uv_fetch {
            FetchResult::Failed => {
                return Err(
                    ProvisionError::Transport {
                        tool: "uv".to_owned(),
                        version: full_version.to_owned(),
                        url: get_uv_download_url(uv_version, platform),
                    },
                );
            },
            FetchResult::Fetched(b) => b,
        };
        let arcpath = path_push(
            &root,
            &str_to_bytes(
                if os == Os::Windows {
                    "uv.zip"
                } else {
                    "uv.tar.gz"
                },
            ),
        );
        proof {
            assert(spec_starts_with(arcpath.deep_view(), rootv)) by {
                assert(arcpath.deep_view().subrange(0, rootv.len() as int) =~= rootv);
            }
        }
        if fs.write_file(&arcpath, clone_bytes(&uv_bytes)).is_err() {
            return Err(
                ProvisionError::Filesystem {
                    tool: "uv".to_owned(),
                    version: full_version.to_owned(),
                },
            );
        }
        proof {
            lemma_insert_agrees(m4, arcpath.deep_view(), fs@[arcpath.deep_view()], rootv);
            lemma_agrees_outside_trans(m0, m4, fs@, rootv);
        }
        let ghost m5 = fs@;
        let extracted = if os == Os::Windows {
            extract_zip(fs, &uv_bytes, &root)
        } else {
            extract_tar_gz_uv(fs, &uv_bytes, &root)
        };
        proof {
            lemma_agrees_outside_trans(m0, m5, fs@, rootv);
        }
        if extracted.is_err() {
            return Err(
                ProvisionError::ArchiveBad {
                    tool: "uv".to_owned(),
                    version: full_version.to_owned(),
                },
            );
        }
        let ghost m6 = fs@;
        fs.remove_file(&arcpath);
        proof {
            lemma_remove_agrees(m6, arcpath.deep_view(), rootv);
            lemma_agrees_outside_trans(m0, m6, fs@, rootv);
        }
        if os != Os::Windows {
            let exe = python_exe_path(full_version, os);
            if !fs.exists_path(&exe) {
                return Err(
                    ProvisionError::NotInstalled {
                        tool: "python".to_owned(),
                        version: full_version.to_owned(),
                    },
                );
            }
            let ghost m7 = fs@;
            if fs.set_executable(&exe).is_err() {
                return Err(
                    ProvisionError::NotInstalled {
                        tool: "python".to_owned(),
                        version: full_version.to_owned(),
                    },
                );
            }
            proof {
                lemma_insert_agrees(m7, exe.deep_view(), fs@[exe.deep_view()], rootv);
                lemma_agrees_outside_trans(m0, m7, fs@, rootv);
            }
            let uv = uv_exe_path(full_version, os);
            if !fs.exists_path(&uv) {
                return Err(
                    ProvisionError::NotInstalled {
                        tool: "uv".to_owned(),
                        version: full_version.to_owned(),
                    },
                );
            }
            let ghost m8 = fs@;
            if fs.set_executable(&uv).is_err() {
                return Err(
                    ProvisionError::NotInstalled {
                        tool: "uv".to_owned(),
                        version: full_version.to_owned(),
                    },
                );
            }
            proof {
                lemma_insert_agrees(m8, uv.deep_view(), fs@[uv.deep_view()], rootv);
                lemma_agrees_outside_trans(m0, m8, fs@, rootv);
            }
        }
        Ok(())
    }

    /// Remove the whole version root; a version never installed is already
    /// gone, and removal succeeds without change.
    pub fn uninstall(fs: &mut FsState, full_version: &str) -> (r: Result<(), ProvisionError>)
        requires
            old(fs).wf(),
        ensures
            final(fs).wf(),
            r is Ok,
            final(fs)@ == old(fs)@.remove_keys(
                Set::new(
                    |q: Seq<Seq<u8>>|
                        spec_starts_with(q, spec_python_root(full_version.spec_bytes())),
                ),
            ),
            forall|os: Os|
                !spec_python_installed(final(fs)@, os, full_version.spec_bytes()),
            (forall|q: Seq<Seq<u8>>|
                spec_starts_with(q, spec_python_root(full_version.spec_bytes()))
                    ==> !old(fs)@.contains_key(q)) ==> final(fs)@ == old(fs)@,
    {
        let root = python_root(full_version);
        fs.remove_tree(&root);
        proof {
            let v = full_version.spec_bytes();
            assert forall|os: Os| !spec_python_installed(fs@, os, v) by {
                lemma_python_paths_under_root(v, os);
            }
            if forall|q: Seq<Seq<u8>>|
                spec_starts_with(q, spec_python_root(v)) ==> !old(fs)@.contains_key(q) {
                assert(fs@ =~= old(fs)@);
            }
        }
        Ok(())
    }
}

/// Install is idempotent: a state left by a successful install transition on
/// a POSIX-like system satisfies `spec_python_installed`, so a second
/// `install` call for the same version is a no-op that fetches nothing.
pub proof fn lemma_python_install_idempotent(
    m0: Map<Seq<Seq<u8>>, FsNodeModel>,
    os: Os,
    v: Seq<u8>,
    pb: Option<Seq<u8>>,
    ub: Option<Seq<u8>>,
)
    requires
        !(os is Windows),
        spec_python_install(m0, os, v, pb, ub) is Ok,
    ensures
        spec_python_installed(spec_python_install(m0, os, v, pb, ub)->Ok_0, os, v),
{
    lemma_python_paths_under_root(v, os);
}

/// Both executable paths start with the version root.
proof fn lemma_python_paths_under_root(v: Seq<u8>, os: Os)
    ensures
        spec_starts_with(spec_python_exe(v, os), spec_python_root(v)),
        spec_starts_with(spec_uv_exe(v, os), spec_python_root(v)),
        spec_python_exe(v, os) != spec_uv_exe(v, os),
{
    let root = spec_python_root(v);
    assert(spec_python_exe(v, os).subrange(0, 2) =~= root);
    assert(spec_uv_exe(v, os).subrange(0, 2) =~= root);
    assert(spec_python_exe(v, os).len() != spec_uv_exe(v, os).len());
}

} // verus!
