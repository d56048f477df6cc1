//! The generic lifecycle manager.  A `ToolDescriptor` is the static
//! configuration of one provisionable tool — its name, URL template,
//! per-platform release names, archive layout and binary layout — handed in
//! as a value, so any tool and any transport can drive the same pipeline:
//! resolve, fetch, extract into a version-scoped root, locate, normalize
//! permissions, and an idempotent uninstall.

use vstd::prelude::*;
use vstd::string::StringSliceAdditionalSpecFns;

use crate::archive::{extract_tar_gz, extract_tar_gz_uv, extract_zip, spec_tar_gz_extract,
    spec_zip_extract};
use crate::fstree::{lemma_agrees_outside_refl, lemma_agrees_outside_trans, lemma_exec_upgrade_chmod,
    lemma_exec_upgrade_refl, lemma_exec_upgrade_trans, lemma_insert_agrees, lemma_remove_agrees,
    lemma_remove_keys_agrees, lemma_with_dirs_agrees, spec_agrees_outside, spec_can_write,
    spec_dirs_ok, spec_exec_upgrade, spec_with_dirs, spec_written_node, FsNodeModel, FsState};
use crate::locator::{locate_known_layout, spec_sole_child};
use crate::outcome::{spec_err_matches, spec_fetch, FetchResult, InstallFailure, InstallOutcome,
    ProvisionError};
use crate::pathname::{bytes_concat, clone_bytes, clone_path, lemma_starts_with_refl, path_push,
    spec_starts_with, str_to_bytes, PathBuf};
use crate::platform::{archive_ext, resolve_platform, spec_archive_ext, spec_resolve_platform,
    Arch, Os, PlatformId};
use crate::template::{render, spec_render, UrlTemplate};

verus! {

/// Static configuration of one provisionable tool.
pub struct ToolDescriptor {
    /// Tool name: names the family root and appears in errors.
    pub name: String,
    /// URL template for its releases.
    pub template: UrlTemplate,
    /// Release name per supported platform; a platform absent here is the
    /// unsupported outcome.
    pub platform_names: Vec<(PlatformId, String)>,
    /// Fills the release-date placeholder, where the template has one.
    pub release_date: String,
    /// Whether extraction discards the first path component of every entry.
    pub stripped: bool,
    /// Relative path of the binary inside the versioned folder, on Windows.
    pub rel_windows: PathBuf,
    /// The same, on the other operating systems.
    pub rel_posix: PathBuf,
}

/// First release name the table holds for a platform.
pub open spec fn spec_lookup_platform(
    table: Seq<(PlatformId, String)>,
    p: PlatformId,
) -> Option<Seq<char>>
    decreases table.len(),
{
    if table.len() == 0 {
        None
    } else if table[0].0 == p {
        Some(table[0].1@)
    } else {
        spec_lookup_platform(table.skip(1), p)
    }
}

/// Version root of a tool: `<name>-runtimes/<version>`.
pub open spec fn spec_tool_root(name: Seq<char>, v: Seq<u8>) -> Seq<Seq<u8>> {
    seq![vstd::utf8::encode_utf8(name) + "-runtimes".spec_bytes(), v]
}

/// Relative binary path by operating system.
pub open spec fn spec_tool_rel(t: ToolDescriptor, os: Os) -> Seq<Seq<u8>> {
    if os is Windows {
        t.rel_windows.deep_view()
    } else {
        t.rel_posix.deep_view()
    }
}

/// The version root contains exactly one entry, a directory, holding the
/// binary at its expected relative path.
pub open spec fn spec_tool_surely_installed(
    m: Map<Seq<Seq<u8>>, FsNodeModel>,
    t: ToolDescriptor,
    os: Os,
    v: Seq<u8>,
) -> bool {
    exists|c: Seq<u8>|
        {
            &&& #[trigger] spec_sole_child(m, spec_tool_root(t.name@, v), c)
            &&& m[spec_tool_root(t.name@, v).push(c)] is Dir
            &&& m.contains_key(spec_tool_root(t.name@, v).push(c) + spec_tool_rel(t, os))
        }
}

/// Some directory entry of the version root holds the binary.
pub open spec fn spec_tool_detectable(
    m: Map<Seq<Seq<u8>>, FsNodeModel>,
    t: ToolDescriptor,
    os: Os,
    v: Seq<u8>,
) -> bool {
    exists|c: Seq<u8>|
        {
            &&& #[trigger] m.contains_key(spec_tool_root(t.name@, v).push(c))
            &&& m[spec_tool_root(t.name@, v).push(c)] is Dir
            &&& m.contains_key(spec_tool_root(t.name@, v).push(c) + spec_tool_rel(t, os))
        }
}

/// No entry at all under the version root.
pub open spec fn spec_tool_root_empty(
    m: Map<Seq<Seq<u8>>, FsNodeModel>,
    name: Seq<char>,
    v: Seq<u8>,
) -> bool {
    forall|c: Seq<u8>| !m.contains_key(#[trigger] spec_tool_root(name, v).push(c))
}

/// The install transition on a tree: drop any stale version root, recreate
/// it, write the fetched archive into it, extract (zip flat on Windows,
/// gzip-tar flat or stripped elsewhere), and drop the archive.
pub open spec fn spec_tool_install(
    m0: Map<Seq<Seq<u8>>, FsNodeModel>,
    name: Seq<char>,
    stripped: bool,
    os: Os,
    v: Seq<u8>,
    b: Option<Seq<u8>>,
) -> Result<Map<Seq<Seq<u8>>, FsNodeModel>, InstallFailure> {
    let root = spec_tool_root(name, v);
    let m1 = m0.remove_keys(Set::new(|q: Seq<Seq<u8>>| spec_starts_with(q, root)));
    if !spec_dirs_ok(m1, root) {
        Err(InstallFailure::Filesystem { tool: name })
    } else {
        let m2 = spec_with_dirs(m1, root);
        if b is None {
            Err(InstallFailure::Transport { tool: name })
        } else {
            let bytes = b->Some_0;
            let arcpath = root.push(
                if os is Windows {
                    "tool.zip".spec_bytes()
                } else {
                    "tool.tar.gz".spec_bytes()
                },
            );
            if !spec_can_write(m2, arcpath) {
                Err(InstallFailure::Filesystem { tool: name })
            } else {
                let m3 = m2.insert(arcpath, spec_written_node(m2, arcpath, bytes));
                let ex = if os is Windows {
                    spec_zip_extract(m3, root, bytes)
                } else {
                    spec_tar_gz_extract(m3, root, bytes, stripped)
                };
                match ex {
                    None => Err(InstallFailure::ArchiveBad { tool: name }),
                    Some(m4) => Ok(
                        if m4.contains_key(arcpath) && m4[arcpath] is File {
                            m4.remove(arcpath)
                        } else {
                            m4
                        },
                    ),
                }
            }
        }
    }
}

/// Version root of a tool, as a path value.
pub fn tool_root(name: &str, version: &str) -> (r: PathBuf)
    ensures
        r.deep_view() == spec_tool_root(name@, version.spec_bytes()),
{
    let family = bytes_concat(&str_to_bytes(name), &str_to_bytes("-runtimes"));
    let mut r: PathBuf = Vec::new();
    r.push(family);
    r.push(str_to_bytes(version));
    proof {
        crate::pathname::lemma_deep_view_is(r, spec_tool_root(name@, version.spec_bytes()));
    }
    r
}

impl ToolDescriptor {
    /// Download URL for one version on one platform, or `None` when the
    /// platform is outside the supported set or absent from this tool's
    /// table: the unsupported outcome, never a failure.
    pub fn resolve_url(&self, os: Os, arch: Arch, version: &str) -> (r: Option<String>)
        ensures
            r is Some <==> (spec_resolve_platform(os, arch) matches Some(p)
                && spec_lookup_platform(self.platform_names@, p) is Some),
            r matches Some(url) ==> (spec_resolve_platform(os, arch) matches Some(p)
                && url@ == spec_render(
                self.template.segs@,
                version@,
                spec_lookup_platform(self.platform_names@, p)->Some_0,
                spec_archive_ext(os),
                self.release_date@,
            )),
    {
        let p = match resolve_platform(os, arch) {
            Some(p) => p,
            None => {
                return None;
            },
        };
        let mut i: usize = 0;
        proof {
            assert(self.platform_names@.skip(0) =~= self.platform_names@);
        }
        while i < self.platform_names.len()
            invariant
                i <= self.platform_names@.len(),
                spec_lookup_platform(self.platform_names@, p) == spec_lookup_platform(
                    self.platform_names@.skip(i as int),
                    p,
                ),
                spec_resolve_platform(os, arch) == Some(p),
            decreases self.platform_names@.len() - i,
        {
            proof {
                assert(self.platform_names@.skip(i as int)[0] == self.platform_names@[i as int]);
                assert(self.platform_names@.skip(i as int).skip(1) =~= self.platform_names@.skip(
                    i + 1 as int,
                ));
            }
            if self.platform_names[i].0 == p {
                proof {
                    assert(spec_lookup_platform(self.platform_names@, p) == Some(
                        self.platform_names@[i as int].1@,
                    ));
                }
                let url = render(
                    &self.template,
                    version,
                    self.platform_names[i].1.as_str(),
                    archive_ext(os),
                    self.release_date.as_str(),
                );
                return Some(url);
            }
            i += 1;
        }
        proof {
            assert(self.platform_names@.skip(self.platform_names@.len() as int) =~= Seq::<
                (PlatformId, String),
            >::empty());
        }
        None
    }

    /// Resolve the installed binary of one version by the known-layout
    /// strategy.
    pub fn locate(&self, fs: &FsState, os: Os, version: &str) -> (r: Option<PathBuf>)
        requires
            fs.wf(),
        ensures
            r matches Some(q) ==> spec_tool_detectable(fs@, *self, os, version.spec_bytes())
                && fs@.contains_key(q.deep_view()) && (exists|c: Seq<u8>|
                {
                    &&& #[trigger] fs@.contains_key(
                        spec_tool_root(self.name@, version.spec_bytes()).push(c),
                    )
                    &&& fs@[spec_tool_root(self.name@, version.spec_bytes()).push(c)] is Dir
                    &&& q.deep_view() == spec_tool_root(self.name@, version.spec_bytes()).push(c)
                        + spec_tool_rel(*self, os)
                }),
            spec_tool_root_empty(fs@, self.name@, version.spec_bytes()) ==> r is None,
            spec_tool_surely_installed(fs@, *self, os, version.spec_bytes()) ==> r is Some,
            forall|c: Seq<u8>|
                (#[trigger] spec_sole_child(fs@, spec_tool_root(self.name@, version.spec_bytes()), c)
                    && fs@[spec_tool_root(self.name@, version.spec_bytes()).push(c)] is Dir
                    && fs@.contains_key(
                    spec_tool_root(self.name@, version.spec_bytes()).push(c) + spec_tool_rel(
                        *self,
                        os,
                    ),
                )) ==> (r matches Some(q) && q.deep_view() == spec_tool_root(
                    self.name@,
                    version.spec_bytes(),
                ).push(c) + spec_tool_rel(*self, os)),
    {
        let root = tool_root(self.name.as_str(), version);
        let rel = if os == Os::Windows {
            clone_path(&self.rel_windows)
        } else {
            clone_path(&self.rel_posix)
        };
        let r = locate_known_layout(fs, &root, &rel);
        proof {
            let v = version.spec_bytes();
            if r is Some {
                let q = r->Some_0;
                let c = choose|c: Seq<u8>|
                    {
                        &&& fs@.contains_key(root.deep_view().push(c))
                        &&& fs@[root.deep_view().push(c)] is Dir
                        &&& q.deep_view() == root.deep_view().push(c) + rel.deep_view()
                        &&& fs@.contains_key(q.deep_view())
                    };
                assert(fs@.contains_key(spec_tool_root(self.name@, v).push(c)));
            }
            if spec_tool_surely_installed(fs@, *self, os, v) && r is None {
                let c = choose|c: Seq<u8>|
                    {
                        &&& spec_sole_child(fs@, spec_tool_root(self.name@, v), c)
                        &&& fs@[spec_tool_root(self.name@, v).push(c)] is Dir
                        &&& fs@.contains_key(
                            spec_tool_root(self.name@, v).push(c) + spec_tool_rel(*self, os),
                        )
                    };
                assert(false);
            }
        }
        r
    }

    /// Whether one version is installed, re-derived from the tree on every
    /// call.
    pub fn is_installed(&self, fs: &FsState, os: Os, version: &str) -> (r: bool)
        requires
            fs.wf(),
        ensures
            r ==> spec_tool_detectable(fs@, *self, os, version.spec_bytes()),
            spec_tool_root_empty(fs@, self.name@, version.spec_bytes()) ==> !r,
            spec_tool_surely_installed(fs@, *self, os, version.spec_bytes()) ==> r,
    {
        self.locate(fs, os, version).is_some()
    }

    /// Install one version.  An installed version is a no-op; a platform
    /// without a release is skipped; otherwise any stale root is removed, the
    /// install transition runs on the fetched bytes, and the binary that
    /// resolves afterwards is marked executable on POSIX-like systems.
    pub fn install(
        &self,
        fs: &mut FsState,
        os: Os,
        arch: Arch,
        version: &str,
        fetch: FetchResult,
    ) -> (r: Result<InstallOutcome, ProvisionError>)
        requires
            old(fs).wf(),
        ensures
            final(fs).wf(),
            spec_tool_surely_installed(old(fs)@, *self, os, version.spec_bytes()) ==> r == Ok::<
                InstallOutcome,
                ProvisionError,
            >(InstallOutcome::AlreadyInstalled) && final(fs)@ == old(fs)@,
            r == Ok::<InstallOutcome, ProvisionError>(InstallOutcome::AlreadyInstalled) ==> final(fs)@
                == old(fs)@ && spec_tool_detectable(old(fs)@, *self, os, version.spec_bytes()),
            r == Ok::<InstallOutcome, ProvisionError>(InstallOutcome::SkippedUnsupported) ==> final(fs)@
                == old(fs)@ && !(spec_resolve_platform(os, arch) matches Some(p)
                && spec_lookup_platform(self.platform_names@, p) is Some),
            spec_tool_root_empty(old(fs)@, self.name@, version.spec_bytes()) && !(
            spec_resolve_platform(os, arch) matches Some(p) && spec_lookup_platform(
                self.platform_names@,
                p,
            ) is Some) ==> r == Ok::<InstallOutcome, ProvisionError>(
                InstallOutcome::SkippedUnsupported,
            ) && final(fs)@ == old(fs)@,
            spec_tool_root_empty(old(fs)@, self.name@, version.spec_bytes()) && (
            spec_resolve_platform(os, arch) matches Some(p) && spec_lookup_platform(
                self.platform_names@,
                p,
            ) is Some) ==> match spec_tool_install(
                old(fs)@,
                self.name@,
                self.stripped,
                os,
                version.spec_bytes(),
                spec_fetch(fetch),
            ) {
                Ok(m) => r == Ok::<InstallOutcome, ProvisionError>(InstallOutcome::Installed)
                    && spec_exec_upgrade(m, final(fs)@) && (os is Windows ==> final(fs)@ == m),
                Err(f) => r matches Err(e) && spec_err_matches(e, f, version@),
            },
            spec_agrees_outside(
                old(fs)@,
                final(fs)@,
                spec_tool_root(self.name@, version.spec_bytes()),
            ),
            spec_tool_root_empty(old(fs)@, self.name@, version.spec_bytes()) && !(os is Windows)
                && (spec_resolve_platform(os, arch) matches Some(p) && spec_lookup_platform(
                self.platform_names@,
                p,
            ) is Some) ==> match spec_tool_install(
                old(fs)@,
                self.name@,
                self.stripped,
                os,
                version.spec_bytes(),
                spec_fetch(fetch),
            ) {
                Ok(m) => forall|c: Seq<u8>|
                    (#[trigger] spec_sole_child(
                        m,
                        spec_tool_root(self.name@, version.spec_bytes()),
                        c,
                    ) && m[spec_tool_root(self.name@, version.spec_bytes()).push(c)] is Dir
                        && m.contains_key(
                        spec_tool_root(self.name@, version.spec_bytes()).push(c) + spec_tool_rel(
                            *self,
                            os,
                        ),
                    )) ==> {
                        let bin = spec_tool_root(self.name@, version.spec_bytes()).push(c)
                            + spec_tool_rel(*self, os);
                        final(fs)@.contains_key(bin) && final(fs)@[bin] == crate::fstree::spec_set_exec(
                            m[bin],
                        )
                    },
                Err(_) => true,
            },
    {
        let ghost v = version.spec_bytes();
        let ghost rootv = spec_tool_root(self.name@, v);
        let ghost m0 = fs@;
        proof {
            lemma_starts_with_refl(rootv);
        }
        if self.is_installed(fs, os, version) {
            proof {
                lemma_agrees_outside_refl(fs@, rootv);
            }
            return Ok(InstallOutcome::AlreadyInstalled);
        }
        let url = match self.resolve_url(os, arch, version) {
            Some(u) => u,
            None => {
                proof {
                    lemma_agrees_outside_refl(fs@, rootv);
                }
                return Ok(InstallOutcome::SkippedUnsupported);
            },
        };
        let root = tool_root(self.name.as_str(), version);
        fs.remove_tree(&root);
        proof {
            lemma_remove_keys_agrees(m0, rootv);
        }
        let ghost m1 = fs@;
        if fs.create_dir_all(&root).is_err() {
            return Err(
                ProvisionError::Filesystem {
                    tool: self.name.clone(),
                    version: version.to_owned(),
                },
            );
        }
        proof {
            lemma_with_dirs_agrees(m1, rootv, rootv);
            lemma_agrees_outside_trans(m0, m1, fs@, rootv);
        }
        let ghost m2 = fs@;
        let bytes = match fetch {
            FetchResult::Failed => {
                return Err(
                    ProvisionError::Transport {
                        tool: self.name.clone(),
                        version: version.to_owned(),
                        url,
                    },
                );
            },
            FetchResult::Fetched(b) => b,
        };
        let arcpath = path_push(
            &root,
            &str_to_bytes(
                if os == Os::Windows {
                    "tool.zip"
                } else {
                    "tool.tar.gz"
                },
            ),
        );
        proof {
            assert(spec_starts_with(arcpath.deep_view(), rootv)) by {
                assert(arcpath.deep_view().subrange(0, rootv.len() as int) =~= rootv);
            }
        }
        if fs.write_file(&arcpath, clone_bytes(&bytes)).is_err() {
            return Err(
                ProvisionError::Filesystem {
                    tool: self.name.clone(),
                    version: version.to_owned(),
                },
            );
        }
        proof {
            lemma_insert_agrees(m2, arcpath.deep_view(), fs@[arcpath.deep_view()], rootv);
            lemma_agrees_outside_trans(m0, m2, fs@, rootv);
        }
        let ghost m3 = fs@;
        let extracted = if os == Os::Windows {
            extract_zip(fs, &bytes, &root)
        } else if self.stripped {
            extract_tar_gz_uv(fs, &bytes, &root)
        } else {
            extract_tar_gz(fs, &bytes, &root)
        };
        proof {
            lemma_agrees_outside_trans(m0, m3, fs@, rootv);
        }
        if extracted.is_err() {
            return Err(
                ProvisionError::ArchiveBad {
                    tool: self.name.clone(),
                    version: version.to_owned(),
                },
            );
        }
        let ghost m4 = fs@;
        fs.remove_file(&arcpath);
        proof {
            lemma_remove_agrees(m4, arcpath.deep_view(), rootv);
            lemma_agrees_outside_trans(m0, m4, fs@, rootv);
        }
        let ghost m_done = fs@;
        proof {
            lemma_exec_upgrade_refl(m_done);
        }
        if os != Os::Windows {
            let located = self.locate(fs, os, version);
            if let Some(bin) = located {
                proof {
                    let c0 = choose|c: Seq<u8>|
                        {
                            &&& m_done.contains_key(spec_tool_root(self.name@, v).push(c))
                            &&& m_done[spec_tool_root(self.name@, v).push(c)] is Dir
                            &&& bin.deep_view() == spec_tool_root(self.name@, v).push(c)
                                + spec_tool_rel(*self, os)
                        };
                    assert(spec_starts_with(bin.deep_view(), rootv)) by {
                        assert(bin.deep_view().subrange(0, rootv.len() as int) =~= rootv);
                    }
                }
                let ghost m_a = fs@;
                let chmod_done = fs.set_executable(&bin);
                proof {
                    assert(chmod_done is Ok);
                    lemma_exec_upgrade_chmod(m_a, bin.deep_view());
                    lemma_exec_upgrade_trans(m_done, m_a, fs@);
                    lemma_insert_agrees(m_a, bin.deep_view(), fs@[bin.deep_view()], rootv);
                    lemma_agrees_outside_trans(m0, m_a, fs@, rootv);
                }
                proof {
                    assert forall|c: Seq<u8>|
                        (#[trigger] spec_sole_child(m_done, rootv, c) && m_done[rootv.push(c)]
                            is Dir && m_done.contains_key(
                            rootv.push(c) + spec_tool_rel(*self, os),
                        )) implies {
                        let binv = rootv.push(c) + spec_tool_rel(*self, os);
                        fs@.contains_key(binv) && fs@[binv] == crate::fstree::spec_set_exec(
                            m_done[binv],
                        )
                    } by {
                        let binv = rootv.push(c) + spec_tool_rel(*self, os);
                        assert(bin.deep_view() == binv);
                    }
                }
            } else {
                proof {
                    assert forall|c: Seq<u8>|
                        !(#[trigger] spec_sole_child(m_done, rootv, c) && m_done[rootv.push(c)]
                            is Dir && m_done.contains_key(
                            rootv.push(c) + spec_tool_rel(*self, os),
                        )) by {
                        if spec_sole_child(m_done, rootv, c) && m_done[rootv.push(c)] is Dir
                            && m_done.contains_key(rootv.push(c) + spec_tool_rel(*self, os)) {
                            assert(spec_tool_surely_installed(m_done, *self, os, v));
                            assert(false);
                        }
                    }
                }
            }
        }
        Ok(InstallOutcome::Installed)
    }

    /// Remove the whole version root; a version never installed is already
    /// gone, and removal succeeds without change.
    pub fn uninstall(&self, fs: &mut FsState, version: &str) -> (r: Result<(), ProvisionError>)
        requires
            old(fs).wf(),
        ensures
            final(fs).wf(),
            r is Ok,
            final(fs)@ == old(fs)@.remove_keys(
                Set::new(
                    |q: Seq<Seq<u8>>|
                        spec_starts_with(q, spec_tool_root(self.name@, version.spec_bytes())),
                ),
            ),
            forall|os: Os| !spec_tool_detectable(final(fs)@, *self, os, version.spec_bytes()),
            (forall|q: Seq<Seq<u8>>|
                spec_starts_with(q, spec_tool_root(self.name@, version.spec_bytes()))
                    ==> !old(fs)@.contains_key(q)) ==> final(fs)@ == old(fs)@,
    {
        let root = tool_root(self.name.as_str(), version);
        fs.remove_tree(&root);
        proof {
            let v = version.spec_bytes();
            assert forall|os: Os| !spec_tool_detectable(fs@, *self, os, v) by {
                if spec_tool_detectable(fs@, *self, os, v) {
                    let c = choose|c: Seq<u8>|
                        {
                            &&& #[trigger] fs@.contains_key(spec_tool_root(self.name@, v).push(c))
                            &&& fs@[spec_tool_root(self.name@, v).push(c)] is Dir
                            &&& fs@.contains_key(
                                spec_tool_root(self.name@, v).push(c) + spec_tool_rel(*self, os),
                            )
                        };
                    assert(spec_starts_with(
                        spec_tool_root(self.name@, v).push(c),
                        spec_tool_root(self.name@, v),
                    )) by {
                        assert(spec_tool_root(self.name@, v).push(c).subrange(0, 2)
                            =~= spec_tool_root(self.name@, v));
                    }
                    assert(false);
                }
            }
            if forall|q: Seq<Seq<u8>>|
                spec_starts_with(q, spec_tool_root(self.name@, v)) ==> !old(fs)@.contains_key(q) {
                assert(fs@ =~= old(fs)@);
            }
        }
        Ok(())
    }
}

} // verus!
