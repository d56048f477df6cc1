//! The packaging-time pipeline: a fixed, small set of sidecar binaries is
//! fetched once for the build platform and copied into the application's
//! binaries directory.  A binary already present is skipped; a platform
//! without a release is skipped; the archive format follows the URL's file
//! extension; the binary is found by recursive search inside the scratch
//! extraction directory.

use vstd::prelude::*;
use vstd::string::StringSliceAdditionalSpecFns;

use crate::archive::{extract_tar_gz, extract_zip, spec_tar_gz_extract, spec_zip_extract};
use crate::fstree::{spec_can_write, spec_dirs_ok, spec_set_exec, spec_with_dirs,
    spec_written_node, FsNodeModel, FsState};
use crate::locator::find_file;
use crate::outcome::{spec_err_matches, spec_fetch, FetchResult, InstallFailure, InstallOutcome,
    ProvisionError};
use crate::pathname::{bytes_concat, bytes_ends_with, clone_bytes, path_push, spec_ends_with,
    spec_under, str_to_bytes, PathBuf};
use crate::platform::{Arch, Os};
use crate::template::{get_fnm_url, get_uv_url, spec_fnm_sidecar, spec_uv_sidecar};

verus! {

/// Which URL convention a sidecar tool follows.
#[derive(Clone, Copy, PartialEq, Eq, Structural, Debug)]
pub enum SidecarKind {
    /// The package-manager tool: per-platform archives, zip on Windows.
    PackageManager,
    /// The version-manager tool: one zip per operating system.
    VersionManager,
}

/// One sidecar tool: a name, a pinned version, and its URL convention.
pub struct SidecarTool {
    pub name: String,
    pub version: String,
    pub kind: SidecarKind,
}

/// Release URL and archive-internal binary name for a sidecar tool, or
/// `None` off the supported set.
pub open spec fn spec_sidecar_url(kind: SidecarKind, v: Seq<char>, os: Os, arch: Arch) -> Option<
    (Seq<char>, Seq<char>),
> {
    match kind {
        SidecarKind::PackageManager => spec_uv_sidecar(os, arch, v),
        SidecarKind::VersionManager => Some(spec_fnm_sidecar(os, v)),
    }
}

/// URL generator dispatch for a sidecar tool.
pub fn sidecar_url(kind: SidecarKind, version: &str, os: Os, arch: Arch) -> (r: Option<
    (String, String),
>)
    ensures
        r is Some <==> spec_sidecar_url(kind, version@, os, arch) is Some,
        r matches Some((url, name)) ==> (spec_sidecar_url(kind, version@, os, arch) matches Some(v)
            && url@ == v.0 && name@ == v.1),
{
    match kind {
        SidecarKind::PackageManager => get_uv_url(version, os, arch),
        SidecarKind::VersionManager => Some(get_fnm_url(version, os)),
    }
}

/// Name of the installed binary: the tool's name, with `.exe` on Windows.
pub open spec fn spec_sidecar_binary_name(name: Seq<char>, os: Os) -> Seq<u8> {
    if os is Windows {
        vstd::utf8::encode_utf8(name) + ".exe".spec_bytes()
    } else {
        vstd::utf8::encode_utf8(name)
    }
}

/// Target identifier used to namespace scratch paths.
pub open spec fn spec_triple_bytes(os: Os, arch: Arch) -> Seq<u8> {
    (match os {
        Os::MacOs => "macos".spec_bytes(),
        Os::Windows => "windows".spec_bytes(),
        Os::Linux => "linux".spec_bytes(),
    }) + "-".spec_bytes() + (match arch {
        Arch::Aarch64 => "aarch64".spec_bytes(),
        Arch::X86_64 => "x86_64".spec_bytes(),
    })
}

/// Name of the temporary archive file, namespaced by tool and target.
pub open spec fn spec_temp_name(name: Seq<char>, os: Os, arch: Arch) -> Seq<u8> {
    vstd::utf8::encode_utf8(name) + "-".spec_bytes() + spec_triple_bytes(os, arch)
        + ".tmp".spec_bytes()
}

/// Name of the scratch extraction directory, namespaced by tool and target.
pub open spec fn spec_exdir_name(name: Seq<char>, os: Os, arch: Arch) -> Seq<u8> {
    vstd::utf8::encode_utf8(name) + "-extract-".spec_bytes() + spec_triple_bytes(os, arch)
}

fn triple_bytes(os: Os, arch: Arch) -> (r: Vec<u8>)
    ensures
        r@ == spec_triple_bytes(os, arch),
{
    let osn = match os {
        Os::MacOs => "macos",
        Os::Windows => "windows",
        Os::Linux => "linux",
    };
    let archn = match arch {
        Arch::Aarch64 => "aarch64",
        Arch::X86_64 => "x86_64",
    };
    bytes_concat(
        &bytes_concat(&str_to_bytes(osn), &str_to_bytes("-")),
        &str_to_bytes(archn),
    )
}

/// The tree after fetch and extraction: the archive bytes written to the
/// temporary file, the scratch directory created, and the archive extracted
/// flat into it, in the format the URL's extension names.
pub open spec fn spec_sidecar_prep(
    m0: Map<Seq<Seq<u8>>, FsNodeModel>,
    temp: Seq<Seq<u8>>,
    exdir: Seq<Seq<u8>>,
    b: Seq<u8>,
    url_bytes: Seq<u8>,
    tool: Seq<char>,
) -> Result<Map<Seq<Seq<u8>>, FsNodeModel>, InstallFailure> {
    if !spec_can_write(m0, temp) {
        Err(InstallFailure::Filesystem { tool })
    } else {
        let m1 = m0.insert(temp, spec_written_node(m0, temp, b));
        if !spec_dirs_ok(m1, exdir) {
            Err(InstallFailure::Filesystem { tool })
        } else {
            let m2 = spec_with_dirs(m1, exdir);
            if spec_ends_with(url_bytes, ".tar.gz".spec_bytes()) {
                match spec_tar_gz_extract(m2, exdir, b, false) {
                    None => Err(InstallFailure::ArchiveBad { tool }),
                    Some(m3) => Ok(m3),
                }
            } else if spec_ends_with(url_bytes, ".zip".spec_bytes()) {
                match spec_zip_extract(m2, exdir, b) {
                    None => Err(InstallFailure::ArchiveBad { tool }),
                    Some(m3) => Ok(m3),
                }
            } else {
                Err(InstallFailure::ArchiveBad { tool })
            }
        }
    }
}

/// The tree after the found binary's contents are copied to the output path,
/// the copy is marked executable on POSIX-like systems, and the temporary
/// archive is dropped; `None` when the output cannot be written.
pub open spec fn spec_sidecar_finish(
    m: Map<Seq<Seq<u8>>, FsNodeModel>,
    data: Seq<u8>,
    output: Seq<Seq<u8>>,
    temp: Seq<Seq<u8>>,
    os: Os,
) -> Option<Map<Seq<Seq<u8>>, FsNodeModel>> {
    if !spec_can_write(m, output) {
        None
    } else {
        let m1 = m.insert(output, spec_written_node(m, output, data));
        let m2 = if os is Windows {
            m1
        } else {
            m1.insert(output, spec_set_exec(m1[output]))
        };
        Some(
            if m2.contains_key(temp) && m2[temp] is File {
                m2.remove(temp)
            } else {
                m2
            },
        )
    }
}

/// No file named `binname` anywhere under `exdir`.
pub open spec fn spec_binary_absent(
    m: Map<Seq<Seq<u8>>, FsNodeModel>,
    exdir: Seq<Seq<u8>>,
    binname: Seq<u8>,
) -> bool {
    forall|q: Seq<Seq<u8>>|
        #[trigger] m.contains_key(q) && m[q] is File && spec_under(q, exdir) ==> q.last()
            != binname
}

/// Some file named `binname` under `exdir` was copied out: the final tree is
/// the finish step applied to its contents.
pub open spec fn spec_copied_from(
    m: Map<Seq<Seq<u8>>, FsNodeModel>,
    exdir: Seq<Seq<u8>>,
    binname: Seq<u8>,
    output: Seq<Seq<u8>>,
    temp: Seq<Seq<u8>>,
    os: Os,
    mfinal: Map<Seq<Seq<u8>>, FsNodeModel>,
) -> bool {
    exists|q: Seq<Seq<u8>>|
        {
            &&& #[trigger] m.contains_key(q)
            &&& m[q] is File
            &&& spec_under(q, exdir)
            &&& q.last() == binname
            &&& (m[q] matches FsNodeModel::File { data, .. } && Some(mfinal)
                == spec_sidecar_finish(m, data, output, temp, os))
        }
}

/// A file matching the searched name refutes [`spec_binary_absent`].
proof fn lemma_found_witness(
    m: Map<Seq<Seq<u8>>, FsNodeModel>,
    q: Seq<Seq<u8>>,
    exdir: Seq<Seq<u8>>,
    binname: Seq<u8>,
)
    requires
        m.contains_key(q),
        m[q] is File,
        spec_under(q, exdir),
        q.last() == binname,
    ensures
        !spec_binary_absent(m, exdir, binname),
{
}

impl SidecarTool {
    /// Provision one sidecar binary into `binaries_dir`, using `out_dir` for
    /// the temporary archive and the scratch extraction directory.  A binary
    /// already present is skipped, as is a platform without a release; the
    /// scratch directory is left behind, as the packaging step always has.
    pub fn install(
        &self,
        fs: &mut FsState,
        out_dir: &PathBuf,
        binaries_dir: &PathBuf,
        os: Os,
        arch: Arch,
        fetch: FetchResult,
    ) -> (r: Result<InstallOutcome, ProvisionError>)
        requires
            old(fs).wf(),
        ensures
            final(fs).wf(),
            old(fs)@.contains_key(
                binaries_dir.deep_view().push(spec_sidecar_binary_name(self.name@, os)),
            ) ==> r == Ok::<InstallOutcome, ProvisionError>(InstallOutcome::AlreadyInstalled)
                && final(fs)@ == old(fs)@,
            !old(fs)@.contains_key(
                binaries_dir.deep_view().push(spec_sidecar_binary_name(self.name@, os)),
            ) && spec_sidecar_url(self.kind, self.version@, os, arch) is None ==> r == Ok::<
                InstallOutcome,
                ProvisionError,
            >(InstallOutcome::SkippedUnsupported) && final(fs)@ == old(fs)@,
            !old(fs)@.contains_key(
                binaries_dir.deep_view().push(spec_sidecar_binary_name(self.name@, os)),
            ) && spec_sidecar_url(self.kind, self.version@, os, arch) is Some && spec_fetch(fetch)
                is None ==> (r matches Err(e) && e matches ProvisionError::Transport {
                tool,
                version,
                ..
            } && tool@ == self.name@ && version@ == self.version@) && final(fs)@ == old(fs)@,
            !old(fs)@.contains_key(
                binaries_dir.deep_view().push(spec_sidecar_binary_name(self.name@, os)),
            ) && spec_sidecar_url(self.kind, self.version@, os, arch) is Some && spec_fetch(
                fetch,
            ) is Some ==> (match spec_sidecar_prep(
                old(fs)@,
                out_dir.deep_view().push(spec_temp_name(self.name@, os, arch)),
                out_dir.deep_view().push(spec_exdir_name(self.name@, os, arch)),
                spec_fetch(fetch)->Some_0,
                vstd::utf8::encode_utf8(
                    (spec_sidecar_url(self.kind, self.version@, os, arch)->Some_0).0,
                ),
                self.name@,
            ) {
                Err(f) => r matches Err(e) && spec_err_matches(e, f, self.version@),
                Ok(m) => {
                    &&& (spec_binary_absent(
                        m,
                        out_dir.deep_view().push(spec_exdir_name(self.name@, os, arch)),
                        spec_sidecar_binary_name(self.name@, os),
                    ) ==> (r matches Err(e) && e matches ProvisionError::NotInstalled {
                        tool,
                        version,
                    } && tool@ == self.name@ && version@ == self.version@))
                    &&& (!spec_binary_absent(
                        m,
                        out_dir.deep_view().push(spec_exdir_name(self.name@, os, arch)),
                        spec_sidecar_binary_name(self.name@, os),
                    ) && spec_can_write(
                        m,
                        binaries_dir.deep_view().push(spec_sidecar_binary_name(self.name@, os)),
                    ) ==> r == Ok::<InstallOutcome, ProvisionError>(InstallOutcome::Installed))
                    &&& (!spec_binary_absent(
                        m,
                        out_dir.deep_view().push(spec_exdir_name(self.name@, os, arch)),
                        spec_sidecar_binary_name(self.name@, os),
                    ) && !spec_can_write(
                        m,
                        binaries_dir.deep_view().push(spec_sidecar_binary_name(self.name@, os)),
                    ) ==> (r matches Err(e) && e matches ProvisionError::Filesystem {
                        tool,
                        version,
                    } && tool@ == self.name@ && version@ == self.version@))
                    &&& (r == Ok::<InstallOutcome, ProvisionError>(InstallOutcome::Installed)
                        ==> spec_copied_from(
                        m,
                        out_dir.deep_view().push(spec_exdir_name(self.name@, os, arch)),
                        spec_sidecar_binary_name(self.name@, os),
                        binaries_dir.deep_view().push(spec_sidecar_binary_name(self.name@, os)),
                        out_dir.deep_view().push(spec_temp_name(self.name@, os, arch)),
                        os,
                        final(fs)@,
                    ))
                },
            }),
    {
        let binary_name = if os == Os::Windows {
            bytes_concat(&str_to_bytes(self.name.as_str()), &str_to_bytes(".exe"))
        } else {
            str_to_bytes(self.name.as_str())
        };
        proof {
            assert(binary_name@ =~= spec_sidecar_binary_name(self.name@, os));
        }
        let output = path_push(binaries_dir, &binary_name);
        if fs.exists_path(&output) {
            return Ok(InstallOutcome::AlreadyInstalled);
        }
        let (url, _archive_binary) = match sidecar_url(self.kind, self.version.as_str(), os, arch) {
            Some(u) => u,
            None => {
                return Ok(InstallOutcome::SkippedUnsupported);
            },
        };
        let bytes = match fetch {
            FetchResult::Failed => {
                return Err(
                    ProvisionError::Transport {
                        tool: self.name.clone(),
                        version: self.version.clone(),
                        url,
                    },
                );
            },
            FetchResult::Fetched(b) => b,
        };
        let triple = triple_bytes(os, arch);
        let name_bytes = str_to_bytes(self.name.as_str());
        let temp_name = bytes_concat(
            &bytes_concat(&name_bytes, &str_to_bytes("-")),
            &bytes_concat(&triple, &str_to_bytes(".tmp")),
        );
        let exdir_name = bytes_concat(
            &bytes_concat(&name_bytes, &str_to_bytes("-extract-")),
            &triple,
        );
        let temp = path_push(out_dir, &temp_name);
        let exdir = path_push(out_dir, &exdir_name);
        proof {
            assert(temp_name@ =~= spec_temp_name(self.name@, os, arch));
            assert(exdir_name@ =~= spec_exdir_name(self.name@, os, arch));
        }
        if fs.write_file(&temp, clone_bytes(&bytes)).is_err() {
            return Err(
                ProvisionError::Filesystem {
                    tool: self.name.clone(),
                    version: self.version.clone(),
                },
            );
        }
        if fs.create_dir_all(&exdir).is_err() {
            return Err(
                ProvisionError::Filesystem {
                    tool: self.name.clone(),
                    version: self.version.clone(),
                },
            );
        }
        let url_bytes = str_to_bytes(url.as_str());
        let extracted = if bytes_ends_with(&url_bytes, &str_to_bytes(".tar.gz")) {
            extract_tar_gz(fs, &bytes, &exdir)
        } else if bytes_ends_with(&url_bytes, &str_to_bytes(".zip")) {
            extract_zip(fs, &bytes, &exdir)
        } else {
            return Err(
                ProvisionError::ArchiveBad {
                    tool: self.name.clone(),
                    version: self.version.clone(),
                },
            );
        };
        if extracted.is_err() {
            return Err(
                ProvisionError::ArchiveBad {
                    tool: self.name.clone(),
                    version: self.version.clone(),
                },
            );
        }
        let ghost m_prep = fs@;
        proof {
            assert(spec_sidecar_prep(
                old(fs)@,
                temp.deep_view(),
                exdir.deep_view(),
                bytes@,
                url_bytes@,
                self.name@,
            ) == Ok::<Map<Seq<Seq<u8>>, FsNodeModel>, InstallFailure>(m_prep));
        }
        let found = match find_file(fs, &exdir, &binary_name) {
            Some(q) => q,
            None => {
                proof {
                    assert(spec_binary_absent(
                        m_prep,
                        exdir.deep_view(),
                        spec_sidecar_binary_name(self.name@, os),
                    ));
                }
                return Err(
                    ProvisionError::NotInstalled {
                        tool: self.name.clone(),
                        version: self.version.clone(),
                    },
                );
            },
        };
        let data = match fs.read_file(&found) {
            Some(d) => clone_bytes(d),
            None => {
                proof {
                    assert(false);
                }
                return Err(
                    ProvisionError::NotInstalled {
                        tool: self.name.clone(),
                        version: self.version.clone(),
                    },
                );
            },
        };
        let ghost d0 = data@;
        if fs.write_file(&output, data).is_err() {
            proof {
                assert(!spec_can_write(fs@, output.deep_view()));
                lemma_found_witness(
                    m_prep,
                    found.deep_view(),
                    out_dir.deep_view().push(spec_exdir_name(self.name@, os, arch)),
                    spec_sidecar_binary_name(self.name@, os),
                );
            }
            return Err(
                ProvisionError::Filesystem {
                    tool: self.name.clone(),
                    version: self.version.clone(),
                },
            );
        }
        if os != Os::Windows {
            let chmod_done = fs.set_executable(&output);
            proof {
                assert(chmod_done is Ok);
            }
        }
        fs.remove_file(&temp);
        proof {
            let q = found.deep_view();
            let exdirv = out_dir.deep_view().push(spec_exdir_name(self.name@, os, arch));
            let binname = spec_sidecar_binary_name(self.name@, os);
            let outputv = binaries_dir.deep_view().push(binname);
            let tempv = out_dir.deep_view().push(spec_temp_name(self.name@, os, arch));
            lemma_found_witness(m_prep, q, exdirv, binname);
            assert(Some(fs@) == spec_sidecar_finish(m_prep, d0, outputv, tempv, os));
            assert(m_prep[q] matches FsNodeModel::File { data, .. } && data == d0);
            assert(spec_copied_from(m_prep, exdirv, binname, outputv, tempv, os, fs@)) by {
                assert(m_prep.contains_key(q));
            }
        }
        Ok(InstallOutcome::Installed)
    }
}

} // verus!
