use provision::fstree::FsState;
use provision::locator::{find_file, locate_known_layout};
use provision::outcome::{FetchResult, InstallOutcome};
use provision::platform::{Arch, Os, PlatformId};
use provision::manager::ToolDescriptor;
use provision::python_runtime::PythonRuntime;
use provision::node_runtime::NodeRuntime;
use provision::sidecar::{SidecarKind, SidecarTool};
use provision::template::{TemplateSeg, UrlTemplate};

fn path(parts: &[&str]) -> Vec<Vec<u8>> {
    parts.iter().map(|p| p.as_bytes().to_vec()).collect()
}

fn tar_gz_of(entries: &[(&str, &[u8])]) -> Vec<u8> {
    let mut tarbuf: Vec<u8> = Vec::new();
    {
        let mut builder = tar::Builder::new(&mut tarbuf);
        for (name, data) in entries {
            let mut header = tar::Header::new_gnu();
            header.set_size(data.len() as u64);
            header.set_mode(0o644);
            header.set_cksum();
            builder.append_data(&mut header, *name, *data).unwrap();
        }
        builder.finish().unwrap();
    }
    let mut encoder =
        flate2::write::GzEncoder::new(Vec::new(), flate2::Compression::default());
    std::io::Write::write_all(&mut encoder, &tarbuf).unwrap();
    encoder.finish().unwrap()
}

fn python_archives() -> (Vec<u8>, Vec<u8>) {
    let python = tar_gz_of(&[
        ("python/bin/python3", b"ELF python"),
        ("python/lib/libpython.so", b"lib"),
    ]);
    let uv = tar_gz_of(&[("uv-0.9.21/uv", b"ELF uv")]);
    (python, uv)
}

#[test]
fn python_install_places_both_binaries() {
    let mut fs = FsState::empty();
    let (python, uv) = python_archives();
    PythonRuntime::install(
        &mut fs,
        PlatformId::LinuxX64,
        "3.12.12",
        "0.9.21",
        FetchResult::Fetched(python),
        FetchResult::Fetched(uv),
    )
    .unwrap();
    assert!(PythonRuntime::is_installed(&fs, Os::Linux, "3.12.12"));
    let rt = PythonRuntime::detect(&fs, Os::Linux, "3.12.12").unwrap();
    assert_eq!(
        rt.python_path,
        path(&["python-runtimes", "3.12.12", "python", "bin", "python3"])
    );
    assert_eq!(rt.uv_path, path(&["python-runtimes", "3.12.12", "uv"]));
    assert!(fs.is_executable_file(&rt.python_path));
    assert!(fs.is_executable_file(&rt.uv_path));
    // the temporary archives are gone
    assert!(!fs.exists_path(&path(&["python-runtimes", "3.12.12", "python.tar.gz"])));
    assert!(!fs.exists_path(&path(&["python-runtimes", "3.12.12", "uv.tar.gz"])));
}

#[test]
fn python_install_twice_is_a_no_op() {
    let mut fs = FsState::empty();
    let (python, uv) = python_archives();
    PythonRuntime::install(
        &mut fs,
        PlatformId::LinuxX64,
        "3.12.12",
        "0.9.21",
        FetchResult::Fetched(python),
        FetchResult::Fetched(uv),
    )
    .unwrap();
    // the second call must not need any fetched bytes at all
    let second = PythonRuntime::install(
        &mut fs,
        PlatformId::LinuxX64,
        "3.12.12",
        "0.9.21",
        FetchResult::Failed,
        FetchResult::Failed,
    );
    assert!(second.is_ok());
    assert!(PythonRuntime::is_installed(&fs, Os::Linux, "3.12.12"));
}

#[test]
fn python_transport_failure_names_the_tool() {
    let mut fs = FsState::empty();
    let err = PythonRuntime::install(
        &mut fs,
        PlatformId::LinuxX64,
        "3.12.12",
        "0.9.21",
        FetchResult::Failed,
        FetchResult::Failed,
    )
    .unwrap_err();
    assert_eq!(err.tool(), "python");
    assert_eq!(err.version(), "3.12.12");
    assert!(!PythonRuntime::is_installed(&fs, Os::Linux, "3.12.12"));
}

#[test]
fn python_uninstall_is_idempotent() {
    let mut fs = FsState::empty();
    // uninstall of a never-installed version succeeds and changes nothing
    PythonRuntime::uninstall(&mut fs, "3.13.11").unwrap();
    assert!(!PythonRuntime::is_installed(&fs, Os::Linux, "3.13.11"));
    let (python, uv) = python_archives();
    PythonRuntime::install(
        &mut fs,
        PlatformId::LinuxX64,
        "3.13.11",
        "0.9.21",
        FetchResult::Fetched(python),
        FetchResult::Fetched(uv),
    )
    .unwrap();
    assert!(PythonRuntime::is_installed(&fs, Os::Linux, "3.13.11"));
    PythonRuntime::uninstall(&mut fs, "3.13.11").unwrap();
    assert!(!PythonRuntime::is_installed(&fs, Os::Linux, "3.13.11"));
    assert!(!fs.exists_path(&path(&["python-runtimes", "3.13.11"])));
}

#[test]
fn node_install_and_known_layout_detection() {
    let mut fs = FsState::empty();
    let archive = tar_gz_of(&[
        ("node-v20.19.6-linux-x64/bin/node", b"ELF node"),
        ("node-v20.19.6-linux-x64/bin/npm", b"#!npm"),
        ("node-v20.19.6-linux-x64/README.md", b"docs"),
    ]);
    NodeRuntime::install(
        &mut fs,
        PlatformId::LinuxX64,
        "20.19.6",
        FetchResult::Fetched(archive),
    )
    .unwrap();
    assert!(NodeRuntime::is_installed(&fs, Os::Linux, "20.19.6"));
    let rt = NodeRuntime::detect(&fs, Os::Linux, "20.19.6").unwrap();
    assert_eq!(
        rt.node_path,
        path(&["node-runtimes", "20.19.6", "node-v20.19.6-linux-x64", "bin", "node"])
    );
    assert!(fs.is_executable_file(&rt.node_path));
    let npm = NodeRuntime::get_installed_npm(&fs, Os::Linux, "20.19.6").unwrap();
    assert_eq!(
        npm,
        path(&["node-runtimes", "20.19.6", "node-v20.19.6-linux-x64", "bin", "npm"])
    );
    assert!(fs.is_executable_file(&npm));
    NodeRuntime::uninstall(&mut fs, "20.19.6").unwrap();
    assert!(!NodeRuntime::is_installed(&fs, Os::Linux, "20.19.6"));
    assert!(!fs.exists_path(&path(&["node-runtimes", "20.19.6"])));
}

fn alpha_descriptor() -> ToolDescriptor {
    ToolDescriptor {
        name: "alpha".to_owned(),
        template: UrlTemplate {
            segs: vec![
                TemplateSeg::Lit("https://releases.example/".to_owned()),
                TemplateSeg::Version,
                TemplateSeg::Lit("/alpha-".to_owned()),
                TemplateSeg::Platform,
                TemplateSeg::Lit(".".to_owned()),
                TemplateSeg::Ext,
            ],
        },
        platform_names: vec![(PlatformId::LinuxX64, "linux-x64".to_owned())],
        release_date: String::new(),
        stripped: false,
        rel_windows: path(&["alpha.exe"]),
        rel_posix: path(&["bin", "alpha"]),
    }
}

#[test]
fn end_to_end_generic_tool_install() {
    let alpha = alpha_descriptor();
    let mut fs = FsState::empty();
    // mocked transport: a fixed three-file archive with one top-level folder
    let archive = tar_gz_of(&[
        ("alpha-9.9.9/bin/alpha", b"ELF alpha"),
        ("alpha-9.9.9/bin/helper", b"#!helper"),
        ("alpha-9.9.9/share/readme", b"docs"),
    ]);
    let url = alpha.resolve_url(Os::Linux, Arch::X86_64, "9.9.9").unwrap();
    assert_eq!(url, "https://releases.example/9.9.9/alpha-linux-x64.tar.gz");
    let outcome = alpha
        .install(
            &mut fs,
            Os::Linux,
            Arch::X86_64,
            "9.9.9",
            FetchResult::Fetched(archive),
        )
        .unwrap();
    assert_eq!(outcome, InstallOutcome::Installed);
    assert!(alpha.is_installed(&fs, Os::Linux, "9.9.9"));
    let bin = alpha.locate(&fs, Os::Linux, "9.9.9").unwrap();
    assert_eq!(
        bin,
        path(&["alpha-runtimes", "9.9.9", "alpha-9.9.9", "bin", "alpha"])
    );
    assert!(fs.is_executable_file(&bin));
    // a second install is a pure no-op that needs no fetch
    let again = alpha
        .install(&mut fs, Os::Linux, Arch::X86_64, "9.9.9", FetchResult::Failed)
        .unwrap();
    assert_eq!(again, InstallOutcome::AlreadyInstalled);
    // uninstall removes the version root entirely
    alpha.uninstall(&mut fs, "9.9.9").unwrap();
    assert!(!alpha.is_installed(&fs, Os::Linux, "9.9.9"));
    assert!(!fs.exists_path(&path(&["alpha-runtimes", "9.9.9"])));
}

#[test]
fn generic_tool_unsupported_platform_is_skipped() {
    let alpha = alpha_descriptor();
    let mut fs = FsState::empty();
    let outcome = alpha
        .install(&mut fs, Os::Windows, Arch::X86_64, "9.9.9", FetchResult::Failed)
        .unwrap();
    assert_eq!(outcome, InstallOutcome::SkippedUnsupported);
    assert!(alpha.resolve_url(Os::Windows, Arch::X86_64, "9.9.9").is_none());
    assert!(alpha.resolve_url(Os::Linux, Arch::Aarch64, "9.9.9").is_none());
}

#[test]
fn sidecar_install_copies_searched_binary() {
    let mut fs = FsState::empty();
    fs.create_dir_all(&path(&["out"])).unwrap();
    fs.create_dir_all(&path(&["binaries"])).unwrap();
    let tool = SidecarTool {
        name: "uv".to_owned(),
        version: "0.9.21".to_owned(),
        kind: SidecarKind::PackageManager,
    };
    let archive = tar_gz_of(&[("uv-aarch64-apple-darwin/uv", b"ELF uv")]);
    let outcome = tool
        .install(
            &mut fs,
            &path(&["out"]),
            &path(&["binaries"]),
            Os::MacOs,
            Arch::Aarch64,
            FetchResult::Fetched(archive),
        )
        .unwrap();
    assert_eq!(outcome, InstallOutcome::Installed);
    assert!(fs.is_executable_file(&path(&["binaries", "uv"])));
    assert_eq!(fs.read_file(&path(&["binaries", "uv"])).unwrap(), b"ELF uv");
    // already present: skipped without touching anything
    let again = tool
        .install(
            &mut fs,
            &path(&["out"]),
            &path(&["binaries"]),
            Os::MacOs,
            Arch::Aarch64,
            FetchResult::Failed,
        )
        .unwrap();
    assert_eq!(again, InstallOutcome::AlreadyInstalled);
}

#[test]
fn locator_known_layout_single_subdirectory() {
    let mut fs = FsState::empty();
    fs.create_dir_all(&path(&["root", "pkg-1.2", "bin"])).unwrap();
    fs.write_file(&path(&["root", "pkg-1.2", "bin", "tool"]), b"x".to_vec())
        .unwrap();
    let found = locate_known_layout(&fs, &path(&["root"]), &path(&["bin", "tool"]));
    assert_eq!(found.unwrap(), path(&["root", "pkg-1.2", "bin", "tool"]));
    // missing binary: not found
    let mut fs2 = FsState::empty();
    fs2.create_dir_all(&path(&["root", "pkg-1.2", "bin"])).unwrap();
    assert!(locate_known_layout(&fs2, &path(&["root"]), &path(&["bin", "tool"])).is_none());
    // no subdirectory at all: not found
    let fs3 = FsState::empty();
    assert!(locate_known_layout(&fs3, &path(&["root"]), &path(&["bin", "tool"])).is_none());
}

#[test]
fn locator_recursive_search_finds_nested_file() {
    let mut fs = FsState::empty();
    fs.create_dir_all(&path(&["ex", "a", "b"])).unwrap();
    fs.write_file(&path(&["ex", "a", "b", "fnm"]), b"bin".to_vec())
        .unwrap();
    fs.write_file(&path(&["ex", "a", "other"]), b"no".to_vec())
        .unwrap();
    let found = find_file(&fs, &path(&["ex"]), &b"fnm".to_vec()).unwrap();
    assert_eq!(found, path(&["ex", "a", "b", "fnm"]));
    assert!(find_file(&fs, &path(&["ex"]), &b"absent".to_vec()).is_none());
}

#[test]
fn corrupt_archive_fails_install_naming_the_tool() {
    let mut fs = FsState::empty();
    let err = PythonRuntime::install(
        &mut fs,
        PlatformId::LinuxX64,
        "3.12.12",
        "0.9.21",
        FetchResult::Fetched(vec![0u8, 1, 2, 3]),
        FetchResult::Failed,
    )
    .unwrap_err();
    assert_eq!(err.tool(), "python");
    assert!(matches!(
        err,
        provision::outcome::ProvisionError::ArchiveBad { .. }
    ));
}

#[test]
fn blocked_version_root_is_a_filesystem_failure() {
    let mut fs = FsState::empty();
    // a plain file where the family root should be a directory
    fs.write_file(&path(&["python-runtimes"]), b"oops".to_vec())
        .unwrap();
    let (python, uv) = python_archives();
    let err = PythonRuntime::install(
        &mut fs,
        PlatformId::LinuxX64,
        "3.12.12",
        "0.9.21",
        FetchResult::Fetched(python),
        FetchResult::Fetched(uv),
    )
    .unwrap_err();
    assert!(matches!(
        err,
        provision::outcome::ProvisionError::Filesystem { .. }
    ));
}

#[test]
fn archive_without_the_binary_reports_not_installed() {
    let mut fs = FsState::empty();
    let python = tar_gz_of(&[("python/README", b"no binary here")]);
    let uv = tar_gz_of(&[("uv-0.9.21/uv", b"ELF uv")]);
    let err = PythonRuntime::install(
        &mut fs,
        PlatformId::LinuxX64,
        "3.12.12",
        "0.9.21",
        FetchResult::Fetched(python),
        FetchResult::Fetched(uv),
    )
    .unwrap_err();
    assert_eq!(err.tool(), "python");
    assert!(matches!(
        err,
        provision::outcome::ProvisionError::NotInstalled { .. }
    ));
}

#[test]
fn sidecar_zip_release_is_recognized_by_suffix() {
    // the version-manager tool ships zip archives on every operating system
    let mut fs = FsState::empty();
    fs.create_dir_all(&path(&["out"])).unwrap();
    fs.create_dir_all(&path(&["binaries"])).unwrap();
    let tool = SidecarTool {
        name: "fnm".to_owned(),
        version: "1.35.1".to_owned(),
        kind: SidecarKind::VersionManager,
    };
    let cursor = std::io::Cursor::new(Vec::new());
    let mut writer = zip::ZipWriter::new(cursor);
    let options = zip::write::SimpleFileOptions::default();
    writer.start_file("fnm", options).unwrap();
    std::io::Write::write_all(&mut writer, b"ELF fnm").unwrap();
    let archive = writer.finish().unwrap().into_inner();
    let outcome = tool
        .install(
            &mut fs,
            &path(&["out"]),
            &path(&["binaries"]),
            Os::Linux,
            Arch::X86_64,
            FetchResult::Fetched(archive),
        )
        .unwrap();
    assert_eq!(outcome, InstallOutcome::Installed);
    assert!(fs.is_executable_file(&path(&["binaries", "fnm"])));
    assert_eq!(fs.read_file(&path(&["binaries", "fnm"])).unwrap(), b"ELF fnm");
    // the temporary archive is gone; the scratch extraction directory stays
    assert!(!fs.exists_path(&path(&["out", "fnm-linux-x86_64.tmp"])));
    assert!(fs.is_dir(&path(&["out", "fnm-extract-linux-x86_64"])));
}

#[test]
fn sidecar_unsupported_platform_is_skipped() {
    let mut fs = FsState::empty();
    let tool = SidecarTool {
        name: "uv".to_owned(),
        version: "0.9.21".to_owned(),
        kind: SidecarKind::PackageManager,
    };
    let outcome = tool
        .install(
            &mut fs,
            &path(&["out"]),
            &path(&["binaries"]),
            Os::Linux,
            Arch::Aarch64,
            FetchResult::Failed,
        )
        .unwrap();
    assert_eq!(outcome, InstallOutcome::SkippedUnsupported);
}

#[test]
fn node_install_twice_is_a_no_op() {
    let mut fs = FsState::empty();
    let archive = tar_gz_of(&[("node-v22.21.1-linux-x64/bin/node", b"ELF node")]);
    NodeRuntime::install(
        &mut fs,
        PlatformId::LinuxX64,
        "22.21.1",
        FetchResult::Fetched(archive),
    )
    .unwrap();
    // the second call needs no fetched bytes
    let second = NodeRuntime::install(
        &mut fs,
        PlatformId::LinuxX64,
        "22.21.1",
        FetchResult::Failed,
    );
    assert!(second.is_ok());
    assert!(NodeRuntime::is_installed(&fs, Os::Linux, "22.21.1"));
}

#[test]
fn npm_missing_is_its_own_not_found() {
    let mut fs = FsState::empty();
    // runtime binary present, companion absent
    let archive = tar_gz_of(&[("node-v24.12.0-linux-x64/bin/node", b"ELF node")]);
    NodeRuntime::install(
        &mut fs,
        PlatformId::LinuxX64,
        "24.12.0",
        FetchResult::Fetched(archive),
    )
    .unwrap();
    assert!(NodeRuntime::is_installed(&fs, Os::Linux, "24.12.0"));
    let err = NodeRuntime::get_installed_npm(&fs, Os::Linux, "24.12.0").unwrap_err();
    assert_eq!(err.tool(), "npm");
    assert_eq!(err.version(), "24.12.0");
}

#[test]
fn node_install_replaces_a_stale_root() {
    let mut fs = FsState::empty();
    // a half-written earlier attempt: the root exists but holds no binary
    fs.create_dir_all(&path(&["node-runtimes", "22.21.1", "leftover"]))
        .unwrap();
    assert!(!NodeRuntime::is_installed(&fs, Os::Linux, "22.21.1"));
    let archive = tar_gz_of(&[("node-v22.21.1-linux-x64/bin/node", b"ELF node")]);
    NodeRuntime::install(
        &mut fs,
        PlatformId::LinuxX64,
        "22.21.1",
        FetchResult::Fetched(archive),
    )
    .unwrap();
    assert!(NodeRuntime::is_installed(&fs, Os::Linux, "22.21.1"));
    assert!(!fs.exists_path(&path(&["node-runtimes", "22.21.1", "leftover"])));
}
