use provision::config::{NODEJS_DOWNLOAD_TEMPLATE, PYTHON_DOWNLOAD_TEMPLATE, UV_DOWNLOAD_TEMPLATE};
use provision::platform::{archive_ext, get_platform_string, resolve_platform, Arch, Os, PlatformId};
use provision::template::{
    get_fnm_url, get_node_download_url, get_python_download_url, get_uv_download_url, get_uv_url,
    node_platform, PYTHON_RELEASE_DATE,
};

#[test]
fn four_supported_platforms_resolve() {
    assert_eq!(
        resolve_platform(Os::MacOs, Arch::Aarch64),
        Some(PlatformId::MacArm64)
    );
    assert_eq!(
        resolve_platform(Os::MacOs, Arch::X86_64),
        Some(PlatformId::MacX64)
    );
    assert_eq!(
        resolve_platform(Os::Windows, Arch::X86_64),
        Some(PlatformId::WindowsX64)
    );
    assert_eq!(
        resolve_platform(Os::Linux, Arch::X86_64),
        Some(PlatformId::LinuxX64)
    );
}

#[test]
fn platform_identifiers_distinct_and_nonempty() {
    let ids = [
        get_platform_string(PlatformId::MacArm64),
        get_platform_string(PlatformId::MacX64),
        get_platform_string(PlatformId::WindowsX64),
        get_platform_string(PlatformId::LinuxX64),
    ];
    for (i, a) in ids.iter().enumerate() {
        assert!(!a.is_empty());
        for b in ids.iter().skip(i + 1) {
            assert_ne!(a, b);
        }
    }
    let node_ids = [
        node_platform(PlatformId::MacArm64),
        node_platform(PlatformId::MacX64),
        node_platform(PlatformId::WindowsX64),
        node_platform(PlatformId::LinuxX64),
    ];
    for (i, a) in node_ids.iter().enumerate() {
        assert!(!a.is_empty());
        for b in node_ids.iter().skip(i + 1) {
            assert_ne!(a, b);
        }
    }
}

#[test]
fn archive_extension_zip_only_on_windows() {
    assert_eq!(archive_ext(Os::Windows), "zip");
    assert_eq!(archive_ext(Os::MacOs), "tar.gz");
    assert_eq!(archive_ext(Os::Linux), "tar.gz");
}

#[test]
fn unsupported_combinations_resolve_to_none() {
    assert_eq!(resolve_platform(Os::Windows, Arch::Aarch64), None);
    assert_eq!(resolve_platform(Os::Linux, Arch::Aarch64), None);
    assert!(get_uv_url("0.9.21", Os::Windows, Arch::Aarch64).is_none());
    assert!(get_uv_url("0.9.21", Os::Linux, Arch::Aarch64).is_none());
}

#[test]
fn python_url_matches_template_substitution() {
    let url = get_python_download_url("3.12.12", PlatformId::MacArm64);
    let expected = PYTHON_DOWNLOAD_TEMPLATE
        .replace("{release_date}", PYTHON_RELEASE_DATE)
        .replace("{version}", "3.12.12")
        .replace("{platform}", "aarch64-apple-darwin");
    assert_eq!(url, expected);
    assert_eq!(
        url,
        "https://github.com/astral-sh/python-build-standalone/releases/download/20251217/cpython-3.12.12+20251217-aarch64-apple-darwin-install_only.tar.gz"
    );
}

#[test]
fn uv_url_matches_template_substitution() {
    let url = get_uv_download_url("0.9.21", PlatformId::WindowsX64);
    let expected = UV_DOWNLOAD_TEMPLATE
        .replace("{version}", "0.9.21")
        .replace("{platform}", "x86_64-pc-windows-msvc")
        .replace("{ext}", "zip");
    assert_eq!(url, expected);
    let url2 = get_uv_download_url("0.9.21", PlatformId::LinuxX64);
    assert_eq!(
        url2,
        "https://github.com/astral-sh/uv/releases/download/0.9.21/uv-x86_64-unknown-linux-gnu.tar.gz"
    );
}

#[test]
fn node_url_matches_template_substitution() {
    let url = get_node_download_url("20.19.6", PlatformId::MacArm64);
    let expected = NODEJS_DOWNLOAD_TEMPLATE
        .replace("{version}", "20.19.6")
        .replace("{platform}", "darwin-arm64")
        .replace("{ext}", "tar.gz");
    assert_eq!(url, expected);
    assert_eq!(
        url,
        "https://nodejs.org/dist/v20.19.6/node-v20.19.6-darwin-arm64.tar.gz"
    );
}

#[test]
fn fnm_url_per_operating_system() {
    let (mac, mac_name) = get_fnm_url("1.35.1", Os::MacOs);
    assert_eq!(
        mac,
        "https://github.com/Schniz/fnm/releases/download/v1.35.1/fnm-macos.zip"
    );
    assert_eq!(mac_name, "fnm");
    let (win, win_name) = get_fnm_url("1.35.1", Os::Windows);
    assert_eq!(
        win,
        "https://github.com/Schniz/fnm/releases/download/v1.35.1/fnm-windows.zip"
    );
    assert_eq!(win_name, "fnm.exe");
    let (linux, linux_name) = get_fnm_url("1.35.1", Os::Linux);
    assert_eq!(
        linux,
        "https://github.com/Schniz/fnm/releases/download/v1.35.1/fnm-linux.zip"
    );
    assert_eq!(linux_name, "fnm");
}

#[test]
fn uv_sidecar_url_per_platform() {
    let (url, name) = get_uv_url("0.9.21", Os::MacOs, Arch::Aarch64).unwrap();
    assert_eq!(
        url,
        "https://github.com/astral-sh/uv/releases/download/0.9.21/uv-aarch64-apple-darwin.tar.gz"
    );
    assert_eq!(name, "uv");
    let (wurl, wname) = get_uv_url("0.9.21", Os::Windows, Arch::X86_64).unwrap();
    assert_eq!(
        wurl,
        "https://github.com/astral-sh/uv/releases/download/0.9.21/uv-x86_64-pc-windows-msvc.zip"
    );
    assert_eq!(wname, "uv.exe");
}
