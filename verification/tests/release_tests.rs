use scrcpy_gui::release::{
    archive_format, pick_scrcpy_asset, plan_install, version_of_tag, ArchiveFormat, GithubAsset,
    GithubRelease, InstallError, InstallPlan,
};

fn asset(name: &str) -> GithubAsset {
    GithubAsset { name: name.to_string(), browser_download_url: format!("https://example.invalid/{}", name) }
}

fn assets() -> Vec<GithubAsset> {
    vec![
        asset("SHA256SUMS.txt"),
        asset("scrcpy-linux-x86_64-v3.1.tar.gz"),
        asset("scrcpy-macos-aarch64-v3.1.tar.gz"),
        asset("scrcpy-macos-x86_64-v3.1.tar.gz"),
        asset("scrcpy-server-v3.1"),
        asset("scrcpy-win32-v3.1.zip"),
        asset("scrcpy-win64-v3.1.zip"),
        asset("scrcpy-win64-v3.2.zip"),
    ]
}

#[test]
fn each_platform_gets_its_asset() {
    let all = assets();
    let cases = [
        ("macos", "aarch64", "scrcpy-macos-aarch64-v3.1.tar.gz"),
        ("macos", "x86_64", "scrcpy-macos-x86_64-v3.1.tar.gz"),
        ("linux", "x86_64", "scrcpy-linux-x86_64-v3.1.tar.gz"),
        ("windows", "x86_64", "scrcpy-win64-v3.1.zip"),
        ("windows", "x86", "scrcpy-win32-v3.1.zip"),
        ("windows", "i686", "scrcpy-win32-v3.1.zip"),
    ];
    for (os, arch, name) in cases {
        assert_eq!(pick_scrcpy_asset(os, arch, &all), Some(&asset(name)), "{}/{}", os, arch);
    }
}

#[test]
fn other_platforms_get_none() {
    let all = assets();
    assert_eq!(pick_scrcpy_asset("linux", "aarch64", &all), None);
    assert_eq!(pick_scrcpy_asset("freebsd", "x86_64", &all), None);
    assert_eq!(pick_scrcpy_asset("windows", "aarch64", &all), None);
    assert_eq!(pick_scrcpy_asset("", "", &all), None);
    assert_eq!(pick_scrcpy_asset("Linux", "x86_64", &all), None);
}

#[test]
fn name_must_begin_and_end_as_the_platform_asks() {
    let some = vec![
        asset("scrcpy-linux-x86_64-v3.1.zip"),
        asset("x-scrcpy-linux-x86_64-v3.1.tar.gz"),
        asset("scrcpy-linux-x86_64-v.tar.gz"),
        asset("scrcpy-linux-x86_64-v3.1.tar.gz"),
    ];
    assert_eq!(pick_scrcpy_asset("linux", "x86_64", &some), Some(&some[2]));
    assert_eq!(pick_scrcpy_asset("linux", "x86_64", &some[..2]), None);
    assert_eq!(pick_scrcpy_asset("linux", "x86_64", &[]), None);
}

#[test]
fn version_is_the_tag_without_leading_v() {
    assert_eq!(version_of_tag("v3.1"), "3.1");
    assert_eq!(version_of_tag("3.1"), "3.1");
    assert_eq!(version_of_tag("vv3.1v"), "3.1v");
    assert_eq!(version_of_tag("v"), "");
    assert_eq!(version_of_tag(""), "");
    for tag in ["v1", "vvv", "V1", " v1", "version"] {
        assert_eq!(version_of_tag(tag), tag.trim_start_matches('v'));
    }
}

fn format_of(path: &str) -> Option<ArchiveFormat> {
    let path = std::path::Path::new(path);
    archive_format(
        path.extension().and_then(|e| e.to_str()),
        path.file_name().and_then(|n| n.to_str()),
    )
}

#[test]
fn archives_are_told_apart_by_extension_and_name() {
    assert_eq!(archive_format(Some("zip"), Some("scrcpy-win64-v3.1.zip")), Some(ArchiveFormat::Zip));
    assert_eq!(archive_format(Some("zip"), None), Some(ArchiveFormat::Zip));
    assert_eq!(archive_format(Some("gz"), Some("scrcpy-linux-x86_64-v3.1.tar.gz")), Some(ArchiveFormat::TarGz));
    assert_eq!(archive_format(None, Some(".tar.gz")), Some(ArchiveFormat::TarGz));
    assert_eq!(archive_format(Some("gz"), None), None);
    assert_eq!(archive_format(Some("ZIP"), Some("a.ZIP")), None);
    assert_eq!(archive_format(Some("tgz"), Some("a.tgz")), None);
    assert_eq!(archive_format(None, Some("zip")), None);
    assert_eq!(archive_format(None, None), None);
}

#[test]
fn archives_of_paths() {
    assert_eq!(format_of("/tmp/x/scrcpy-win64-v3.1.zip"), Some(ArchiveFormat::Zip));
    assert_eq!(format_of("a.tar.zip"), Some(ArchiveFormat::Zip));
    assert_eq!(format_of("..zip"), Some(ArchiveFormat::Zip));
    assert_eq!(format_of(".zip"), None);
    assert_eq!(format_of("/tmp/x/scrcpy-linux-x86_64-v3.1.tar.gz"), Some(ArchiveFormat::TarGz));
    assert_eq!(format_of("a.zip.gz"), None);
    assert_eq!(format_of(""), None);
}

#[test]
fn installation_is_planned_from_the_release() {
    let release = GithubRelease { tag_name: "v3.1".to_string(), assets: assets() };
    assert_eq!(
        plan_install("linux", "x86_64", &release),
        Ok(InstallPlan {
            version: "3.1".to_string(),
            archive_name: "scrcpy-linux-x86_64-v3.1.tar.gz".to_string(),
            download_url: "https://example.invalid/scrcpy-linux-x86_64-v3.1.tar.gz".to_string(),
        })
    );
    assert_eq!(plan_install("linux", "riscv64", &release), Err(InstallError::NoCompatibleAsset));
    let empty = GithubRelease { tag_name: "3.2".to_string(), assets: vec![] };
    assert_eq!(plan_install("macos", "aarch64", &empty), Err(InstallError::NoCompatibleAsset));
}

#[test]
fn installation_errors_have_messages() {
    assert_eq!(
        InstallError::NoCompatibleAsset.message("linux", "riscv64"),
        "No compatible scrcpy asset for linux/riscv64"
    );
    assert_eq!(InstallError::UnsupportedArchive.message("a", "b"), "Unsupported archive format");
    assert_eq!(InstallError::ScrcpyNotFound.message("a", "b"), "Failed to locate scrcpy binary");
    assert_eq!(InstallError::AdbNotFound.message("a", "b"), "Failed to locate adb binary");
}
