//! Choosing what to install from a published release of the mirroring
//! program.

use crate::text::{chars_of, ends_with, is_word, slice_of, starts_with, string_of};
use vstd::prelude::*;
use vstd::string::StringExecFns;

verus! {

/// One downloadable file of a release.
#[derive(Clone, Debug, PartialEq, Eq)]
pub struct GithubAsset {
    pub name: String,
    pub browser_download_url: String,
}

/// A published release.
#[derive(Clone, Debug, PartialEq, Eq)]
pub struct GithubRelease {
    pub tag_name: String,
    pub assets: Vec<GithubAsset>,
}

/// How the name of the asset for a platform begins and ends.
pub ghost struct AssetPattern {
    pub prefix: Seq<char>,
    pub extension: Seq<char>,
}

/// The pattern of the asset for an operating system and a processor
/// architecture, where the program is published for them.
pub open spec fn asset_pattern(os: Seq<char>, arch: Seq<char>) -> Option<AssetPattern> {
    if os == "macos"@ && arch == "aarch64"@ {
        Some(AssetPattern { prefix: "scrcpy-macos-aarch64-v"@, extension: ".tar.gz"@ })
    } else if os == "macos"@ && arch == "x86_64"@ {
        Some(AssetPattern { prefix: "scrcpy-macos-x86_64-v"@, extension: ".tar.gz"@ })
    } else if os == "linux"@ && arch == "x86_64"@ {
        Some(AssetPattern { prefix: "scrcpy-linux-x86_64-v"@, extension: ".tar.gz"@ })
    } else if os == "windows"@ && arch == "x86_64"@ {
        Some(AssetPattern { prefix: "scrcpy-win64-v"@, extension: ".zip"@ })
    } else if os == "windows"@ && (arch == "x86"@ || arch == "i686"@) {
        Some(AssetPattern { prefix: "scrcpy-win32-v"@, extension: ".zip"@ })
    } else {
        None
    }
}

/// Whether a name begins and ends as the pattern says.
pub open spec fn fits(name: Seq<char>, pattern: AssetPattern) -> bool {
    pattern.prefix.is_prefix_of(name) && pattern.extension.is_suffix_of(name)
}

/// The first asset whose name fits the pattern.
pub open spec fn first_fit(assets: Seq<GithubAsset>, pattern: AssetPattern) -> Option<GithubAsset>
    decreases assets.len(),
{
    if assets.len() == 0 {
        None
    } else if fits(assets[0].name@, pattern) {
        Some(assets[0])
    } else {
        first_fit(assets.skip(1), pattern)
    }
}

/// The asset of a release that is meant for a platform: the first whose
/// name fits the pattern of the platform.
pub open spec fn pick_spec(os: Seq<char>, arch: Seq<char>, assets: Seq<GithubAsset>) -> Option<
    GithubAsset,
> {
    match asset_pattern(os, arch) {
        Some(pattern) => first_fit(assets, pattern),
        None => None,
    }
}

/// The first asset of a release that is meant for the given operating
/// system and processor architecture: the first whose name begins and ends
/// as the pattern of the platform says. There is none for a platform that
/// the program is not published for.
pub fn pick_scrcpy_asset<'a>(os: &str, arch: &str, assets: &'a [GithubAsset]) -> (out: Option<
    &'a GithubAsset,
>)
    ensures
        match out {
            Some(asset) => pick_spec(os@, arch@, assets@) == Some(*asset),
            None => pick_spec(os@, arch@, assets@) is None,
        },
{
    let os_chars = chars_of(os);
    let arch_chars = chars_of(arch);
    let (prefix, extension) = if is_word(&os_chars, "macos") && is_word(&arch_chars, "aarch64") {
        ("scrcpy-macos-aarch64-v", ".tar.gz")
    } else if is_word(&os_chars, "macos") && is_word(&arch_chars, "x86_64") {
        ("scrcpy-macos-x86_64-v", ".tar.gz")
    } else if is_word(&os_chars, "linux") && is_word(&arch_chars, "x86_64") {
        ("scrcpy-linux-x86_64-v", ".tar.gz")
    } else if is_word(&os_chars, "windows") && is_word(&arch_chars, "x86_64") {
        ("scrcpy-win64-v", ".zip")
    } else if is_word(&os_chars, "windows") && (is_word(&arch_chars, "x86") || is_word(
        &arch_chars,
        "i686",
    )) {
        ("scrcpy-win32-v", ".zip")
    } else {
        return None;
    };
    let ghost pattern = asset_pattern(os@, arch@)->0;
    let prefix_chars = chars_of(prefix);
    let extension_chars = chars_of(extension);
    assert(pattern.prefix == prefix_chars@ && pattern.extension == extension_chars@);
    let mut i: usize = 0;
    proof {
        assert(assets@.skip(0) =~= assets@);
    }
    while i < assets.len()
        invariant
            i <= assets.len(),
            asset_pattern(os@, arch@) == Some(pattern),
            pattern.prefix == prefix_chars@,
            pattern.extension == extension_chars@,
            first_fit(assets@, pattern) == first_fit(assets@.skip(i as int), pattern),
        decreases assets.len() - i,
    {
        let name = chars_of(assets[i].name.as_str());
        proof {
            assert(assets@.skip(i as int)[0] == assets@[i as int]);
            assert(assets@.skip(i as int).skip(1) =~= assets@.skip(i + 1));
        }
        if starts_with(&name, &prefix_chars) && ends_with(&name, &extension_chars) {
            return Some(&assets[i]);
        }
        i += 1;
    }
    None
}

/// What is downloaded for an installation, and under which version it is
/// installed.
#[derive(Clone, Debug, PartialEq, Eq)]
pub struct InstallPlan {
    /// The version of the release: it names the directory of the
    /// installation.
    pub version: String,
    /// The file name of the archive.
    pub archive_name: String,
    /// Where the archive is downloaded from.
    pub download_url: String,
}

/// Why an installation has failed.
#[derive(Clone, Copy, Debug, PartialEq, Eq, Structural)]
pub enum InstallError {
    /// The release has no asset for the platform.
    NoCompatibleAsset,
    /// The archive is of a kind that cannot be unpacked.
    UnsupportedArchive,
    /// The unpacked archive does not hold the mirroring program.
    ScrcpyNotFound,
    /// The unpacked archive does not hold the debug bridge.
    AdbNotFound,
}

/// What the user is told when an installation has failed.
pub open spec fn install_error_message(
    error: InstallError,
    os: Seq<char>,
    arch: Seq<char>,
) -> Seq<char> {
    match error {
        InstallError::NoCompatibleAsset => "No compatible scrcpy asset for "@ + os + "/"@ + arch,
        InstallError::UnsupportedArchive => "Unsupported archive format"@,
        InstallError::ScrcpyNotFound => "Failed to locate scrcpy binary"@,
        InstallError::AdbNotFound => "Failed to locate adb binary"@,
    }
}

impl InstallError {
    /// What the user is told.
    pub fn message(self, os: &str, arch: &str) -> (out: String)
        ensures
            out@ == install_error_message(self, os@, arch@),
    {
        match self {
            InstallError::NoCompatibleAsset => String::from_str(
                "No compatible scrcpy asset for ",
            ).concat(os).concat("/").concat(arch),
            InstallError::UnsupportedArchive => String::from_str("Unsupported archive format"),
            InstallError::ScrcpyNotFound => String::from_str("Failed to locate scrcpy binary"),
            InstallError::AdbNotFound => String::from_str("Failed to locate adb binary"),
        }
    }
}

/// Plans the installation of a release on a platform: the asset of the
/// platform is downloaded, and the release is installed under the version
/// that its tag names. A release without an asset for the platform cannot
/// be installed.
pub fn plan_install(os: &str, arch: &str, release: &GithubRelease) -> (out: Result<
    InstallPlan,
    InstallError,
>)
    ensures
        match out {
            Ok(plan) => {
                &&& pick_spec(os@, arch@, release.assets@) matches Some(asset)
                &&& plan.version@ == version_of_tag_spec(release.tag_name@)
                &&& plan.archive_name@ == asset.name@
                &&& plan.download_url@ == asset.browser_download_url@
            },
            Err(error) => error == InstallError::NoCompatibleAsset && pick_spec(
                os@,
                arch@,
                release.assets@,
            ) is None,
        },
{
    match pick_scrcpy_asset(os, arch, release.assets.as_slice()) {
        Some(asset) => Ok(
            InstallPlan {
                version: version_of_tag(release.tag_name.as_str()),
                archive_name: asset.name.clone(),
                download_url: asset.browser_download_url.clone(),
            },
        ),
        None => Err(InstallError::NoCompatibleAsset),
    }
}

/// `tag` without the letters `v` at its start.
pub open spec fn version_of_tag_spec(tag: Seq<char>) -> Seq<char>
    decreases tag.len(),
{
    if tag.len() > 0 && tag[0] == 'v' {
        version_of_tag_spec(tag.skip(1))
    } else {
        tag
    }
}

/// Dropping the letters `v` at the start drops those before the first
/// character that is none.
pub proof fn lemma_version_of_tag(tag: Seq<char>, i: int)
    requires
        0 <= i <= tag.len(),
        forall|k: int| 0 <= k < i ==> tag[k] == 'v',
        i < tag.len() ==> tag[i] != 'v',
    ensures
        version_of_tag_spec(tag) == tag.skip(i),
    decreases i,
{
    if i == 0 {
        assert(tag.skip(0) =~= tag);
    } else {
        let rest = tag.skip(1);
        assert forall|k: int| 0 <= k < i - 1 implies rest[k] == 'v' by {
            assert(rest[k] == tag[k + 1]);
        }
        if i < tag.len() {
            assert(rest[i - 1] == tag[i]);
        }
        lemma_version_of_tag(rest, i - 1);
        assert(rest.skip(i - 1) =~= tag.skip(i));
    }
}

/// The version that a release tag names: the tag without the letters `v`
/// at its start. It names the directory that the release is installed in.
pub fn version_of_tag(tag: &str) -> (out: String)
    ensures
        out@ == version_of_tag_spec(tag@),
{
    let chars = chars_of(tag);
    let mut i: usize = 0;
    while i < chars.len() && chars[i] == 'v'
        invariant
            i <= chars.len(),
            forall|k: int| 0 <= k < i ==> chars@[k] == 'v',
        decreases chars.len() - i,
    {
        i += 1;
    }
    proof {
        lemma_version_of_tag(chars@, i as int);
        assert(chars@.skip(i as int) =~= chars@.subrange(i as int, chars.len() as int));
    }
    let rest = slice_of(&chars, i, chars.len());
    string_of(&rest)
}

/// The kinds of archive that can be unpacked.
#[derive(Clone, Copy, Debug, PartialEq, Eq, Structural)]
pub enum ArchiveFormat {
    Zip,
    TarGz,
}

/// The kind of an archive, told from the extension and the file name of
/// its path, each as far as it can be read as text: a zip archive where
/// the extension is `zip`; else a compressed tar archive where the file
/// name ends with `.tar.gz`; else none that can be unpacked.
pub open spec fn archive_format_spec(
    extension: Option<Seq<char>>,
    file_name: Option<Seq<char>>,
) -> Option<ArchiveFormat> {
    if extension == Some("zip"@) {
        Some(ArchiveFormat::Zip)
    } else if file_name is Some && ".tar.gz"@.is_suffix_of(file_name->0) {
        Some(ArchiveFormat::TarGz)
    } else {
        None
    }
}

/// The kind of an archive, told from the extension and the file name of
/// its path.
pub fn archive_format(extension: Option<&str>, file_name: Option<&str>) -> (out: Option<
    ArchiveFormat,
>)
    ensures
        out == archive_format_spec(
            crate::tool_paths::opt_str_view(extension),
            crate::tool_paths::opt_str_view(file_name),
        ),
{
    match extension {
        Some(ext) => {
            if is_word(&chars_of(ext), "zip") {
                return Some(ArchiveFormat::Zip);
            }
        },
        None => {},
    }
    match file_name {
        Some(name) => {
            let tar_gz = chars_of(".tar.gz");
            if ends_with(&chars_of(name), &tar_gz) {
                return Some(ArchiveFormat::TarGz);
            }
        },
        None => {},
    }
    None
}

} // verus!
