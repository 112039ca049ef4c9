//! Decisions of the self-update: which release asset fits this platform and
//! whether the latest release is newer than the running version.

use vstd::prelude::*;
use crate::text::{chars_eq, string_of, to_chars};

verus! {

/// Why an update cannot proceed.
#[derive(Debug, PartialEq, Eq)]
pub enum UpdateError {
    /// No build is published for this operating system and architecture.
    UnsupportedPlatform,
    /// A version string is not a semantic version.
    InvalidVersion,
    /// The release holds no asset for this platform.
    NoAsset,
}

/// The asset built for an operating system and architecture, as Rust names
/// them (`std::env::consts::OS`, `ARCH`).
pub open spec fn asset_for(os: Seq<char>, arch: Seq<char>) -> Option<Seq<char>> {
    if os == "linux"@ && arch == "x86_64"@ {
        Some("dl.linux.x64"@)
    } else if os == "linux"@ && arch == "aarch64"@ {
        Some("dl.linux.arm"@)
    } else if os == "windows"@ && arch == "x86_64"@ {
        Some("dl.win.x64.exe"@)
    } else if os == "windows"@ && arch == "aarch64"@ {
        Some("dl.win.arm.exe"@)
    } else if os == "macos"@ && arch == "x86_64"@ {
        Some("dl.apple.intel"@)
    } else if os == "macos"@ && arch == "aarch64"@ {
        Some("dl.apple.arm"@)
    } else {
        None
    }
}

fn same(a: &str, b: &str) -> (r: bool)
    ensures
        r == (a@ == b@),
{
    chars_eq(to_chars(a).as_slice(), to_chars(b).as_slice())
}

/// Names the release asset for a platform.
pub fn platform_arch_to_asset_name(os: &str, arch: &str) -> (r: Result<String, UpdateError>)
    ensures
        asset_for(os@, arch@) matches Some(n) ==> r matches Ok(s) && s@ == n,
        asset_for(os@, arch@) is None ==> r == Err::<String, UpdateError>(
            UpdateError::UnsupportedPlatform,
        ),
{
    let name = if same(os, "linux") && same(arch, "x86_64") {
        "dl.linux.x64"
    } else if same(os, "linux") && same(arch, "aarch64") {
        "dl.linux.arm"
    } else if same(os, "windows") && same(arch, "x86_64") {
        "dl.win.x64.exe"
    } else if same(os, "windows") && same(arch, "aarch64") {
        "dl.win.arm.exe"
    } else if same(os, "macos") && same(arch, "x86_64") {
        "dl.apple.intel"
    } else if same(os, "macos") && same(arch, "aarch64") {
        "dl.apple.arm"
    } else {
        return Err(UpdateError::UnsupportedPlatform);
    };
    Ok(string_of(to_chars(name).as_slice()))
}

/// Whether `latest` is a newer semantic version than `current`, when both
/// parse.
pub uninterp spec fn newer_version_of(latest: Seq<char>, current: Seq<char>) -> Option<bool>;

/// Relies on `semver::Version::parse` and semver's ordering of versions:
/// both versions parse or not, and compare, by their text alone.
#[verifier::external_body]
fn compare_versions(latest: &str, current: &str) -> (r: Option<bool>)
    ensures
        r == newer_version_of(latest@, current@),
{
    match (semver::Version::parse(latest), semver::Version::parse(current)) {
        (Ok(l), Ok(c)) => Some(l > c),
        _ => None,
    }
}

/// `s` without its leading `v`s.
pub open spec fn strip_v(s: Seq<char>) -> Seq<char>
    decreases s.len(),
{
    if s.len() > 0 && s[0] == 'v' { strip_v(s.skip(1)) } else { s }
}

fn strip_v_exec(s: &str) -> (r: String)
    ensures
        r@ == strip_v(s@),
{
    let v = to_chars(s);
    let mut i: usize = 0;
    assert(v@.skip(0) =~= v@);
    while i < v.len() && v[i] == 'v'
        invariant
            i <= v@.len(),
            v@ == s@,
            strip_v(s@) == strip_v(v@.skip(i as int)),
        decreases v@.len() - i,
    {
        assert(v@.skip(i as int).skip(1) =~= v@.skip(i + 1));
        i = i + 1;
    }
    let rest = crate::text::sub_chars(v.as_slice(), i, v.len());
    assert(rest@ =~= v@.skip(i as int));
    string_of(rest.as_slice())
}

/// What to do about an update.
#[derive(Debug, PartialEq, Eq)]
pub enum UpdateDecision {
    /// A development build always takes the latest release.
    Development,
    /// The latest release is newer.
    Newer,
    /// The running version is current.
    UpToDate,
}

/// Decides whether to update. A build whose version is `0.0.0` is a
/// development build; otherwise both versions, without leading `v`s, are
/// compared as semantic versions.
pub fn update_decision(current: &str, latest_tag: &str) -> (r: Result<UpdateDecision, UpdateError>)
    ensures
        current@ == "0.0.0"@ ==> r == Ok::<UpdateDecision, UpdateError>(UpdateDecision::Development),
        current@ != "0.0.0"@ ==> r == match newer_version_of(strip_v(latest_tag@), strip_v(current@)) {
            Some(true) => Ok::<UpdateDecision, UpdateError>(UpdateDecision::Newer),
            Some(false) => Ok(UpdateDecision::UpToDate),
            None => Err(UpdateError::InvalidVersion),
        },
{
    if same(current, "0.0.0") {
        return Ok(UpdateDecision::Development);
    }
    let c = strip_v_exec(current);
    let l = strip_v_exec(latest_tag);
    match compare_versions(l.as_str(), c.as_str()) {
        Some(true) => Ok(UpdateDecision::Newer),
        Some(false) => Ok(UpdateDecision::UpToDate),
        None => Err(UpdateError::InvalidVersion),
    }
}

/// The position of the first asset with the given name.
pub fn find_asset(names: &Vec<String>, target: &str) -> (r: Result<usize, UpdateError>)
    ensures
        r matches Ok(k) ==> k < names@.len() && names@[k as int]@ == target@ && forall|j: int|
            0 <= j < k ==> names@[j]@ != target@,
        r is Err ==> r == Err::<usize, UpdateError>(UpdateError::NoAsset) && forall|j: int|
            0 <= j < names@.len() ==> names@[j]@ != target@,
{
    let mut k: usize = 0;
    while k < names.len()
        invariant
            k <= names@.len(),
            forall|j: int| 0 <= j < k ==> names@[j]@ != target@,
        decreases names@.len() - k,
    {
        if same(names[k].as_str(), target) {
            return Ok(k);
        }
        k = k + 1;
    }
    Err(UpdateError::NoAsset)
}

} // verus!
