//! The lobby's wire-level values: what each side advertises about itself
//! and what it commits to, as plain data.
use vstd::prelude::*;

verus! {

/// `semver::Version`, carried opaquely: the lobby compares and copies
/// versions but never looks inside one.
#[verifier::external_type_specification]
#[verifier::external_body]
pub struct ExVersion(semver::Version);

/// Copy a version.
///
/// Calls `<semver::Version as Clone>::clone`, which copies every field
/// (major, minor, patch, pre-release and build metadata), so the copy is
/// the same version.
#[verifier::external_body]
pub fn clone_version(v: &semver::Version) -> (r: semver::Version)
    ensures
        r == *v,
{
    v.clone()
}

/// Compare two versions.
///
/// Calls `<semver::Version as PartialEq>::eq`, which compares every field
/// (major, minor, patch, pre-release and build metadata): equal exactly
/// when they are the same version.
#[verifier::external_body]
pub fn version_eq(a: &semver::Version, b: &semver::Version) -> (r: bool)
    ensures
        r == (*a == *b),
{
    a == b
}

/// Whether `semver` orders `a` before `b`.
pub uninterp spec fn semver_before(a: semver::Version, b: semver::Version) -> bool;

/// Whether one version comes before another.
///
/// Calls `<semver::Version as PartialOrd>::lt`. `Version` orders by major,
/// minor and patch, then pre-release, then build metadata, and that order
/// is total, transitive and consistent with its equality: of two versions
/// that are not equal, exactly one comes first, and what comes after `b`
/// comes after anything before `b`.
#[verifier::external_body]
pub(crate) fn version_less(a: &semver::Version, b: &semver::Version) -> (r: bool)
    ensures
        r == semver_before(*a, *b),
        r ==> !semver_before(*b, *a) && *a != *b,
        !r ==> *a == *b || semver_before(*b, *a),
        r ==> forall|c: semver::Version| #[trigger] semver_before(*b, c) ==> semver_before(*a, c),
{
    a < b
}

/// The text `semver` writes for a version.
pub uninterp spec fn version_text(v: semver::Version) -> Seq<char>;

/// Write a version as text.
///
/// Calls `<semver::Version as Display>::fmt` through `to_string`, which
/// writes `major.minor.patch`, then `-` and the pre-release and `+` and
/// the build metadata where those are not empty; the text depends on the
/// version alone.
#[verifier::external_body]
pub(crate) fn write_version(v: &semver::Version) -> (r: String)
    ensures
        r@ == version_text(*v),
{
    v.to_string()
}

/// A patch a side is running, by name and exact version.
#[derive(Debug, PartialEq, Eq)]
pub struct PatchInfo {
    pub name: String,
    pub version: semver::Version,
}

/// The game a side is bringing.
#[derive(Debug, PartialEq, Eq)]
pub struct GameInfo {
    /// The gamedb family (`"bn6"`) and variant.
    pub family_and_variant: (String, u8),
    pub patch: Option<PatchInfo>,
    /// How this build simulates the game; both sides must agree.
    pub sim_version: u32,
}

/// What a side advertises in the lobby.
#[derive(Debug, PartialEq, Eq)]
pub struct Settings {
    pub nickname: String,
    pub match_type: (u8, u8),
    pub blind_setup: bool,
    pub game_info: Option<GameInfo>,
}

/// The committed state one side reveals: a fresh nonce, its commit-time
/// wall clock, and the save it plays with.
#[derive(Debug, PartialEq, Eq)]
pub struct NegotiatedState {
    pub nonce: [u8; 16],
    pub ts: u64,
    pub save_data: Vec<u8>,
}

/// A patch, as values.
pub struct PatchView {
    pub name: Seq<char>,
    pub version: semver::Version,
}

/// A game, as values.
pub struct GameInfoView {
    pub family: Seq<char>,
    pub variant: u8,
    pub patch: Option<PatchView>,
    pub sim_version: u32,
}

/// Settings, as values.
pub struct SettingsView {
    pub nickname: Seq<char>,
    pub match_type: (u8, u8),
    pub blind_setup: bool,
    pub game_info: Option<GameInfoView>,
}

impl View for PatchInfo {
    type V = PatchView;

    open spec fn view(&self) -> PatchView {
        PatchView { name: self.name@, version: self.version }
    }
}

impl View for GameInfo {
    type V = GameInfoView;

    open spec fn view(&self) -> GameInfoView {
        GameInfoView {
            family: self.family_and_variant.0@,
            variant: self.family_and_variant.1,
            patch: match self.patch {
                Some(p) => Some(p@),
                None => None,
            },
            sim_version: self.sim_version,
        }
    }
}

impl View for Settings {
    type V = SettingsView;

    open spec fn view(&self) -> SettingsView {
        SettingsView {
            nickname: self.nickname@,
            match_type: self.match_type,
            blind_setup: self.blind_setup,
            game_info: match self.game_info {
                Some(g) => Some(g@),
                None => None,
            },
        }
    }
}

impl PatchInfo {
    /// A copy with the same value.
    pub fn copy(&self) -> (r: PatchInfo)
        ensures
            r@ == self@,
    {
        PatchInfo { name: self.name.clone(), version: clone_version(&self.version) }
    }
}

impl GameInfo {
    /// A copy with the same value.
    pub fn copy(&self) -> (r: GameInfo)
        ensures
            r@ == self@,
    {
        GameInfo {
            family_and_variant: (self.family_and_variant.0.clone(), self.family_and_variant.1),
            patch: match &self.patch {
                Some(p) => Some(p.copy()),
                None => None,
            },
            sim_version: self.sim_version,
        }
    }
}

impl Settings {
    /// A copy with the same value.
    pub fn copy(&self) -> (r: Settings)
        ensures
            r@ == self@,
    {
        Settings {
            nickname: self.nickname.clone(),
            match_type: self.match_type,
            blind_setup: self.blind_setup,
            game_info: match &self.game_info {
                Some(g) => Some(g.copy()),
                None => None,
            },
        }
    }
}

/// Whether two optional patches are the same patch at the same version.
pub fn patch_eq(a: &Option<PatchInfo>, b: &Option<PatchInfo>) -> (r: bool)
    ensures
        r == (match (a, b) {
            (Some(x), Some(y)) => x@ == y@,
            (None, None) => true,
            _ => false,
        }),
{
    match (a, b) {
        (Some(x), Some(y)) => x.name == y.name && version_eq(&x.version, &y.version),
        (None, None) => true,
        _ => false,
    }
}

/// Whether two optional games are the same game, patch and simulation.
pub fn game_info_eq(a: &Option<GameInfo>, b: &Option<GameInfo>) -> (r: bool)
    ensures
        r == (match (a, b) {
            (Some(x), Some(y)) => x@ == y@,
            (None, None) => true,
            _ => false,
        }),
{
    match (a, b) {
        (Some(x), Some(y)) => {
            x.family_and_variant.0 == y.family_and_variant.0 && x.family_and_variant.1
                == y.family_and_variant.1 && patch_eq(&x.patch, &y.patch) && x.sim_version
                == y.sim_version
        },
        (None, None) => true,
        _ => false,
    }
}

/// Whether two settings packets say the same thing.
pub fn settings_eq(a: &Settings, b: &Settings) -> (r: bool)
    ensures
        r == (a@ == b@),
{
    a.nickname == b.nickname && a.match_type.0 == b.match_type.0 && a.match_type.1
        == b.match_type.1 && a.blind_setup == b.blind_setup && game_info_eq(
        &a.game_info,
        &b.game_info,
    )
}

} // verus!
