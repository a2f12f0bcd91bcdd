//! Netplay compatibility between two peers' settings.
//!
//! To play, both sides must have a game picked, we must have the peer's
//! ROM, both must resolve to the same patch tag, both builds must simulate
//! the game the same way, every patch must be installed here, and both must
//! pick the same match type. Possession is checked from our side only: the
//! peer runs the same check against ours.
use vstd::prelude::*;
use crate::lobby::protocol::{Settings, SettingsView, clone_version};

verus! {

/// Local availability, as the host resolved it from its catalog.
pub struct Facts {
    pub remote_rom_available: bool,
    pub matching_tags: bool,
    pub missing_patch: Option<(String, semver::Version)>,
}

/// Whether two peers can play together, and if not, why not.
#[derive(Debug, PartialEq, Eq)]
pub enum Verdict {
    /// Everything agrees and everything needed is here.
    Compatible,
    /// One or both sides have no game picked.
    MissingGame,
    /// We don't have the peer's ROM, so we couldn't run their side.
    MissingRom,
    /// Everything agrees, but a patch package isn't installed here yet;
    /// fixable by fetching it.
    MissingPatch { name: String, version: semver::Version },
    /// Games and patches resolve to different tags.
    DifferentVersions,
    /// The peer's build simulates the game the way an older one does.
    SimVersionTooOld,
    /// The peer's build simulates the game the way a newer one does.
    SimVersionTooNew,
    /// Tags agree but the match types differ.
    DifferentMatchTypes,
}

/// The verdict `check` gives, as a spec: the first failing condition, in
/// the order the module documentation lists them.
pub open spec fn verdict_spec(local: SettingsView, remote: SettingsView, facts: Facts) -> Verdict {
    match (local.game_info, remote.game_info) {
        (Some(l), Some(r)) => if !facts.remote_rom_available {
            Verdict::MissingRom
        } else if !facts.matching_tags {
            Verdict::DifferentVersions
        } else if r.sim_version < l.sim_version {
            Verdict::SimVersionTooOld
        } else if r.sim_version > l.sim_version {
            Verdict::SimVersionTooNew
        } else if let Some((name, version)) = facts.missing_patch {
            Verdict::MissingPatch { name, version }
        } else if local.match_type != remote.match_type {
            Verdict::DifferentMatchTypes
        } else {
            Verdict::Compatible
        },
        _ => Verdict::MissingGame,
    }
}

/// Are these peers ready to play together, given the host's facts?
pub fn check(local: &Settings, remote: &Settings, facts: Facts) -> (v: Verdict)
    ensures
        v == verdict_spec(local@, remote@, facts),
{
    let (local_gi, remote_gi) = match (&local.game_info, &remote.game_info) {
        (Some(l), Some(r)) => (l, r),
        _ => {
            return Verdict::MissingGame;
        },
    };
    if !facts.remote_rom_available {
        return Verdict::MissingRom;
    }
    if !facts.matching_tags {
        return Verdict::DifferentVersions;
    }
    if remote_gi.sim_version < local_gi.sim_version {
        return Verdict::SimVersionTooOld;
    }
    if remote_gi.sim_version > local_gi.sim_version {
        return Verdict::SimVersionTooNew;
    }
    if let Some((name, version)) = facts.missing_patch {
        return Verdict::MissingPatch { name, version };
    }
    if local.match_type.0 != remote.match_type.0 || local.match_type.1 != remote.match_type.1 {
        return Verdict::DifferentMatchTypes;
    }
    Verdict::Compatible
}

/// Two peers are compatible exactly when both have a game, we have the
/// peer's ROM, the tags agree, both builds simulate the game alike, no
/// patch is missing here, and both picked the same match type (mode and
/// sub-mode). When everything but the match type agrees, the verdict is
/// that the match types differ.
pub proof fn law_compatible_means_all_agree(local: SettingsView, remote: SettingsView, facts: Facts)
    ensures
        verdict_spec(local, remote, facts) is Compatible <==> {
            &&& local.game_info is Some
            &&& remote.game_info is Some
            &&& facts.remote_rom_available
            &&& facts.matching_tags
            &&& local.game_info->Some_0.sim_version == remote.game_info->Some_0.sim_version
            &&& facts.missing_patch is None
            &&& local.match_type.0 == remote.match_type.0
            &&& local.match_type.1 == remote.match_type.1
        },
        ({
            &&& local.game_info is Some
            &&& remote.game_info is Some
            &&& facts.remote_rom_available
            &&& facts.matching_tags
            &&& local.game_info->Some_0.sim_version == remote.game_info->Some_0.sim_version
            &&& facts.missing_patch is None
            &&& (local.match_type.0 != remote.match_type.0 || local.match_type.1 != remote.match_type.1)
        }) ==> verdict_spec(local, remote, facts) is DifferentMatchTypes,
{
}

/// Each refusal comes from its own cause, checked in order: a missing game
/// on either side first; then, with both games picked, the peer's ROM, the
/// tags, and which build simulates the game the older way (the peer being
/// behind is `TooOld`, ahead is `TooNew`); then a patch missing here.
pub proof fn law_each_refusal_has_its_cause(local: SettingsView, remote: SettingsView, facts: Facts)
    ensures
        verdict_spec(local, remote, facts) is MissingGame <==> (local.game_info is None || remote.game_info is None),
        local.game_info is Some && remote.game_info is Some ==> {
            let (l, r) = (local.game_info->Some_0, remote.game_info->Some_0);
            &&& !facts.remote_rom_available ==> verdict_spec(local, remote, facts) is MissingRom
            &&& facts.remote_rom_available && !facts.matching_tags ==> verdict_spec(local, remote, facts) is DifferentVersions
            &&& facts.remote_rom_available && facts.matching_tags && r.sim_version < l.sim_version ==> verdict_spec(
                local,
                remote,
                facts,
            ) is SimVersionTooOld
            &&& facts.remote_rom_available && facts.matching_tags && r.sim_version > l.sim_version ==> verdict_spec(
                local,
                remote,
                facts,
            ) is SimVersionTooNew
            &&& facts.remote_rom_available && facts.matching_tags && r.sim_version == l.sim_version
                && facts.missing_patch is Some ==> verdict_spec(local, remote, facts) == (Verdict::MissingPatch {
                name: facts.missing_patch->Some_0.0,
                version: facts.missing_patch->Some_0.1,
            })
        },
{
}

impl Verdict {
    /// The patch to download, when that is all that stands in the way.
    pub fn fetchable(&self) -> (r: Option<(&str, &semver::Version)>)
        ensures
            self is MissingPatch <==> r is Some,
            r matches Some(p) ==> p.0@ == self->name@ && *p.1 == self->version,
    {
        match self {
            Verdict::MissingPatch { name, version } => Some((name.as_str(), version)),
            _ => None,
        }
    }

    /// Whether the verdict lets both sides ready up.
    pub fn is_compatible(&self) -> (r: bool)
        ensures
            r == (self is Compatible),
    {
        match self {
            Verdict::Compatible => true,
            _ => false,
        }
    }
}

/// The patch to download, when that is all that stands in the way.
pub fn fetchable_owned(v: &Verdict) -> (r: Option<(String, semver::Version)>)
    ensures
        v is MissingPatch <==> r is Some,
        r matches Some(p) ==> p.0@ == v->name@ && p.1 == v->version,
{
    match v.fetchable() {
        Some((name, version)) => Some((name.to_owned(), clone_version(version))),
        None => None,
    }
}

} // verus!
