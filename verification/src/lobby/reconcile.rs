//! The follow-up a host runs after anything moves, and the match-type
//! policy. Host-agnostic: the host hands over its settings and the facts
//! it resolved from its library as plain data.
use vstd::prelude::*;
use crate::lobby::compat::{Facts, Verdict, check, fetchable_owned, verdict_spec};
use crate::lobby::protocol::{Settings, SettingsView};
use crate::text::str_eq;
use crate::lobby::state::{
    CommandView, LobbyState, Phase, State, already_sent, appended, frame, lemma_appended_none,
    lemma_appended_trans, material_change, opt_settings_view,
};

verus! {

/// The verdict between our settings `local` and the peer's, once theirs
/// are on hand.
pub open spec fn verdict_against(remote: Option<Settings>, local: SettingsView, facts: Facts) -> Option<Verdict> {
    match remote {
        Some(r) => Some(verdict_spec(local, r@, facts)),
        None => None,
    }
}

/// The patch a verdict asks to fetch, as values.
pub open spec fn fetch_target(v: Option<Verdict>) -> Option<(Seq<char>, semver::Version)> {
    match v {
        Some(Verdict::MissingPatch { name, version }) => Some((name@, version)),
        _ => None,
    }
}

/// An owned fetch request, as values.
pub open spec fn fetch_view(r: Option<(String, semver::Version)>) -> Option<(Seq<char>, semver::Version)> {
    match r {
        Some((n, v)) => Some((n@, v)),
        None => None,
    }
}

/// What sending `settings` queues: nothing when already sent; otherwise
/// the Settings, preceded by an Uncommit when a material change voids a
/// commit.
pub open spec fn send_cmds(s: State, settings: SettingsView) -> Seq<CommandView> {
    if already_sent(s, settings) {
        Seq::empty()
    } else if material_change(s, settings) && !(s.handshake.local is NotReady) {
        seq![CommandView::Uncommit, CommandView::Settings(settings)]
    } else {
        seq![CommandView::Settings(settings)]
    }
}

/// Whether our commit survives sending `settings`.
pub open spec fn committed_after_send(s: State, settings: SettingsView) -> bool {
    !(s.handshake.local is NotReady) && !(!already_sent(s, settings) && material_change(s, settings))
}

/// Whether reconciling drops our commit for a verdict other than
/// compatible.
pub open spec fn reconcile_uncommits(s: State, settings: SettingsView, facts: Facts) -> bool {
    committed_after_send(s, settings) && (verdict_against(s.lobby.remote, settings, facts) matches Some(
        v,
    ) && !(v is Compatible))
}

/// Whether `match_types` (one subtype count per mode) offers `mt`.
pub open spec fn offered(match_types: Seq<usize>, mt: (u8, u8)) -> bool {
    (mt.0 as int) < match_types.len() && (mt.1 as int) < match_types[mt.0 as int]
}

/// The match type a family defaults to: the remembered one if still
/// offered, else Triple (mode 1) where the game has one, else Single.
pub open spec fn default_match_type(match_types: Seq<usize>, remembered: Option<(u8, u8)>) -> (u8, u8) {
    if remembered matches Some(mt) && offered(match_types, mt) {
        remembered->0
    } else if match_types.len() > 1 && match_types[1] > 0 {
        (1u8, 0u8)
    } else {
        (0u8, 0u8)
    }
}

fn is_offered(match_types: &[usize], mt: (u8, u8)) -> (r: bool)
    ensures
        r == offered(match_types@, mt),
{
    (mt.0 as usize) < match_types.len() && (mt.1 as usize) < match_types[mt.0 as usize]
}

impl State {
    /// The compatibility verdict between the two sides' settings, once
    /// both are on hand in the lobby.
    pub fn verdict(&self, facts: Facts) -> (v: Option<Verdict>)
        ensures
            v == (if self.phase is Lobby && self.lobby.local is Some {
                verdict_against(self.lobby.remote, self.lobby.local->0@, facts)
            } else {
                None
            }),
    {
        if !matches!(self.phase, Phase::Lobby { .. }) {
            return None;
        }
        match (&self.lobby.local, &self.lobby.remote) {
            (Some(local), Some(remote)) => Some(check(local, remote, facts)),
            _ => None,
        }
    }

    /// Bring the lobby in line with the host: make sure the peer has our
    /// current `settings` (deduped; a material change drops our commit),
    /// judge both sides with the host's `facts` once the peer's settings
    /// are here and drop our commit if they no longer agree, and return
    /// the patch to fetch when that is all that stands in the way.
    /// Idempotent; outside the lobby it does nothing.
    pub fn reconcile(&mut self, settings: Settings, facts: Facts) -> (r: Option<(String, semver::Version)>)
        ensures
            !(old(self).phase is Lobby) ==> r is None && *final(self) == *old(self),
            old(self).phase is Lobby ==> {
                let sv = settings@;
                &&& opt_settings_view(final(self).lobby.local) == Some(sv)
                &&& fetch_view(r) == fetch_target(verdict_against(old(self).lobby.remote, sv, facts))
                &&& appended(
                    old(self).outbox@,
                    final(self).outbox@,
                    send_cmds(*old(self), sv) + if reconcile_uncommits(*old(self), sv, facts) {
                        seq![CommandView::Uncommit]
                    } else {
                        Seq::empty()
                    },
                    old(self).commands_open,
                )
                &&& committed_after_send(*old(self), sv) && !reconcile_uncommits(*old(self), sv, facts)
                    ==> final(self).handshake.local == old(self).handshake.local
                &&& !(committed_after_send(*old(self), sv) && !reconcile_uncommits(*old(self), sv, facts))
                    ==> final(self).handshake.local is NotReady
                &&& final(self).handshake.remote == old(self).handshake.remote
                &&& final(self).lobby.remote == old(self).lobby.remote
                &&& final(self).lobby.match_type == old(self).lobby.match_type
                &&& final(self).lobby.blind_setup == old(self).lobby.blind_setup
                &&& final(self).lobby.default_mt_for_family == old(self).lobby.default_mt_for_family
                &&& final(self).failures == old(self).failures
                &&& frame(*old(self), *final(self))
            },
    {
        if !matches!(self.phase, Phase::Lobby { .. }) {
            return None;
        }
        let ghost sv = settings@;
        let ghost q0 = self.outbox@;
        self.send_local_settings(settings);
        let ghost q1 = self.outbox@;
        proof {
            if already_sent(*old(self), sv) {
                lemma_appended_none(q0, self.commands_open);
                assert(q1 == q0);
            }
        }
        let verdict = match self.verdict(facts) {
            Some(v) => v,
            None => {
                proof {
                    lemma_appended_none(q1, self.commands_open);
                    assert(send_cmds(*old(self), sv) + Seq::<CommandView>::empty() =~= send_cmds(
                        *old(self),
                        sv,
                    ));
                }
                return None;
            },
        };
        if !verdict.is_compatible() && self.local_ready() {
            self.uncommit();
            proof {
                lemma_appended_trans(q0, q1, self.outbox@, send_cmds(*old(self), sv), seq![CommandView::Uncommit], self.commands_open);
            }
        } else {
            proof {
                lemma_appended_none(q1, self.commands_open);
                lemma_appended_trans(q0, q1, self.outbox@, send_cmds(*old(self), sv), Seq::empty(), self.commands_open);
            }
        }
        fetchable_owned(&verdict)
    }

    /// The default match-type policy for the `family` being brought, whose
    /// `match_types` table gives each mode's subtype count: on a family
    /// change (or the first pick in this lobby), or when the current pick
    /// isn't offered, apply [`default_match_type`]; otherwise leave a
    /// sticky pick alone.
    pub fn apply_default_match_type(&mut self, family: &str, match_types: &[usize], remembered: Option<(u8, u8)>)
        ensures
            ({
                let changed = !(old(self).lobby.default_mt_for_family matches Some(f) && f@ == family@);
                &&& !changed && offered(match_types@, old(self).lobby.match_type) ==> *final(self)
                    == *old(self)
                &&& changed || !offered(match_types@, old(self).lobby.match_type) ==> {
                    &&& final(self).lobby.match_type == default_match_type(match_types@, remembered)
                    &&& final(self).lobby.default_mt_for_family matches Some(f) && f@ == family@
                    &&& final(self).lobby.local == old(self).lobby.local
                    &&& final(self).lobby.remote == old(self).lobby.remote
                    &&& final(self).lobby.blind_setup == old(self).lobby.blind_setup
                    &&& final(self).handshake == old(self).handshake
                    &&& final(self).outbox == old(self).outbox
                    &&& final(self).failures == old(self).failures
                    &&& frame(*old(self), *final(self))
                }
            }),
    {
        let family_changed = match &self.lobby.default_mt_for_family {
            Some(f) => !str_eq(f.as_str(), family),
            None => true,
        };
        if !family_changed && is_offered(match_types, self.lobby.match_type) {
            return;
        }
        self.lobby.match_type = match remembered {
            Some(mt) if is_offered(match_types, mt) => mt,
            _ => {
                if match_types.len() > 1 && match_types[1] > 0 {
                    (1, 0)
                } else {
                    (0, 0)
                }
            },
        };
        self.lobby.default_mt_for_family = Some(family.to_owned());
    }

    /// The user picked a match type while bringing a game of `family`:
    /// stamp the family as defaulted so the default policy doesn't clobber
    /// the pick.
    pub fn pick_match_type(&mut self, family: Option<&str>, match_type: (u8, u8))
        ensures
            final(self).lobby.match_type == match_type,
            family matches Some(f) ==> (final(self).lobby.default_mt_for_family matches Some(g)
                && g@ == f@),
            family is None ==> final(self).lobby.default_mt_for_family == old(
                self,
            ).lobby.default_mt_for_family,
            final(self).lobby.local == old(self).lobby.local,
            final(self).lobby.remote == old(self).lobby.remote,
            final(self).lobby.blind_setup == old(self).lobby.blind_setup,
            final(self).handshake == old(self).handshake,
            final(self).outbox == old(self).outbox,
            final(self).failures == old(self).failures,
            frame(*old(self), *final(self)),
    {
        self.lobby.match_type = match_type;
        if let Some(family) = family {
            self.lobby.default_mt_for_family = Some(family.to_owned());
        }
    }
}

} // verus!

verus! {

/// Settings are sent once: once a reconcile has advertised `sv`, a
/// further reconcile with the same settings queues no Settings, and one
/// with different settings queues exactly those, last.
pub proof fn law_settings_are_sent_once(s1: State, sv: SettingsView, other: SettingsView)
    requires
        opt_settings_view(s1.lobby.local) == Some(sv),
        other != sv,
    ensures
        send_cmds(s1, sv) == Seq::<CommandView>::empty(),
        send_cmds(s1, other).len() > 0 && send_cmds(s1, other).last() == CommandView::Settings(other),
        forall|i: int| 0 <= i < send_cmds(s1, other).len() - 1 ==> !(#[trigger] send_cmds(s1, other)[i] is Settings),
{
}

} // verus!
