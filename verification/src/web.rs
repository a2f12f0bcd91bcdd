//! What the browser frontend shows of the library and the lobby: flat,
//! comparable projections a UI can diff, and the names it gives things.
pub mod library;
pub mod input;
pub mod link;
pub mod loadout;

use vstd::prelude::*;
use crate::lobby::compat;
use crate::lobby::state::{LinkIdent, Phase};
use crate::paths::{StorePath, components, join_spec};
use crate::text::{chars_of, string_from_chars, push_all, decimal, decimal_spec};

verus! {

/// What kind of session was running.
#[derive(Clone, Copy, PartialEq, Eq, Debug)]
pub enum SessionKind {
    SinglePlayer,
    Pvp,
    Replay,
}

/// The frontend's screens.
#[derive(Clone, Copy, PartialEq, Eq, Debug)]
pub enum Screen {
    Library,
    Link,
    Replays,
    Play,
}

/// Where a session that ended, or was quit, leaves the user: back where it
/// was started from. A match goes back to the link screen, a replay to the
/// replays, and anything else (or nothing known) to the library.
pub fn screen_after(kind: Option<SessionKind>) -> (r: Screen)
    ensures
        r == match kind {
            Some(SessionKind::Pvp) => Screen::Link,
            Some(SessionKind::Replay) => Screen::Replays,
            _ => Screen::Library,
        },
{
    match kind {
        Some(SessionKind::Pvp) => Screen::Link,
        Some(SessionKind::Replay) => Screen::Replays,
        _ => Screen::Library,
    }
}

/// Where the lobby is, for display.
#[derive(Clone, PartialEq, Eq, Debug)]
pub enum PhaseView {
    Idle,
    /// Dialing the server, or (once `true`) in the room waiting for the
    /// other side to turn up.
    Connecting { waiting_for_opponent: bool },
    Negotiating,
    Lobby,
    Failed,
}

impl Default for PhaseView {
    fn default() -> (r: PhaseView)
        ensures
            r == PhaseView::Idle,
    {
        PhaseView::Idle
    }
}

/// The compatibility verdict, flattened for display. The fetchable case
/// keeps the patch name, because the UI fetches it.
#[derive(Clone, PartialEq, Eq, Debug)]
pub enum Verdict {
    Compatible,
    MissingGame,
    MissingRom,
    Fetching { name: String },
    DifferentVersions,
    SimVersionTooOld,
    SimVersionTooNew,
    DifferentMatchTypes,
}

/// How a compatibility verdict is shown: a missing patch as one the
/// frontend is fetching.
pub fn flatten_verdict(v: compat::Verdict) -> (r: Verdict)
    ensures
        r == match v {
            compat::Verdict::Compatible => Verdict::Compatible,
            compat::Verdict::MissingGame => Verdict::MissingGame,
            compat::Verdict::MissingRom => Verdict::MissingRom,
            compat::Verdict::MissingPatch { name, version: _ } => Verdict::Fetching { name },
            compat::Verdict::DifferentVersions => Verdict::DifferentVersions,
            compat::Verdict::SimVersionTooOld => Verdict::SimVersionTooOld,
            compat::Verdict::SimVersionTooNew => Verdict::SimVersionTooNew,
            compat::Verdict::DifferentMatchTypes => Verdict::DifferentMatchTypes,
        },
{
    match v {
        compat::Verdict::Compatible => Verdict::Compatible,
        compat::Verdict::MissingGame => Verdict::MissingGame,
        compat::Verdict::MissingRom => Verdict::MissingRom,
        compat::Verdict::MissingPatch { name, version: _ } => Verdict::Fetching { name },
        compat::Verdict::DifferentVersions => Verdict::DifferentVersions,
        compat::Verdict::SimVersionTooOld => Verdict::SimVersionTooOld,
        compat::Verdict::SimVersionTooNew => Verdict::SimVersionTooNew,
        compat::Verdict::DifferentMatchTypes => Verdict::DifferentMatchTypes,
    }
}

/// The code a link identity shows: its matchmaking code, or nothing for
/// a direct link.
pub open spec fn ident_code_spec(ident: LinkIdent) -> Seq<char> {
    match ident {
        LinkIdent::Matchmaking(code) => code@,
        LinkIdent::Direct(_) => Seq::empty(),
    }
}

pub(crate) fn ident_code(ident: &LinkIdent) -> (r: String)
    ensures
        r@ == ident_code_spec(*ident),
{
    match ident.matchmaking_code() {
        Some(c) => c.to_owned(),
        None => String::new(),
    }
}

/// The lobby phase for display, with the link code it shows.
pub fn phase_view(phase: &Phase) -> (r: (PhaseView, String))
    ensures
        match *phase {
            Phase::Idle => r.0 == PhaseView::Idle && r.1@.len() == 0,
            Phase::Connecting { ident, waiting_for_opponent } => r.0 == (PhaseView::Connecting {
                waiting_for_opponent,
            }) && r.1@ == ident_code_spec(ident),
            Phase::Negotiating { ident } => r.0 == PhaseView::Negotiating && r.1@ == ident_code_spec(ident),
            Phase::Lobby { ident } => r.0 == PhaseView::Lobby && r.1@ == ident_code_spec(ident),
            Phase::Failed { error: _ } => r.0 == PhaseView::Failed && r.1@.len() == 0,
        },
{
    match phase {
        Phase::Idle => (PhaseView::Idle, String::new()),
        Phase::Connecting { ident, waiting_for_opponent } => (
            PhaseView::Connecting { waiting_for_opponent: *waiting_for_opponent },
            ident_code(ident),
        ),
        Phase::Negotiating { ident } => (PhaseView::Negotiating, ident_code(ident)),
        Phase::Lobby { ident } => (PhaseView::Lobby, ident_code(ident)),
        Phase::Failed { error: _ } => (PhaseView::Failed, String::new()),
    }
}

/// A recorded match, as the replay list shows it.
#[derive(PartialEq, Debug)]
pub struct ReplayEntry {
    pub path: StorePath,
    pub name: String,
    /// Both sides' nicknames, recorder first.
    pub sides: (String, String),
    /// Which game it was, already named for display.
    pub game: String,
    /// Milliseconds since the epoch, from the match clock.
    pub ts: u64,
    pub bytes: u64,
}

/// The raw name of a game this build has no name for: `<family> v<variant>`.
pub open spec fn raw_game_name(family: Seq<char>, variant: u8) -> Seq<char> {
    family + seq![' ', 'v'] + decimal_spec(variant as nat)
}

/// The name for a `(family, variant)` off the wire: the name this build
/// knows it by, as looked up in its game registry, or the raw pair when
/// it has no support for that game.
pub fn game_name_of(family: &str, variant: u8, known: Option<String>) -> (r: String)
    ensures
        r@ == match known {
            Some(name) => name@,
            None => raw_game_name(family@, variant),
        },
{
    match known {
        Some(name) => name,
        None => {
            let mut cs = chars_of(family);
            cs.push(' ');
            cs.push('v');
            let d = decimal(variant as u64);
            push_all(&mut cs, d.as_slice());
            assert(cs@ =~= raw_game_name(family@, variant));
            string_from_chars(cs)
        },
    }
}

/// Where a browser recording is kept: in memory for the whole match, then
/// written in one piece when the match lets go of it.
pub struct BrowserReplayStore;

impl BrowserReplayStore {
    /// The key a recording named `name` is stored under:
    /// `<replays>/<name>.<extension>`.
    pub fn key(&self, replays_path: &StorePath, name: &str, extension: &str) -> (r: StorePath)
        ensures
            r@ == join_spec(replays_path@, components(name@ + seq!['.'] + extension@)),
    {
        let mut cs = chars_of(name);
        cs.push('.');
        let ec = chars_of(extension);
        push_all(&mut cs, ec.as_slice());
        assert(cs@ =~= name@ + seq!['.'] + extension@);
        let text = string_from_chars(cs);
        replays_path.join_str(text.as_str())
    }

    /// Whether a finished recording is worth a row: a match that ended
    /// before the header was written has nothing in it.
    pub fn worth_saving(&self, len: usize, header_len: usize) -> (r: bool)
        ensures
            r == (len > header_len),
    {
        len > header_len
    }
}

} // verus!
