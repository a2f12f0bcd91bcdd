//! What the browser's Play tab shows of the link: the lobby flattened
//! into one comparable snapshot, and failures in the player's words.
use vstd::prelude::*;
use crate::lobby::state::{ConnectionKind, Error, Phase, State, error_message};
use crate::text::{push_str, string_from_chars};
use crate::lobby::protocol::{GameInfo, version_text, write_version};
use crate::web::{PhaseView, Verdict, game_name_of, ident_code_spec, phase_view, raw_game_name};

verus! {

/// How a failure reads to the player.
pub open spec fn describe_text(e: Error) -> Seq<char> {
    match e {
        Error::PeerDisconnected => "Opponent disconnected."@,
        Error::SignalingVersionTooOld => "This Tango is too old for the matchmaking server. Reload to update."@,
        Error::SignalingVersionTooNew => "The matchmaking server is out of date for this Tango."@,
        Error::SignalingRejected(r) => "The matchmaking server refused the connection: "@ + r@,
        Error::SignalingUnreachable(m) => "Couldn't reach the matchmaking server: "@ + m@,
        Error::Signaling(m) => "Matchmaking failed: "@ + m@,
        Error::PeerConnection(m) => "Couldn't connect to the opponent: "@ + m@,
        Error::NegotiateExpectedHello => "The other side didn't speak Tango."@,
        Error::NegotiateVersionTooOld => "Their Tango is too old for this one."@,
        Error::NegotiateVersionTooNew => "Their Tango is newer \u{2014} update this one."@,
        Error::Negotiate(m) => "Handshake failed: "@ + m@,
        _ => error_message(e),
    }
}

/// A failure in the player's words; the rarer ones read as the error
/// itself.
pub fn describe(error: &Error) -> (r: String)
    ensures
        r@ == describe_text(*error),
{
    let mut out: Vec<char> = Vec::new();
    match error {
        Error::PeerDisconnected => push_str(&mut out, "Opponent disconnected."),
        Error::SignalingVersionTooOld => push_str(
            &mut out,
            "This Tango is too old for the matchmaking server. Reload to update.",
        ),
        Error::SignalingVersionTooNew => push_str(&mut out, "The matchmaking server is out of date for this Tango."),
        Error::SignalingRejected(r) => {
            push_str(&mut out, "The matchmaking server refused the connection: ");
            push_str(&mut out, r.as_str());
        },
        Error::SignalingUnreachable(m) => {
            push_str(&mut out, "Couldn't reach the matchmaking server: ");
            push_str(&mut out, m.as_str());
        },
        Error::Signaling(m) => {
            push_str(&mut out, "Matchmaking failed: ");
            push_str(&mut out, m.as_str());
        },
        Error::PeerConnection(m) => {
            push_str(&mut out, "Couldn't connect to the opponent: ");
            push_str(&mut out, m.as_str());
        },
        Error::NegotiateExpectedHello => push_str(&mut out, "The other side didn't speak Tango."),
        Error::NegotiateVersionTooOld => push_str(&mut out, "Their Tango is too old for this one."),
        Error::NegotiateVersionTooNew => push_str(&mut out, "Their Tango is newer \u{2014} update this one."),
        Error::Negotiate(m) => {
            push_str(&mut out, "Handshake failed: ");
            push_str(&mut out, m.as_str());
        },
        _ => {
            return error.message();
        },
    }
    string_from_chars(out)
}

/// How the opponent's game reads: its name, then the patch and its
/// version where it runs one.
pub open spec fn game_label(info: GameInfo, known: Option<String>) -> Seq<char> {
    let base = match known {
        Some(name) => name@,
        None => raw_game_name(info.family_and_variant.0@, info.family_and_variant.1),
    };
    match info.patch {
        Some(p) => base + " \u{b7} "@ + p.name@ + " "@ + version_text(p.version),
        None => base,
    }
}

/// Label the game the opponent is bringing. `known` is the name this
/// build's game registry gives its `(family, variant)`, if it has one:
/// off the wire, it may name a game this build cannot play, and then the
/// raw pair stands in.
pub fn describe_game_info(info: &GameInfo, known: Option<String>) -> (r: String)
    ensures
        r@ == game_label(*info, known),
{
    let base = game_name_of(info.family_and_variant.0.as_str(), info.family_and_variant.1, known);
    match &info.patch {
        Some(p) => {
            let mut out: Vec<char> = Vec::new();
            push_str(&mut out, base.as_str());
            push_str(&mut out, " \u{b7} ");
            push_str(&mut out, p.name.as_str());
            push_str(&mut out, " ");
            let v = write_version(&p.version);
            push_str(&mut out, v.as_str());
            string_from_chars(out)
        },
        None => base,
    }
}

/// The link as the Play tab shows it, comparable so the view re-renders
/// only when something visible changed.
#[derive(PartialEq, Eq, Debug)]
pub struct Snapshot {
    pub phase: PhaseView,
    pub link_code: String,
    pub local_ready: bool,
    pub remote_ready: bool,
    pub match_ready: bool,
    pub starting: bool,
    /// Opponent's nickname, once their settings have arrived.
    pub opponent: Option<String>,
    /// What they're bringing, as a label.
    pub opponent_game: Option<String>,
    pub verdict: Option<Verdict>,
    pub latency_ms: Option<u32>,
    pub relayed: Option<bool>,
    pub match_type: (u8, u8),
    pub error: Option<String>,
}

pub open spec fn opt_text(t: Option<String>) -> Option<Seq<char>> {
    match t {
        Some(x) => Some(x@),
        None => None,
    }
}

/// Flatten the lobby for display. `starting` is whether the host is
/// building the match; `verdict` and `opponent_game` are the host's
/// reading of the compatibility check and of the opponent's game. The
/// latency is the latest ping, in milliseconds truncated to 32 bits;
/// `None` until a pong has come back.
pub fn snapshot(state: &State, starting: bool, verdict: Option<Verdict>, opponent_game: Option<String>) -> (r: Snapshot)
    ensures
        r.phase == phase_view_spec(state.phase),
        r.link_code@ == match state.phase {
            Phase::Connecting { ident, .. } => ident_code_spec(ident),
            Phase::Negotiating { ident } => ident_code_spec(ident),
            Phase::Lobby { ident } => ident_code_spec(ident),
            _ => Seq::empty(),
        },
        opt_text(r.error) == match state.phase {
            Phase::Failed { error } => Some(describe_text(error)),
            _ => None,
        },
        r.local_ready == !(state.handshake.local is NotReady),
        r.remote_ready == (state.handshake.remote is Committed),
        r.match_ready == (state.handshake.local is StartMatchSent || state.handshake.local is HandedOff),
        r.starting == (starting || crate::lobby::handoff::handoff_pending_spec(state.handshake)),
        opt_text(r.opponent) == match state.lobby.remote {
            Some(s) => Some(s.nickname@),
            None => None,
        },
        r.opponent_game == opponent_game,
        r.verdict == verdict,
        r.latency_ms == (if state.lobby.pings@.len() > 0 {
            Some(state.lobby.pings@.last() as u32)
        } else {
            None
        }),
        r.relayed == match state.lobby.connection_kind {
            Some(k) => Some(k == ConnectionKind::Relayed),
            None => None,
        },
        r.match_type == state.lobby.match_type,
{
    let (phase, link_code) = phase_view(&state.phase);
    let error = match &state.phase {
        Phase::Failed { error } => Some(describe(error)),
        _ => None,
    };
    let ready = state.ready_view();
    let opponent = match &state.lobby.remote {
        Some(s) => Some(s.nickname.clone()),
        None => None,
    };
    let n = state.lobby.pings.len();
    let latency_ms = if n > 0 {
        Some(latest_ms(state.lobby.pings[n - 1]))
    } else {
        None
    };
    let relayed = match state.lobby.connection_kind {
        Some(ConnectionKind::Relayed) => Some(true),
        Some(ConnectionKind::Direct) => Some(false),
        None => None,
    };
    Snapshot {
        phase,
        link_code,
        local_ready: ready.local_ready,
        remote_ready: ready.remote_ready,
        match_ready: ready.match_ready,
        starting: starting || state.handoff_pending(),
        opponent,
        opponent_game,
        verdict,
        latency_ms,
        relayed,
        match_type: state.lobby.match_type,
        error,
    }
}

fn latest_ms(ms: u64) -> (r: u32)
    ensures
        r == ms as u32,
{
    #[verifier::truncate]
    (ms as u32)
}

/// The phase as displayed.
pub open spec fn phase_view_spec(phase: Phase) -> PhaseView {
    match phase {
        Phase::Idle => PhaseView::Idle,
        Phase::Connecting { waiting_for_opponent, .. } => PhaseView::Connecting { waiting_for_opponent },
        Phase::Negotiating { .. } => PhaseView::Negotiating,
        Phase::Lobby { .. } => PhaseView::Lobby,
        Phase::Failed { .. } => PhaseView::Failed,
    }
}

} // verus!
