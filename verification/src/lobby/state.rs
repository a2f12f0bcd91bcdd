//! The lobby state machine a host drives once a connection attempt is
//! under way: the phase, the settings exchange, the ready handshake, and
//! the session boundaries that reset them.
use vstd::prelude::*;
use crate::lobby::handshake::{Handshake, LocalReady, ReadyView, RemoteReady, reveal_pending};
use crate::lobby::protocol::{Settings, SettingsView, game_info_eq, settings_eq};
use crate::text::{push_str, push_all, decimal, decimal_spec, string_from_chars};

verus! {

/// Why a netplay session failed, typed so a UI can give each failure its
/// own words.
#[derive(Debug, Clone, PartialEq, Eq)]
pub enum Error {
    /// Peer closed the connection cleanly.
    PeerDisconnected,
    /// The matchmaking server won't matchmake for a protocol as old as ours.
    SignalingVersionTooOld,
    /// The matchmaking server is older than this build.
    SignalingVersionTooNew,
    /// The server turned us away, naming its reason.
    SignalingRejected(String),
    /// Never reached the matchmaking server.
    SignalingUnreachable(String),
    /// Signaling failed some other way.
    Signaling(String),
    /// The peer connection never came up, or dropped during setup.
    PeerConnection(String),
    /// The data channels couldn't be bundled.
    Channels(String),
    /// The direct link couldn't be hosted or dialed.
    Direct { hosting: bool, message: String },
    /// The first packet of version negotiation wasn't a Hello.
    NegotiateExpectedHello,
    /// Peer speaks an older protocol version than ours.
    NegotiateVersionTooOld,
    /// Peer speaks a newer protocol version than ours.
    NegotiateVersionTooNew,
    /// Negotiation failed below the version check.
    Negotiate(String),
    /// The control channel failed mid-lobby; `operation` names what was
    /// being sent or received.
    Transport { operation: String, message: String },
    /// Our own reveal couldn't be encoded.
    EncodeState { stage: String, message: String },
    /// The peer's reveal didn't match the commitment it sent.
    CommitmentMismatch,
    /// The peer's reveal matched its commitment but won't decode.
    DecodePeerState { stage: String, message: String },
    /// The peer announced a second reveal length within one reveal.
    DuplicateChunkStart,
    /// The peer sent more reveal bytes than it announced.
    RevealOverrun { got: u64, want: u64 },
    /// The host couldn't build the live match after the handoff.
    SessionBuild(String),
}

/// The text an error reads as.
pub open spec fn error_message(e: Error) -> Seq<char> {
    match e {
        Error::PeerDisconnected => "peer disconnected"@,
        Error::SignalingVersionTooOld => "matchmaking server protocol is newer than ours"@,
        Error::SignalingVersionTooNew => "matchmaking server protocol is older than ours"@,
        Error::SignalingRejected(r) => "matchmaking server rejected us: "@ + r@,
        Error::SignalingUnreachable(m) => "matchmaking server unreachable: "@ + m@,
        Error::Signaling(m) => "signaling: "@ + m@,
        Error::PeerConnection(m) => "peer connection: "@ + m@,
        Error::Channels(m) => m@,
        Error::Direct { hosting, message } => "direct "@ + (if hosting {
            "host"@
        } else {
            "connect"@
        }) + ": "@ + message@,
        Error::NegotiateExpectedHello => "peer didn't say hello"@,
        Error::NegotiateVersionTooOld => "peer protocol version too old"@,
        Error::NegotiateVersionTooNew => "peer protocol version too new"@,
        Error::Negotiate(m) => "negotiate: "@ + m@,
        Error::Transport { operation, message } => operation@ + ": "@ + message@,
        Error::EncodeState { stage, message } => stage@ + ": "@ + message@,
        Error::CommitmentMismatch => "peer commitment mismatch"@,
        Error::DecodePeerState { stage, message } => stage@ + ": "@ + message@,
        Error::DuplicateChunkStart => "peer sent a second ChunkStart within one reveal"@,
        Error::RevealOverrun { got, want } => "peer sent more reveal bytes than announced ("@ + decimal_spec(
            got as nat,
        ) + " > "@ + decimal_spec(want as nat) + ")"@,
        Error::SessionBuild(m) => m@,
    }
}

impl Error {
    /// The text the error reads as.
    pub fn message(&self) -> (r: String)
        ensures
            r@ == error_message(*self),
    {
        let mut out: Vec<char> = Vec::new();
        match self {
            Error::PeerDisconnected => push_str(&mut out, "peer disconnected"),
            Error::SignalingVersionTooOld => push_str(&mut out, "matchmaking server protocol is newer than ours"),
            Error::SignalingVersionTooNew => push_str(&mut out, "matchmaking server protocol is older than ours"),
            Error::SignalingRejected(r) => {
                push_str(&mut out, "matchmaking server rejected us: ");
                push_str(&mut out, r.as_str());
            },
            Error::SignalingUnreachable(m) => {
                push_str(&mut out, "matchmaking server unreachable: ");
                push_str(&mut out, m.as_str());
            },
            Error::Signaling(m) => {
                push_str(&mut out, "signaling: ");
                push_str(&mut out, m.as_str());
            },
            Error::PeerConnection(m) => {
                push_str(&mut out, "peer connection: ");
                push_str(&mut out, m.as_str());
            },
            Error::Channels(m) => push_str(&mut out, m.as_str()),
            Error::Direct { hosting, message } => {
                push_str(&mut out, "direct ");
                if *hosting {
                    push_str(&mut out, "host");
                } else {
                    push_str(&mut out, "connect");
                }
                push_str(&mut out, ": ");
                push_str(&mut out, message.as_str());
            },
            Error::NegotiateExpectedHello => push_str(&mut out, "peer didn't say hello"),
            Error::NegotiateVersionTooOld => push_str(&mut out, "peer protocol version too old"),
            Error::NegotiateVersionTooNew => push_str(&mut out, "peer protocol version too new"),
            Error::Negotiate(m) => {
                push_str(&mut out, "negotiate: ");
                push_str(&mut out, m.as_str());
            },
            Error::Transport { operation, message } => {
                push_str(&mut out, operation.as_str());
                push_str(&mut out, ": ");
                push_str(&mut out, message.as_str());
            },
            Error::EncodeState { stage, message } => {
                push_str(&mut out, stage.as_str());
                push_str(&mut out, ": ");
                push_str(&mut out, message.as_str());
            },
            Error::CommitmentMismatch => push_str(&mut out, "peer commitment mismatch"),
            Error::DecodePeerState { stage, message } => {
                push_str(&mut out, stage.as_str());
                push_str(&mut out, ": ");
                push_str(&mut out, message.as_str());
            },
            Error::DuplicateChunkStart => push_str(&mut out, "peer sent a second ChunkStart within one reveal"),
            Error::RevealOverrun { got, want } => {
                push_str(&mut out, "peer sent more reveal bytes than announced (");
                let g = decimal(*got);
                push_all(&mut out, g.as_slice());
                push_str(&mut out, " > ");
                let w = decimal(*want);
                push_all(&mut out, w.as_slice());
                push_str(&mut out, ")");
            },
            Error::SessionBuild(m) => push_str(&mut out, m.as_str()),
        }
        string_from_chars(out)
    }
}

/// Whether we host a direct link or dial one.
#[derive(Debug, Clone, PartialEq, Eq)]
pub enum DirectRole {
    Host { port: u16 },
    Connect { addr: String },
}

/// What the current connection is, kept across the lifecycle.
#[derive(Debug, Clone, PartialEq, Eq)]
pub enum LinkIdent {
    /// A matchmaking code, as the user typed it.
    Matchmaking(String),
    /// A direct link.
    Direct(DirectRole),
}

impl DirectRole {
    /// A copy of the role.
    pub fn copy(&self) -> (r: DirectRole)
        ensures
            r == *self,
    {
        match self {
            DirectRole::Host { port } => DirectRole::Host { port: *port },
            DirectRole::Connect { addr } => DirectRole::Connect { addr: addr.clone() },
        }
    }
}

impl LinkIdent {
    /// A copy of the identity.
    pub fn copy(&self) -> (r: LinkIdent)
        ensures
            r == *self,
    {
        match self {
            LinkIdent::Matchmaking(code) => LinkIdent::Matchmaking(code.clone()),
            LinkIdent::Direct(role) => LinkIdent::Direct(role.copy()),
        }
    }

    /// The code another player can dial to reach the same rendezvous:
    /// only matchmaking codes have one.
    pub fn matchmaking_code(&self) -> (r: Option<&str>)
        ensures
            self is Matchmaking <==> r is Some,
            r matches Some(c) ==> c@ == self->Matchmaking_0@,
    {
        match self {
            LinkIdent::Matchmaking(code) => Some(code.as_str()),
            LinkIdent::Direct(_) => None,
        }
    }

    /// Resolve trimmed link-code input: `None` when empty; a `/`-prefixed
    /// direct command resolves to `command`, what the host's direct-command
    /// parser made of it; anything else is a matchmaking code.
    pub fn parse(input: &str, command: Option<DirectRole>) -> (r: Option<LinkIdent>)
        ensures
            input@.len() == 0 ==> r is None,
            input@.len() > 0 && input@[0] == '/' ==> r == (match command {
                Some(role) => Some(LinkIdent::Direct(role)),
                None => None::<LinkIdent>,
            }),
            input@.len() > 0 && input@[0] != '/' ==> (r matches Some(LinkIdent::Matchmaking(code))
                && code@ == input@),
    {
        if input.unicode_len() == 0 {
            None
        } else if input.get_char(0) == '/' {
            match command {
                Some(role) => Some(LinkIdent::Direct(role)),
                None => None,
            }
        } else {
            Some(LinkIdent::Matchmaking(input.to_owned()))
        }
    }
}

/// What a matchmaking dial needs, stashed for a mid-match re-rendezvous.
#[derive(Debug, Clone, PartialEq, Eq)]
pub struct MatchmakingParams {
    pub link_code: String,
    pub endpoint: String,
    /// `None` = auto, `Some(true)` = relay only, `Some(false)` = never relay.
    pub use_relay: Option<bool>,
}

/// Where the lifecycle is: `Idle → Connecting → Negotiating → Lobby`,
/// any → `Failed` on error, any → `Idle` on disconnect.
#[derive(Debug, Clone, PartialEq, Eq)]
pub enum Phase {
    Idle,
    Connecting { ident: LinkIdent, waiting_for_opponent: bool },
    Negotiating { ident: LinkIdent },
    Lobby { ident: LinkIdent },
    Failed { error: Error },
}

/// A bring-up milestone reported by the connect future.
#[derive(Debug, Clone, Copy, PartialEq, Eq)]
pub enum Status {
    /// The server's Hello arrived; now waiting on the peer.
    WaitingForOpponent,
    /// Data channel up; checking protocol versions.
    Negotiating,
}

/// How the transport flows once it is up.
#[derive(Debug, Clone, Copy, PartialEq, Eq)]
pub enum ConnectionKind {
    Direct,
    Relayed,
}

/// What the host learned when the connection came up.
#[derive(Debug, Clone, PartialEq, Eq)]
pub struct Connected {
    /// Whether the transport is relayed, when it could be told.
    pub relayed: Option<bool>,
    /// Whether we made the offer (decides whose clock the match uses).
    pub is_offerer: bool,
    /// Direct-link rebuild recipe, or `None` for matchmaking.
    pub reconnect: Option<DirectRole>,
}

/// Something the connection reported.
#[derive(Debug, PartialEq, Eq)]
pub enum Inbound {
    Status(Status),
    Connected(Connected),
    Failed(Error),
    PeerDisconnected,
    /// A round-trip ping, in milliseconds.
    Ping(u64),
    RemoteSettings(Settings),
    RemoteCommit([u8; 16]),
    RemoteUncommit,
    RemoteChunkStart(u64),
    RemoteChunk(Vec<u8>),
    RemoteStartMatch,
}

/// A report from the connection, moved by the host from its progress
/// channel into [`State::apply`].
pub struct Incoming(pub Inbound);

/// What the host has to act on.
#[derive(Debug, Clone, Copy, PartialEq, Eq)]
pub enum Event {
    /// Both sides have exchanged StartMatch: take the handoff.
    MatchReady,
    /// The peer's reveal is complete and ours is out: hash and decode it,
    /// then report with [`State::finish_handshake`].
    RevealComplete,
}

/// A wire send the machine wants performed.
pub enum Command {
    Settings(Settings),
    Commit([u8; 16]),
    Uncommit,
    /// Our compressed negotiated state; the pump announces its length and
    /// streams it in chunks.
    Reveal(Vec<u8>),
    StartMatch,
}

/// A wire send, as values.
pub enum CommandView {
    Settings(SettingsView),
    Commit([u8; 16]),
    Uncommit,
    Reveal(Seq<u8>),
    StartMatch,
}

impl View for Command {
    type V = CommandView;

    open spec fn view(&self) -> CommandView {
        match self {
            Command::Settings(s) => CommandView::Settings(s@),
            Command::Commit(c) => CommandView::Commit(*c),
            Command::Uncommit => CommandView::Uncommit,
            Command::Reveal(b) => CommandView::Reveal(b@),
            Command::StartMatch => CommandView::StartMatch,
        }
    }
}

/// The pings a lobby keeps: the most recent few.
pub const PING_WINDOW: usize = 5;

/// What each side has advertised so far, and the lobby's own picks.
pub struct LobbyState {
    /// What we sent.
    pub local: Option<Settings>,
    /// What came in from the peer.
    pub remote: Option<Settings>,
    /// The most recent round-trip pings, oldest first, in milliseconds.
    pub pings: Vec<u64>,
    /// The picked match type (mode, subtype). `(0, 0)` is Single.
    pub match_type: (u8, u8),
    /// Hide our setup from the opponent.
    pub blind_setup: bool,
    /// The family the match-type default was last applied (or a pick
    /// stamped) for.
    pub default_mt_for_family: Option<String>,
    pub connection_kind: Option<ConnectionKind>,
}

/// Optional settings, as values.
pub open spec fn opt_settings_view(s: Option<Settings>) -> Option<SettingsView> {
    match s {
        Some(s) => Some(s@),
        None => None,
    }
}

/// A fresh lobby: nothing advertised, Single, setups visible.
pub open spec fn lobby_is_fresh(l: LobbyState) -> bool {
    &&& l.local is None
    &&& l.remote is None
    &&& l.pings@.len() == 0
    &&& l.match_type == (0u8, 0u8)
    &&& !l.blind_setup
    &&& l.default_mt_for_family is None
    &&& l.connection_kind is None
}

impl LobbyState {
    /// A fresh lobby.
    pub fn new() -> (l: LobbyState)
        ensures
            lobby_is_fresh(l),
    {
        LobbyState {
            local: None,
            remote: None,
            pings: Vec::new(),
            match_type: (0, 0),
            blind_setup: false,
            default_mt_for_family: None,
            connection_kind: None,
        }
    }
}

/// The live connection's handoff-relevant facts, held while it is up.
pub struct ConnectionInfo {
    pub is_offerer: bool,
    pub reconnect: Option<DirectRole>,
}

/// The lobby state machine.
pub struct State {
    pub phase: Phase,
    /// The ready/commitment exchange.
    pub handshake: Handshake,
    /// Monotonic (wrapping) id of the current attempt, bumped on every
    /// session boundary.
    pub session_id: u64,
    pub lobby: LobbyState,
    /// Matchmaking params stashed at connect time.
    pub matchmaking_reconnect: Option<MatchmakingParams>,
    /// The live connection, when post-negotiate.
    pub conn: Option<ConnectionInfo>,
    /// This attempt's progress channel is live.
    pub progress_open: bool,
    /// The lobby pump is running: sends have somewhere to go.
    pub commands_open: bool,
    /// The handoff cancelled the pump without ending the session.
    pub pump_cancelled: bool,
    /// Wire sends queued for the pump, oldest first.
    pub outbox: Vec<Command>,
    /// Failures the machine reported about itself, to come back through
    /// [`State::apply`].
    pub failures: Vec<Error>,
}

/// Everything but the ladders, the queues and the lobby is as it was.
pub open spec fn frame(old: State, new: State) -> bool {
    &&& new.phase == old.phase
    &&& new.session_id == old.session_id
    &&& new.matchmaking_reconnect == old.matchmaking_reconnect
    &&& new.conn == old.conn
    &&& new.progress_open == old.progress_open
    &&& new.commands_open == old.commands_open
    &&& new.pump_cancelled == old.pump_cancelled
}

/// The session id after `id`, wrapping.
pub open spec fn next_session(id: u64) -> u64 {
    if id == u64::MAX {
        0
    } else {
        (id + 1) as u64
    }
}

/// `new` is `old` with `cmds` appended, when the pump runs; `old`
/// unchanged when it doesn't (sends then go nowhere).
pub open spec fn appended(old: Seq<Command>, new: Seq<Command>, cmds: Seq<CommandView>, open: bool) -> bool {
    if open {
        &&& new.len() == old.len() + cmds.len()
        &&& new.take(old.len() as int) == old
        &&& forall|i: int| 0 <= i < cmds.len() ==> (#[trigger] new[old.len() + i])@ == cmds[i]
    } else {
        new == old
    }
}

/// Appending twice is appending the concatenation.
pub proof fn lemma_appended_trans(
    q0: Seq<Command>,
    q1: Seq<Command>,
    q2: Seq<Command>,
    c1: Seq<CommandView>,
    c2: Seq<CommandView>,
    open: bool,
)
    requires
        appended(q0, q1, c1, open),
        appended(q1, q2, c2, open),
    ensures
        appended(q0, q2, c1 + c2, open),
{
    if open {
        assert(q2.take(q0.len() as int) =~= q0) by {
            assert forall|i: int| 0 <= i < q0.len() implies q2[i] == q0[i] by {
                assert(q2.take(q1.len() as int)[i] == q1[i]);
                assert(q1.take(q0.len() as int)[i] == q0[i]);
            }
        }
        assert forall|i: int| 0 <= i < (c1 + c2).len() implies (#[trigger] q2[q0.len() + i])@ == (c1
            + c2)[i] by {
            if i < c1.len() {
                assert(q2.take(q1.len() as int)[q0.len() + i] == q1[q0.len() + i]);
                assert(q1[q0.len() + i]@ == c1[i]);
            } else {
                let k = i - c1.len();
                assert(q2[q1.len() + k]@ == c2[k]);
            }
        }
    }
}

/// Appending nothing.
pub proof fn lemma_appended_none(q: Seq<Command>, open: bool)
    ensures
        appended(q, q, Seq::empty(), open),
{
    assert(q.take(q.len() as int) =~= q);
}

/// The effect of a session boundary: a new attempt id, every channel and
/// handle dropped, the lobby and both ladders reset.
pub open spec fn renewed(old: State, new: State) -> bool {
    &&& new.session_id == next_session(old.session_id)
    &&& !new.progress_open
    &&& !new.commands_open
    &&& !new.pump_cancelled
    &&& new.conn is None
    &&& lobby_is_fresh(new.lobby)
    &&& new.handshake.local is NotReady
    &&& new.handshake.remote is NotReady
    &&& new.matchmaking_reconnect is None
    &&& new.outbox@.len() == 0
    &&& new.failures@.len() == 0
}

/// The connection identity a phase carries, if any.
pub open spec fn phase_ident(p: Phase) -> Option<LinkIdent> {
    match p {
        Phase::Connecting { ident, .. } => Some(ident),
        Phase::Negotiating { ident } => Some(ident),
        Phase::Lobby { ident } => Some(ident),
        _ => None,
    }
}

impl State {
    /// An idle machine.
    pub fn new() -> (s: State)
        ensures
            s.phase is Idle,
            s.session_id == 0,
            lobby_is_fresh(s.lobby),
            s.handshake.local is NotReady,
            s.handshake.remote is NotReady,
            s.conn is None,
            !s.progress_open,
            !s.commands_open,
            s.outbox@.len() == 0,
            s.failures@.len() == 0,
    {
        State {
            phase: Phase::Idle,
            handshake: Handshake::new(),
            session_id: 0,
            lobby: LobbyState::new(),
            matchmaking_reconnect: None,
            conn: None,
            progress_open: false,
            commands_open: false,
            pump_cancelled: false,
            outbox: Vec::new(),
            failures: Vec::new(),
        }
    }

    /// The id of the current attempt.
    pub fn session_id(&self) -> (r: u64)
        ensures
            r == self.session_id,
    {
        self.session_id
    }

    /// Drain the queued wire sends, oldest first.
    pub fn take_commands(&mut self) -> (r: Vec<Command>)
        ensures
            r@ == old(self).outbox@,
            final(self).outbox@.len() == 0,
            final(self).phase == old(self).phase,
            final(self).session_id == old(self).session_id,
            final(self).handshake == old(self).handshake,
            final(self).lobby == old(self).lobby,
    {
        let mut r = Vec::new();
        core::mem::swap(&mut r, &mut self.outbox);
        r
    }

    /// Drain the failures to feed back through [`State::apply`].
    pub fn take_failures(&mut self) -> (r: Vec<Error>)
        ensures
            r@ == old(self).failures@,
            final(self).failures@.len() == 0,
            final(self).phase == old(self).phase,
            final(self).session_id == old(self).session_id,
            final(self).handshake == old(self).handshake,
            final(self).lobby == old(self).lobby,
    {
        let mut r = Vec::new();
        core::mem::swap(&mut r, &mut self.failures);
        r
    }

    /// Queue a wire send; dropped when no pump runs.
    pub fn send(&mut self, cmd: Command)
        ensures
            appended(old(self).outbox@, final(self).outbox@, seq![cmd@], old(self).commands_open),
            final(self).phase == old(self).phase,
            final(self).handshake == old(self).handshake,
            final(self).lobby == old(self).lobby,
            final(self).session_id == old(self).session_id,
            final(self).commands_open == old(self).commands_open,
            final(self).progress_open == old(self).progress_open,
            final(self).conn == old(self).conn,
            final(self).failures == old(self).failures,
            final(self).matchmaking_reconnect == old(self).matchmaking_reconnect,
            final(self).pump_cancelled == old(self).pump_cancelled,
    {
        if self.commands_open {
            self.outbox.push(cmd);
            assert(self.outbox@.take(old(self).outbox@.len() as int) =~= old(self).outbox@);
            assert(self.outbox@[old(self).outbox@.len() + 0int] == cmd);
        }
    }

    /// Report a failure the way the background tasks do; dropped when the
    /// progress channel is gone.
    pub fn fail(&mut self, error: Error)
        ensures
            old(self).progress_open ==> final(self).failures@ == old(self).failures@.push(error),
            !old(self).progress_open ==> final(self).failures@ == old(self).failures@,
            frame(*old(self), *final(self)),
            final(self).handshake == old(self).handshake,
            final(self).lobby == old(self).lobby,
            final(self).outbox == old(self).outbox,
    {
        if self.progress_open {
            self.failures.push(error);
        }
    }

    /// Every transition that starts or stops async work: a new attempt id,
    /// all channels and handles dropped, lobby and ladders reset.
    pub fn cancel_and_renew(&mut self)
        ensures
            renewed(*old(self), *final(self)),
            final(self).phase == old(self).phase,
    {
        self.session_id = self.session_id.wrapping_add(1);
        self.progress_open = false;
        self.commands_open = false;
        self.pump_cancelled = false;
        self.conn = None;
        self.lobby = LobbyState::new();
        self.handshake = Handshake::new();
        self.matchmaking_reconnect = None;
        self.outbox = Vec::new();
        self.failures = Vec::new();
    }

    fn begin(&mut self, ident: LinkIdent, waiting_for_opponent: bool) -> (id: u64)
        ensures
            final(self).session_id == next_session(old(self).session_id),
            final(self).phase == (Phase::Connecting { ident, waiting_for_opponent }),
            final(self).progress_open,
            !final(self).commands_open,
            final(self).conn is None,
            lobby_is_fresh(final(self).lobby),
            final(self).handshake.local is NotReady,
            final(self).handshake.remote is NotReady,
            final(self).matchmaking_reconnect is None,
            final(self).outbox@.len() == 0,
            final(self).failures@.len() == 0,
            id == final(self).session_id,
    {
        self.cancel_and_renew();
        self.phase = Phase::Connecting { ident, waiting_for_opponent };
        self.progress_open = true;
        self.session_id
    }

    /// Start a matchmaking attempt; returns its id. The host dials and
    /// reports progress under it.
    pub fn begin_matchmaking(&mut self, params: &MatchmakingParams) -> (id: u64)
        ensures
            final(self).session_id == next_session(old(self).session_id),
            final(self).phase matches Phase::Connecting { ident: LinkIdent::Matchmaking(code), waiting_for_opponent }
                && code@ == params.link_code@ && !waiting_for_opponent,
            final(self).progress_open,
            !final(self).commands_open,
            lobby_is_fresh(final(self).lobby),
            final(self).handshake.local is NotReady,
            final(self).handshake.remote is NotReady,
            final(self).matchmaking_reconnect matches Some(m) && m.link_code@ == params.link_code@
                && m.endpoint@ == params.endpoint@ && m.use_relay == params.use_relay,
            id == final(self).session_id,
    {
        let id = self.begin(LinkIdent::Matchmaking(params.link_code.clone()), false);
        self.matchmaking_reconnect = Some(
            MatchmakingParams {
                link_code: params.link_code.clone(),
                endpoint: params.endpoint.clone(),
                use_relay: params.use_relay,
            },
        );
        id
    }

    /// Start a direct attempt; returns its id. Hosting waits for an inbound
    /// peer; connecting dials.
    pub fn begin_direct(&mut self, role: &DirectRole) -> (id: u64)
        ensures
            final(self).session_id == next_session(old(self).session_id),
            final(self).phase matches Phase::Connecting { ident: LinkIdent::Direct(r), waiting_for_opponent }
                && waiting_for_opponent == (*role is Host),
            final(self).progress_open,
            lobby_is_fresh(final(self).lobby),
            final(self).handshake.local is NotReady,
            final(self).handshake.remote is NotReady,
            id == final(self).session_id,
    {
        let waiting = match role {
            DirectRole::Host { .. } => true,
            _ => false,
        };
        self.begin(LinkIdent::Direct(role.copy()), waiting)
    }

    /// Tear the active or pending connection down.
    pub fn disconnect(&mut self)
        ensures
            renewed(*old(self), *final(self)),
            final(self).phase is Idle,
    {
        self.cancel_and_renew();
        self.phase = Phase::Idle;
    }

    /// Tear the live connection down into a sticky `Failed`, keeping the
    /// lobby so the failure has a face attached to it.
    pub fn fail_keeping_lobby(&mut self, error: Error)
        ensures
            final(self).session_id == next_session(old(self).session_id),
            final(self).phase == (Phase::Failed { error }),
            final(self).lobby == old(self).lobby,
            final(self).matchmaking_reconnect == old(self).matchmaking_reconnect,
            !final(self).progress_open,
            !final(self).commands_open,
            final(self).conn is None,
            final(self).handshake.local is NotReady,
            final(self).handshake.remote is NotReady,
            final(self).outbox@.len() == 0,
            final(self).failures@.len() == 0,
    {
        self.session_id = self.session_id.wrapping_add(1);
        self.progress_open = false;
        self.commands_open = false;
        self.pump_cancelled = false;
        self.conn = None;
        self.handshake = Handshake::new();
        self.outbox = Vec::new();
        self.failures = Vec::new();
        self.phase = Phase::Failed { error };
    }

    /// Derived ready-state for the UI.
    pub fn ready_view(&self) -> (v: ReadyView)
        ensures
            v.local_ready == !(self.handshake.local is NotReady),
            v.remote_ready == (self.handshake.remote is Committed),
            v.match_ready == (self.handshake.local is StartMatchSent
                || self.handshake.local is HandedOff),
    {
        ReadyView {
            local_ready: self.handshake.local.is_ready(),
            remote_ready: self.handshake.remote.is_ready(),
            match_ready: self.handshake.local.match_ready(),
        }
    }

    /// Whether we've committed.
    pub fn local_ready(&self) -> (r: bool)
        ensures
            r == !(self.handshake.local is NotReady),
    {
        self.handshake.local.is_ready()
    }

    /// Both sides have sent and received StartMatch.
    pub fn match_ready_event(&self) -> (e: Option<Event>)
        ensures
            e == (if (self.handshake.local is StartMatchSent || self.handshake.local is HandedOff)
                && self.handshake.remote is Committed && self.handshake.remote->start_match {
                Some(Event::MatchReady)
            } else {
                None
            }),
    {
        if self.handshake.local.match_ready() && self.handshake.remote.start_match() {
            Some(Event::MatchReady)
        } else {
            None
        }
    }
}

/// The peer's ladder is coherent: no reveal bytes before the announced
/// length, never more than it, and `revealed` exactly when all are here.
pub open spec fn remote_wf(r: RemoteReady) -> bool {
    match r {
        RemoteReady::NotReady => true,
        RemoteReady::Committed { expected, chunks, revealed, .. } => match expected {
            None => chunks@.len() == 0 && !revealed,
            Some(want) => chunks@.len() <= want && (revealed <==> chunks@.len() == want),
        },
    }
}

/// Whether two settings differ in what a commitment rests on: the game
/// (with its patch and simulation) or the match type. Nickname churn
/// doesn't count.
pub open spec fn materially_differ(a: SettingsView, b: SettingsView) -> bool {
    a.game_info != b.game_info || a.match_type != b.match_type
}

/// A commitment rests on the game and on the match type: settings that
/// change the match type in either part, or the game in any way, differ
/// materially; settings that change only the nickname (or the blind-setup
/// flag, which has its own handling) do not.
pub proof fn law_match_type_changes_void_commitments(a: SettingsView, b: SettingsView)
    ensures
        a.match_type.0 != b.match_type.0 ==> materially_differ(a, b),
        a.match_type.1 != b.match_type.1 ==> materially_differ(a, b),
        a.game_info != b.game_info ==> materially_differ(a, b),
        a.game_info == b.game_info && a.match_type.0 == b.match_type.0 && a.match_type.1 == b.match_type.1 ==> !materially_differ(a, b),
        materially_differ(a, b) == materially_differ(b, a),
{
}

/// Whether two settings differ in what a commitment rests on.
pub fn settings_materially_differ(a: &Settings, b: &Settings) -> (r: bool)
    ensures
        r == materially_differ(a@, b@),
{
    !game_info_eq(&a.game_info, &b.game_info) || a.match_type.0 != b.match_type.0
        || a.match_type.1 != b.match_type.1
}

/// The connection kind a relayed-flag reports.
pub open spec fn kind_of(relayed: Option<bool>) -> Option<ConnectionKind> {
    match relayed {
        Some(true) => Some(ConnectionKind::Relayed),
        Some(false) => Some(ConnectionKind::Direct),
        None => None,
    }
}

/// The ping window after a new sample.
pub open spec fn pings_after(old: Seq<u64>, ms: u64) -> Seq<u64> {
    (if old.len() >= PING_WINDOW {
        old.drop_first()
    } else {
        old
    }).push(ms)
}

impl State {
    /// A bring-up milestone: advances a `Connecting` phase; a late report
    /// from a superseded attempt has nothing to advance.
    pub fn on_status(&mut self, status: Status)
        ensures
            status_post(*old(self), *final(self), status),
    {
        let ident = match &self.phase {
            Phase::Connecting { ident, .. } => ident.copy(),
            _ => {
                return;
            },
        };
        self.phase = match status {
            Status::WaitingForOpponent => Phase::Connecting { ident, waiting_for_opponent: true },
            Status::Negotiating => Phase::Negotiating { ident },
        };
    }
}

/// The effect of the connection coming up.
pub open spec fn enter_lobby_post(old: State, new: State, c: Connected) -> bool {
    if old.phase is Negotiating || old.phase is Connecting {
        &&& new.lobby.connection_kind == kind_of(c.relayed)
        &&& new.lobby.local == old.lobby.local
        &&& new.lobby.remote == old.lobby.remote
        &&& new.lobby.pings == old.lobby.pings
        &&& new.lobby.match_type == old.lobby.match_type
        &&& new.lobby.blind_setup == old.lobby.blind_setup
        &&& new.lobby.default_mt_for_family == old.lobby.default_mt_for_family
        &&& new.conn == Some(ConnectionInfo { is_offerer: c.is_offerer, reconnect: c.reconnect })
        &&& new.commands_open
        &&& new.phase == (if old.progress_open {
            Phase::Lobby { ident: phase_ident(old.phase)->0 }
        } else {
            old.phase
        })
        &&& new.handshake == old.handshake
        &&& new.outbox == old.outbox
        &&& new.failures == old.failures
        &&& new.session_id == old.session_id
        &&& new.progress_open == old.progress_open
        &&& new.matchmaking_reconnect == old.matchmaking_reconnect
        &&& new.pump_cancelled == old.pump_cancelled
    } else {
        new == old
    }
}

/// The effect of a remote commitment arriving: a fresh reveal for the
/// peer; our StartMatch steps back a rung; our reveal goes out if we have
/// committed.
pub open spec fn remote_commit_post(old: State, new: State, c: [u8; 16]) -> bool {
    &&& new.handshake.remote == (RemoteReady::Committed {
        commitment: c,
        expected: None,
        chunks: new.handshake.remote->chunks,
        revealed: false,
        start_match: false,
    })
    &&& new.handshake.remote->chunks@.len() == 0
    &&& match old.handshake.local {
        LocalReady::Committed(x) => {
            &&& new.handshake.local == LocalReady::ChunksSent(x)
            &&& appended(old.outbox@, new.outbox@, seq![CommandView::Reveal(x.compressed@)], old.commands_open)
        },
        LocalReady::StartMatchSent(x) => {
            &&& new.handshake.local == LocalReady::ChunksSent(x)
            &&& new.outbox == old.outbox
        },
        _ => {
            &&& new.handshake.local == old.handshake.local
            &&& new.outbox == old.outbox
        },
    }
    &&& frame(old, new)
    &&& new.lobby == old.lobby
    &&& new.failures == old.failures
}

/// The effect of the peer's ChunkStart: the announced length is recorded
/// on their commitment; a second one within a reveal is a failure; one
/// before any commitment is a stray and dropped.
pub open spec fn chunk_start_post(old: State, new: State, len: u64, e: Option<Event>) -> bool {
    match old.handshake.remote {
        RemoteReady::NotReady => new == old && e is None,
        RemoteReady::Committed { commitment, expected, chunks, revealed, start_match } => match expected {
            Some(_) => {
                &&& new.handshake == old.handshake
                &&& new.outbox == old.outbox
                &&& (old.progress_open ==> new.failures@ == old.failures@.push(Error::DuplicateChunkStart))
                &&& (!old.progress_open ==> new.failures@ == old.failures@)
                &&& frame(old, new)
                &&& new.lobby == old.lobby
                &&& e is None
            },
            None => {
                &&& new.handshake.remote == (RemoteReady::Committed {
                    commitment,
                    expected: Some(len),
                    chunks,
                    revealed: chunks@.len() == len,
                    start_match,
                })
                &&& new.handshake.local == old.handshake.local
                &&& new.outbox == old.outbox
                &&& new.failures == old.failures
                &&& frame(old, new)
                &&& new.lobby == old.lobby
                &&& e == (if reveal_pending(new.handshake) {
                    Some(Event::RevealComplete)
                } else {
                    None
                })
            },
        },
    }
}

/// The effect of a reveal chunk: appended while within the announced
/// length, a failure past it, dropped before any length was announced.
pub open spec fn chunk_post(old: State, new: State, c: Seq<u8>, e: Option<Event>) -> bool {
    match old.handshake.remote {
        RemoteReady::Committed { commitment, expected: Some(want), chunks, revealed, start_match } => {
            let got = chunks@.len() + c.len();
            if got > want {
                &&& new.handshake == old.handshake
                &&& new.outbox == old.outbox
                &&& (old.progress_open ==> new.failures@ == old.failures@.push(
                    Error::RevealOverrun { got: if got > u64::MAX { u64::MAX } else { got as u64 }, want },
                ))
                &&& (!old.progress_open ==> new.failures@ == old.failures@)
                &&& frame(old, new)
                &&& new.lobby == old.lobby
                &&& e is None
            } else {
                &&& new.handshake.remote is Committed
                &&& new.handshake.remote->commitment == commitment
                &&& new.handshake.remote->expected == Some(want)
                &&& new.handshake.remote->chunks@ == chunks@ + c
                &&& new.handshake.remote->revealed == (got == want)
                &&& new.handshake.remote->start_match == start_match
                &&& new.handshake.local == old.handshake.local
                &&& new.outbox == old.outbox
                &&& new.failures == old.failures
                &&& frame(old, new)
                &&& new.lobby == old.lobby
                &&& e == (if reveal_pending(new.handshake) {
                    Some(Event::RevealComplete)
                } else {
                    None
                })
            }
        },
        _ => new == old && e is None,
    }
}

impl State {
    /// The connection is up: record how it flows, hold its handles, and
    /// (while the attempt's progress channel lives) enter the lobby. A
    /// cancelled or superseded attempt has nothing to attach to.
    pub fn enter_lobby(&mut self, connected: Connected)
        ensures
            enter_lobby_post(*old(self), *final(self), connected),
    {
        let ident = match &self.phase {
            Phase::Negotiating { ident } | Phase::Connecting { ident, .. } => ident.copy(),
            _ => {
                return;
            },
        };
        self.lobby.connection_kind = match connected.relayed {
            Some(true) => Some(ConnectionKind::Relayed),
            Some(false) => Some(ConnectionKind::Direct),
            None => None,
        };
        self.conn = Some(ConnectionInfo { is_offerer: connected.is_offerer, reconnect: connected.reconnect });
        self.commands_open = true;
        if !self.progress_open {
            return;
        }
        self.phase = Phase::Lobby { ident };
    }

    /// A round-trip ping sample joins the window.
    pub fn on_ping(&mut self, ms: u64)
        ensures
            ping_post(*old(self), *final(self), ms),
    {
        if self.lobby.pings.len() >= PING_WINDOW {
            self.lobby.pings.remove(0);
            assert(self.lobby.pings@ =~= old(self).lobby.pings@.drop_first());
        }
        self.lobby.pings.push(ms);
    }

    /// The peer's Settings landed: record them, and drop our commit if
    /// they blinded a setup that used to be visible.
    pub fn on_remote_settings(&mut self, settings: Settings)
        ensures
            remote_settings_post(*old(self), *final(self), settings),
    {
        let downgrade = match &self.lobby.remote {
            Some(prev) => !prev.blind_setup && settings.blind_setup,
            None => false,
        };
        self.lobby.remote = Some(settings);
        if downgrade {
            self.invalidate_local_commit();
        }
    }

    /// The peer committed.
    pub fn on_remote_commit(&mut self, commitment: [u8; 16])
        ensures
            remote_commit_post(*old(self), *final(self), commitment),
    {
        self.handshake.remote = RemoteReady::Committed {
            commitment,
            expected: None,
            chunks: Vec::new(),
            revealed: false,
            start_match: false,
        };
        self.handshake.local.revoke_start_match();
        self.maybe_kick_reveal();
    }

    /// The peer took its commitment back: their reveal and StartMatch go
    /// with it, and our StartMatch steps back a rung.
    pub fn on_remote_uncommit(&mut self)
        ensures
            remote_uncommit_post(*old(self), *final(self)),
    {
        self.handshake.remote = RemoteReady::NotReady;
        self.handshake.local.revoke_start_match();
    }

    /// The peer announced its reveal's length.
    pub fn on_remote_chunk_start(&mut self, len: u64) -> (e: Option<Event>)
        ensures
            chunk_start_post(*old(self), *final(self), len, e),
    {
        let duplicate = match &self.handshake.remote {
            RemoteReady::NotReady => {
                return None;
            },
            RemoteReady::Committed { expected, .. } => expected.is_some(),
        };
        if duplicate {
            self.fail(Error::DuplicateChunkStart);
            return None;
        }
        if let RemoteReady::Committed { expected, chunks, revealed, .. } = &mut self.handshake.remote {
            *expected = Some(len);
            *revealed = chunks.len() as u64 == len;
        }
        self.reveal_check_event()
    }

    /// A piece of the peer's reveal arrived.
    pub fn on_remote_chunk(&mut self, chunk: Vec<u8>) -> (e: Option<Event>)
        ensures
            chunk_post(*old(self), *final(self), chunk@, e),
    {
        let (have, want) = match &self.handshake.remote {
            RemoteReady::Committed { expected: Some(want), chunks, .. } => (chunks.len(), *want),
            _ => {
                return None;
            },
        };
        let got: u128 = have as u128 + chunk.len() as u128;
        if got > want as u128 {
            let got64: u64 = if got > u64::MAX as u128 {
                u64::MAX
            } else {
                got as u64
            };
            self.fail(Error::RevealOverrun { got: got64, want });
            return None;
        }
        let mut chunk = chunk;
        if let RemoteReady::Committed { chunks, revealed, .. } = &mut self.handshake.remote {
            chunks.append(&mut chunk);
            *revealed = got == want as u128;
        }
        self.reveal_check_event()
    }

    /// The peer verified our reveal. StartMatch before any Commit is a
    /// protocol violation and is dropped.
    pub fn on_remote_start_match(&mut self) -> (e: Option<Event>)
        ensures
            start_match_post(*old(self), *final(self), e),
    {
        if let RemoteReady::Committed { start_match, .. } = &mut self.handshake.remote {
            *start_match = true;
        }
        self.match_ready_event()
    }
}

/// The effect of a bring-up milestone: only a `Connecting` phase advances.
pub open spec fn status_post(old: State, new: State, status: Status) -> bool {
    &&& old.phase is Connecting ==> new.phase == (match status {
        Status::WaitingForOpponent => Phase::Connecting {
            ident: old.phase->Connecting_ident,
            waiting_for_opponent: true,
        },
        Status::Negotiating => Phase::Negotiating { ident: old.phase->Connecting_ident },
    })
    &&& !(old.phase is Connecting) ==> new.phase == old.phase
    &&& new.handshake == old.handshake
    &&& new.lobby == old.lobby
    &&& new.outbox == old.outbox
    &&& new.failures == old.failures
    &&& new.session_id == old.session_id
    &&& new.conn == old.conn
    &&& new.progress_open == old.progress_open
    &&& new.commands_open == old.commands_open
    &&& new.matchmaking_reconnect == old.matchmaking_reconnect
    &&& new.pump_cancelled == old.pump_cancelled
}

/// The effect of a ping sample: it joins the window, nothing else moves.
pub open spec fn ping_post(old: State, new: State, ms: u64) -> bool {
    &&& new.lobby.pings@ == pings_after(old.lobby.pings@, ms)
    &&& new.lobby.local == old.lobby.local
    &&& new.lobby.remote == old.lobby.remote
    &&& new.lobby.match_type == old.lobby.match_type
    &&& new.lobby.blind_setup == old.lobby.blind_setup
    &&& new.lobby.default_mt_for_family == old.lobby.default_mt_for_family
    &&& new.lobby.connection_kind == old.lobby.connection_kind
    &&& new.handshake == old.handshake
    &&& new.outbox == old.outbox
    &&& new.failures == old.failures
    &&& frame(old, new)
}

/// The effect of the peer's Settings: recorded; a visibility downgrade
/// (their setup was visible, now blinded) drops our commit.
pub open spec fn remote_settings_post(old: State, new: State, settings: Settings) -> bool {
    let downgrade = old.lobby.remote matches Some(prev) && !prev.blind_setup && settings.blind_setup;
    &&& new.lobby.remote == Some(settings)
    &&& downgrade ==> new.handshake.local is NotReady
    &&& downgrade ==> appended(
        old.outbox@,
        new.outbox@,
        if old.handshake.local is NotReady {
            Seq::empty()
        } else {
            seq![CommandView::Uncommit]
        },
        old.commands_open,
    )
    &&& !downgrade ==> new.handshake.local == old.handshake.local && new.outbox == old.outbox
    &&& new.handshake.remote == old.handshake.remote
    &&& new.lobby.local == old.lobby.local
    &&& new.lobby.pings == old.lobby.pings
    &&& new.lobby.match_type == old.lobby.match_type
    &&& new.lobby.blind_setup == old.lobby.blind_setup
    &&& new.lobby.default_mt_for_family == old.lobby.default_mt_for_family
    &&& new.lobby.connection_kind == old.lobby.connection_kind
    &&& new.failures == old.failures
    &&& frame(old, new)
}

/// The effect of the peer's Uncommit.
pub open spec fn remote_uncommit_post(old: State, new: State) -> bool {
    &&& new.handshake.remote is NotReady
    &&& old.handshake.local is StartMatchSent ==> new.handshake.local == LocalReady::ChunksSent(
        old.handshake.local->StartMatchSent_0,
    )
    &&& !(old.handshake.local is StartMatchSent) ==> new.handshake.local == old.handshake.local
    &&& new.outbox == old.outbox
    &&& new.failures == old.failures
    &&& new.lobby == old.lobby
    &&& frame(old, new)
}

/// The effect of the peer's StartMatch.
pub open spec fn start_match_post(old: State, new: State, e: Option<Event>) -> bool {
    &&& old.handshake.remote is Committed ==> new.handshake.remote == (RemoteReady::Committed {
        commitment: old.handshake.remote->commitment,
        expected: old.handshake.remote->expected,
        chunks: old.handshake.remote->chunks,
        revealed: old.handshake.remote->revealed,
        start_match: true,
    })
    &&& !(old.handshake.remote is Committed) ==> new.handshake.remote == old.handshake.remote
    &&& new.handshake.local == old.handshake.local
    &&& new.outbox == old.outbox
    &&& new.failures == old.failures
    &&& new.lobby == old.lobby
    &&& frame(old, new)
    &&& e == (if (new.handshake.local is StartMatchSent || new.handshake.local is HandedOff)
        && new.handshake.remote is Committed && new.handshake.remote->start_match {
        Some(Event::MatchReady)
    } else {
        None
    })
}

/// The lobby already carries exactly these settings of ours.
pub open spec fn already_sent(s: State, settings: SettingsView) -> bool {
    s.lobby.local matches Some(prev) && prev@ == settings
}

/// These settings change what our last ones committed us to.
pub open spec fn material_change(s: State, settings: SettingsView) -> bool {
    s.lobby.local matches Some(prev) && materially_differ(prev@, settings)
}

/// What [`State::apply`] does with each report.
pub open spec fn apply_post(old: State, new: State, inbound: Inbound, e: Option<Event>) -> bool {
    match inbound {
        Inbound::Status(st) => status_post(old, new, st) && e is None,
        Inbound::Connected(c) => enter_lobby_post(old, new, c) && e is None,
        Inbound::Failed(err) => renewed(old, new) && new.phase == (Phase::Failed { error: err })
            && e is None,
        Inbound::PeerDisconnected => {
            &&& new.session_id == next_session(old.session_id)
            &&& new.phase == (Phase::Failed { error: Error::PeerDisconnected })
            &&& new.lobby == old.lobby
            &&& !new.progress_open
            &&& !new.commands_open
            &&& new.conn is None
            &&& new.handshake.local is NotReady
            &&& new.handshake.remote is NotReady
            &&& e is None
        },
        Inbound::Ping(ms) => ping_post(old, new, ms) && e is None,
        Inbound::RemoteSettings(s) => remote_settings_post(old, new, s) && e is None,
        Inbound::RemoteCommit(c) => remote_commit_post(old, new, c) && e is None,
        Inbound::RemoteUncommit => remote_uncommit_post(old, new) && e is None,
        Inbound::RemoteChunkStart(len) => chunk_start_post(old, new, len, e),
        Inbound::RemoteChunk(c) => chunk_post(old, new, c@, e),
        Inbound::RemoteStartMatch => start_match_post(old, new, e),
    }
}

impl State {
    /// Fold one report from the connection into the machine.
    pub fn apply(&mut self, incoming: Incoming) -> (e: Option<Event>)
        ensures
            apply_post(*old(self), *final(self), incoming.0, e),
            remote_wf(old(self).handshake.remote) ==> remote_wf(final(self).handshake.remote),
    {
        match incoming.0 {
            Inbound::Status(status) => {
                self.on_status(status);
                None
            },
            Inbound::Connected(connected) => {
                self.enter_lobby(connected);
                None
            },
            Inbound::Failed(error) => {
                self.cancel_and_renew();
                self.phase = Phase::Failed { error };
                None
            },
            Inbound::PeerDisconnected => {
                self.fail_keeping_lobby(Error::PeerDisconnected);
                None
            },
            Inbound::Ping(ms) => {
                self.on_ping(ms);
                None
            },
            Inbound::RemoteSettings(settings) => {
                self.on_remote_settings(settings);
                None
            },
            Inbound::RemoteCommit(c) => {
                self.on_remote_commit(c);
                None
            },
            Inbound::RemoteUncommit => {
                self.on_remote_uncommit();
                None
            },
            Inbound::RemoteChunkStart(len) => self.on_remote_chunk_start(len),
            Inbound::RemoteChunk(c) => self.on_remote_chunk(c),
            Inbound::RemoteStartMatch => self.on_remote_start_match(),
        }
    }

    /// Push our Settings (lobby only), deduped against the last sent
    /// value; a material change drops our commit first.
    pub fn send_local_settings(&mut self, settings: Settings)
        ensures
            !(old(self).phase is Lobby) ==> *final(self) == *old(self),
            old(self).phase is Lobby && already_sent(*old(self), settings@) ==> *final(self) == *old(
                self,
            ),
            old(self).phase is Lobby && !already_sent(*old(self), settings@) ==> {
                let material = material_change(*old(self), settings@);
                let uncommit = material && !(old(self).handshake.local is NotReady);
                &&& opt_settings_view(final(self).lobby.local) == Some(settings@)
                &&& material ==> final(self).handshake.local is NotReady
                &&& !material ==> final(self).handshake.local == old(self).handshake.local
                &&& appended(
                    old(self).outbox@,
                    final(self).outbox@,
                    if uncommit {
                        seq![CommandView::Uncommit, CommandView::Settings(settings@)]
                    } else {
                        seq![CommandView::Settings(settings@)]
                    },
                    old(self).commands_open,
                )
                &&& final(self).handshake.remote == old(self).handshake.remote
                &&& final(self).lobby.remote == old(self).lobby.remote
                &&& final(self).lobby.match_type == old(self).lobby.match_type
                &&& final(self).lobby.blind_setup == old(self).lobby.blind_setup
                &&& final(self).lobby.default_mt_for_family == old(self).lobby.default_mt_for_family
                &&& final(self).failures == old(self).failures
                &&& frame(*old(self), *final(self))
            },
    {
        if !matches!(self.phase, Phase::Lobby { .. }) {
            return;
        }
        let (same, material) = match &self.lobby.local {
            Some(prev) => (settings_eq(prev, &settings), settings_materially_differ(prev, &settings)),
            None => (false, false),
        };
        if same {
            return;
        }
        let ghost q0 = self.outbox@;
        if material {
            self.invalidate_local_commit();
        } else {
            proof {
                crate::lobby::state::lemma_appended_none(self.outbox@, self.commands_open);
            }
        }
        let ghost q1 = self.outbox@;
        let ghost c1: Seq<CommandView> = if material && !(old(self).handshake.local is NotReady) {
            seq![CommandView::Uncommit]
        } else {
            Seq::empty()
        };
        self.lobby.local = Some(settings.copy());
        self.send(Command::Settings(settings));
        proof {
            lemma_appended_trans(q0, q1, self.outbox@, c1, seq![CommandView::Settings(settings@)], self.commands_open);
            if material && !(old(self).handshake.local is NotReady) {
                assert(c1 + seq![CommandView::Settings(settings@)] =~= seq![CommandView::Uncommit, CommandView::Settings(settings@)]);
            } else {
                assert(c1 + seq![CommandView::Settings(settings@)] =~= seq![CommandView::Settings(settings@)]);
            }
        }
    }

    /// The user toggled blind setup. Blinding our own setup voids the
    /// peer's commitment (they re-commit under the new contract), and our
    /// StartMatch, which rested on it, steps back a rung.
    pub fn set_blind_setup(&mut self, v: bool)
        ensures
            final(self).lobby.blind_setup == v,
            !old(self).lobby.blind_setup && v ==> {
                &&& final(self).handshake.remote is NotReady
                &&& old(self).handshake.local is StartMatchSent ==> final(self).handshake.local
                    == LocalReady::ChunksSent(old(self).handshake.local->StartMatchSent_0)
                &&& !(old(self).handshake.local is StartMatchSent) ==> final(self).handshake.local
                    == old(self).handshake.local
            },
            !(!old(self).lobby.blind_setup && v) ==> final(self).handshake == old(self).handshake,
            final(self).lobby.local == old(self).lobby.local,
            final(self).lobby.remote == old(self).lobby.remote,
            final(self).lobby.match_type == old(self).lobby.match_type,
            final(self).lobby.default_mt_for_family == old(self).lobby.default_mt_for_family,
            final(self).outbox == old(self).outbox,
            final(self).failures == old(self).failures,
            frame(*old(self), *final(self)),
    {
        let prev = self.lobby.blind_setup;
        self.lobby.blind_setup = v;
        if !prev && v {
            self.handshake.remote = RemoteReady::NotReady;
            self.handshake.local.revoke_start_match();
        }
    }
}

} // verus!
