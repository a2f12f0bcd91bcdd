//! The friends-lobby client's decisions: which failures a reconnect can
//! paper over, what each server message becomes, how a live connection
//! ends, and how long to wait between reconnects. The host owns the
//! socket, the timers and the protobuf codec; it reports what happened
//! and performs what these functions decide.
use vstd::prelude::*;
use crate::friend_code::{FriendCode, bytes_value, from_value_spec};

verus! {

/// The caller's persistent client identity, presented as a TLS client
/// certificate so the server can derive a stable friend code. Both fields
/// are DER.
#[derive(Clone)]
pub struct ClientIdentity {
    pub cert_der: Vec<u8>,
    pub key_der: Vec<u8>,
}

/// What a websocket failure was.
#[derive(Debug, Clone, Copy, PartialEq, Eq)]
pub enum WsFailure {
    ConnectionClosed,
    AlreadyClosed,
    Io,
    Protocol,
    Tls,
    Other,
}

/// Why a lobby connection failed.
#[derive(Debug, Clone, Copy, PartialEq, Eq)]
pub enum Failure {
    Websocket(WsFailure),
    Tls,
    Io,
    Decode,
    /// The first server message was not a Welcome.
    UnexpectedMessage,
    /// A frame the protocol does not use.
    InvalidMessage,
}

/// Whether a reconnect might paper over the failure: an I/O error, or the
/// socket closing or breaking underneath us.
pub open spec fn transient(f: Failure) -> bool {
    match f {
        Failure::Io => true,
        Failure::Websocket(w) => match w {
            WsFailure::ConnectionClosed | WsFailure::AlreadyClosed | WsFailure::Io | WsFailure::Protocol
            | WsFailure::Tls => true,
            WsFailure::Other => false,
        },
        _ => false,
    }
}

/// A reconnect is tried after exactly the transport failures: an I/O
/// error, raw or from the websocket (the network dropping), and the
/// websocket closing, breaking its protocol or failing its TLS. Any other
/// websocket failure, and every failure of the lobby protocol itself, is
/// final.
pub proof fn law_transport_failures_are_transient(f: Failure, w: WsFailure)
    ensures
        transient(Failure::Io),
        transient(Failure::Websocket(WsFailure::Io)),
        transient(Failure::Websocket(w)) <==> w != WsFailure::Other,
        !(f is Io || f is Websocket) ==> !transient(f),
{
}

/// Whether a reconnect might paper over the failure.
pub fn is_transient(f: Failure) -> (r: bool)
    ensures
        r == transient(f),
{
    match f {
        Failure::Io => true,
        Failure::Websocket(w) => match w {
            WsFailure::ConnectionClosed | WsFailure::AlreadyClosed | WsFailure::Io | WsFailure::Protocol
            | WsFailure::Tls => true,
            WsFailure::Other => false,
        },
        _ => false,
    }
}

/// A roster entry as the server sends it: raw friend-code bytes, and the
/// match proposal when the player is in a match.
pub struct RawEntry<P> {
    pub friend_code: Vec<u8>,
    pub now_playing: Option<P>,
}

/// A server message as the codec read it. `P` is a match proposal and `I`
/// an ICE server, carried through untouched; a field the wire marks
/// optional is an `Option`.
pub enum ServerMessage<P, I> {
    Welcome { your_friend_code: Vec<u8>, roster: Vec<RawEntry<P>>, protocol_version: u32 },
    Pong,
    Displaced,
    RosterUpsert { entry: Option<RawEntry<P>> },
    RosterLeave { friend_code: Vec<u8> },
    ChallengeIncoming { peer: Vec<u8>, proposal: Option<P>, commitment: Vec<u8> },
    ChallengeAccepted { peer: Vec<u8>, proposal: Option<P>, commitment: Vec<u8>, ice_servers: Vec<I> },
    ChallengeConfirmed { peer: Vec<u8>, ice_servers: Vec<I> },
    ChallengeDeclined { peer: Vec<u8> },
    ChallengeWithdrawn { peer: Vec<u8> },
    RtcOffer { peer: Vec<u8>, sdp: String },
    RtcAnswer { peer: Vec<u8>, sdp: String },
}

/// A visible roster member, with the friend code decoded.
pub struct RosterEntry<P> {
    pub friend_code: FriendCode,
    /// Present exactly when the player is in a match.
    pub now_playing: Option<P>,
}

/// A decoded inbound event.
pub enum ClientEvent<P, I> {
    RosterUpsert(RosterEntry<P>),
    RosterLeave(FriendCode),
    ChallengeIncoming { peer: FriendCode, proposal: P, commitment: Vec<u8> },
    ChallengeAccepted { peer: FriendCode, proposal: P, commitment: Vec<u8>, ice_servers: Vec<I> },
    ChallengeConfirmed { peer: FriendCode, ice_servers: Vec<I> },
    ChallengeDeclined { peer: FriendCode },
    ChallengeWithdrawn { peer: FriendCode },
    RtcOffer { peer: FriendCode, sdp: String },
    RtcAnswer { peer: FriendCode, sdp: String },
    /// A newer connection for our identity displaced us; the driver stops.
    Displaced,
    /// The socket dropped and the driver is reconnecting.
    Reconnecting,
    /// A reconnect succeeded and re-joined: the fresh snapshot.
    Resynced { your_friend_code: FriendCode, roster: Vec<RosterEntry<P>> },
}

/// The reply to our Join.
pub struct Welcome<P> {
    pub your_friend_code: FriendCode,
    pub roster: Vec<RosterEntry<P>>,
    pub protocol_version: u32,
}

/// Whether raw bytes make a friend code.
pub open spec fn code_ok(b: Seq<u8>) -> bool {
    b.len() == 10
}

/// The friend code ten raw bytes make: their value's low 75 bits, which
/// are the bytes themselves when they are canonical.
pub open spec fn code_of(b: Seq<u8>) -> Seq<u8> {
    from_value_spec(bytes_value(b))
}

fn decode_code(bytes: &Vec<u8>) -> (r: Option<FriendCode>)
    ensures
        code_ok(bytes@) ==> (r matches Some(fc) && fc@ == code_of(bytes@)),
        !code_ok(bytes@) ==> r is None,
{
    match FriendCode::from_bytes(bytes.as_slice()) {
        Ok(fc) => Some(fc),
        Err(_) => None,
    }
}

fn convert_entry<P>(entry: RawEntry<P>) -> (r: Option<RosterEntry<P>>)
    ensures
        code_ok(entry.friend_code@) ==> (r matches Some(e) && e.friend_code@ == code_of(entry.friend_code@)
            && e.now_playing == entry.now_playing),
        !code_ok(entry.friend_code@) ==> r is None,
{
    match decode_code(&entry.friend_code) {
        Some(fc) => Some(RosterEntry { friend_code: fc, now_playing: entry.now_playing }),
        None => None,
    }
}

/// The roster entries whose friend codes decode, in order.
pub open spec fn good_entries<P>(es: Seq<RawEntry<P>>) -> Seq<RawEntry<P>>
    decreases es.len(),
{
    if es.len() == 0 {
        Seq::empty()
    } else if code_ok(es.last().friend_code@) {
        good_entries(es.drop_last()).push(es.last())
    } else {
        good_entries(es.drop_last())
    }
}

/// The roster with every entry whose friend code fails to decode left out.
fn convert_roster<P>(roster: Vec<RawEntry<P>>) -> (r: Vec<RosterEntry<P>>)
    ensures
        r@.len() == good_entries(roster@).len(),
        forall|i: int|
            0 <= i < r@.len() ==> (#[trigger] r@[i]).friend_code@ == code_of(good_entries(roster@)[i].friend_code@)
                && r@[i].now_playing == good_entries(roster@)[i].now_playing,
{
    let ghost all = roster@;
    let mut out: Vec<RosterEntry<P>> = Vec::new();
    let n = roster.len();
    let mut rest = roster;
    let mut i: usize = 0;
    assert(rest@ =~= all.skip(0));
    while rest.len() > 0
        invariant
            i + rest@.len() == all.len(),
            all.len() == n,
            rest@ == all.skip(i as int),
            out@.len() == good_entries(all.take(i as int)).len(),
            forall|k: int|
                0 <= k < out@.len() ==> (#[trigger] out@[k]).friend_code@ == code_of(good_entries(all.take(i as int))[k].friend_code@)
                    && out@[k].now_playing == good_entries(all.take(i as int))[k].now_playing,
        decreases rest@.len(),
    {
        let e = rest.remove(0);
        let ghost t1 = all.take(i + 1);
        proof {
            assert(e == all[i as int]);
            assert(t1.drop_last() =~= all.take(i as int));
            assert(t1.last() == all[i as int]);
            assert(rest@ =~= all.skip(i + 1));
        }
        let ghost before = out@;
        let ghost raw = e;
        match convert_entry(e) {
            Some(c) => {
                out.push(c);
                proof {
                    assert(good_entries(t1) == good_entries(all.take(i as int)).push(raw));
                    assert forall|k: int| 0 <= k < out@.len() implies (#[trigger] out@[k]).friend_code@ == code_of(good_entries(t1)[k].friend_code@)
                        && out@[k].now_playing == good_entries(t1)[k].now_playing by {
                        if k < before.len() {
                            assert(out@[k] == before[k]);
                        }
                    }
                }
            },
            None => {
                assert(good_entries(t1) == good_entries(all.take(i as int)));
            },
        }
        i = i + 1;
    }
    assert(all.take(i as int) =~= all);
    out
}

/// Whether `r` is what reading `msg` as the Welcome gives: the Welcome,
/// its own code, protocol version and well-formed roster entries, when it
/// is one and its code decodes; nothing otherwise.
pub open spec fn welcome_read<P, I>(msg: ServerMessage<P, I>, r: Option<Welcome<P>>) -> bool {
    match msg {
        ServerMessage::Welcome { your_friend_code, roster, protocol_version } => if code_ok(your_friend_code@) {
            r matches Some(w) && w.your_friend_code@ == code_of(your_friend_code@) && w.protocol_version == protocol_version
                && w.roster@.len() == good_entries(roster@).len() && forall|i: int|
                0 <= i < w.roster@.len() ==> (#[trigger] w.roster@[i]).friend_code@ == code_of(good_entries(roster@)[i].friend_code@)
                    && w.roster@[i].now_playing == good_entries(roster@)[i].now_playing
        } else {
            r is None
        },
        _ => r is None,
    }
}

/// Read the Welcome that must answer our Join: `None` for any other
/// message, or when our own friend code does not decode. Roster entries
/// whose codes do not decode are left out.
pub fn decode_welcome<P, I>(msg: ServerMessage<P, I>) -> (r: Option<Welcome<P>>)
    ensures
        welcome_read(msg, r),
{
    match msg {
        ServerMessage::Welcome { your_friend_code, roster, protocol_version } => {
            match decode_code(&your_friend_code) {
                Some(fc) => Some(Welcome { your_friend_code: fc, roster: convert_roster(roster), protocol_version }),
                None => None,
            }
        },
        _ => None,
    }
}

/// Whether a server message carries an event that decodes: it is not one
/// the driver handles itself, its friend code decodes, and its required
/// fields are there.
pub open spec fn event_decodes<P, I>(msg: ServerMessage<P, I>) -> bool {
    match msg {
        ServerMessage::Welcome { .. } | ServerMessage::Pong | ServerMessage::Displaced => false,
        ServerMessage::RosterUpsert { entry } => match entry {
            Some(e) => code_ok(e.friend_code@),
            None => false,
        },
        ServerMessage::RosterLeave { friend_code } => code_ok(friend_code@),
        ServerMessage::ChallengeIncoming { peer, proposal, commitment: _ } => code_ok(peer@) && proposal is Some,
        ServerMessage::ChallengeAccepted { peer, proposal, commitment: _, ice_servers: _ } => code_ok(peer@)
            && proposal is Some,
        ServerMessage::ChallengeConfirmed { peer, ice_servers: _ } => code_ok(peer@),
        ServerMessage::ChallengeDeclined { peer } => code_ok(peer@),
        ServerMessage::ChallengeWithdrawn { peer } => code_ok(peer@),
        ServerMessage::RtcOffer { peer, sdp: _ } => code_ok(peer@),
        ServerMessage::RtcAnswer { peer, sdp: _ } => code_ok(peer@),
    }
}

/// Whether `r` is the event `msg` carries, field for field, or nothing
/// when it carries none.
pub open spec fn event_read<P, I>(msg: ServerMessage<P, I>, r: Option<ClientEvent<P, I>>) -> bool {
    match msg {
        ServerMessage::Welcome { .. } | ServerMessage::Pong | ServerMessage::Displaced => r is None,
        ServerMessage::RosterUpsert { entry } => match entry {
            Some(e) => if code_ok(e.friend_code@) {
                r matches Some(ClientEvent::RosterUpsert(x)) && x.friend_code@ == code_of(e.friend_code@) && x.now_playing
                    == e.now_playing
            } else {
                r is None
            },
            None => r is None,
        },
        ServerMessage::RosterLeave { friend_code } => if code_ok(friend_code@) {
            r matches Some(ClientEvent::RosterLeave(fc)) && fc@ == code_of(friend_code@)
        } else {
            r is None
        },
        ServerMessage::ChallengeIncoming { peer, proposal, commitment } => if code_ok(peer@) && proposal is Some {
            r matches Some(ClientEvent::ChallengeIncoming { peer: p, proposal: q, commitment: c }) && p@ == code_of(peer@)
                && q == proposal->Some_0 && c == commitment
        } else {
            r is None
        },
        ServerMessage::ChallengeAccepted { peer, proposal, commitment, ice_servers } => if code_ok(peer@)
            && proposal is Some {
            r matches Some(ClientEvent::ChallengeAccepted { peer: p, proposal: q, commitment: c, ice_servers: s })
                && p@ == code_of(peer@) && q == proposal->Some_0 && c == commitment && s == ice_servers
        } else {
            r is None
        },
        ServerMessage::ChallengeConfirmed { peer, ice_servers } => if code_ok(peer@) {
            r matches Some(ClientEvent::ChallengeConfirmed { peer: p, ice_servers: s }) && p@ == code_of(peer@) && s
                == ice_servers
        } else {
            r is None
        },
        ServerMessage::ChallengeDeclined { peer } => if code_ok(peer@) {
            r matches Some(ClientEvent::ChallengeDeclined { peer: p }) && p@ == code_of(peer@)
        } else {
            r is None
        },
        ServerMessage::ChallengeWithdrawn { peer } => if code_ok(peer@) {
            r matches Some(ClientEvent::ChallengeWithdrawn { peer: p }) && p@ == code_of(peer@)
        } else {
            r is None
        },
        ServerMessage::RtcOffer { peer, sdp } => if code_ok(peer@) {
            r matches Some(ClientEvent::RtcOffer { peer: p, sdp: s }) && p@ == code_of(peer@) && s == sdp
        } else {
            r is None
        },
        ServerMessage::RtcAnswer { peer, sdp } => if code_ok(peer@) {
            r matches Some(ClientEvent::RtcAnswer { peer: p, sdp: s }) && p@ == code_of(peer@) && s == sdp
        } else {
            r is None
        },
    }
}

/// The event a server message carries: `None` for the messages the driver
/// handles itself (Welcome, Pong, Displaced) and for a malformed payload —
/// a friend code that does not decode, or a required field missing.
pub fn decode_event<P, I>(msg: ServerMessage<P, I>) -> (r: Option<ClientEvent<P, I>>)
    ensures
        r is Some <==> event_decodes(msg),
        event_read(msg, r),
{
    match msg {
        ServerMessage::Welcome { .. } | ServerMessage::Pong | ServerMessage::Displaced => None,
        ServerMessage::RosterUpsert { entry } => match entry {
            Some(e) => match convert_entry(e) {
                Some(x) => Some(ClientEvent::RosterUpsert(x)),
                None => None,
            },
            None => None,
        },
        ServerMessage::RosterLeave { friend_code } => match decode_code(&friend_code) {
            Some(fc) => Some(ClientEvent::RosterLeave(fc)),
            None => None,
        },
        ServerMessage::ChallengeIncoming { peer, proposal, commitment } => match (decode_code(&peer), proposal) {
            (Some(p), Some(q)) => Some(ClientEvent::ChallengeIncoming { peer: p, proposal: q, commitment }),
            _ => None,
        },
        ServerMessage::ChallengeAccepted { peer, proposal, commitment, ice_servers } => match (
            decode_code(&peer),
            proposal,
        ) {
            (Some(p), Some(q)) => Some(
                ClientEvent::ChallengeAccepted { peer: p, proposal: q, commitment, ice_servers },
            ),
            _ => None,
        },
        ServerMessage::ChallengeConfirmed { peer, ice_servers } => match decode_code(&peer) {
            Some(p) => Some(ClientEvent::ChallengeConfirmed { peer: p, ice_servers }),
            None => None,
        },
        ServerMessage::ChallengeDeclined { peer } => match decode_code(&peer) {
            Some(p) => Some(ClientEvent::ChallengeDeclined { peer: p }),
            None => None,
        },
        ServerMessage::ChallengeWithdrawn { peer } => match decode_code(&peer) {
            Some(p) => Some(ClientEvent::ChallengeWithdrawn { peer: p }),
            None => None,
        },
        ServerMessage::RtcOffer { peer, sdp } => match decode_code(&peer) {
            Some(p) => Some(ClientEvent::RtcOffer { peer: p, sdp }),
            None => None,
        },
        ServerMessage::RtcAnswer { peer, sdp } => match decode_code(&peer) {
            Some(p) => Some(ClientEvent::RtcAnswer { peer: p, sdp }),
            None => None,
        },
    }
}

/// A websocket frame, with a binary frame already run through the codec.
pub enum Frame<P, I> {
    Message(Result<Option<ServerMessage<P, I>>, Failure>),
    Ping,
    Pong,
    Close,
    Other,
}

/// What reading from the socket produced.
pub enum Read<P, I> {
    TimedOut,
    Failed(Failure),
    Ended,
    Frame(Frame<P, I>),
}

/// How a live connection ended.
#[derive(Debug, Clone, Copy, PartialEq, Eq)]
pub enum PumpEnd {
    /// The handle was dropped, or the server displaced us: stop for good.
    Closed,
    /// A transport hiccup: reconnect.
    Transient(Failure),
    /// A protocol-level failure: stop for good.
    Fatal(Failure),
}

/// What to do after a read on a live connection.
pub enum PumpStep<P, I> {
    /// Nothing to do; keep pumping.
    Continue,
    /// Hand the event to the host's stream; if that stream is gone, the
    /// connection ends as [`PumpEnd::Closed`].
    Deliver(ClientEvent<P, I>),
    /// Deliver `Displaced`, close the socket, and end as closed.
    Displaced,
    /// End the connection.
    End(PumpEnd),
}

/// Decide what a read on a live connection means. A read that times out
/// or ends is a transport hiccup; a failed read is one only when the
/// failure is transient; an undecodable message is fatal; a close frame is
/// a hiccup; Pong, Welcome and empty messages and control frames are
/// nothing; any other message is delivered as its event when it decodes.
pub fn on_read<P, I>(read: Read<P, I>) -> (r: PumpStep<P, I>)
    ensures
        match read {
            Read::TimedOut => r == PumpStep::<P, I>::End(PumpEnd::Transient(Failure::Io)),
            Read::Ended => r == PumpStep::<P, I>::End(PumpEnd::Transient(Failure::Io)),
            Read::Failed(f) => r == PumpStep::<P, I>::End(
                if transient(f) {
                    PumpEnd::Transient(f)
                } else {
                    PumpEnd::Fatal(f)
                },
            ),
            Read::Frame(Frame::Message(Err(f))) => r == PumpStep::<P, I>::End(PumpEnd::Fatal(f)),
            Read::Frame(Frame::Message(Ok(None))) => r is Continue,
            Read::Frame(Frame::Message(Ok(Some(m)))) => match m {
                ServerMessage::Displaced => r is Displaced,
                ServerMessage::Pong | ServerMessage::Welcome { .. } => r is Continue,
                _ => (r is Deliver <==> event_decodes(m)) && (r is Continue <==> !event_decodes(m)) && (r matches PumpStep::Deliver(
                    ev,
                ) ==> event_read(m, Some(ev))),
            },
            Read::Frame(Frame::Close) => r == PumpStep::<P, I>::End(
                PumpEnd::Transient(Failure::Websocket(WsFailure::ConnectionClosed)),
            ),
            Read::Frame(Frame::Ping) | Read::Frame(Frame::Pong) | Read::Frame(Frame::Other) => r is Continue,
        },
{
    match read {
        Read::TimedOut => PumpStep::End(PumpEnd::Transient(Failure::Io)),
        Read::Ended => PumpStep::End(PumpEnd::Transient(Failure::Io)),
        Read::Failed(f) => PumpStep::End(
            if is_transient(f) {
                PumpEnd::Transient(f)
            } else {
                PumpEnd::Fatal(f)
            },
        ),
        Read::Frame(frame) => match frame {
            Frame::Message(Err(f)) => PumpStep::End(PumpEnd::Fatal(f)),
            Frame::Message(Ok(None)) => PumpStep::Continue,
            Frame::Message(Ok(Some(m))) => match m {
                ServerMessage::Displaced => PumpStep::Displaced,
                ServerMessage::Pong | ServerMessage::Welcome { .. } => PumpStep::Continue,
                other => match decode_event(other) {
                    Some(ev) => PumpStep::Deliver(ev),
                    None => PumpStep::Continue,
                },
            },
            Frame::Close => PumpStep::End(PumpEnd::Transient(Failure::Websocket(WsFailure::ConnectionClosed))),
            Frame::Ping | Frame::Pong | Frame::Other => PumpStep::Continue,
        },
    }
}

/// What to do after a read while waiting for the Welcome.
pub enum JoinStep<P> {
    /// Keep reading.
    Again,
    Joined(Welcome<P>),
    Failed(Failure),
}

/// The message a read carries, if it carries one.
pub open spec fn msg_of<P, I>(read: Read<P, I>) -> ServerMessage<P, I>
    recommends
        read matches Read::Frame(Frame::Message(Ok(Some(_)))),
{
    match read {
        Read::Frame(Frame::Message(Ok(Some(m)))) => m,
        _ => ServerMessage::Pong,
    }
}

/// Decide what a read means while the Join awaits its Welcome: control
/// frames are skipped, the first message must be a Welcome, and anything
/// else fails the dial.
pub fn on_join_read<P, I>(read: Read<P, I>) -> (r: JoinStep<P>)
    ensures
        match read {
            Read::TimedOut | Read::Ended => r == JoinStep::<P>::Failed(Failure::Io),
            Read::Failed(f) => r == JoinStep::<P>::Failed(f),
            Read::Frame(Frame::Message(Err(f))) => r == JoinStep::<P>::Failed(f),
            Read::Frame(Frame::Message(Ok(Some(ServerMessage::Welcome { your_friend_code, .. })))) => if code_ok(
                your_friend_code@,
            ) {
                r matches JoinStep::Joined(w) && welcome_read(msg_of(read), Some(w))
            } else {
                r == JoinStep::<P>::Failed(Failure::UnexpectedMessage)
            },
            Read::Frame(Frame::Message(Ok(_))) => r == JoinStep::<P>::Failed(Failure::UnexpectedMessage),
            Read::Frame(Frame::Ping) | Read::Frame(Frame::Pong) => r is Again,
            Read::Frame(Frame::Close) => r == JoinStep::<P>::Failed(Failure::Websocket(WsFailure::ConnectionClosed)),
            Read::Frame(Frame::Other) => r == JoinStep::<P>::Failed(Failure::InvalidMessage),
        },
{
    match read {
        Read::TimedOut | Read::Ended => JoinStep::Failed(Failure::Io),
        Read::Failed(f) => JoinStep::Failed(f),
        Read::Frame(frame) => match frame {
            Frame::Message(Err(f)) => JoinStep::Failed(f),
            Frame::Message(Ok(Some(msg))) => match decode_welcome(msg) {
                Some(w) => JoinStep::Joined(w),
                None => JoinStep::Failed(Failure::UnexpectedMessage),
            },
            Frame::Message(Ok(None)) => JoinStep::Failed(Failure::UnexpectedMessage),
            Frame::Ping | Frame::Pong => JoinStep::Again,
            Frame::Close => JoinStep::Failed(Failure::Websocket(WsFailure::ConnectionClosed)),
            Frame::Other => JoinStep::Failed(Failure::InvalidMessage),
        },
    }
}

/// Shortest wait before a reconnect, in milliseconds.
pub const MIN_RECONNECT_BACKOFF_MS: u64 = 500;

/// Longest wait before a reconnect, in milliseconds.
pub const MAX_RECONNECT_BACKOFF_MS: u64 = 8000;

/// The wait after a failed reconnect: double the last, up to the maximum.
pub fn next_backoff(ms: u64) -> (r: u64)
    requires
        ms <= MAX_RECONNECT_BACKOFF_MS,
    ensures
        r == if 2 * ms < MAX_RECONNECT_BACKOFF_MS {
            2 * ms
        } else {
            MAX_RECONNECT_BACKOFF_MS as int
        },
{
    let doubled = ms * 2;
    if doubled < MAX_RECONNECT_BACKOFF_MS {
        doubled
    } else {
        MAX_RECONNECT_BACKOFF_MS
    }
}

/// The `n`th wait of a reconnect run: the minimum doubled `n` times, capped.
pub open spec fn backoff_after(n: nat) -> int
    decreases n,
{
    if n == 0 {
        MIN_RECONNECT_BACKOFF_MS as int
    } else {
        let prev = backoff_after((n - 1) as nat);
        if 2 * prev < MAX_RECONNECT_BACKOFF_MS {
            2 * prev
        } else {
            MAX_RECONNECT_BACKOFF_MS as int
        }
    }
}

/// Reconnect waits grow from the minimum, never shrink, and never pass the
/// maximum: every wait in a run lies between the two, and each is at
/// least the one before it.
pub proof fn law_backoff_is_bounded(n: nat)
    ensures
        MIN_RECONNECT_BACKOFF_MS <= backoff_after(n) <= MAX_RECONNECT_BACKOFF_MS,
        backoff_after(n) <= backoff_after(n + 1),
    decreases n,
{
    if n > 0 {
        law_backoff_is_bounded((n - 1) as nat);
    }
}

/// What the driver does once a connection has ended.
#[derive(Debug, Clone, Copy, PartialEq, Eq)]
pub enum DriveStep {
    /// Stop driving for good.
    Stop,
    /// Report `Reconnecting`, then dial again at once; the wait after a
    /// failed attempt starts at `backoff_ms` (see [`on_reconnect`]).
    Reconnect { backoff_ms: u64 },
}

/// A closed or fatally failed connection stops the driver; a transient
/// drop starts a reconnect run, whose first wait is the minimum.
pub fn on_pump_end(end: PumpEnd) -> (r: DriveStep)
    ensures
        r == (if end is Transient {
            DriveStep::Reconnect { backoff_ms: MIN_RECONNECT_BACKOFF_MS }
        } else {
            DriveStep::Stop
        }),
{
    match end {
        PumpEnd::Transient(_) => DriveStep::Reconnect { backoff_ms: MIN_RECONNECT_BACKOFF_MS },
        _ => DriveStep::Stop,
    }
}

/// What the driver does after a reconnect attempt.
#[derive(Debug, Clone, Copy, PartialEq, Eq)]
pub enum RetryStep {
    /// Rejoined: report `Resynced` and resume pumping.
    Resume,
    /// Wait `ms` milliseconds, then try again with the next wait.
    Retry { wait_ms: u64, next_ms: u64 },
    /// A definitive failure: stop for good.
    Stop,
}

/// A successful reconnect resumes; a transient failure waits the current
/// backoff and doubles it; any other failure stops.
pub fn on_reconnect(result: Result<(), Failure>, backoff_ms: u64) -> (r: RetryStep)
    requires
        backoff_ms <= MAX_RECONNECT_BACKOFF_MS,
    ensures
        result is Ok ==> r == RetryStep::Resume,
        result matches Err(f) && transient(f) ==> r == (RetryStep::Retry {
            wait_ms: backoff_ms,
            next_ms: if 2 * backoff_ms < MAX_RECONNECT_BACKOFF_MS {
                (2 * backoff_ms) as u64
            } else {
                MAX_RECONNECT_BACKOFF_MS
            },
        }),
        result matches Err(f) && !transient(f) ==> r == RetryStep::Stop,
{
    match result {
        Ok(()) => RetryStep::Resume,
        Err(f) => if is_transient(f) {
            RetryStep::Retry { wait_ms: backoff_ms, next_ms: next_backoff(backoff_ms) }
        } else {
            RetryStep::Stop
        },
    }
}

/// A command from the lobby handle, as the pump tells them apart: a new
/// status, which is also what a reconnect joins with, or any other
/// message, sent as it is.
pub enum Outgoing<S, M> {
    SetStatus(S),
    Message(M),
}

/// The pump's own state: the status a reconnect re-joins with.
pub struct PumpState<S> {
    pub last_status: S,
}

/// What the pump does with the next command.
#[derive(Debug, PartialEq, Eq)]
pub enum CommandStep<M> {
    /// Send the new status, now `last_status`, to the server.
    SendStatus,
    /// Send this message to the server.
    Send(M),
    /// Every handle is gone: close the socket and end as closed.
    Close,
}

/// Take the next command off the handle's queue (`None` once every
/// handle is dropped). A new status is remembered for re-joining before
/// it goes out; every command is forwarded to the server.
pub fn on_command<S, M>(state: &mut PumpState<S>, cmd: Option<Outgoing<S, M>>) -> (r: CommandStep<M>)
    ensures
        match cmd {
            None => r == CommandStep::<M>::Close && final(state).last_status == old(state).last_status,
            Some(Outgoing::SetStatus(st)) => r == CommandStep::<M>::SendStatus && final(state).last_status == st,
            Some(Outgoing::Message(m)) => r == CommandStep::Send(m) && final(state).last_status == old(
                state,
            ).last_status,
        },
{
    match cmd {
        None => CommandStep::Close,
        Some(Outgoing::SetStatus(st)) => {
            state.last_status = st;
            CommandStep::SendStatus
        },
        Some(Outgoing::Message(m)) => CommandStep::Send(m),
    }
}

/// A failed send on a live connection is a transport hiccup: the
/// connection ends, to be re-dialled.
pub fn on_send(result: Result<(), Failure>) -> (r: Option<PumpEnd>)
    ensures
        match result {
            Ok(()) => r is None,
            Err(f) => r == Some(PumpEnd::Transient(f)),
        },
{
    match result {
        Ok(()) => None,
        Err(f) => Some(PumpEnd::Transient(f)),
    }
}

/// After a delivery: when the host's event stream is gone, the
/// connection ends as closed.
pub fn on_delivered(delivered: bool) -> (r: Option<PumpEnd>)
    ensures
        r == (if delivered {
            None::<PumpEnd>
        } else {
            Some(PumpEnd::Closed)
        }),
{
    if delivered {
        None
    } else {
        Some(PumpEnd::Closed)
    }
}

/// The event a successful re-join reports: the Welcome's own friend code
/// and roster, the snapshot the host resyncs to before pumping resumes
/// with the last status.
pub fn resynced<P, I>(welcome: Welcome<P>) -> (r: ClientEvent<P, I>)
    ensures
        r == (ClientEvent::<P, I>::Resynced { your_friend_code: welcome.your_friend_code, roster: welcome.roster }),
{
    ClientEvent::Resynced { your_friend_code: welcome.your_friend_code, roster: welcome.roster }
}

} // verus!
