//! The handoff from a ready lobby to a live match: draining the lobby into
//! what the match needs, and settling the host's session build against the
//! attempt it was started for.
use vstd::prelude::*;
use crate::lobby::handshake::{Handshake, LocalReady, RemoteReady, copy_bytes};
use crate::lobby::protocol::{NegotiatedState, Settings};
use crate::lobby::state::{
    DirectRole, Error, LinkIdent, LobbyState, MatchmakingParams, Phase, State, lobby_is_fresh,
    next_session, renewed,
};

verus! {

/// The attempt a handoff belongs to. A build that resolves under an older
/// ticket belongs to a lobby the user already left.
#[derive(Clone, Copy, Debug, PartialEq, Eq)]
pub struct HandoffTicket(pub u64);

/// Everything the live match needs from the lobby. The host decodes the
/// peer's reveal into their negotiated state, derives the shared seed and
/// clock from both states, and builds the reconnect recipe from
/// `reconnect` or `matchmaking`.
pub struct PreMatch {
    /// Our committed state: nonce, clock and save.
    pub local_state: NegotiatedState,
    /// The peer's verified reveal, still encoded.
    pub remote_reveal: Vec<u8>,
    pub local_settings: Settings,
    pub remote_settings: Settings,
    /// The matchmaking code, or empty for a direct link.
    pub link_code: String,
    pub match_type: (u8, u8),
    pub is_offerer: bool,
    /// The direct-link rebuild recipe, when the link was direct.
    pub reconnect: Option<DirectRole>,
    /// The matchmaking params stashed at connect time, when it wasn't.
    pub matchmaking: Option<MatchmakingParams>,
}

/// Both sides have exchanged StartMatch.
pub open spec fn handoff_ready(h: Handshake) -> bool {
    &&& (h.local is StartMatchSent || h.local is HandedOff)
    &&& h.remote is Committed
    &&& h.remote->start_match
}

/// The handoff has been taken and the build not yet settled.
pub open spec fn handoff_pending_spec(h: Handshake) -> bool {
    &&& h.local is HandedOff
    &&& h.remote is Committed
    &&& h.remote->start_match
}

/// The link code a phase gives the replay: a matchmaking code verbatim,
/// nothing for a direct link.
pub open spec fn link_code_of(ident: LinkIdent) -> Seq<char> {
    match ident {
        LinkIdent::Matchmaking(code) => code@,
        LinkIdent::Direct(_) => Seq::empty(),
    }
}

/// Whether the handoff has all it needs beyond the handshake: live
/// handles, our commit still on its rung, both settings, and the lobby
/// phase.
pub open spec fn handoff_complete(s: State) -> bool {
    &&& s.conn is Some
    &&& s.handshake.local is StartMatchSent
    &&& s.lobby.local is Some
    &&& s.lobby.remote is Some
    &&& s.phase is Lobby
}

impl State {
    /// Drain what the match needs to take over, with the ticket its build
    /// settles against. `None` before the handoff point, or once drained.
    /// The lobby and phase stay for the UI to render while the host builds;
    /// the pump is cancelled.
    pub fn take_pre_match(&mut self) -> (r: Option<(HandoffTicket, PreMatch)>)
        ensures
            !handoff_ready(old(self).handshake) || old(self).conn is None ==> (r is None && *final(self)
                == *old(self)),
            handoff_ready(old(self).handshake) && old(self).conn is Some ==> {
                &&& final(self).handshake.local is HandedOff
                &&& final(self).handshake.remote == old(self).handshake.remote
                &&& final(self).conn is None
                &&& final(self).phase == old(self).phase
                &&& final(self).lobby == old(self).lobby
                &&& final(self).session_id == old(self).session_id
                &&& final(self).outbox == old(self).outbox
                &&& final(self).failures == old(self).failures
                &&& handoff_complete(*old(self)) <==> r is Some
            },
            r matches Some((ticket, pm)) ==> {
                &&& ticket == HandoffTicket(old(self).session_id)
                &&& pm.local_state == old(self).handshake.local->StartMatchSent_0.state
                &&& pm.remote_reveal@ == old(self).handshake.remote->chunks@
                &&& pm.local_settings@ == old(self).lobby.local->0@
                &&& pm.remote_settings@ == old(self).lobby.remote->0@
                &&& pm.link_code@ == link_code_of(old(self).phase->Lobby_ident)
                &&& pm.match_type == old(self).lobby.match_type
                &&& pm.is_offerer == old(self).conn->0.is_offerer
                &&& pm.reconnect == old(self).conn->0.reconnect
                &&& (pm.reconnect is None ==> pm.matchmaking == old(self).matchmaking_reconnect
                    && final(self).matchmaking_reconnect is None)
                &&& (pm.reconnect is Some ==> pm.matchmaking is None
                    && final(self).matchmaking_reconnect == old(self).matchmaking_reconnect)
                &&& final(self).pump_cancelled
                &&& handoff_pending_spec(final(self).handshake)
            },
    {
        let ready = self.handshake.local.match_ready() && self.handshake.remote.start_match();
        if !ready {
            return None;
        }
        let handles = match self.conn.take() {
            Some(h) => h,
            None => {
                return None;
            },
        };
        let mut taken = LocalReady::HandedOff;
        core::mem::swap(&mut self.handshake.local, &mut taken);
        let local_commit = match taken {
            LocalReady::StartMatchSent(commit) => commit,
            _ => {
                return None;
            },
        };
        let remote_reveal = match &self.handshake.remote {
            RemoteReady::Committed { chunks, .. } => copy_bytes(chunks),
            RemoteReady::NotReady => {
                return None;
            },
        };
        let local_settings = match &self.lobby.local {
            Some(s) => s.copy(),
            None => {
                return None;
            },
        };
        let remote_settings = match &self.lobby.remote {
            Some(s) => s.copy(),
            None => {
                return None;
            },
        };
        let link_code = match &self.phase {
            Phase::Lobby { ident } => match ident.matchmaking_code() {
                Some(code) => code.to_owned(),
                None => String::new(),
            },
            _ => {
                return None;
            },
        };
        self.pump_cancelled = true;
        let matchmaking = if handles.reconnect.is_some() {
            None
        } else {
            self.matchmaking_reconnect.take()
        };
        let pre_match = PreMatch {
            local_state: local_commit.state,
            remote_reveal,
            local_settings,
            remote_settings,
            link_code,
            match_type: self.lobby.match_type,
            is_offerer: handles.is_offerer,
            reconnect: handles.reconnect,
            matchmaking,
        };
        Some((HandoffTicket(self.session_id), pre_match))
    }

    /// The peer's revealed state won't decode at handoff time, after the
    /// handles were drained: tear the session down into a visible failure.
    pub fn fail_handoff(&mut self, error: Error)
        ensures
            renewed(*old(self), *final(self)),
            final(self).phase == (Phase::Failed { error }),
    {
        self.cancel_and_renew();
        self.phase = Phase::Failed { error };
    }

    /// Whether `ticket`'s attempt is still the live one.
    pub fn is_current(&self, ticket: HandoffTicket) -> (r: bool)
        ensures
            r == (ticket.0 == self.session_id),
    {
        ticket.0 == self.session_id
    }

    /// Settle the session build `ticket` started. A build for an abandoned
    /// attempt is dropped whatever its outcome, leaving the machine as it
    /// is. A successful build for the live attempt clears the lobby and
    /// returns the session to install; a failed one parks the failure in
    /// the sticky `Failed` phase, keeping the lobby on screen.
    pub fn complete_handoff<T>(&mut self, ticket: HandoffTicket, result: Result<T, String>) -> (r: Option<T>)
        ensures
            ticket.0 != old(self).session_id ==> r is None && *final(self) == *old(self),
            ticket.0 == old(self).session_id && result is Ok ==> {
                &&& r == Some(result->Ok_0)
                &&& final(self).phase is Idle
                &&& lobby_is_fresh(final(self).lobby)
                &&& final(self).handshake.local is NotReady
                &&& final(self).handshake.remote is NotReady
                &&& final(self).session_id == old(self).session_id
            },
            ticket.0 == old(self).session_id && result is Err ==> {
                &&& r is None
                &&& final(self).phase == (Phase::Failed { error: Error::SessionBuild(result->Err_0) })
                &&& final(self).lobby == old(self).lobby
                &&& final(self).session_id == next_session(old(self).session_id)
                &&& final(self).handshake.local is NotReady
                &&& final(self).handshake.remote is NotReady
            },
    {
        if !self.is_current(ticket) {
            return None;
        }
        match result {
            Ok(session) => {
                self.phase = Phase::Idle;
                self.lobby = LobbyState::new();
                self.handshake = Handshake::new();
                Some(session)
            },
            Err(e) => {
                self.fail_keeping_lobby(Error::SessionBuild(e));
                None
            },
        }
    }

    /// Both sides exchanged StartMatch and the handoff was taken, but the
    /// build hasn't settled: the UI locks its committed controls.
    pub fn handoff_pending(&self) -> (r: bool)
        ensures
            r == handoff_pending_spec(self.handshake),
    {
        let handed_off = match &self.handshake.local {
            LocalReady::HandedOff => true,
            _ => false,
        };
        handed_off && self.handshake.remote.start_match()
    }
}

/// Every session boundary retires the tickets of the attempt before it: a
/// build that lands afterwards is never installed.
pub proof fn law_boundary_retires_tickets(old: State, new: State, ticket: HandoffTicket)
    requires
        new.session_id == next_session(old.session_id),
        ticket.0 == old.session_id,
    ensures
        ticket.0 != new.session_id,
{
}

} // verus!
