//! The ready/commitment exchange: both sides commit to a hash of their
//! negotiated state, stream the state across once both have committed,
//! verify the reveal against the commitment, and exchange StartMatch.
//! Commit-then-reveal keeps either side from picking their save in
//! response to the opponent's.
//!
//! Each peer's progress is one ladder ([`LocalReady`] for ours,
//! [`RemoteReady`] for what we've observed of theirs); the UI reads the
//! derived [`ReadyView`].
use vstd::prelude::*;
use crate::lobby::protocol::NegotiatedState;
use crate::lobby::state::{Command, CommandView, Error, Event, Phase, State, appended, frame, lemma_appended_none, lemma_appended_trans};

verus! {

/// What we committed to: our negotiated state and the compressed bytes
/// whose hash went out as the commitment (and which are the reveal).
pub struct LocalCommit {
    pub state: NegotiatedState,
    pub compressed: Vec<u8>,
}

/// Our side of the ready ladder: `NotReady → Committed → ChunksSent →
/// StartMatchSent → HandedOff`, reset down by Uncommit, material settings
/// changes and session boundaries.
pub enum LocalReady {
    NotReady,
    /// We sent Commit.
    Committed(LocalCommit),
    /// Both sides have committed and our reveal is on its way.
    ChunksSent(LocalCommit),
    /// We verified the peer's reveal and sent StartMatch.
    StartMatchSent(LocalCommit),
    /// The commit was drained into the match handoff.
    HandedOff,
}

/// The peer's side of the ladder, as observed from received packets. Their
/// reveal progress and StartMatch ride on the `Committed` rung they belong
/// to, so voiding the commitment drops everything derived from it.
pub enum RemoteReady {
    NotReady,
    /// Peer's Commit arrived.
    Committed {
        commitment: [u8; 16],
        /// Total reveal length their ChunkStart announced, once it arrived.
        expected: Option<u64>,
        /// Their reveal, accumulating until `expected` bytes are here.
        chunks: Vec<u8>,
        /// The announced length fully arrived.
        revealed: bool,
        /// Peer sent StartMatch: they verified our reveal.
        start_match: bool,
    },
}

impl LocalReady {
    /// "You: ready": any rung past `NotReady`.
    pub fn is_ready(&self) -> (r: bool)
        ensures
            r == !(self is NotReady),
    {
        match self {
            LocalReady::NotReady => false,
            _ => true,
        }
    }

    /// Our half of the handoff condition.
    pub fn match_ready(&self) -> (r: bool)
        ensures
            r == (self is StartMatchSent || self is HandedOff),
    {
        match self {
            LocalReady::StartMatchSent(_) | LocalReady::HandedOff => true,
            _ => false,
        }
    }

    /// Undo the StartMatch rung when the peer reveal it rested on is
    /// voided: only steps `StartMatchSent` back to `ChunksSent`, keeping
    /// our commit.
    pub fn revoke_start_match(&mut self)
        ensures
            *old(self) is StartMatchSent ==> (*final(self) is ChunksSent && final(self)->ChunksSent_0
                == old(self)->StartMatchSent_0),
            !(*old(self) is StartMatchSent) ==> *final(self) == *old(self),
    {
        if let LocalReady::StartMatchSent(_) = self {
            let mut taken = LocalReady::NotReady;
            core::mem::swap(self, &mut taken);
            if let LocalReady::StartMatchSent(commit) = taken {
                *self = LocalReady::ChunksSent(commit);
            }
        }
    }
}

impl RemoteReady {
    /// "Opponent: ready": their commitment is on hand.
    pub fn is_ready(&self) -> (r: bool)
        ensures
            r == (self is Committed),
    {
        match self {
            RemoteReady::Committed { .. } => true,
            _ => false,
        }
    }

    /// Whether the peer has sent StartMatch for the current pairing.
    pub fn start_match(&self) -> (r: bool)
        ensures
            r == (self is Committed && self->start_match),
    {
        match self {
            RemoteReady::Committed { start_match, .. } => *start_match,
            _ => false,
        }
    }
}

/// The two ladders, which move as a unit: every session boundary resets
/// both.
pub struct Handshake {
    pub local: LocalReady,
    pub remote: RemoteReady,
}

impl Handshake {
    /// Both ladders at the bottom.
    pub fn new() -> (h: Handshake)
        ensures
            h.local is NotReady,
            h.remote is NotReady,
    {
        Handshake { local: LocalReady::NotReady, remote: RemoteReady::NotReady }
    }
}

/// UI projection of the two ladders.
#[derive(Debug, Clone, Copy, Default, PartialEq, Eq)]
pub struct ReadyView {
    /// We've committed ("you: ready").
    pub local_ready: bool,
    /// Peer has committed ("opponent: ready").
    pub remote_ready: bool,
    /// We verified their reveal and sent StartMatch.
    pub match_ready: bool,
}


/// A copy of a byte string.
pub fn copy_bytes(v: &Vec<u8>) -> (r: Vec<u8>)
    ensures
        r@ == v@,
{
    let mut r: Vec<u8> = Vec::new();
    let mut i: usize = 0;
    while i < v.len()
        invariant
            i <= v@.len(),
            r@ == v@.take(i as int),
        decreases v@.len() - i,
    {
        r.push(v[i]);
        i = i + 1;
        assert(r@ =~= v@.take(i as int));
    }
    assert(v@.take(v@.len() as int) =~= v@);
    r
}

/// Compare two commitments in constant time.
///
/// Calls `subtle::ConstantTimeEq::ct_eq` on the two arrays, whose `Choice`
/// converts to `true` exactly when every byte is equal.
#[verifier::external_body]
fn commitments_equal(a: &[u8; 16], b: &[u8; 16]) -> (r: bool)
    ensures
        r == (*a == *b),
{
    bool::from(subtle::ConstantTimeEq::ct_eq(&a[..], &b[..]))
}

/// The peer's reveal is complete and ours is out: time to verify theirs.
pub open spec fn reveal_pending(h: Handshake) -> bool {
    &&& h.remote is Committed
    &&& h.remote->revealed
    &&& h.local is ChunksSent
}

impl State {
    /// Drop the local commitment; tell the peer if we had sent one.
    pub fn invalidate_local_commit(&mut self)
        ensures
            final(self).handshake.local is NotReady,
            final(self).handshake.remote == old(self).handshake.remote,
            appended(
                old(self).outbox@,
                final(self).outbox@,
                if old(self).handshake.local is NotReady {
                    Seq::empty()
                } else {
                    seq![CommandView::Uncommit]
                },
                old(self).commands_open,
            ),
            frame(*old(self), *final(self)),
            final(self).lobby == old(self).lobby,
            final(self).failures == old(self).failures,
    {
        let had_commit = self.handshake.local.is_ready();
        self.handshake.local = LocalReady::NotReady;
        if had_commit {
            self.send(Command::Uncommit);
        } else {
            proof {
                lemma_appended_none(self.outbox@, self.commands_open);
            }
        }
    }

    /// The user un-pressed Ready: our ladder back to `NotReady`, and an
    /// Uncommit if we had committed.
    pub fn uncommit(&mut self)
        ensures
            final(self).handshake.local is NotReady,
            final(self).handshake.remote == old(self).handshake.remote,
            appended(
                old(self).outbox@,
                final(self).outbox@,
                if old(self).handshake.local is NotReady {
                    Seq::empty()
                } else {
                    seq![CommandView::Uncommit]
                },
                old(self).commands_open,
            ),
            frame(*old(self), *final(self)),
            final(self).lobby == old(self).lobby,
            final(self).failures == old(self).failures,
    {
        self.invalidate_local_commit();
    }

    /// If both sides have committed and our reveal isn't out yet, send it
    /// and step to `ChunksSent`. Fires once per commit pairing: the rung
    /// is the guard.
    pub fn maybe_kick_reveal(&mut self)
        ensures
            (old(self).handshake.local is Committed && old(self).handshake.remote is Committed) ==> {
                &&& final(self).handshake.local == LocalReady::ChunksSent(
                    old(self).handshake.local->Committed_0,
                )
                &&& appended(
                    old(self).outbox@,
                    final(self).outbox@,
                    seq![CommandView::Reveal(old(self).handshake.local->Committed_0.compressed@)],
                    old(self).commands_open,
                )
            },
            !(old(self).handshake.local is Committed && old(self).handshake.remote is Committed) ==> {
                &&& final(self).handshake.local == old(self).handshake.local
                &&& final(self).outbox == old(self).outbox
            },
            final(self).handshake.remote == old(self).handshake.remote,
            frame(*old(self), *final(self)),
            final(self).lobby == old(self).lobby,
            final(self).failures == old(self).failures,
    {
        if !self.handshake.remote.is_ready() {
            return;
        }
        if let LocalReady::Committed(_) = &self.handshake.local {
            let mut taken = LocalReady::NotReady;
            core::mem::swap(&mut self.handshake.local, &mut taken);
            if let LocalReady::Committed(commit) = taken {
                let reveal = copy_bytes(&commit.compressed);
                self.send(Command::Reveal(reveal));
                self.handshake.local = LocalReady::ChunksSent(commit);
            }
        }
    }

    /// The user pressed Ready with a prepared commitment: `state` is our
    /// fresh negotiated state, `compressed` its encoded form (the reveal),
    /// and `commitment` the hash of `compressed`. Only in the lobby.
    /// Sends Commit, sends the reveal at once if the peer has committed,
    /// and asks for the peer's reveal to be verified if it is already here.
    pub fn commit(&mut self, state: NegotiatedState, compressed: Vec<u8>, commitment: [u8; 16]) -> (e: Option<Event>)
        ensures
            !(old(self).phase is Lobby) ==> *final(self) == *old(self) && e is None,
            old(self).phase is Lobby ==> {
                &&& old(self).handshake.remote is Committed ==> {
                    &&& final(self).handshake.local == LocalReady::ChunksSent(
                        LocalCommit { state, compressed },
                    )
                    &&& appended(
                        old(self).outbox@,
                        final(self).outbox@,
                        seq![CommandView::Commit(commitment), CommandView::Reveal(compressed@)],
                        old(self).commands_open,
                    )
                }
                &&& !(old(self).handshake.remote is Committed) ==> {
                    &&& final(self).handshake.local == LocalReady::Committed(
                        LocalCommit { state, compressed },
                    )
                    &&& appended(
                        old(self).outbox@,
                        final(self).outbox@,
                        seq![CommandView::Commit(commitment)],
                        old(self).commands_open,
                    )
                }
                &&& final(self).handshake.remote == old(self).handshake.remote
                &&& frame(*old(self), *final(self))
                &&& final(self).lobby == old(self).lobby
                &&& final(self).failures == old(self).failures
                &&& e == (if reveal_pending(final(self).handshake) {
                    Some(Event::RevealComplete)
                } else {
                    None
                })
            },
    {
        if !matches!(self.phase, Phase::Lobby { .. }) {
            return None;
        }
        self.handshake.local = LocalReady::Committed(LocalCommit { state, compressed });
        self.send(Command::Commit(commitment));
        let ghost q1 = self.outbox@;
        self.maybe_kick_reveal();
        proof {
            if old(self).handshake.remote is Committed {
                lemma_appended_trans(
                    old(self).outbox@,
                    q1,
                    self.outbox@,
                    seq![CommandView::Commit(commitment)],
                    seq![CommandView::Reveal(compressed@)],
                    self.commands_open,
                );
                assert(seq![CommandView::Commit(commitment)] + seq![CommandView::Reveal(compressed@)]
                    =~= seq![CommandView::Commit(commitment), CommandView::Reveal(compressed@)]);
            }
        }
        self.reveal_check_event()
    }

    /// `RevealComplete` when the peer's reveal awaits verification.
    pub fn reveal_check_event(&self) -> (e: Option<Event>)
        ensures
            e == (if reveal_pending(self.handshake) {
                Some(Event::RevealComplete)
            } else {
                None
            }),
    {
        let revealed = match &self.handshake.remote {
            RemoteReady::Committed { revealed, .. } => *revealed,
            RemoteReady::NotReady => false,
        };
        let sent = match &self.handshake.local {
            LocalReady::ChunksSent(_) => true,
            _ => false,
        };
        if revealed && sent {
            Some(Event::RevealComplete)
        } else {
            None
        }
    }

    /// The peer's complete reveal, while it awaits verification.
    pub fn pending_reveal(&self) -> (r: Option<&Vec<u8>>)
        ensures
            reveal_pending(self.handshake) <==> r is Some,
            r matches Some(b) ==> *b == self.handshake.remote->chunks,
    {
        match (&self.handshake.remote, &self.handshake.local) {
            (RemoteReady::Committed { chunks, revealed: true, .. }, LocalReady::ChunksSent(_)) => Some(
                chunks,
            ),
            _ => None,
        }
    }

    /// The host verified the peer's pending reveal: `actual` is the hash of
    /// its bytes, `decoded` whether they decode to a negotiated state. A
    /// match steps us to `StartMatchSent` and sends StartMatch; a mismatch
    /// or an undecodable reveal fails the session. No-op unless a reveal
    /// is pending.
    pub fn finish_handshake(&mut self, actual: [u8; 16], decoded: Result<(), Error>) -> (e: Option<Event>)
        ensures
            !reveal_pending(old(self).handshake) ==> *final(self) == *old(self) && e is None,
            reveal_pending(old(self).handshake) && actual != old(self).handshake.remote->commitment
                ==> {
                &&& e is None
                &&& final(self).handshake == old(self).handshake
                &&& final(self).outbox == old(self).outbox
                &&& old(self).progress_open ==> final(self).failures@ == old(self).failures@.push(
                    Error::CommitmentMismatch,
                )
            },
            reveal_pending(old(self).handshake) && actual == old(self).handshake.remote->commitment
                && decoded is Err ==> {
                &&& e is None
                &&& final(self).handshake == old(self).handshake
                &&& final(self).outbox == old(self).outbox
                &&& old(self).progress_open ==> final(self).failures@ == old(self).failures@.push(
                    decoded->Err_0,
                )
            },
            reveal_pending(old(self).handshake) && actual == old(self).handshake.remote->commitment
                && decoded is Ok ==> {
                &&& final(self).handshake.local == LocalReady::StartMatchSent(
                    old(self).handshake.local->ChunksSent_0,
                )
                &&& final(self).handshake.remote == old(self).handshake.remote
                &&& appended(
                    old(self).outbox@,
                    final(self).outbox@,
                    seq![CommandView::StartMatch],
                    old(self).commands_open,
                )
                &&& final(self).failures == old(self).failures
                &&& e == (if old(self).handshake.remote->start_match {
                    Some(Event::MatchReady)
                } else {
                    None
                })
            },
            frame(*old(self), *final(self)),
            final(self).lobby == old(self).lobby,
    {
        let matches = match (&self.handshake.remote, &self.handshake.local) {
            (
                RemoteReady::Committed { commitment, revealed: true, .. },
                LocalReady::ChunksSent(_),
            ) => Some(commitments_equal(&actual, commitment)),
            _ => None,
        };
        if matches.is_none() {
            return None;
        }
        match matches {
            None => None,
            Some(false) => {
                self.fail(Error::CommitmentMismatch);
                None
            },
            Some(true) => {
                match decoded {
                    Err(e) => {
                        self.fail(e);
                        None
                    },
                    Ok(()) => {
                        let mut taken = LocalReady::NotReady;
                        core::mem::swap(&mut self.handshake.local, &mut taken);
                        if let LocalReady::ChunksSent(commit) = taken {
                            self.handshake.local = LocalReady::StartMatchSent(commit);
                        }
                        self.send(Command::StartMatch);
                        self.match_ready_event()
                    },
                }
            },
        }
    }
}

} // verus!
