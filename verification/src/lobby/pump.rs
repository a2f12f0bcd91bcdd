//! The lobby's transport pump, as decisions: what each packet off the
//! reliable channel turns into, and how a reveal goes out. The pump
//! itself (pinging on a timer, awaiting the channel and the command
//! queue, stopping when cancelled) is the host's; it performs what these
//! decide.
use vstd::prelude::*;
use crate::lobby::protocol::Settings;
use crate::lobby::state::{Error, Inbound};

verus! {

/// What a receive on the reliable channel gave.
#[derive(Debug, PartialEq, Eq)]
pub enum PeerRead {
    Ping(u16),
    Pong(u16),
    Settings(Settings),
    Commit([u8; 16]),
    Uncommit,
    ChunkStart(u64),
    Chunk(Vec<u8>),
    StartMatch,
    /// A packet the lobby does not handle (a late Hello, an early Input).
    Other,
    /// The channel closed cleanly.
    Closed,
    /// The receive failed.
    Broken(String),
}

/// What the pump does with a read.
#[derive(Debug, PartialEq, Eq)]
pub enum PumpStep {
    /// Answer a ping with a pong carrying its timestamp.
    Answer(u16),
    /// Hand the state machine this report.
    Report(Inbound),
    /// Nothing.
    Ignore,
    /// Report, and stop pumping.
    Stop(Inbound),
}

/// The round trip a pong stamped `sent` measures at `now`, both the low
/// 16 bits of a millisecond clock.
pub open spec fn round_trip(now: u16, sent: u16) -> u64 {
    ((now as int - sent as int + 65536) % 65536) as u64
}

/// Decide what a read off the reliable channel becomes: a ping is
/// answered, a pong measured, every lobby packet forwarded to the state
/// machine, anything else ignored; a clean close stops the pump as a
/// peer disconnect, a failed receive as a transport failure.
pub fn on_packet(read: PeerRead, now: u16) -> (r: PumpStep)
    ensures
        match read {
            PeerRead::Ping(ts) => r == PumpStep::Answer(ts),
            PeerRead::Pong(ts) => r == PumpStep::Report(Inbound::Ping(round_trip(now, ts))),
            PeerRead::Settings(s) => r == PumpStep::Report(Inbound::RemoteSettings(s)),
            PeerRead::Commit(c) => r == PumpStep::Report(Inbound::RemoteCommit(c)),
            PeerRead::Uncommit => r == PumpStep::Report(Inbound::RemoteUncommit),
            PeerRead::ChunkStart(n) => r == PumpStep::Report(Inbound::RemoteChunkStart(n)),
            PeerRead::Chunk(c) => r == PumpStep::Report(Inbound::RemoteChunk(c)),
            PeerRead::StartMatch => r == PumpStep::Report(Inbound::RemoteStartMatch),
            PeerRead::Other => r == PumpStep::Ignore,
            PeerRead::Closed => r == PumpStep::Stop(Inbound::PeerDisconnected),
            PeerRead::Broken(e) => r matches PumpStep::Stop(Inbound::Failed(Error::Transport { operation, message }))
                && operation@ == seq!['r', 'e', 'c', 'v'] && message == e,
        },
{
    match read {
        PeerRead::Ping(ts) => PumpStep::Answer(ts),
        PeerRead::Pong(ts) => {
            let dt = now.wrapping_sub(ts);
            assert(dt == round_trip(now, ts)) by (bit_vector)
                requires
                    dt == now.wrapping_sub(ts),
            ;
            PumpStep::Report(Inbound::Ping(dt as u64))
        },
        PeerRead::Settings(s) => PumpStep::Report(Inbound::RemoteSettings(s)),
        PeerRead::Commit(c) => PumpStep::Report(Inbound::RemoteCommit(c)),
        PeerRead::Uncommit => PumpStep::Report(Inbound::RemoteUncommit),
        PeerRead::ChunkStart(n) => PumpStep::Report(Inbound::RemoteChunkStart(n)),
        PeerRead::Chunk(c) => PumpStep::Report(Inbound::RemoteChunk(c)),
        PeerRead::StartMatch => PumpStep::Report(Inbound::RemoteStartMatch),
        PeerRead::Other => PumpStep::Ignore,
        PeerRead::Closed => PumpStep::Stop(Inbound::PeerDisconnected),
        PeerRead::Broken(e) => {
            let op = vec!['r', 'e', 'c', 'v'];
            let operation = crate::text::string_from_chars(op);
            PumpStep::Stop(Inbound::Failed(Error::Transport { operation, message: e }))
        },
    }
}

/// `s` cut into consecutive pieces of `size` bytes, the last one shorter
/// when the length is not a multiple; no pieces for nothing.
pub open spec fn pieces_of(s: Seq<u8>, size: nat) -> Seq<Seq<u8>>
    decreases s.len(),
{
    if s.len() == 0 || size == 0 {
        Seq::empty()
    } else if s.len() <= size {
        seq![s]
    } else {
        seq![s.take(size as int)] + pieces_of(s.skip(size as int), size)
    }
}

/// The pieces a reveal of `compressed` is streamed in, after a chunk
/// start announcing its whole length: consecutive runs of `size` bytes,
/// the last one shorter.
pub fn reveal_pieces(compressed: &[u8], size: usize) -> (r: Vec<Vec<u8>>)
    requires
        size > 0,
    ensures
        r@.len() == pieces_of(compressed@, size as nat).len(),
        forall|i: int| 0 <= i < r@.len() ==> (#[trigger] r@[i])@ == pieces_of(compressed@, size as nat)[i],
{
    let mut out: Vec<Vec<u8>> = Vec::new();
    let mut start: usize = 0;
    assert(compressed@.skip(0) =~= compressed@);
    while start < compressed.len()
        invariant
            size > 0,
            start <= compressed@.len(),
            pieces_of(compressed@, size as nat) =~= Seq::new(out@.len(), |i: int| out@[i]@) + pieces_of(
                compressed@.skip(start as int),
                size as nat,
            ),
        decreases compressed@.len() - start,
    {
        let rest = compressed.len() - start;
        let n = if rest < size {
            rest
        } else {
            size
        };
        let mut piece: Vec<u8> = Vec::new();
        let mut k: usize = 0;
        while k < n
            invariant
                k <= n,
                start + n <= compressed@.len(),
                compressed@.len() == compressed.len(),
                piece@ == compressed@.subrange(start as int, start + k),
            decreases n - k,
        {
            piece.push(compressed[start + k]);
            k = k + 1;
            assert(piece@ =~= compressed@.subrange(start as int, start + k));
        }
        let ghost tail = compressed@.skip(start as int);
        let ghost before = Seq::new(out@.len(), |i: int| out@[i]@);
        proof {
            if tail.len() <= size {
                assert(tail =~= compressed@.subrange(start as int, start + n));
                assert(tail.skip(n as int) =~= compressed@.skip(start + n));
            } else {
                assert(tail.take(size as int) =~= compressed@.subrange(start as int, start + n));
                assert(tail.skip(size as int) =~= compressed@.skip(start + n));
            }
        }
        out.push(piece);
        start = start + n;
        proof {
            let after = Seq::new(out@.len(), |i: int| out@[i]@);
            assert(after =~= before.push(compressed@.subrange(start - n, start as int)));
            if compressed@.skip(start as int).len() == 0 {
                assert(pieces_of(compressed@.skip(start as int), size as nat) =~= Seq::<Seq<u8>>::empty());
            }
        }
    }
    assert(compressed@.skip(start as int).len() == 0);
    out
}

/// The pieces of a reveal put back together are the reveal: the
/// receiver, counting arriving bytes against the announced length, gets
/// exactly what was sent. Every piece is non-empty and at most `size`
/// bytes.
pub proof fn law_reveal_pieces_reassemble(s: Seq<u8>, size: nat)
    requires
        size > 0,
    ensures
        pieces_of(s, size).flatten() == s,
        forall|i: int| 0 <= i < pieces_of(s, size).len() ==> 0 < (#[trigger] pieces_of(s, size)[i]).len() <= size,
    decreases s.len(),
{
    let p = pieces_of(s, size);
    if s.len() == 0 {
        assert(p =~= Seq::<Seq<u8>>::empty());
    } else if s.len() <= size {
        assert(p =~= seq![s]);
        p.lemma_flatten_one_element();
    } else {
        let rest = pieces_of(s.skip(size as int), size);
        law_reveal_pieces_reassemble(s.skip(size as int), size);
        assert(p =~= seq![s.take(size as int)] + rest);
        assert(p.first() == s.take(size as int));
        assert(p.drop_first() =~= rest);
        assert(p.flatten() == s.take(size as int) + rest.flatten());
        assert(s =~= s.take(size as int) + s.skip(size as int));
        assert forall|i: int| 0 <= i < p.len() implies 0 < (#[trigger] p[i]).len() <= size by {
            if i > 0 {
                assert(p[i] == rest[i - 1]);
            }
        }
    }
}

} // verus!
