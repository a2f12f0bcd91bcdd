//! The bytes a ready handshake exchanges: a fresh negotiated state, and
//! its zstd-compressed form, which is what the commitment is made over
//! and what the reveal streams. Serializing the state and hashing the
//! compressed bytes are the wire protocol's, and the host's.
use vstd::prelude::*;
use crate::lobby::protocol::NegotiatedState;
use crate::lobby::state::Error;
use crate::text::string_from_chars;

verus! {

/// What `zstd::stream::encode_all` returns for `data` at `level`: the
/// zstd frame, or `None` when it fails.
pub uninterp spec fn zstd_encoded(data: Seq<u8>, level: i32) -> Option<Seq<u8>>;

/// What `zstd::stream::decode_all` returns for `data`: the decompressed
/// bytes, or `None` when it fails.
pub uninterp spec fn zstd_decoded(data: Seq<u8>) -> Option<Seq<u8>>;

/// Calls `zstd::stream::encode_all` over the bytes of `data` at `level`.
/// Claims only that the compressed frame is the one the call produces
/// for these arguments (a function of them alone); the failure's message
/// is passed on as text and not stated.
#[verifier::external_body]
fn zstd_encode_all(data: &[u8], level: i32) -> (r: Result<Vec<u8>, String>)
    ensures
        match r {
            Ok(v) => zstd_encoded(data@, level) == Some(v@),
            Err(_) => zstd_encoded(data@, level) is None,
        },
{
    zstd::stream::encode_all(std::io::Cursor::new(data), level).map_err(|e| e.to_string())
}

/// Calls `zstd::stream::decode_all` over the bytes of `data`. Claims only
/// that the decompressed bytes are the ones the call produces for `data`
/// (a function of it alone); the failure's message is passed on as text
/// and not stated.
#[verifier::external_body]
fn zstd_decode_all(data: &[u8]) -> (r: Result<Vec<u8>, String>)
    ensures
        match r {
            Ok(v) => zstd_decoded(data@) == Some(v@),
            Err(_) => zstd_decoded(data@) is None,
        },
{
    zstd::stream::decode_all(std::io::Cursor::new(data)).map_err(|e| e.to_string())
}

/// Fills 16 bytes from `rand::thread_rng()` through `rand::Rng::fill`.
/// Nothing is claimed of the bytes: they are chance.
#[verifier::external_body]
fn random_nonce() -> (r: [u8; 16]) {
    let mut nonce = [0u8; 16];
    rand::Rng::fill(&mut rand::thread_rng(), &mut nonce);
    nonce
}

/// The compression level the reveal is made at.
pub const REVEAL_LEVEL: i32 = 3;

/// A fresh negotiated state for a commit: a random nonce, the commit-time
/// clock `ts`, and the save the match boots from.
pub fn fresh_state(save_sram: Vec<u8>, ts: u64) -> (r: NegotiatedState)
    ensures
        r.ts == ts,
        r.save_data == save_sram,
{
    NegotiatedState { nonce: random_nonce(), ts, save_data: save_sram }
}

/// The reveal a commit is made over: the serialized negotiated state,
/// zstd-compressed at [`REVEAL_LEVEL`]. A compression failure is an
/// encoding failure at the `zstd` stage.
pub fn compress_state(serialized: &[u8]) -> (r: Result<Vec<u8>, Error>)
    ensures
        match zstd_encoded(serialized@, REVEAL_LEVEL) {
            Some(c) => r matches Ok(v) && v@ == c,
            None => r matches Err(Error::EncodeState { stage, .. }) && stage@ == seq!['z', 's', 't', 'd'],
        },
{
    match zstd_encode_all(serialized, REVEAL_LEVEL) {
        Ok(v) => Ok(v),
        Err(message) => Err(Error::EncodeState { stage: zstd_stage(), message }),
    }
}

/// The serialized negotiated state a peer's complete reveal holds. A
/// reveal that does not decompress fails decoding at the `zstd` stage.
pub fn decompress_reveal(chunks: &[u8]) -> (r: Result<Vec<u8>, Error>)
    ensures
        match zstd_decoded(chunks@) {
            Some(d) => r matches Ok(v) && v@ == d,
            None => r matches Err(Error::DecodePeerState { stage, .. }) && stage@ == seq!['z', 's', 't', 'd'],
        },
{
    match zstd_decode_all(chunks) {
        Ok(v) => Ok(v),
        Err(message) => Err(Error::DecodePeerState { stage: zstd_stage(), message }),
    }
}

fn zstd_stage() -> (r: String)
    ensures
        r@ == seq!['z', 's', 't', 'd'],
{
    let v = vec!['z', 's', 't', 'd'];
    assert(v@ =~= seq!['z', 's', 't', 'd']);
    string_from_chars(v)
}

} // verus!
