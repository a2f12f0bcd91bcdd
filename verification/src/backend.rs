//! The melonDS backend's own share of the work: what a DS pair looks like
//! on screen, and how the core's pixels become the bytes a host paints.
//! Ticking, snapshotting and restoring the emulated pair are the
//! emulator's.
use vstd::prelude::*;

verus! {

/// Marker for the backend: it is all associated items, so no value of
/// it is ever needed.
pub struct MelonDs;

/// Width of each of the DS's two screens, in pixels.
pub const SCREEN_WIDTH: usize = 256;

/// Height of each of the DS's two screens, in pixels.
pub const SCREEN_HEIGHT: usize = 192;

/// One pixel as the host wants it: the core's little-endian BGRA word
/// turned around to red, green, blue, and always opaque.
pub open spec fn rgba_of(pixel: u32) -> Seq<u8> {
    seq![
        ((pixel >> 16u32) & 0xffu32) as u8,
        ((pixel >> 8u32) & 0xffu32) as u8,
        (pixel & 0xffu32) as u8,
        0xffu8,
    ]
}

/// A run of pixels, each as its four RGBA bytes, in order.
pub open spec fn rgba_frame(pixels: Seq<u32>) -> Seq<u8>
    decreases pixels.len(),
{
    if pixels.len() == 0 {
        Seq::empty()
    } else {
        rgba_frame(pixels.drop_last()) + rgba_of(pixels.last())
    }
}

/// Four bytes a pixel.
pub proof fn lemma_rgba_frame_len(pixels: Seq<u32>)
    ensures
        rgba_frame(pixels).len() == 4 * pixels.len(),
    decreases pixels.len(),
{
    if pixels.len() > 0 {
        lemma_rgba_frame_len(pixels.drop_last());
    }
}

/// The bytes of pixel `i` sit at `4 * i`: a host can address a pixel
/// by its index alone.
pub proof fn law_frame_layout(pixels: Seq<u32>, i: int)
    requires
        0 <= i < pixels.len(),
    ensures
        rgba_frame(pixels).subrange(4 * i, 4 * i + 4) == rgba_of(pixels[i]),
    decreases pixels.len(),
{
    lemma_rgba_frame_len(pixels.drop_last());
    if i < pixels.len() - 1 {
        law_frame_layout(pixels.drop_last(), i);
        assert(rgba_frame(pixels).subrange(4 * i, 4 * i + 4) =~= rgba_frame(pixels.drop_last()).subrange(
            4 * i,
            4 * i + 4,
        ));
    } else {
        assert(rgba_frame(pixels).subrange(4 * i, 4 * i + 4) =~= rgba_of(pixels.last()));
    }
}

fn push_rgba(out: &mut Vec<u8>, pixel: u32)
    ensures
        final(out)@ == old(out)@ + rgba_of(pixel),
{
    let r = (pixel >> 16u32) & 0xffu32;
    let g = (pixel >> 8u32) & 0xffu32;
    let b = pixel & 0xffu32;
    assert(r < 256 && g < 256 && b < 256) by (bit_vector)
        requires
            r == (pixel >> 16u32) & 0xffu32,
            g == (pixel >> 8u32) & 0xffu32,
            b == pixel & 0xffu32,
    ;
    out.push(r as u8);
    out.push(g as u8);
    out.push(b as u8);
    out.push(0xffu8);
    assert(final(out)@ =~= old(out)@ + rgba_of(pixel)) by {
        assert(old(out)@.len() + 4 == out@.len());
    }
}

fn push_frame(out: &mut Vec<u8>, pixels: &[u32])
    ensures
        final(out)@ == old(out)@ + rgba_frame(pixels@),
{
    let mut i: usize = 0;
    while i < pixels.len()
        invariant
            i <= pixels@.len(),
            out@ == old(out)@ + rgba_frame(pixels@.take(i as int)),
        decreases pixels@.len() - i,
    {
        push_rgba(out, pixels[i]);
        assert(pixels@.take(i + 1).drop_last() =~= pixels@.take(i as int));
        assert(out@ =~= old(out)@ + rgba_frame(pixels@.take(i + 1)));
        i = i + 1;
    }
    assert(pixels@.take(i as int) =~= pixels@);
}

impl MelonDs {
    /// A frame for one player, as the host paints it: the top screen,
    /// then the bottom, each pixel the core's BGRA word as RGBA bytes.
    pub fn frame_rgba(top: &[u32], bottom: &[u32]) -> (r: Vec<u8>)
        ensures
            r@ == rgba_frame(top@) + rgba_frame(bottom@),
            r@.len() == 4 * (top@.len() + bottom@.len()),
    {
        let mut out: Vec<u8> = Vec::new();
        push_frame(&mut out, top);
        push_frame(&mut out, bottom);
        proof {
            lemma_rgba_frame_len(top@);
            lemma_rgba_frame_len(bottom@);
        }
        out
    }
}

} // verus!
