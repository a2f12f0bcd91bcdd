//! One held-buttons word, from touch, a keyboard and any number of
//! gamepads. The sources simply OR together and none has to know about
//! the others; the browser listeners and the gamepad poll feed this
//! state and the pump reads [`Held::joyflags`] each frame.
use vstd::prelude::*;
use crate::text::str_eq;

verus! {

/// One controller's contribution, split by what produced it: a stick
/// and a d-pad drive the same four direction bits, so centring the
/// stick must not release a d-pad direction that is still held.
#[derive(Clone, Copy, Debug, PartialEq, Eq)]
pub struct Pad {
    pub buttons: u32,
    pub axes: u32,
}

/// Where a stick points along one axis, once the host has judged its
/// travel against the threshold.
#[derive(Clone, Copy, Debug, PartialEq, Eq)]
pub enum Stick {
    Negative,
    Centre,
    Positive,
}

/// Everything held, by source: touch, the keyboard, each controller by
/// its id, and the stylus on a console with a touch screen.
pub struct Held {
    touch: u32,
    keyboard: u32,
    pads: Vec<(u64, Pad)>,
    stylus: Option<(u16, u16)>,
}

/// The controllers, by id.
pub open spec fn pads_map(s: Seq<(u64, Pad)>) -> Map<u64, Pad>
    decreases s.len(),
{
    if s.len() == 0 {
        Map::empty()
    } else {
        pads_map(s.drop_last()).insert(s.last().0, s.last().1)
    }
}

/// Every bit any controller holds.
pub open spec fn pads_or(s: Seq<(u64, Pad)>) -> u32
    decreases s.len(),
{
    if s.len() == 0 {
        0
    } else {
        pads_or(s.drop_last()) | s.last().1.buttons | s.last().1.axes
    }
}

pub open spec fn distinct_ids(s: Seq<(u64, Pad)>) -> bool {
    forall|i: int, j: int| 0 <= i < j < s.len() ==> (#[trigger] s[i]).0 != (#[trigger] s[j]).0
}

impl Held {
    pub closed spec fn touch_bits(&self) -> u32 {
        self.touch
    }

    pub closed spec fn keyboard_bits(&self) -> u32 {
        self.keyboard
    }

    /// Each controller's state, by id.
    pub closed spec fn pads(&self) -> Map<u64, Pad> {
        pads_map(self.pads@)
    }

    /// Every bit the controllers hold between them.
    pub closed spec fn pad_bits(&self) -> u32 {
        pads_or(self.pads@)
    }

    pub closed spec fn stylus_at(&self) -> Option<(u16, u16)> {
        self.stylus
    }

    /// Each controller is held once.
    pub closed spec fn wf(&self) -> bool {
        distinct_ids(self.pads@)
    }

    /// Nothing held.
    pub fn new() -> (h: Held)
        ensures
            h.wf(),
            h.touch_bits() == 0,
            h.keyboard_bits() == 0,
            h.pads() == Map::<u64, Pad>::empty(),
            h.pad_bits() == 0,
            h.stylus_at() is None,
    {
        Held { touch: 0, keyboard: 0, pads: Vec::new(), stylus: None }
    }

    /// Everything currently held, from any source.
    pub fn joyflags(&self) -> (r: u32)
        ensures
            r == self.touch_bits() | self.keyboard_bits() | self.pad_bits(),
    {
        let mut pads: u32 = 0;
        let mut i: usize = 0;
        while i < self.pads.len()
            invariant
                i <= self.pads@.len(),
                pads == pads_or(self.pads@.take(i as int)),
            decreases self.pads@.len() - i,
        {
            assert(self.pads@.take(i + 1).drop_last() =~= self.pads@.take(i as int));
            pads = pads | self.pads[i].1.buttons | self.pads[i].1.axes;
            i = i + 1;
        }
        assert(self.pads@.take(i as int) =~= self.pads@);
        self.touch | self.keyboard | pads
    }

    /// Replace the touch bits under `mask` with `bits`: the d-pad is one
    /// control, so a finger sliding across it rewrites the whole
    /// direction field at once; a plain button is the case where `mask`
    /// is that button.
    pub fn touch_set(&mut self, mask: u32, bits: u32)
        requires
            old(self).wf(),
        ensures
            final(self).wf(),
            final(self).touch_bits() == (old(self).touch_bits() & !mask) | bits,
            final(self).keyboard_bits() == old(self).keyboard_bits(),
            final(self).pads() == old(self).pads(),
            final(self).pad_bits() == old(self).pad_bits(),
            final(self).stylus_at() == old(self).stylus_at(),
    {
        self.touch = (self.touch & !mask) | bits;
    }

    /// Drop everything touch holds, stylus included: the screen the pad
    /// lives on went away mid-press.
    pub fn touch_clear(&mut self)
        requires
            old(self).wf(),
        ensures
            final(self).wf(),
            final(self).touch_bits() == 0,
            final(self).stylus_at() is None,
            final(self).keyboard_bits() == old(self).keyboard_bits(),
            final(self).pads() == old(self).pads(),
            final(self).pad_bits() == old(self).pad_bits(),
    {
        self.touch = 0;
        self.stylus = None;
    }

    /// Where the stylus is pressed, or `None` lifted.
    pub fn stylus(&self) -> (r: Option<(u16, u16)>)
        ensures
            r == self.stylus_at(),
    {
        self.stylus
    }

    /// Press, drag or lift the stylus.
    pub fn stylus_set(&mut self, at: Option<(u16, u16)>)
        requires
            old(self).wf(),
        ensures
            final(self).wf(),
            final(self).stylus_at() == at,
            final(self).touch_bits() == old(self).touch_bits(),
            final(self).keyboard_bits() == old(self).keyboard_bits(),
            final(self).pads() == old(self).pads(),
            final(self).pad_bits() == old(self).pad_bits(),
    {
        self.stylus = at;
    }

    /// A bound key went down. A repeat is no new press.
    pub fn key_down(&mut self, mask: u32, repeat: bool)
        requires
            old(self).wf(),
        ensures
            final(self).wf(),
            final(self).keyboard_bits() == if repeat {
                old(self).keyboard_bits()
            } else {
                old(self).keyboard_bits() | mask
            },
            final(self).touch_bits() == old(self).touch_bits(),
            final(self).pads() == old(self).pads(),
            final(self).pad_bits() == old(self).pad_bits(),
            final(self).stylus_at() == old(self).stylus_at(),
    {
        if !repeat {
            self.keyboard = self.keyboard | mask;
        }
    }

    /// A bound key came up: always honoured, so a key released after the
    /// session ended or after focus moved elsewhere does not stay held.
    pub fn key_up(&mut self, mask: u32)
        requires
            old(self).wf(),
        ensures
            final(self).wf(),
            final(self).keyboard_bits() == old(self).keyboard_bits() & !mask,
            final(self).touch_bits() == old(self).touch_bits(),
            final(self).pads() == old(self).pads(),
            final(self).pad_bits() == old(self).pad_bits(),
            final(self).stylus_at() == old(self).stylus_at(),
    {
        self.keyboard = self.keyboard & !mask;
    }

    /// The page lost focus: nothing typed or touched stays held.
    pub fn blur(&mut self)
        requires
            old(self).wf(),
        ensures
            final(self).wf(),
            final(self).keyboard_bits() == 0,
            final(self).touch_bits() == 0,
            final(self).stylus_at() is None,
            final(self).pads() == old(self).pads(),
            final(self).pad_bits() == old(self).pad_bits(),
    {
        self.keyboard = 0;
        self.touch_clear();
    }

    /// Forget every controller's held state.
    pub fn gamepads_clear(&mut self)
        requires
            old(self).wf(),
        ensures
            final(self).wf(),
            final(self).pads() == Map::<u64, Pad>::empty(),
            final(self).pad_bits() == 0,
            final(self).touch_bits() == old(self).touch_bits(),
            final(self).keyboard_bits() == old(self).keyboard_bits(),
            final(self).stylus_at() == old(self).stylus_at(),
    {
        self.pads = Vec::new();
    }
}


/// The state of controller `id`, or nothing held for one not seen yet.
pub open spec fn pad_of(pads: Map<u64, Pad>, id: u64) -> Pad {
    if pads.dom().contains(id) {
        pads[id]
    } else {
        Pad { buttons: 0, axes: 0 }
    }
}

/// The direction bits a stick holds along one axis.
pub open spec fn stick_bits(negative: u32, positive: u32, stick: Stick) -> u32 {
    match stick {
        Stick::Negative => negative,
        Stick::Centre => 0,
        Stick::Positive => positive,
    }
}

proof fn lemma_pads_map_at(s: Seq<(u64, Pad)>, i: int)
    requires
        distinct_ids(s),
        0 <= i < s.len(),
    ensures
        pads_map(s).dom().contains(s[i].0),
        pads_map(s)[s[i].0] == s[i].1,
    decreases s.len(),
{
    if i < s.len() - 1 {
        lemma_pads_map_at(s.drop_last(), i);
    }
}

proof fn lemma_pads_map_dom(s: Seq<(u64, Pad)>, id: u64)
    ensures
        pads_map(s).dom().contains(id) <==> exists|i: int| 0 <= i < s.len() && (#[trigger] s[i]).0 == id,
    decreases s.len(),
{
    if s.len() > 0 {
        lemma_pads_map_dom(s.drop_last(), id);
        if pads_map(s.drop_last()).dom().contains(id) {
            let i = choose|i: int| 0 <= i < s.drop_last().len() && (#[trigger] s.drop_last()[i]).0 == id;
            assert(s[i] == s.drop_last()[i]);
        }
        if exists|i: int| 0 <= i < s.len() && (#[trigger] s[i]).0 == id {
            let i = choose|i: int| 0 <= i < s.len() && (#[trigger] s[i]).0 == id;
            if i < s.len() - 1 {
                assert(s.drop_last()[i] == s[i]);
            }
        }
    }
}

proof fn lemma_pads_map_update(s: Seq<(u64, Pad)>, i: int, p: Pad)
    requires
        distinct_ids(s),
        0 <= i < s.len(),
    ensures
        pads_map(s.update(i, (s[i].0, p))) == pads_map(s).insert(s[i].0, p),
    decreases s.len(),
{
    let u = s.update(i, (s[i].0, p));
    if i == s.len() - 1 {
        assert(u.drop_last() =~= s.drop_last());
        lemma_pads_map_dom(s.drop_last(), s[i].0);
        assert(pads_map(u) =~= pads_map(s).insert(s[i].0, p));
    } else {
        lemma_pads_map_update(s.drop_last(), i, p);
        assert(u.drop_last() =~= s.drop_last().update(i, (s[i].0, p)));
        assert(s.last().0 != s[i].0);
        assert(pads_map(u) =~= pads_map(s).insert(s[i].0, p));
    }
}

proof fn lemma_pads_map_remove(s: Seq<(u64, Pad)>, i: int)
    requires
        distinct_ids(s),
        0 <= i < s.len(),
    ensures
        pads_map(s.remove(i)) == pads_map(s).remove(s[i].0),
        distinct_ids(s.remove(i)),
    decreases s.len(),
{
    let r = s.remove(i);
    if i == s.len() - 1 {
        assert(r =~= s.drop_last());
        lemma_pads_map_dom(s.drop_last(), s[i].0);
        assert(pads_map(r) =~= pads_map(s).remove(s[i].0));
    } else {
        lemma_pads_map_remove(s.drop_last(), i);
        assert(r.drop_last() =~= s.drop_last().remove(i));
        assert(r.last() == s.last());
        assert(s.last().0 != s[i].0);
        assert(pads_map(r) =~= pads_map(s).remove(s[i].0));
    }
}

impl Held {
    fn find_pad(&self, id: u64) -> (r: Option<usize>)
        requires
            self.wf(),
        ensures
            match r {
                Some(i) => i < self.pads@.len() && self.pads@[i as int].0 == id,
                None => !self.pads().dom().contains(id),
            },
    {
        let mut i: usize = 0;
        while i < self.pads.len()
            invariant
                i <= self.pads@.len(),
                forall|j: int| 0 <= j < i ==> (#[trigger] self.pads@[j]).0 != id,
            decreases self.pads@.len() - i,
        {
            if self.pads[i].0 == id {
                return Some(i);
            }
            i = i + 1;
        }
        proof {
            lemma_pads_map_dom(self.pads@, id);
        }
        None
    }

    /// Put `p` as the state of controller `id`.
    fn set_pad(&mut self, id: u64, p: Pad)
        requires
            old(self).wf(),
        ensures
            final(self).wf(),
            final(self).pads() == old(self).pads().insert(id, p),
            final(self).touch_bits() == old(self).touch_bits(),
            final(self).keyboard_bits() == old(self).keyboard_bits(),
            final(self).stylus_at() == old(self).stylus_at(),
    {
        match self.find_pad(id) {
            Some(i) => {
                proof {
                    lemma_pads_map_update(self.pads@, i as int, p);
                }
                let ghost old_pads = self.pads@;
                let mut pads: Vec<(u64, Pad)> = Vec::new();
                std::mem::swap(&mut pads, &mut self.pads);
                pads.set(i, (id, p));
                assert(pads@ =~= old_pads.update(i as int, (old_pads[i as int].0, p)));
                assert forall|a: int, b: int| 0 <= a < b < pads@.len() implies (#[trigger] pads@[a]).0
                    != (#[trigger] pads@[b]).0 by {
                    assert(old_pads[a].0 == pads@[a].0 && old_pads[b].0 == pads@[b].0);
                }
                self.pads = pads;
            },
            None => {
                let ghost old_pads = self.pads@;
                proof {
                    lemma_pads_map_dom(old_pads, id);
                }
                let mut pads: Vec<(u64, Pad)> = Vec::new();
                std::mem::swap(&mut pads, &mut self.pads);
                pads.push((id, p));
                assert(pads@.drop_last() =~= old_pads);
                assert forall|a: int, b: int| 0 <= a < b < pads@.len() implies (#[trigger] pads@[a]).0
                    != (#[trigger] pads@[b]).0 by {
                    if b == old_pads.len() {
                        assert(pads@[a] == old_pads[a]);
                    } else {
                        assert(pads@[a] == old_pads[a] && pads@[b] == old_pads[b]);
                    }
                }
                self.pads = pads;
            },
        }
    }

    /// The state of controller `id`, nothing held for one not seen yet.
    pub fn pad(&self, id: u64) -> (r: Pad)
        requires
            self.wf(),
        ensures
            r == pad_of(self.pads(), id),
    {
        match self.find_pad(id) {
            Some(i) => {
                proof {
                    lemma_pads_map_at(self.pads@, i as int);
                }
                self.pads[i].1
            },
            None => Pad { buttons: 0, axes: 0 },
        }
    }

    /// A controller turned up; one already known keeps what it holds.
    pub fn pad_connected(&mut self, id: u64)
        requires
            old(self).wf(),
        ensures
            final(self).wf(),
            final(self).pads() == if old(self).pads().dom().contains(id) {
                old(self).pads()
            } else {
                old(self).pads().insert(id, Pad { buttons: 0, axes: 0 })
            },
            final(self).touch_bits() == old(self).touch_bits(),
            final(self).keyboard_bits() == old(self).keyboard_bits(),
            final(self).stylus_at() == old(self).stylus_at(),
    {
        let p = self.pad(id);
        self.set_pad(id, p);
        assert(self.pads() =~= if old(self).pads().dom().contains(id) {
            old(self).pads()
        } else {
            old(self).pads().insert(id, Pad { buttons: 0, axes: 0 })
        });
    }

    /// A controller went away: what it was holding is dropped rather than
    /// folded into every later frame.
    pub fn pad_disconnected(&mut self, id: u64)
        requires
            old(self).wf(),
        ensures
            final(self).wf(),
            final(self).pads() == old(self).pads().remove(id),
            final(self).touch_bits() == old(self).touch_bits(),
            final(self).keyboard_bits() == old(self).keyboard_bits(),
            final(self).stylus_at() == old(self).stylus_at(),
    {
        match self.find_pad(id) {
            Some(i) => {
                proof {
                    lemma_pads_map_remove(self.pads@, i as int);
                }
                let ghost old_pads = self.pads@;
                let mut pads: Vec<(u64, Pad)> = Vec::new();
                std::mem::swap(&mut pads, &mut self.pads);
                pads.remove(i);
                assert(pads@ =~= old_pads.remove(i as int));
                self.pads = pads;
            },
            None => {
                assert(old(self).pads().remove(id) =~= old(self).pads());
            },
        }
    }

    /// A bound button on controller `id` went down or up.
    pub fn pad_button(&mut self, id: u64, mask: u32, down: bool)
        requires
            old(self).wf(),
        ensures
            final(self).wf(),
            ({
                let p = pad_of(old(self).pads(), id);
                final(self).pads() == old(self).pads().insert(
                    id,
                    Pad {
                        buttons: if down {
                            p.buttons | mask
                        } else {
                            p.buttons & !mask
                        },
                        axes: p.axes,
                    },
                )
            }),
            final(self).touch_bits() == old(self).touch_bits(),
            final(self).keyboard_bits() == old(self).keyboard_bits(),
            final(self).stylus_at() == old(self).stylus_at(),
    {
        let p = self.pad(id);
        let buttons = if down {
            p.buttons | mask
        } else {
            p.buttons & !mask
        };
        self.set_pad(id, Pad { buttons, axes: p.axes });
    }

    /// Controller `id`'s stick moved along the axis whose directions are
    /// `negative` and `positive`: those bits now say where it points, and
    /// its buttons, the d-pad among them, are left as they are.
    pub fn pad_axis(&mut self, id: u64, negative: u32, positive: u32, stick: Stick)
        requires
            old(self).wf(),
        ensures
            final(self).wf(),
            final(self).pads() == after_axis(old(self).pads(), id, negative, positive, stick),
            final(self).touch_bits() == old(self).touch_bits(),
            final(self).keyboard_bits() == old(self).keyboard_bits(),
            final(self).stylus_at() == old(self).stylus_at(),
    {
        let p = self.pad(id);
        let dir = match stick {
            Stick::Negative => negative,
            Stick::Centre => 0,
            Stick::Positive => positive,
        };
        self.set_pad(id, Pad { buttons: p.buttons, axes: (p.axes & !(negative | positive)) | dir });
    }
}


/// The controllers once controller `id`'s stick moved along the axis of
/// `negative` and `positive`.
pub open spec fn after_axis(pads: Map<u64, Pad>, id: u64, negative: u32, positive: u32, stick: Stick) -> Map<u64, Pad> {
    let p = pad_of(pads, id);
    pads.insert(
        id,
        Pad { buttons: p.buttons, axes: (p.axes & !(negative | positive)) | stick_bits(negative, positive, stick) },
    )
}

/// Whether bit `k` of `x` is set.
pub open spec fn has_bit(x: u32, k: u32) -> bool {
    (x >> k) & 1u32 == 1u32
}

proof fn lemma_bit_or(a: u32, b: u32, c: u32, k: u32)
    requires
        k < 32,
    ensures
        has_bit(a | b | c, k) == (has_bit(a, k) || has_bit(b, k) || has_bit(c, k)),
        !has_bit(0u32, k),
{
    assert(((a | b | c) >> k) & 1u32 == 1u32 <==> ((a >> k) & 1u32 == 1u32 || (b >> k) & 1u32 == 1u32 || (c >> k)
        & 1u32 == 1u32)) by (bit_vector)
        requires
            k < 32,
    ;
    assert((0u32 >> k) & 1u32 != 1u32) by (bit_vector);
}

proof fn lemma_pads_or_bits(s: Seq<(u64, Pad)>, k: u32)
    requires
        k < 32,
    ensures
        has_bit(pads_or(s), k) <==> exists|i: int|
            0 <= i < s.len() && (has_bit((#[trigger] s[i]).1.buttons, k) || has_bit(s[i].1.axes, k)),
    decreases s.len(),
{
    if s.len() == 0 {
        lemma_bit_or(0, 0, 0, k);
    } else {
        let d = s.drop_last();
        lemma_pads_or_bits(d, k);
        lemma_bit_or(pads_or(d), s.last().1.buttons, s.last().1.axes, k);
        if exists|i: int| 0 <= i < d.len() && (has_bit((#[trigger] d[i]).1.buttons, k) || has_bit(d[i].1.axes, k)) {
            let i = choose|i: int| 0 <= i < d.len() && (has_bit((#[trigger] d[i]).1.buttons, k) || has_bit(d[i].1.axes, k));
            assert(s[i] == d[i]);
        }
        if exists|i: int| 0 <= i < s.len() && (has_bit((#[trigger] s[i]).1.buttons, k) || has_bit(s[i].1.axes, k)) {
            let i = choose|i: int| 0 <= i < s.len() && (has_bit((#[trigger] s[i]).1.buttons, k) || has_bit(s[i].1.axes, k));
            if i < s.len() - 1 {
                assert(d[i] == s[i]);
            }
        }
    }
}

/// The controllers' share of the word holds exactly the bits some
/// connected controller holds, by button or by stick.
pub proof fn law_pad_bits_are_the_pads(h: &Held, k: u32)
    requires
        h.wf(),
        k < 32,
    ensures
        has_bit(h.pad_bits(), k) <==> exists|id: u64|
            h.pads().dom().contains(id) && (has_bit(#[trigger] h.pads()[id].buttons, k) || has_bit(h.pads()[id].axes, k)),
{
    let s = h.pads@;
    lemma_pads_or_bits(s, k);
    if has_bit(h.pad_bits(), k) {
        let i = choose|i: int| 0 <= i < s.len() && (has_bit((#[trigger] s[i]).1.buttons, k) || has_bit(s[i].1.axes, k));
        lemma_pads_map_at(s, i);
        assert(h.pads().dom().contains(s[i].0) && h.pads()[s[i].0] == s[i].1);
    }
    if !has_bit(h.pad_bits(), k) {
        assert forall|id: u64| h.pads().dom().contains(id) implies !(has_bit(#[trigger] h.pads()[id].buttons, k)
            || has_bit(h.pads()[id].axes, k)) by {
            lemma_pads_map_dom(s, id);
            let i = choose|i: int| 0 <= i < s.len() && (#[trigger] s[i]).0 == id;
            lemma_pads_map_at(s, i);
            assert(!(has_bit(s[i].1.buttons, k) || has_bit(s[i].1.axes, k)));
        }
    }
}

/// Moving a stick, centring it included, never releases a button the
/// same controller still holds: a d-pad direction held while the stick
/// springs back stays in the word.
pub proof fn law_a_stick_never_releases_a_held_button(
    before: &Held,
    after: &Held,
    id: u64,
    negative: u32,
    positive: u32,
    stick: Stick,
    k: u32,
)
    requires
        after.wf(),
        k < 32,
        after.pads() == after_axis(before.pads(), id, negative, positive, stick),
        has_bit(pad_of(before.pads(), id).buttons, k),
    ensures
        has_bit(after.pad_bits(), k),
{
    law_pad_bits_are_the_pads(after, k);
    assert(after.pads().dom().contains(id));
    assert(has_bit(after.pads()[id].buttons, k));
}

/// Whether a key event is the game's rather than the page's: only while
/// something is running, never for a shortcut (Shift alone is none), and
/// never while someone types into a field. `target_tag` is the tag of
/// the element the event is aimed at, `None` when it is aimed at no
/// element.
pub fn is_for_the_game(running: bool, ctrl: bool, meta: bool, alt: bool, target_tag: Option<&str>) -> (r: bool)
    ensures
        r == (running && !ctrl && !meta && !alt && match target_tag {
            Some(t) => t@ != "INPUT"@ && t@ != "TEXTAREA"@ && t@ != "SELECT"@,
            None => true,
        }),
{
    if !running {
        return false;
    }
    if ctrl || meta || alt {
        return false;
    }
    match target_tag {
        None => true,
        Some(t) => !(str_eq(t, "INPUT") || str_eq(t, "TEXTAREA") || str_eq(t, "SELECT")),
    }
}

} // verus!
