//! The replay index's plain facts.
use vstd::prelude::*;
use crate::paths::{StorePath, CompView, render, strip_prefix_spec};
use crate::text::{chars_of, string_from_chars, push_all};
use crate::order::{lex_lt, str_lt, lemma_lex_irreflexive, lemma_lex_transitive};

verus! {

/// What a full decode of a replay tells about it.
#[derive(Clone, Copy, Debug)]
pub struct ReplayStats {
    /// One tick per recorded input pair.
    pub tick_count: u32,
    /// Rounds the recorded match got through, once someone has
    /// re-simulated it; never filled in from the recording alone.
    pub round_count: Option<u32>,
    /// Whether the recorded stream ended with its end marker.
    pub is_complete: bool,
}

/// A replay's path below the replays root, written between slashes, or
/// `/` for the root itself.
pub open spec fn rel_path_text(replays_path: Seq<CompView>, path: Seq<CompView>) -> Seq<char> {
    let s = match strip_prefix_spec(path, replays_path) {
        Some(rel) => render(rel),
        None => render(path),
    };
    if s.len() == 0 {
        seq!['/']
    } else {
        seq!['/'] + s + seq!['/']
    }
}

/// Pretty path relative to the replays root.
pub fn format_rel_path(replays_path: &StorePath, path: &StorePath) -> (r: String)
    ensures
        r@ == rel_path_text(replays_path@, path@),
{
    let text = match path.strip_prefix(replays_path) {
        Some(rel) => rel.to_string(),
        None => path.to_string(),
    };
    let s = chars_of(text.as_str());
    let mut out: Vec<char> = Vec::new();
    out.push('/');
    if s.len() > 0 {
        push_all(&mut out, s.as_slice());
        out.push('/');
    }
    assert(out@ =~= rel_path_text(replays_path@, path@));
    string_from_chars(out)
}

/// What the replay index keeps of a recording's header: where it is, the
/// recorder's player slot, when the match was, and its link code.
#[derive(Debug, PartialEq, Eq)]
pub struct ReplayHeader {
    pub path: StorePath,
    /// The recorder's player slot: picks the "you" side out of the
    /// player-ordered sides.
    pub local_player_index: u8,
    /// Milliseconds since the epoch, from the match clock.
    pub ts: u64,
    pub link_code: String,
}

impl View for ReplayHeader {
    type V = (Seq<CompView>, u8, u64, Seq<char>);

    open spec fn view(&self) -> (Seq<CompView>, u8, u64, Seq<char>) {
        (self.path@, self.local_player_index, self.ts, self.link_code@)
    }
}

pub open spec fn headers_view(v: Seq<ReplayHeader>) -> Seq<(Seq<CompView>, u8, u64, Seq<char>)> {
    Seq::new(v.len(), |i: int| v[i]@)
}

/// The index's order: newest first, the link code breaking ties.
pub open spec fn listed_before(a: (Seq<CompView>, u8, u64, Seq<char>), b: (Seq<CompView>, u8, u64, Seq<char>)) -> bool {
    a.2 > b.2 || (a.2 == b.2 && lex_lt(a.3, b.3))
}

pub open spec fn index_sorted(s: Seq<(Seq<CompView>, u8, u64, Seq<char>)>) -> bool {
    forall|i: int, j: int| 0 <= i < j < s.len() ==> !listed_before(#[trigger] s[j], #[trigger] s[i])
}

/// The headers of the recordings whose game can be re-simulated, in the
/// order they were read.
pub open spec fn playable_headers(found: Seq<(ReplayHeader, bool)>) -> Seq<(Seq<CompView>, u8, u64, Seq<char>)>
    decreases found.len(),
{
    if found.len() == 0 {
        Seq::empty()
    } else {
        let rest = playable_headers(found.drop_last());
        if found.last().1 {
            rest.push(found.last().0@)
        } else {
            rest
        }
    }
}

fn before(a: &ReplayHeader, b: &ReplayHeader) -> (r: bool)
    ensures
        r == listed_before(a@, b@),
{
    a.ts > b.ts || (a.ts == b.ts && str_lt(a.link_code.as_str(), b.link_code.as_str()))
}

proof fn lemma_listed_transitive(
    a: (Seq<CompView>, u8, u64, Seq<char>),
    b: (Seq<CompView>, u8, u64, Seq<char>),
    c: (Seq<CompView>, u8, u64, Seq<char>),
)
    requires
        listed_before(a, b),
        listed_before(b, c),
    ensures
        listed_before(a, c),
{
    if a.2 == b.2 && b.2 == c.2 {
        lemma_lex_transitive(a.3, b.3, c.3);
    }
}

proof fn lemma_listed_irreflexive(a: (Seq<CompView>, u8, u64, Seq<char>))
    ensures
        !listed_before(a, a),
{
    lemma_lex_irreflexive(a.3);
}

/// Build the replay index from the headers read: each header with
/// whether its recording's game can be re-simulated here (a recording
/// with no game recorded counts as playable). The unplayable are hidden,
/// and the rest listed newest first, the link code breaking ties;
/// recordings tied on both keep the order they were read in.
pub fn scan_replays(found: Vec<(ReplayHeader, bool)>) -> (r: Vec<ReplayHeader>)
    ensures
        index_sorted(headers_view(r@)),
        headers_view(r@).to_multiset() == playable_headers(found@).to_multiset(),
{
    let mut out: Vec<ReplayHeader> = Vec::new();
    let mut i: usize = 0;
    let ghost all = found@;
    let n = found.len();
    assert(all.len() == n);
    let mut rest = found;
    assert(headers_view(out@) =~= playable_headers(all.take(0)));
    while rest.len() > 0
        invariant
            i <= all.len(),
            all.len() <= usize::MAX,
            rest@ == all.skip(i as int),
            index_sorted(headers_view(out@)),
            headers_view(out@).to_multiset() == playable_headers(all.take(i as int)).to_multiset(),
        decreases rest@.len(),
    {
        let (h, playable) = rest.remove(0);
        let ghost t = all.take(i + 1);
        assert(t.drop_last() =~= all.take(i as int));
        assert(t.last() == all[i as int]);
        assert(all.skip(i as int)[0] == all[i as int]);
        assert(rest@ =~= all.skip(i + 1));
        if playable {
            let ghost hv = h@;
            let ghost s = headers_view(out@);
            let mut j: usize = 0;
            let mut done = false;
            while !done && j < out.len()
                invariant
                    j <= out@.len(),
                    s == headers_view(out@),
                    forall|k: int| 0 <= k < j ==> !listed_before(hv, #[trigger] s[k]),
                    done ==> j < s.len() && listed_before(hv, s[j as int]),
                    h@ == hv,
                decreases out@.len() + 1 - j - (if done { 1int } else { 0int }),
            {
                if before(&h, &out[j]) {
                    done = true;
                } else {
                    j = j + 1;
                }
            }
            out.insert(j, h);
            proof {
                let n = s.insert(j as int, hv);
                assert(headers_view(out@) =~= n);
                s.insert_ensures(j as int, hv);
                vstd::seq_lib::to_multiset_insert(s, j as int, hv);
                vstd::seq_lib::to_multiset_build(playable_headers(all.take(i as int)), hv);
                assert forall|a: int, b: int| 0 <= a < b < n.len() implies !listed_before(#[trigger] n[b], #[trigger] n[a]) by {
                    if b < j {
                        assert(n[a] == s[a] && n[b] == s[b]);
                    } else if b == j {
                        assert(n[a] == s[a]);
                    } else if a == j {
                        assert(n[b] == s[b - 1]);
                        if listed_before(s[b - 1], hv) {
                            assert(done);
                            lemma_listed_transitive(s[b - 1], hv, s[j as int]);
                            if b - 1 == j {
                                lemma_listed_irreflexive(s[j as int]);
                            }
                        }
                    } else if a < j {
                        assert(n[a] == s[a] && n[b] == s[b - 1]);
                    } else {
                        assert(n[a] == s[a - 1] && n[b] == s[b - 1]);
                    }
                }
            }
        }
        i = i + 1;
    }
    assert(all.take(i as int) =~= all);
    out
}

} // verus!
