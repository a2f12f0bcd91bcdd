//! Where a replay's cached match stats are kept.
use vstd::prelude::*;
use crate::paths::{StorePath, CompView, components, render, push_text, push_chars, strip_prefix_spec, file_name_spec};
use crate::text::{chars_of, string_from_chars, push_all};

verus! {

pub open spec fn replay_stats_dir() -> Seq<char> {
    seq!['r', 'e', 'p', 'l', 'a', 'y', '-', 's', 't', 'a', 't', 's']
}

pub open spec fn stats_suffix() -> Seq<char> {
    seq!['.', 's', 't', 'a', 't', 's']
}

/// The text a replay is keyed by under the cache: its path below the
/// replays root, or just its file name when it is not under the root.
pub open spec fn stats_key(replays_path: Seq<CompView>, replay_path: Seq<CompView>) -> Seq<char> {
    match strip_prefix_spec(replay_path, replays_path) {
        Some(rel) => render(rel),
        None => match file_name_spec(replay_path) {
            Some(name) => name,
            None => Seq::empty(),
        },
    }
}

/// Where a replay's cached match stats live: the replay's path relative to
/// the replays root, mirrored under `<cache>/replay-stats/` with `.stats`
/// appended — not beside the replay, so the replays folder stays clean.
pub fn stats_path(cache_path: &StorePath, replays_path: &StorePath, replay_path: &StorePath) -> (r: StorePath)
    ensures
        r@ == components(
            push_text(push_text(render(cache_path@), replay_stats_dir()), stats_key(replays_path@, replay_path@))
                + stats_suffix(),
        ),
{
    let rel: Vec<char> = match replay_path.strip_prefix(replays_path) {
        Some(p) => {
            let s = p.to_string();
            chars_of(s.as_str())
        },
        None => match replay_path.file_name() {
            Some(n) => chars_of(n.as_str()),
            None => Vec::new(),
        },
    };
    let cache_text = cache_path.to_string();
    let base = chars_of(cache_text.as_str());
    let dir = vec!['r', 'e', 'p', 'l', 'a', 'y', '-', 's', 't', 'a', 't', 's'];
    assert(dir@ =~= replay_stats_dir());
    let with_dir = push_chars(&base, &dir);
    let mut full = push_chars(&with_dir, &rel);
    let suffix = vec!['.', 's', 't', 'a', 't', 's'];
    assert(suffix@ =~= stats_suffix());
    push_all(&mut full, suffix.as_slice());
    let text = string_from_chars(full);
    StorePath::parse(text.as_str())
}

} // verus!
