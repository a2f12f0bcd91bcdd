//! Where ROMs are found.
use vstd::prelude::*;
use crate::paths::{StorePath, CompView};
use crate::loadout::{GameId, same_game};

verus! {

pub open spec fn paths_view(v: Seq<StorePath>) -> Seq<Seq<CompView>> {
    Seq::new(v.len(), |i: int| v[i]@)
}

/// Everything a ROM scan reads: the configured ROMs directory, then the
/// installed ROM archives the host found (none where it has no such
/// install).
pub fn scan_roots(roms_path: &StorePath, archives: &[StorePath]) -> (r: Vec<StorePath>)
    ensures
        paths_view(r@) == seq![roms_path@] + paths_view(archives@),
{
    let mut roots: Vec<StorePath> = Vec::new();
    roots.push(roms_path.copy());
    let mut i: usize = 0;
    while i < archives.len()
        invariant
            i <= archives@.len(),
            paths_view(roots@) == seq![roms_path@] + paths_view(archives@).take(i as int),
        decreases archives@.len() - i,
    {
        let ghost before = roots@;
        roots.push(archives[i].copy());
        assert(paths_view(roots@) =~= paths_view(before).push(archives@[i as int]@));
        i = i + 1;
        assert(paths_view(roots@) =~= seq![roms_path@] + paths_view(archives@).take(i as int));
    }
    assert(paths_view(archives@).take(i as int) =~= paths_view(archives@));
    roots
}

/// The ROMs found, by game: a later image of a game replaces an earlier.
pub open spec fn roms_by_game(found: Seq<(GameId, Vec<u8>)>) -> Map<(Seq<char>, u8), Seq<u8>>
    decreases found.len(),
{
    if found.len() == 0 {
        Map::empty()
    } else {
        roms_by_game(found.drop_last()).insert(found.last().0@, found.last().1@)
    }
}

pub open spec fn distinct_games(r: Seq<(GameId, Vec<u8>)>) -> bool {
    forall|i: int, j: int| 0 <= i < j < r.len() ==> (#[trigger] r[i]).0@ != (#[trigger] r[j]).0@
}

proof fn lemma_roms_dom(s: Seq<(GameId, Vec<u8>)>, g: (Seq<char>, u8))
    ensures
        roms_by_game(s).dom().contains(g) <==> exists|i: int| 0 <= i < s.len() && (#[trigger] s[i]).0@ == g,
    decreases s.len(),
{
    if s.len() > 0 {
        lemma_roms_dom(s.drop_last(), g);
        if roms_by_game(s.drop_last()).dom().contains(g) {
            let i = choose|i: int| 0 <= i < s.drop_last().len() && (#[trigger] s.drop_last()[i]).0@ == g;
            assert(s[i] == s.drop_last()[i]);
        }
        if exists|i: int| 0 <= i < s.len() && (#[trigger] s[i]).0@ == g {
            let i = choose|i: int| 0 <= i < s.len() && (#[trigger] s[i]).0@ == g;
            if i < s.len() - 1 {
                assert(s.drop_last()[i] == s[i]);
            }
        }
    }
}

proof fn lemma_roms_update(s: Seq<(GameId, Vec<u8>)>, i: int, x: (GameId, Vec<u8>))
    requires
        distinct_games(s),
        0 <= i < s.len(),
        x.0@ == s[i].0@,
    ensures
        roms_by_game(s.update(i, x)) == roms_by_game(s).insert(x.0@, x.1@),
        distinct_games(s.update(i, x)),
    decreases s.len(),
{
    let u = s.update(i, x);
    assert forall|a: int, b: int| 0 <= a < b < u.len() implies (#[trigger] u[a]).0@ != (#[trigger] u[b]).0@ by {
        assert(u[a].0@ == s[a].0@ && u[b].0@ == s[b].0@);
    }
    if i == s.len() - 1 {
        assert(u.drop_last() =~= s.drop_last());
        lemma_roms_dom(s.drop_last(), x.0@);
        assert(roms_by_game(u) =~= roms_by_game(s).insert(x.0@, x.1@));
    } else {
        assert(u.drop_last() =~= s.drop_last().update(i, x));
        assert forall|a: int, b: int| 0 <= a < b < s.drop_last().len() implies (#[trigger] s.drop_last()[a]).0@
            != (#[trigger] s.drop_last()[b]).0@ by {
            assert(s.drop_last()[a] == s[a] && s.drop_last()[b] == s[b]);
        }
        lemma_roms_update(s.drop_last(), i, x);
        assert(s.last().0@ != x.0@);
        assert(roms_by_game(u) =~= roms_by_game(s).insert(x.0@, x.1@));
    }
}

/// File the ROMs a scan detected, in listing order, one per game: a later
/// image of a game replaces an earlier one.
pub fn file_roms(found: Vec<(GameId, Vec<u8>)>) -> (r: Vec<(GameId, Vec<u8>)>)
    ensures
        distinct_games(r@),
        roms_by_game(r@) == roms_by_game(found@),
{
    let mut out: Vec<(GameId, Vec<u8>)> = Vec::new();
    let mut rest = found;
    let ghost all = rest@;
    let n = rest.len();
    let mut k: usize = 0;
    assert(roms_by_game(out@) =~= roms_by_game(all.take(0)));
    while rest.len() > 0
        invariant
            all.len() == n,
            k + rest@.len() == n,
            rest@ == all.skip(k as int),
            distinct_games(out@),
            roms_by_game(out@) == roms_by_game(all.take(k as int)),
        decreases rest@.len(),
    {
        let x = rest.remove(0);
        assert(x == all[k as int]);
        assert(rest@ =~= all.skip(k + 1));
        let ghost t = all.take(k + 1);
        assert(t.drop_last() =~= all.take(k as int));
        assert(t.last() == x);
        let mut j: usize = 0;
        let mut found = false;
        while !found && j < out.len()
            invariant
                j <= out@.len(),
                forall|a: int| 0 <= a < j ==> (#[trigger] out@[a]).0@ != x.0@,
                found ==> j < out@.len() && out@[j as int].0@ == x.0@,
            decreases out@.len() + 1 - j - (if found { 1int } else { 0int }),
        {
            if same_game(&out[j].0, &x.0) {
                found = true;
            } else {
                j = j + 1;
            }
        }
        if found {
            let ghost o = out@;
            proof {
                lemma_roms_update(o, j as int, x);
            }
            out.set(j, x);
            assert(out@ =~= o.update(j as int, x));
        } else {
            let ghost o = out@;
            proof {
                lemma_roms_dom(o, x.0@);
            }
            out.push(x);
            assert(out@.drop_last() =~= o);
            assert forall|a: int, b: int| 0 <= a < b < out@.len() implies (#[trigger] out@[a]).0@ != (#[trigger] out@[b]).0@ by {
                assert(out@[a] == o[a]);
                if b < o.len() {
                    assert(out@[b] == o[b]);
                }
            }
        }
        k = k + 1;
    }
    assert(all.take(k as int) =~= all);
    out
}

/// In a scan without a game twice, a game's entry is its image by game.
proof fn lemma_roms_at(s: Seq<(GameId, Vec<u8>)>, i: int)
    requires
        distinct_games(s),
        0 <= i < s.len(),
    ensures
        roms_by_game(s).contains_key(s[i].0@),
        roms_by_game(s)[s[i].0@] == s[i].1@,
    decreases s.len(),
{
    if i < s.len() - 1 {
        let d = s.drop_last();
        assert(d[i] == s[i]);
        assert forall|a: int, b: int| 0 <= a < b < d.len() implies (#[trigger] d[a]).0@ != (#[trigger] d[b]).0@ by {
            assert(d[a] == s[a] && d[b] == s[b]);
        }
        lemma_roms_at(d, i);
        assert(s.last().0@ != s[i].0@);
    }
}

/// Why a ROM could not be loaded.
#[derive(Debug)]
pub enum LoadError {
    /// The library holds no image of the game.
    MissingRom { family: String, variant: u8 },
    /// The selected patch could not be applied, for the reason given.
    Patch { name: String, version: semver::Version, message: String },
}

/// The scanned clean image of `game`, from a scan that holds each game
/// once (as [`file_roms`] files them).
pub fn clean_rom(roms: &[(GameId, Vec<u8>)], game: &GameId) -> (r: Result<Vec<u8>, LoadError>)
    requires
        distinct_games(roms@),
    ensures
        match r {
            Ok(b) => roms_by_game(roms@).contains_key(game@) && b@ == roms_by_game(roms@)[game@],
            Err(e) => !roms_by_game(roms@).contains_key(game@) && (e matches LoadError::MissingRom { family, variant }
                && family@ == game.family@ && variant == game.variant),
        },
{
    let mut j: usize = 0;
    while j < roms.len()
        invariant
            j <= roms@.len(),
            distinct_games(roms@),
            forall|a: int| 0 <= a < j ==> (#[trigger] roms@[a]).0@ != game@,
        decreases roms@.len() - j,
    {
        if same_game(&roms[j].0, game) {
            proof {
                lemma_roms_at(roms@, j as int);
            }
            return Ok(crate::storage::slice_to_vec(roms[j].1.as_slice()));
        }
        j = j + 1;
    }
    proof {
        lemma_roms_dom(roms@, game@);
    }
    Err(LoadError::MissingRom { family: game.family.clone(), variant: game.variant })
}

/// The ROM a launch boots when the patch `name version` is selected: what
/// applying that patch to the clean image gave (`applied`), and never the
/// clean image itself; a patch that is not installed, or does not apply,
/// fails the load.
pub fn patched_rom(name: &str, version: &semver::Version, applied: Result<Vec<u8>, String>) -> (r: Result<
    Vec<u8>,
    LoadError,
>)
    ensures
        match applied {
            Ok(b) => r == Ok::<Vec<u8>, LoadError>(b),
            Err(m) => r matches Err(LoadError::Patch { name: n, version: v, message }) && n@ == name@ && v == *version
                && message@ == m@,
        },
{
    match applied {
        Ok(b) => Ok(b),
        Err(m) => Err(
            LoadError::Patch {
                name: crate::text::string_from_chars(crate::text::chars_of(name)),
                version: crate::lobby::protocol::clone_version(version),
                message: m,
            },
        ),
    }
}

} // verus!
