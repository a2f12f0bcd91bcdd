//! The browser library's own file rules: where an imported ROM or save
//! is stored. Which game the bytes are is detected by the game support
//! crates before these run.
use vstd::prelude::*;
use crate::config::{Config, memo, memo_insert};
use crate::loadout::{
    GameId, LibraryIndex, PatchOffer, PatchVersions, copy_game, games_view, paths_of, saves_of, holds_name, installed, newest, offered,
    patch_names_for, picked_before, supports_any, versions_view,
};
use crate::paths::{StorePath, CompView, components, join_spec, file_name_spec, stem_of};
use crate::storage::Storage;
use crate::text::{chars_of, string_from_chars, push_all, decimal, decimal_spec};
use crate::web::loadout::OpenLibrary;
use crate::loadout::selection::{Selection, opt_text, memo_str, patch_memory, persisted_save_memo, persisted_patch_memo};
use crate::lobby::protocol::{clone_version, version_eq};
use crate::text::str_eq;

verus! {

/// `family-variant`, the prefix every stored file of a game carries.
pub open spec fn game_prefix(g: (Seq<char>, u8)) -> Seq<char> {
    g.0 + seq!['-'] + decimal_spec(g.1 as nat)
}

/// The stem an imported save keeps of the file the user picked: the
/// picked file's own stem, or `save` when it has none.
pub open spec fn picked_stem(file_name: Seq<char>) -> Seq<char> {
    match file_name_spec(components(file_name)) {
        Some(n) => stem_of(n),
        None => seq!['s', 'a', 'v', 'e'],
    }
}

/// Where an imported save of `g` is stored: `saves/family-variant-stem.sav`.
pub open spec fn imported_save_path(cfg: Config, g: (Seq<char>, u8), file_name: Seq<char>) -> Seq<CompView> {
    join_spec(
        join_spec(cfg.data_path@, components(seq!['s', 'a', 'v', 'e', 's'])),
        components(game_prefix(g) + seq!['-'] + picked_stem(file_name) + seq!['.', 's', 'a', 'v']),
    )
}

/// Where an imported ROM of `g` is stored: `roms/family-variant.ext`.
pub open spec fn imported_rom_path(cfg: Config, g: (Seq<char>, u8), ext: Seq<char>) -> Seq<CompView> {
    join_spec(
        join_spec(cfg.data_path@, components(seq!['r', 'o', 'm', 's'])),
        components(game_prefix(g) + seq!['.'] + ext),
    )
}

fn prefix_of(g: &GameId) -> (r: Vec<char>)
    ensures
        r@ == game_prefix(g@),
{
    let mut out = chars_of(g.family.as_str());
    out.push('-');
    let digits = decimal(g.variant as u64);
    push_all(&mut out, digits.as_slice());
    out
}

/// The stem an imported save keeps of the picked file's name.
fn stem_for(file_name: &str) -> (r: Vec<char>)
    ensures
        r@ == picked_stem(file_name@),
{
    match StorePath::parse(file_name).file_stem() {
        Some(s) => chars_of(s.as_str()),
        None => {
            let v = vec!['s', 'a', 'v', 'e'];
            assert(v@ =~= seq!['s', 'a', 'v', 'e']);
            v
        },
    }
}

/// Store an imported save under the game it was detected as (`None`
/// when no game's parser accepts it, and nothing is stored), named
/// after the game and the picked file so several saves per game
/// coexist at [`imported_save_at`]. `true` once the write was attempted;
/// whether it went through is the store's to report, and is not
/// checked here.
pub fn import_save<S: Storage>(library: &mut OpenLibrary<S>, detected: Option<GameId>, file_name: &str, bytes: &[u8]) -> (r: bool)
    ensures
        r == detected is Some,
        detected is None ==> final(library).files.files() == old(library).files.files(),
        final(library).config == old(library).config,
        final(library).index == old(library).index,
{
    let game = match detected {
        Some(g) => g,
        None => {
            return false;
        },
    };
    let path = imported_save_at(&library.config, &game, file_name);
    let _ = library.files.write(&path, bytes);
    true
}

/// Where an imported save of `game` goes, from the picked file's name.
pub fn imported_save_at(cfg: &Config, game: &GameId, file_name: &str) -> (r: StorePath)
    ensures
        r@ == imported_save_path(*cfg, game@, file_name@),
{
    let mut name = prefix_of(game);
    name.push('-');
    let stem = stem_for(file_name);
    push_all(&mut name, stem.as_slice());
    name.push('.');
    name.push('s');
    name.push('a');
    name.push('v');
    assert(name@ =~= game_prefix(game@) + seq!['-'] + picked_stem(file_name@) + seq!['.', 's', 'a', 'v']);
    cfg.saves_path().join_str(string_from_chars(name).as_str())
}

/// Where an imported ROM of `game` goes; `ext` names its console's file
/// kind (`gba`, `nds`).
pub fn imported_rom_at(cfg: &Config, game: &GameId, ext: &str) -> (r: StorePath)
    ensures
        r@ == imported_rom_path(*cfg, game@, ext@),
{
    let mut name = prefix_of(game);
    name.push('.');
    let e = chars_of(ext);
    push_all(&mut name, e.as_slice());
    assert(name@ =~= game_prefix(game@) + seq!['.'] + ext@);
    cfg.roms_path().join_str(string_from_chars(name).as_str())
}

/// File an imported ROM under the game it was detected as, the detected
/// image (grown back to full size) being what is stored. `None` when
/// no supported game matched, or the write failed.
pub fn import_rom<S: Storage>(library: &mut OpenLibrary<S>, detected: Option<(GameId, Vec<u8>)>, ext: &str) -> (r: Option<GameId>)
    ensures
        match detected {
            None => r is None && final(library).files.files() == old(library).files.files(),
            Some((g, bytes)) => r matches Some(h) ==> h@ == g@ && final(library).files.files() == old(
                library,
            ).files.files().insert(imported_rom_path(old(library).config, g@, ext@), bytes@),
        },
        final(library).config == old(library).config,
        final(library).index == old(library).index,
{
    let (game, bytes) = match detected {
        Some(d) => d,
        None => {
            return None;
        },
    };
    let path = imported_rom_at(&library.config, &game, ext);
    match library.files.write(&path, bytes.as_slice()) {
        Ok(()) => Some(game),
        Err(_) => None,
    }
}

pub open spec fn pairs_view(v: Seq<(String, String)>) -> Seq<(Seq<char>, Seq<char>)> {
    Seq::new(v.len(), |i: int| (v[i].0@, v[i].1@))
}

pub open spec fn overlay_view(o: Option<(String, semver::Version)>) -> Option<(Seq<char>, semver::Version)> {
    match o {
        Some((n, v)) => Some((n@, v)),
        None => None,
    }
}

pub open spec fn overlays_view(v: Seq<(String, Option<(String, semver::Version)>)>) -> Seq<(Seq<char>, Option<(Seq<char>, semver::Version)>)> {
    Seq::new(v.len(), |i: int| (v[i].0@, overlay_view(v[i].1)))
}

/// What a config remembers of the selection, as values.
pub open spec fn memory_view(c: Config) -> (
    Option<Seq<char>>,
    Option<(Seq<char>, u8)>,
    Seq<(Seq<char>, Seq<char>)>,
    Seq<(Seq<char>, Option<(Seq<char>, semver::Version)>)>,
) {
    (
        opt_text(c.last_family),
        match c.last_game {
            Some((f, v)) => Some((f@, v)),
            None => None,
        },
        pairs_view(c.last_save_per_family@),
        overlays_view(c.last_patch_per_save@),
    )
}

fn copy_pairs(v: &Vec<(String, String)>) -> (r: Vec<(String, String)>)
    ensures
        pairs_view(r@) == pairs_view(v@),
{
    let mut out: Vec<(String, String)> = Vec::new();
    let mut i: usize = 0;
    while i < v.len()
        invariant
            i <= v@.len(),
            pairs_view(out@) == pairs_view(v@).take(i as int),
        decreases v@.len() - i,
    {
        let ghost before = out@;
        out.push((v[i].0.clone(), v[i].1.clone()));
        assert(pairs_view(out@) =~= pairs_view(before).push((v@[i as int].0@, v@[i as int].1@)));
        i = i + 1;
        assert(pairs_view(out@) =~= pairs_view(v@).take(i as int));
    }
    assert(pairs_view(v@).take(i as int) =~= pairs_view(v@));
    out
}

fn copy_overlays(v: &Vec<(String, Option<(String, semver::Version)>)>) -> (r: Vec<(String, Option<(String, semver::Version)>)>)
    ensures
        overlays_view(r@) == overlays_view(v@),
{
    let mut out: Vec<(String, Option<(String, semver::Version)>)> = Vec::new();
    let mut i: usize = 0;
    while i < v.len()
        invariant
            i <= v@.len(),
            overlays_view(out@) == overlays_view(v@).take(i as int),
        decreases v@.len() - i,
    {
        let ghost before = out@;
        let o = match &v[i].1 {
            Some((n, ver)) => Some((n.clone(), clone_version(ver))),
            None => None,
        };
        out.push((v[i].0.clone(), o));
        assert(overlays_view(out@) =~= overlays_view(before).push((v@[i as int].0@, overlay_view(v@[i as int].1))));
        i = i + 1;
        assert(overlays_view(out@) =~= overlays_view(v@).take(i as int));
    }
    assert(overlays_view(v@).take(i as int) =~= overlays_view(v@));
    out
}

fn same_pairs(a: &Vec<(String, String)>, b: &Vec<(String, String)>) -> (r: bool)
    ensures
        r == (pairs_view(a@) == pairs_view(b@)),
{
    if a.len() != b.len() {
        assert(pairs_view(a@).len() != pairs_view(b@).len());
        return false;
    }
    let mut i: usize = 0;
    while i < a.len()
        invariant
            i <= a@.len(),
            a@.len() == b@.len(),
            forall|k: int| 0 <= k < i ==> pairs_view(a@)[k] == pairs_view(b@)[k],
        decreases a@.len() - i,
    {
        if !(str_eq(a[i].0.as_str(), b[i].0.as_str()) && str_eq(a[i].1.as_str(), b[i].1.as_str())) {
            assert(pairs_view(a@)[i as int] != pairs_view(b@)[i as int]);
            return false;
        }
        i = i + 1;
    }
    assert(pairs_view(a@) =~= pairs_view(b@));
    true
}

fn same_overlays(a: &Vec<(String, Option<(String, semver::Version)>)>, b: &Vec<(String, Option<(String, semver::Version)>)>) -> (r: bool)
    ensures
        r == (overlays_view(a@) == overlays_view(b@)),
{
    if a.len() != b.len() {
        assert(overlays_view(a@).len() != overlays_view(b@).len());
        return false;
    }
    let mut i: usize = 0;
    while i < a.len()
        invariant
            i <= a@.len(),
            a@.len() == b@.len(),
            forall|k: int| 0 <= k < i ==> overlays_view(a@)[k] == overlays_view(b@)[k],
        decreases a@.len() - i,
    {
        let same_overlay = match (&a[i].1, &b[i].1) {
            (Some((n, v)), Some((m, w))) => str_eq(n.as_str(), m.as_str()) && version_eq(v, w),
            (None, None) => true,
            _ => false,
        };
        if !(str_eq(a[i].0.as_str(), b[i].0.as_str()) && same_overlay) {
            assert(overlays_view(a@)[i as int] != overlays_view(b@)[i as int]);
            return false;
        }
        i = i + 1;
    }
    assert(overlays_view(a@) =~= overlays_view(b@));
    true
}

fn same_text(a: &Option<String>, b: &Option<String>) -> (r: bool)
    ensures
        r == (opt_text(*a) == opt_text(*b)),
{
    match (a, b) {
        (Some(x), Some(y)) => str_eq(x.as_str(), y.as_str()),
        (None, None) => true,
        _ => false,
    }
}

fn same_game_memory(a: &Option<(String, u8)>, b: &Option<(String, u8)>) -> (r: bool)
    ensures
        r == (match *a {
            Some((f, v)) => Some((f@, v)),
            None => None,
        } == match *b {
            Some((f, v)) => Some((f@, v)),
            None => None,
        }),
{
    match (a, b) {
        (Some((f, v)), Some((g, w))) => str_eq(f.as_str(), g.as_str()) && *v == *w,
        (None, None) => true,
        _ => false,
    }
}

/// Record `selection` in the config, as a persist does, and say whether
/// what the config remembers changed, so that the config is written out
/// only then.
pub fn remember_selection(cfg: &mut Config, selection: &Selection) -> (changed: bool)
    ensures
        changed == (memory_view(*old(cfg)) != memory_view(*final(cfg))),
        opt_text(final(cfg).last_family) == selection@.family,
        match final(cfg).last_game {
            Some((f, v)) => selection@.game == Some((f@, v)),
            None => selection@.game is None,
        },
        forall|k: Seq<char>| #[trigger] memo_str(final(cfg).last_save_per_family@, k) == persisted_save_memo(*old(cfg), selection@, k),
        forall|k: Seq<char>| #[trigger] patch_memory(*final(cfg), k) == persisted_patch_memo(*old(cfg), selection@, k),
        final(cfg).data_path == old(cfg).data_path,
{
    let family = match &cfg.last_family {
        Some(f) => Some(f.clone()),
        None => None,
    };
    let game = match &cfg.last_game {
        Some((f, v)) => Some((f.clone(), *v)),
        None => None,
    };
    let saves = copy_pairs(&cfg.last_save_per_family);
    let overlays = copy_overlays(&cfg.last_patch_per_save);
    selection.persist(cfg);
    let same = same_text(&family, &cfg.last_family) && same_game_memory(&game, &cfg.last_game) && same_pairs(
        &saves,
        &cfg.last_save_per_family,
    ) && same_overlays(&overlays, &cfg.last_patch_per_save);
    !same
}

/// Remember `match_type` as the one `family` was last picked in, so the
/// lobby offers it again; `false` (and nothing changed) when it already
/// was, so the config is written out only when it changed.
pub fn remember_match_type(cfg: &mut Config, family: &str, match_type: (u8, u8)) -> (changed: bool)
    ensures
        changed == (memo(old(cfg).last_match_type_per_family@, family@) != Some(match_type)),
        forall|k: Seq<char>| #[trigger] memo(final(cfg).last_match_type_per_family@, k) == if k == family@ {
            Some(match_type)
        } else {
            memo(old(cfg).last_match_type_per_family@, k)
        },
        final(cfg).data_path == old(cfg).data_path,
        final(cfg).last_save_per_family == old(cfg).last_save_per_family,
        final(cfg).last_patch_per_save == old(cfg).last_patch_per_save,
        final(cfg).last_family == old(cfg).last_family,
        final(cfg).last_game == old(cfg).last_game,
{
    let recorded = memo_value(&cfg.last_match_type_per_family, family);
    if recorded == Some(match_type) {
        proof {
            assert forall|k: Seq<char>| #[trigger] memo(cfg.last_match_type_per_family@, k) == if k == family@ {
                Some(match_type)
            } else {
                memo(cfg.last_match_type_per_family@, k)
            } by {}
        }
        return false;
    }
    memo_insert(&mut cfg.last_match_type_per_family, family.to_string(), match_type);
    true
}

fn memo_value(entries: &Vec<(String, (u8, u8))>, key: &str) -> (r: Option<(u8, u8)>)
    ensures
        r == memo(entries@, key@),
{
    let mut i: usize = 0;
    assert(entries@.skip(0) =~= entries@);
    while i < entries.len()
        invariant
            i <= entries@.len(),
            memo(entries@, key@) == memo(entries@.skip(i as int), key@),
        decreases entries@.len() - i,
    {
        let ghost rest = entries@.skip(i as int);
        assert(rest[0] == entries@[i as int]);
        if str_eq(entries[i].0.as_str(), key) {
            return Some(entries[i].1);
        }
        assert(rest.drop_first() =~= entries@.skip(i + 1));
        i = i + 1;
    }
    None
}

} // verus!

verus! {

/// Whether `offers` are the catalog's patches as the picker reads them:
/// each patch's name and, version by version, the games it supports.
pub open spec fn offers_match(offers: Seq<PatchOffer>, patches: Seq<PatchVersions>) -> bool {
    &&& offers.len() == patches.len()
    &&& forall|i: int|
        0 <= i < offers.len() ==> (#[trigger] offers[i]).name@ == patches[i].name@ && versions_view(offers[i].versions@)
            == Seq::new(patches[i].versions@.len(), |k: int| games_view(patches[i].versions@[k].games@))
}

/// Whether the catalog has a patch `name` with a version supporting one
/// of `games`.
pub open spec fn offered_by(lib: LibraryIndex, games: Seq<(Seq<char>, u8)>, name: Seq<char>) -> bool {
    exists|i: int|
        0 <= i < lib.patches@.len() && (#[trigger] lib.patches@[i]).name@ == name && supports_any(
            Seq::new(lib.patches@[i].versions@.len(), |k: int| games_view(lib.patches@[i].versions@[k].games@)),
            games,
        )
}

fn copy_games(v: &Vec<GameId>) -> (r: Vec<GameId>)
    ensures
        games_view(r@) == games_view(v@),
{
    let mut out: Vec<GameId> = Vec::new();
    let mut i: usize = 0;
    while i < v.len()
        invariant
            i <= v@.len(),
            out@.len() == i,
            forall|k: int| 0 <= k < i ==> (#[trigger] out@[k])@ == v@[k]@,
        decreases v@.len() - i,
    {
        out.push(copy_game(&v[i]));
        i = i + 1;
    }
    assert(games_view(out@) =~= games_view(v@));
    out
}

fn offers_of(patches: &Vec<PatchVersions>) -> (r: Vec<PatchOffer>)
    ensures
        offers_match(r@, patches@),
{
    let mut out: Vec<PatchOffer> = Vec::new();
    let mut i: usize = 0;
    while i < patches.len()
        invariant
            i <= patches@.len(),
            out@.len() == i,
            forall|t: int|
                0 <= t < i ==> (#[trigger] out@[t]).name@ == patches@[t].name@ && versions_view(out@[t].versions@)
                    == Seq::new(patches@[t].versions@.len(), |k: int| games_view(patches@[t].versions@[k].games@)),
        decreases patches@.len() - i,
    {
        let vs = &patches[i].versions;
        let mut versions: Vec<Vec<GameId>> = Vec::new();
        let mut k: usize = 0;
        while k < vs.len()
            invariant
                k <= vs@.len(),
                i < patches@.len(),
                *vs == patches@[i as int].versions,
                versions@.len() == k,
                forall|a: int| 0 <= a < k ==> games_view((#[trigger] versions@[a])@) == games_view(vs@[a].games@),
            decreases vs@.len() - k,
        {
            versions.push(copy_games(&vs[k].games));
            k = k + 1;
        }
        assert(versions_view(versions@) =~= Seq::new(vs@.len(), |k: int| games_view(vs@[k].games@)));
        out.push(PatchOffer { name: patches[i].name.clone(), versions });
        i = i + 1;
    }
    out
}

proof fn lemma_offered_by(offers: Seq<PatchOffer>, lib: LibraryIndex, games: Seq<(Seq<char>, u8)>, n: Seq<char>)
    requires
        offers_match(offers, lib.patches@),
    ensures
        offered(offers, games, n) == offered_by(lib, games, n),
{
    if offered(offers, games, n) {
        let i = choose|i: int|
            0 <= i < offers.len() && (#[trigger] offers[i]).name@ == n && supports_any(versions_view(offers[i].versions@), games);
        assert(lib.patches@[i].name@ == n);
    }
    if offered_by(lib, games, n) {
        let i = choose|i: int|
            0 <= i < lib.patches@.len() && (#[trigger] lib.patches@[i]).name@ == n && supports_any(
                Seq::new(lib.patches@[i].versions@.len(), |k: int| games_view(lib.patches@[i].versions@[k].games@)),
                games,
            );
        assert(offers[i].name@ == n);
    }
}

/// Whether `name` is among the picker's offers `r`.
pub open spec fn offers_name(r: Seq<(String, semver::Version, bool)>, name: Seq<char>) -> bool {
    exists|i: int| 0 <= i < r.len() && #[trigger] r[i].0@ == name
}

spec fn kept_name(names: Seq<String>, i: int, lib: LibraryIndex, g: (Seq<char>, u8), m: Seq<char>) -> bool {
    exists|j: int| 0 <= j < i && #[trigger] names[j]@ == m && newest(lib, m, Some(g)) is Some
}

/// What the patch picker offers for `game`: every patch, installed or
/// only indexed, with a version supporting it, favorites first and by
/// name within each group, each with its newest version supporting the
/// game and whether that version is installed.
pub fn patches_for(index: &LibraryIndex, game: &GameId, favorites: &[String]) -> (r: Vec<(String, semver::Version, bool)>)
    ensures
        forall|i: int, j: int| 0 <= i < j < r@.len() ==> picked_before(favorites@, #[trigger] r@[i].0@, #[trigger] r@[j].0@),
        forall|n: Seq<char>| #[trigger] offers_name(r@, n) <==> (offered_by(*index, seq![game@], n) && newest(
            *index,
            n,
            Some(game@),
        ) is Some),
        forall|i: int|
            0 <= i < r@.len() ==> newest(*index, (#[trigger] r@[i]).0@, Some(game@)) == Some(r@[i].1) && r@[i].2
                == installed(*index, r@[i].0@, r@[i].1),
{
    let offers = offers_of(&index.patches);
    let mut games: Vec<GameId> = Vec::new();
    games.push(copy_game(game));
    assert(games_view(games@) =~= seq![game@]);
    let names = patch_names_for(offers.as_slice(), games.as_slice(), favorites);
    let mut out: Vec<(String, semver::Version, bool)> = Vec::new();
    let ghost mut idxs: Seq<int> = Seq::empty();
    let mut i: usize = 0;
    while i < names.len()
        invariant
            i <= names@.len(),
            idxs.len() == out@.len(),
            forall|a: int| 0 <= a < idxs.len() ==> 0 <= #[trigger] idxs[a] < i && out@[a].0@ == names@[idxs[a]]@,
            forall|a: int, b: int| 0 <= a < b < idxs.len() ==> #[trigger] idxs[a] < #[trigger] idxs[b],
            forall|a: int, b: int| 0 <= a < b < names@.len() ==> picked_before(favorites@, #[trigger] names@[a]@, #[trigger] names@[b]@),
            forall|n: Seq<char>| #[trigger] offers_name(out@, n) <==> kept_name(names@, i as int, *index, game@, n),
            forall|a: int|
                0 <= a < out@.len() ==> newest(*index, (#[trigger] out@[a]).0@, Some(game@)) == Some(out@[a].1) && out@[a].2
                    == installed(*index, out@[a].0@, out@[a].1),
        decreases names@.len() - i,
    {
        let ghost n = names@[i as int]@;
        match index.newest_version(names[i].as_str(), Some(game)) {
            Some(v) => {
                let installed_now = index.is_installed(names[i].as_str(), &v);
                let ghost o0 = out@;
                out.push((names[i].clone(), v, installed_now));
                proof {
                    idxs = idxs.push(i as int);
                    assert forall|m: Seq<char>| #[trigger] offers_name(out@, m) <==> kept_name(
                        names@,
                        i + 1,
                        *index,
                        game@,
                        m,
                    ) by {
                        if offers_name(out@, m) {
                            let a = choose|a: int| 0 <= a < out@.len() && #[trigger] out@[a].0@ == m;
                            if a < o0.len() {
                                assert(o0[a].0@ == m);
                                assert(offers_name(o0, m));
                                let j = choose|j: int|
                                    0 <= j < i && #[trigger] names@[j]@ == m && newest(*index, m, Some(game@)) is Some;
                                assert(names@[j]@ == m);
                            } else {
                                assert(names@[i as int]@ == m);
                            }
                        }
                        if kept_name(names@, i + 1, *index, game@, m) {
                            let j = choose|j: int|
                                0 <= j < i + 1 && #[trigger] names@[j]@ == m && newest(*index, m, Some(game@)) is Some;
                            if j < i {
                                assert(kept_name(names@, i as int, *index, game@, m));
                                assert(offers_name(o0, m));
                                let a = choose|a: int| 0 <= a < o0.len() && #[trigger] o0[a].0@ == m;
                                assert(out@[a].0@ == m);
                            } else {
                                assert(out@[o0.len() as int].0@ == m);
                            }
                        }
                    }
                    assert forall|a: int| 0 <= a < out@.len() implies newest(*index, (#[trigger] out@[a]).0@, Some(game@)) == Some(
                        out@[a].1,
                    ) && out@[a].2 == installed(*index, out@[a].0@, out@[a].1) by {
                        if a < o0.len() {
                            assert(out@[a] == o0[a]);
                        }
                    }
                    assert forall|a: int| 0 <= a < idxs.len() implies 0 <= #[trigger] idxs[a] < i + 1 && out@[a].0@ == names@[idxs[a]]@ by {
                        if a < o0.len() {
                            assert(out@[a] == o0[a]);
                        }
                    }
                }
            },
            None => {
                proof {
                    assert forall|m: Seq<char>| #[trigger] offers_name(out@, m) <==> kept_name(
                        names@,
                        i + 1,
                        *index,
                        game@,
                        m,
                    ) by {
                        if kept_name(names@, i + 1, *index, game@, m) {
                            let j = choose|j: int|
                                0 <= j < i + 1 && #[trigger] names@[j]@ == m && newest(*index, m, Some(game@)) is Some;
                            if j == i {
                                assert(names@[i as int]@ == n);
                            }
                            assert(kept_name(names@, i as int, *index, game@, m));
                        }
                        if offers_name(out@, m) {
                            assert(kept_name(names@, i as int, *index, game@, m));
                            let j = choose|j: int|
                                0 <= j < i && #[trigger] names@[j]@ == m && newest(*index, m, Some(game@)) is Some;
                            assert(names@[j]@ == m);
                        }
                    }
                }
            },
        }
        i = i + 1;
    }
    proof {
        assert forall|a: int, b: int| 0 <= a < b < out@.len() implies picked_before(
            favorites@,
            #[trigger] out@[a].0@,
            #[trigger] out@[b].0@,
        ) by {
            assert(idxs[a] < idxs[b]);
        }
        assert forall|m: Seq<char>| #[trigger] offers_name(out@, m) <==> (offered_by(*index, seq![game@], m) && newest(
            *index,
            m,
            Some(game@),
        ) is Some) by {
            lemma_offered_by(offers@, *index, seq![game@], m);
            if kept_name(names@, i as int, *index, game@, m) {
                let j = choose|j: int| 0 <= j < i && #[trigger] names@[j]@ == m && newest(*index, m, Some(game@)) is Some;
                assert(holds_name(names@, m));
            }
            if offered_by(*index, seq![game@], m) && newest(*index, m, Some(game@)) is Some {
                assert(holds_name(names@, m));
                let k = choose|k: int| 0 <= k < names@.len() && (#[trigger] names@[k])@ == m;
                assert(names@[k]@ == m);
                assert(kept_name(names@, i as int, *index, game@, m));
            }
        }
    }
    out
}

} // verus!

verus! {

/// The files deleting `game` takes: its ROM and every save scanned for it.
pub open spec fn game_files(lib: LibraryIndex, cfg: Config, g: (Seq<char>, u8), ext: Seq<char>) -> Set<Seq<CompView>> {
    saves_of(lib, g).to_set().insert(imported_rom_path(cfg, g, ext))
}

/// Forget a game entirely: its ROM (of kind `ext`) and every save filed
/// under it. Nothing else is touched; a file the store refuses to remove
/// stays, and the rest still go.
pub fn delete_game<S: Storage>(library: &mut OpenLibrary<S>, game: &GameId, ext: &str)
    ensures
        forall|k: Seq<CompView>| #[trigger] final(library).files.files().contains_key(k) ==> old(library).files.files().contains_key(k)
            && final(library).files.files()[k] == old(library).files.files()[k],
        forall|k: Seq<CompView>|
            old(library).files.files().contains_key(k) && !game_files(old(library).index, old(library).config, game@, ext@).contains(k)
                ==> #[trigger] final(library).files.files().contains_key(k),
        final(library).config == old(library).config,
        final(library).index == old(library).index,
{
    let ghost f0 = library.files.files();
    let ghost targets = game_files(library.index, library.config, game@, ext@);
    let mut paths: Vec<StorePath> = Vec::new();
    paths.push(imported_rom_at(&library.config, game, ext));
    let saves = library.index.saves_for(game);
    let mut i: usize = 0;
    while i < saves.len()
        invariant
            i <= saves@.len(),
            paths@.len() == i + 1,
            paths@[0]@ == imported_rom_path(library.config, game@, ext@),
            paths_of(saves@) == saves_of(library.index, game@),
            forall|t: int| 1 <= t < paths@.len() ==> (#[trigger] paths@[t])@ == saves@[t - 1]@,
        decreases saves@.len() - i,
    {
        paths.push(saves[i].copy());
        i = i + 1;
    }
    proof {
        assert forall|t: int| 0 <= t < paths@.len() implies targets.contains(#[trigger] paths@[t]@) by {
            if t > 0 {
                assert(paths_of(saves@)[t - 1] == saves@[t - 1]@);
                assert(saves_of(library.index, game@).contains(paths@[t]@));
            }
        }
    }
    let mut j: usize = 0;
    while j < paths.len()
        invariant
            j <= paths@.len(),
            library.config == old(library).config,
            library.index == old(library).index,
            forall|t: int| 0 <= t < paths@.len() ==> targets.contains(#[trigger] paths@[t]@),
            forall|k: Seq<CompView>| #[trigger] library.files.files().contains_key(k) ==> f0.contains_key(k)
                && library.files.files()[k] == f0[k],
            forall|k: Seq<CompView>| f0.contains_key(k) && !targets.contains(k) ==> #[trigger] library.files.files().contains_key(k),
        decreases paths@.len() - j,
    {
        let _ = library.files.remove_file(&paths[j]);
        j = j + 1;
    }
}

/// Put a session's save data back over the file it was loaded from;
/// `true` once the bytes are in the store.
pub fn write_save<S: Storage>(library: &mut OpenLibrary<S>, path: &StorePath, bytes: &[u8]) -> (r: bool)
    ensures
        r ==> final(library).files.files() == old(library).files.files().insert(path@, bytes@),
        final(library).config == old(library).config,
        final(library).index == old(library).index,
{
    library.files.write(path, bytes).is_ok()
}

} // verus!
