//! The selection policy both hosts share: which family, game, save and
//! patch overlay a session brings, kept consistent with each other and
//! with the library.
//!
//! The identity of a selection is its family, game and save. The patch is
//! an overlay on top, remembered per save: picking a save restores the
//! patch it last ran with, picking a patch sticks to the current save.
use vstd::prelude::*;
use crate::text::str_eq;
use crate::paths::{StorePath, CompView, file_name_spec, stem_of, strip_prefix_spec, join_texts, pieces, wf_path};
use crate::order::{lex_lt, path_lt, str_lt, store_path_lt, lemma_lex_irreflexive, lemma_lex_total, lemma_lex_asymmetric, lemma_lex_transitive, lemma_path_total, lemma_path_transitive, lemma_path_irreflexive};
use crate::config::{Config, memo, patch_memo_view, push_segments, last_save_for, last_patch_for, memo_insert};
use crate::lobby::protocol::{clone_version, GameInfo, PatchInfo};
use crate::loadout::{GameId, RegisteredGame, LibraryIndex, owns, registered, family_known, saves_of, has_save, supports_game, installed, newest, version_info, games_view, paths_of};

verus! {

/// A game, as values: its family and variant.
pub type GameKey = (Seq<char>, u8);

/// The stem a save is listed under in the picker (`None` for a path with
/// no final name).
pub open spec fn stem_key(p: Seq<CompView>) -> Option<Seq<char>> {
    match file_name_spec(p) {
        Some(n) => Some(stem_of(n)),
        None => None,
    }
}

pub open spec fn stem_lt(a: Option<Seq<char>>, b: Option<Seq<char>>) -> bool {
    match (a, b) {
        (None, Some(_)) => true,
        (Some(x), Some(y)) => lex_lt(x, y),
        _ => false,
    }
}

/// The save picker's order: by stem, then by the whole path.
pub open spec fn picker_lt(a: Seq<CompView>, b: Seq<CompView>) -> bool {
    stem_lt(stem_key(a), stem_key(b)) || (stem_key(a) == stem_key(b) && path_lt(a, b))
}

pub(crate) proof fn lemma_picker_irreflexive(a: Seq<CompView>)
    ensures
        !picker_lt(a, a),
{
    lemma_path_irreflexive(a);
    if let Some(x) = stem_key(a) {
        lemma_lex_irreflexive(x);
    }
}

pub(crate) proof fn lemma_picker_total(a: Seq<CompView>, b: Seq<CompView>)
    requires
        a != b,
    ensures
        picker_lt(a, b) || picker_lt(b, a),
{
    if stem_key(a) == stem_key(b) {
        lemma_path_total(a, b);
    } else {
        match (stem_key(a), stem_key(b)) {
            (Some(x), Some(y)) => lemma_lex_total(x, y),
            _ => {},
        }
    }
}

pub(crate) proof fn lemma_picker_transitive(a: Seq<CompView>, b: Seq<CompView>, c: Seq<CompView>)
    requires
        picker_lt(a, b),
        picker_lt(b, c),
    ensures
        picker_lt(a, c),
{
    let (x, y, z) = (stem_key(a), stem_key(b), stem_key(c));
    if x == y && y == z {
        if let Some(p) = x {
            lemma_lex_irreflexive(p);
        }
        lemma_path_transitive(a, b, c);
    } else {
        match (x, y, z) {
            (Some(p), Some(q), Some(r)) => {
                if lex_lt(p, q) && lex_lt(q, r) {
                    lemma_lex_transitive(p, q, r);
                }
            },
            _ => {},
        }
        if x == z {
            match (x, y) {
                (Some(p), Some(q)) => {
                    lemma_lex_asymmetric(p, q);
                },
                _ => {},
            }
        }
    }
}

/// The saves of `g`, each paired with its game.
pub open spec fn paired(g: GameKey, saves: Seq<Seq<CompView>>) -> Seq<(GameKey, Seq<CompView>)> {
    Seq::new(saves.len(), |i: int| (g, saves[i]))
}

/// Every save of an owned game of `family`, game by game in registry
/// order.
pub open spec fn candidates_in(lib: LibraryIndex, reg: Seq<RegisteredGame>, family: Seq<char>) -> Seq<(GameKey, Seq<CompView>)>
    decreases reg.len(),
{
    if reg.len() == 0 {
        Seq::empty()
    } else {
        let rest = candidates_in(lib, reg.drop_last(), family);
        let g = reg.last().game@;
        if g.0 == family && owns(lib, g) {
            rest + paired(g, saves_of(lib, g))
        } else {
            rest
        }
    }
}

pub open spec fn candidates(lib: LibraryIndex, family: Seq<char>) -> Seq<(GameKey, Seq<CompView>)> {
    candidates_in(lib, lib.registry@, family)
}

/// Whether `c[i]` is the first of the saves that sort lowest.
pub open spec fn first_pick(c: Seq<(GameKey, Seq<CompView>)>, i: int) -> bool {
    &&& 0 <= i < c.len()
    &&& forall|j: int| 0 <= j < c.len() ==> !picker_lt(#[trigger] c[j].1, c[i].1)
    &&& forall|j: int| 0 <= j < i ==> picker_lt(c[i].1, #[trigger] c[j].1)
}

proof fn lemma_first_pick_unique(c: Seq<(GameKey, Seq<CompView>)>, i: int, k: int)
    requires
        first_pick(c, i),
        first_pick(c, k),
    ensures
        i == k,
{
    if i < k {
        assert(picker_lt(c[k].1, c[i].1));
    } else if k < i {
        assert(picker_lt(c[i].1, c[k].1));
    }
}

/// The first owned save of `family` in picker order, with its game.
pub open spec fn first_available(lib: LibraryIndex, family: Seq<char>) -> Option<(GameKey, Seq<CompView>)> {
    let c = candidates(lib, family);
    if exists|i: int| first_pick(c, i) {
        Some(c[choose|i: int| first_pick(c, i)])
    } else {
        None
    }
}

/// The first owned game of `family`, in registry order, that has the
/// save `p`.
pub open spec fn first_game_with(lib: LibraryIndex, reg: Seq<RegisteredGame>, family: Seq<char>, p: Seq<CompView>) -> Option<GameKey>
    decreases reg.len(),
{
    if reg.len() == 0 {
        None
    } else {
        let g = reg[0].game@;
        if g.0 == family && owns(lib, g) && has_save(lib, g, p) {
            Some(g)
        } else {
            first_game_with(lib, reg.drop_first(), family, p)
        }
    }
}

/// A data-relative save string, back under the data path.
pub open spec fn abs_of(cfg: Config, rel: Seq<char>) -> Seq<CompView> {
    push_segments(cfg.data_path@, pieces(rel))
}

pub open spec fn memo_str(entries: Seq<(String, String)>, key: Seq<char>) -> Option<Seq<char>> {
    match memo(entries, key) {
        Some(v) => Some(v@),
        None => None,
    }
}

/// The save to land on after a family pick: the family's remembered
/// save, under the first owned game that has it; else the first
/// available one.
pub open spec fn resolve_family_save(cfg: Config, lib: LibraryIndex, family: Seq<char>) -> Option<(GameKey, Seq<CompView>)> {
    match memo_str(cfg.last_save_per_family@, family) {
        Some(rel) => {
            let abs = abs_of(cfg, rel);
            match first_game_with(lib, lib.registry@, family, abs) {
                Some(g) => Some((g, abs)),
                None => first_available(lib, family),
            }
        },
        None => first_available(lib, family),
    }
}

/// The remembered save of `g`'s family if `g` still has it, else `g`'s
/// first save.
pub open spec fn remembered_save(cfg: Config, lib: LibraryIndex, g: GameKey) -> Option<Seq<CompView>> {
    let saves = saves_of(lib, g);
    let remembered = match memo_str(cfg.last_save_per_family@, g.0) {
        Some(rel) => if saves.contains(abs_of(cfg, rel)) {
            Some(abs_of(cfg, rel))
        } else {
            None
        },
        None => None,
    };
    match remembered {
        Some(p) => Some(p),
        None => if saves.len() > 0 {
            Some(saves[0])
        } else {
            None
        },
    }
}

/// A selection, as values.
pub struct SelView {
    pub family: Option<Seq<char>>,
    pub game: Option<GameKey>,
    pub save: Option<Seq<CompView>>,
    pub patch: Option<Seq<char>>,
    pub version: Option<semver::Version>,
}

/// Nothing selected.
pub open spec fn no_selection() -> SelView {
    SelView { family: None, game: None, save: None, patch: None, version: None }
}

/// `s` without its patch overlay.
pub open spec fn unpatched(s: SelView) -> SelView {
    SelView { patch: None, version: None, ..s }
}

/// The overlay kept only if it can run the selected game: the selected
/// version if it supports the game, else the newest one that does, else
/// no patch at all.
pub open spec fn retained(lib: LibraryIndex, s: SelView) -> SelView {
    match (s.patch, s.game) {
        (Some(name), Some(g)) => {
            let current_ok = match s.version {
                Some(v) => supports_game(lib, name, v, g),
                None => false,
            };
            if current_ok {
                s
            } else {
                match newest(lib, name, Some(g)) {
                    Some(v) => SelView { version: Some(v), ..s },
                    None => unpatched(s),
                }
            }
        },
        _ => s,
    }
}

/// The data-relative string a path under the data path is remembered by.
pub open spec fn rel_of(cfg: Config, p: Seq<CompView>) -> Option<Seq<char>> {
    match strip_prefix_spec(p, cfg.data_path@) {
        Some(rest) => Some(join_texts(rest)),
        None => None,
    }
}

/// The overlay remembered for a save: `Some(None)` when it last ran
/// unpatched, `None` when it never ran.
pub open spec fn patch_memory(cfg: Config, rel: Seq<char>) -> Option<Option<(Seq<char>, semver::Version)>> {
    patch_memo_view(memo(cfg.last_patch_per_save@, rel))
}

/// The selected save's remembered overlay applied: a remembered patch
/// comes back if it still supports the game, a remembered "unpatched"
/// clears the patch, and a save with no memory keeps the current patch
/// only if it can run the game.
pub open spec fn with_patch_memory(cfg: Config, lib: LibraryIndex, s: SelView) -> SelView {
    let rel = match s.save {
        Some(p) => rel_of(cfg, p),
        None => None,
    };
    match rel {
        Some(r) => match patch_memory(cfg, r) {
            Some(Some((name, version))) => {
                let ok = match s.game {
                    Some(g) => supports_game(lib, name, version, g),
                    None => false,
                };
                if ok {
                    SelView { patch: Some(name), version: Some(version), ..s }
                } else {
                    retained(lib, s)
                }
            },
            Some(None) => unpatched(s),
            None => retained(lib, s),
        },
        None => retained(lib, s),
    }
}

/// After picking save `p` of game `g`.
pub open spec fn picked_save(cfg: Config, lib: LibraryIndex, s: SelView, g: GameKey, p: Seq<CompView>) -> SelView {
    with_patch_memory(cfg, lib, SelView { family: Some(g.0), game: Some(g), save: Some(p), ..s })
}

/// After picking `family`.
pub open spec fn picked_family(cfg: Config, lib: LibraryIndex, s: SelView, family: Seq<char>) -> SelView {
    let landed = match resolve_family_save(cfg, lib, family) {
        Some((g, p)) => (Some(g), Some(p)),
        None => (None, None),
    };
    with_patch_memory(
        cfg,
        lib,
        SelView { family: Some(family), game: landed.0, save: landed.1, patch: None, version: None },
    )
}

/// After picking game `g`.
pub open spec fn picked_game(cfg: Config, lib: LibraryIndex, s: SelView, g: GameKey) -> SelView {
    with_patch_memory(cfg, lib, SelView { family: Some(g.0), game: Some(g), save: remembered_save(cfg, lib, g), ..s })
}

/// After picking the patch `name` (`None` for no patch).
pub open spec fn picked_patch(cfg: Config, lib: LibraryIndex, s: SelView, name: Option<Seq<char>>) -> SelView {
    let s1 = match name {
        None => unpatched(s),
        Some(n) => {
            let v = newest(lib, n, s.game);
            if s.game is Some && v is None {
                SelView { save: None, game: None, patch: Some(n), version: newest(lib, n, None), ..s }
            } else {
                SelView { patch: Some(n), version: v, ..s }
            }
        },
    };
    if s1.save is None && s1.game is Some {
        SelView { save: remembered_save(cfg, lib, s1.game->0), ..s1 }
    } else {
        s1
    }
}

/// The games the selected overlay supports; `None` (no filter) when no
/// patch version is selected or it lists no games.
pub open spec fn overlay_games(lib: LibraryIndex, s: SelView) -> Option<Seq<GameKey>> {
    match (s.patch, s.version) {
        (Some(n), Some(v)) => match version_info(lib, n, v) {
            Some(info) => if info.games@.len() > 0 {
                Some(games_view(info.games@))
            } else {
                None
            },
            None => None,
        },
        _ => None,
    }
}

/// Whether the overlay can run `g` (trivially so with no overlay).
pub open spec fn overlay_supports(lib: LibraryIndex, s: SelView, g: GameKey) -> bool {
    match overlay_games(lib, s) {
        Some(gs) => gs.contains(g),
        None => true,
    }
}

/// Whether the selected patch is installed (trivially so with none).
pub open spec fn patch_is_ready(lib: LibraryIndex, s: SelView) -> bool {
    match (s.patch, s.version) {
        (None, _) => true,
        (Some(n), Some(v)) => installed(lib, n, v),
        (Some(_), None) => false,
    }
}

/// After adopting save `p` of `g`, just created from a template.
pub open spec fn adopted(lib: LibraryIndex, s: SelView, g: GameKey, p: Seq<CompView>) -> SelView {
    let s1 = if overlay_supports(lib, s, g) {
        s
    } else {
        unpatched(s)
    };
    SelView { family: Some(g.0), game: Some(g), save: Some(p), ..s1 }
}

/// With no save selected, the family's first available save picked.
pub open spec fn first_family_save_picked(cfg: Config, lib: LibraryIndex, s: SelView) -> SelView {
    if s.save is Some {
        s
    } else {
        match s.family {
            Some(f) => match first_available(lib, f) {
                Some((g, p)) => picked_save(cfg, lib, s, g, p),
                None => s,
            },
            None => s,
        }
    }
}

/// After re-validating against the library.
pub open spec fn reconciled(cfg: Config, lib: LibraryIndex, s: SelView) -> SelView {
    match s.game {
        Some(g) => if owns(lib, g) {
            let s1 = SelView { family: Some(g.0), ..s };
            let s2 = if s1.save is Some && has_save(lib, g, s1.save->0) {
                s1
            } else {
                with_patch_memory(cfg, lib, SelView { save: remembered_save(cfg, lib, g), ..s1 })
            };
            if patch_is_ready(lib, s2) {
                s2
            } else {
                unpatched(s2)
            }
        } else {
            no_selection()
        },
        None => no_selection(),
    }
}

/// The family a restore falls back to: the recorded family, else the
/// recorded game's, whichever this build supports first.
pub open spec fn fallback_family(cfg: Config, lib: LibraryIndex) -> Option<Seq<char>> {
    let from_family = match cfg.last_family {
        Some(f) => if family_known(lib, f@) {
            Some(f@)
        } else {
            None
        },
        None => None,
    };
    match from_family {
        Some(f) => Some(f),
        None => match cfg.last_game {
            Some((f, _)) => if family_known(lib, f@) {
                Some(f@)
            } else {
                None
            },
            None => None,
        },
    }
}

/// After restoring what `cfg` recorded.
pub open spec fn restored(cfg: Config, lib: LibraryIndex, s: SelView) -> SelView {
    let s1 = if s.family is Some {
        s
    } else {
        SelView { family: fallback_family(cfg, lib), ..s }
    };
    match cfg.last_game {
        None => s1,
        Some((f, v)) => {
            let g = (f@, v);
            if !(registered(lib, g) && owns(lib, g)) {
                s1
            } else {
                let s2 = SelView { family: Some(g.0), game: Some(g), ..s1 };
                match memo_str(cfg.last_save_per_family@, g.0) {
                    None => s2,
                    Some(rel) => {
                        let abs = abs_of(cfg, rel);
                        if !has_save(lib, g, abs) {
                            s2
                        } else {
                            let s3 = SelView { save: Some(abs), ..s2 };
                            match patch_memory(cfg, rel) {
                                Some(Some((n, ver))) => if supports_game(lib, n, ver, g) {
                                    SelView { patch: Some(n), version: Some(ver), ..s3 }
                                } else {
                                    s3
                                },
                                _ => s3,
                            }
                        }
                    },
                }
            }
        },
    }
}

/// The overlay a persist records for the selected save.
pub open spec fn overlay_of(s: SelView) -> Option<(Seq<char>, semver::Version)> {
    match (s.patch, s.version) {
        (Some(n), Some(v)) => Some((n, v)),
        _ => None,
    }
}

/// The data-relative string a persist records the save under, if any.
pub open spec fn persisted_rel(cfg: Config, s: SelView) -> Option<Seq<char>> {
    match (s.game, s.save) {
        (Some(_), Some(p)) => rel_of(cfg, p),
        _ => None,
    }
}


/// What a persist leaves recorded as `k`'s family save.
pub open spec fn persisted_save_memo(cfg: Config, s: SelView, k: Seq<char>) -> Option<Seq<char>> {
    match persisted_rel(cfg, s) {
        Some(rel) => if k == (s.game->0).0 {
            Some(rel)
        } else {
            memo_str(cfg.last_save_per_family@, k)
        },
        None => memo_str(cfg.last_save_per_family@, k),
    }
}

/// What a persist leaves recorded as the overlay of save `k`.
pub open spec fn persisted_patch_memo(cfg: Config, s: SelView, k: Seq<char>) -> Option<Option<(Seq<char>, semver::Version)>> {
    match persisted_rel(cfg, s) {
        Some(rel) => if k == rel {
            Some(overlay_of(s))
        } else {
            patch_memory(cfg, k)
        },
        None => patch_memory(cfg, k),
    }
}

/// The game a selection advertises: its game with this build's
/// simulation version, and its overlay.
pub open spec fn info_of(lib: LibraryIndex, s: SelView) -> Option<crate::lobby::protocol::GameInfoView> {
    match s.game {
        Some(g) => match crate::loadout::sim_of(lib, g) {
            Some(sim) => Some(
                crate::lobby::protocol::GameInfoView {
                    family: g.0,
                    variant: g.1,
                    patch: match overlay_of(s) {
                        Some((n, v)) => Some(crate::lobby::protocol::PatchView { name: n, version: v }),
                        None => None,
                    },
                    sim_version: sim,
                },
            ),
            None => None,
        },
        None => None,
    }
}

/// The selection a peer committed to, with no save attached.
pub open spec fn from_info(info: crate::lobby::protocol::GameInfoView) -> SelView {
    SelView {
        family: Some(info.family),
        game: Some((info.family, info.variant)),
        save: None,
        patch: match info.patch {
            Some(p) => Some(p.name),
            None => None,
        },
        version: match info.patch {
            Some(p) => Some(p.version),
            None => None,
        },
    }
}

proof fn lemma_newest_in_supports(lib: LibraryIndex, name: Seq<char>, vs: Seq<crate::loadout::PatchVersionInfo>, g: GameKey)
    requires
        crate::loadout::newest_in(lib, name, vs, Some(g)) is Some,
    ensures
        supports_game(lib, name, crate::loadout::newest_in(lib, name, vs, Some(g))->0, g),
    decreases vs.len(),
{
    if vs.len() > 0 && !supports_game(lib, name, vs.last().version, g) {
        lemma_newest_in_supports(lib, name, vs.drop_last(), g);
    }
}

proof fn lemma_newest_supports(lib: LibraryIndex, name: Seq<char>, g: GameKey)
    requires
        newest(lib, name, Some(g)) is Some,
    ensures
        supports_game(lib, name, newest(lib, name, Some(g))->0, g),
{
    lemma_newest_in_supports(lib, name, crate::loadout::versions_of(lib, name), g);
}

proof fn lemma_remembered_is_scanned(cfg: Config, lib: LibraryIndex, g: GameKey)
    ensures
        remembered_save(cfg, lib, g) matches Some(p) ==> has_save(lib, g, p),
{
    let saves = saves_of(lib, g);
    if saves.len() > 0 {
        assert(saves.contains(saves[0]));
    }
}

proof fn lemma_memory_keeps_identity(cfg: Config, lib: LibraryIndex, s: SelView)
    ensures
        with_patch_memory(cfg, lib, s).family == s.family,
        with_patch_memory(cfg, lib, s).game == s.game,
        with_patch_memory(cfg, lib, s).save == s.save,
{
}

/// What a persist records, a restore into an empty selection brings back
/// once the library has been scanned: a selection whose game is supported
/// and owned, whose save is scanned for it and lies under the data path,
/// and whose overlay (if any) is a whole version that supports the game,
/// comes back exactly.
pub proof fn law_persisted_selection_restores(before: Config, after: Config, lib: LibraryIndex, s: SelView)
    requires
        s.game is Some,
        s.family == Some((s.game->0).0),
        registered(lib, s.game->0),
        owns(lib, s.game->0),
        s.save is Some,
        has_save(lib, s.game->0, s.save->0),
        wf_path(s.save->0),
        rel_of(before, s.save->0) is Some,
        !(before.data_path@.len() == 0 && (s.save->0).len() > 0 && (s.save->0)[0] == CompView::Root),
        s.patch is Some <==> s.version is Some,
        s.patch is Some ==> supports_game(lib, s.patch->0, s.version->0, s.game->0),
        opt_text(after.last_family) == s.family,
        match after.last_game {
            Some((f, v)) => s.game == Some((f@, v)),
            None => s.game is None,
        },
        forall|k: Seq<char>| #[trigger] memo_str(after.last_save_per_family@, k) == persisted_save_memo(before, s, k),
        forall|k: Seq<char>| #[trigger] patch_memory(after, k) == persisted_patch_memo(before, s, k),
        after.data_path == before.data_path,
    ensures
        restored(after, lib, no_selection()) == s,
{
    let g = s.game->0;
    let p = s.save->0;
    let rel = rel_of(before, p)->0;
    assert(family_known(lib, g.0)) by {
        let i = choose|i: int| 0 <= i < lib.registry@.len() && (#[trigger] lib.registry@[i]).game@ == g;
        assert(lib.registry@[i].game@.0 == g.0);
    }
    assert(memo_str(after.last_save_per_family@, g.0) == Some(rel));
    crate::config::law_data_relative_roundtrip(before.data_path@, p);
    assert(abs_of(after, rel) == p);
    assert(patch_memory(after, rel) == Some(overlay_of(s)));
}

/// The overlay follows the save: once a selection is persisted, picking
/// its save again, from any selection, brings back the overlay it was
/// recorded with (no patch, if it ran unpatched).
pub proof fn law_overlay_follows_the_save(before: Config, after: Config, lib: LibraryIndex, s: SelView, other: SelView)
    requires
        s.game is Some,
        s.save is Some,
        rel_of(before, s.save->0) is Some,
        s.patch is Some <==> s.version is Some,
        s.patch is Some ==> supports_game(lib, s.patch->0, s.version->0, s.game->0),
        forall|k: Seq<char>| #[trigger] patch_memory(after, k) == persisted_patch_memo(before, s, k),
        after.data_path == before.data_path,
    ensures
        overlay_of(picked_save(after, lib, other, s.game->0, s.save->0)) == overlay_of(s),
{
    let rel = rel_of(before, s.save->0)->0;
    assert(rel_of(after, s.save->0) == Some(rel));
    assert(patch_memory(after, rel) == Some(overlay_of(s)));
}

/// An explicitly picked patch wins: it is always kept, and a game that
/// stays selected is one the picked version supports (otherwise the save
/// and its game are dropped instead).
pub proof fn law_picked_patch_wins(cfg: Config, lib: LibraryIndex, s: SelView, name: Seq<char>)
    ensures
        picked_patch(cfg, lib, s, Some(name)).patch == Some(name),
        picked_patch(cfg, lib, s, Some(name)).game matches Some(g) ==> (picked_patch(cfg, lib, s, Some(name)).version matches Some(v)
            && supports_game(lib, name, v, g)),
{
    if let Some(g) = s.game {
        if newest(lib, name, Some(g)) is Some {
            lemma_newest_supports(lib, name, g);
        }
    }
}

/// After a reconcile the selection holds only what the library still
/// has: a game whose ROM is owned, a save scanned for it, and a patch
/// that is installed (or none); with no owned game, nothing at all.
pub proof fn law_reconcile_keeps_only_what_remains(cfg: Config, lib: LibraryIndex, s: SelView)
    ensures
        reconciled(cfg, lib, s).game is None ==> reconciled(cfg, lib, s) == no_selection(),
        reconciled(cfg, lib, s).game matches Some(g) ==> owns(lib, g) && (reconciled(cfg, lib, s).save matches Some(p)
            ==> has_save(lib, g, p)),
        patch_is_ready(lib, reconciled(cfg, lib, s)),
{
    if let Some(g) = s.game {
        if owns(lib, g) {
            let s1 = SelView { family: Some(g.0), ..s };
            let s3 = SelView { save: remembered_save(cfg, lib, g), ..s1 };
            lemma_remembered_is_scanned(cfg, lib, g);
            lemma_memory_keeps_identity(cfg, lib, s3);
        }
    }
}

pub open spec fn opt_path(p: Option<StorePath>) -> Option<Seq<CompView>> {
    match p {
        Some(x) => Some(x@),
        None => None,
    }
}

pub open spec fn opt_text(t: Option<String>) -> Option<Seq<char>> {
    match t {
        Some(x) => Some(x@),
        None => None,
    }
}

/// The remembered save of `g`'s family if `g` still has it, else `g`'s
/// first save.
fn remembered_save_for_game(cfg: &Config, lib: &LibraryIndex, g: &GameId) -> (r: Option<StorePath>)
    ensures
        opt_path(r) == remembered_save(*cfg, *lib, g@),
{
    let saves = lib.saves_for(g);
    match last_save_for(cfg, g.family.as_str()) {
        Some(rel) => {
            let abs = cfg.data_relative_to_absolute(rel.as_str());
            if lib.holds_save(g, &abs) {
                return Some(abs);
            }
        },
        None => {},
    }
    if saves.len() > 0 {
        assert(paths_of(saves@)[0] == saves@[0]@);
        Some(saves[0].copy())
    } else {
        None
    }
}

/// The save to land on after picking `family`.
fn resolve_family_save_for(cfg: &Config, lib: &LibraryIndex, family: &str) -> (r: Option<(GameId, StorePath)>)
    ensures
        match r {
            Some((g, p)) => resolve_family_save(*cfg, *lib, family@) == Some((g@, p@)),
            None => resolve_family_save(*cfg, *lib, family@) is None,
        },
{
    match last_save_for(cfg, family) {
        Some(rel) => {
            let abs = cfg.data_relative_to_absolute(rel.as_str());
            let mut i: usize = 0;
            assert(lib.registry@.skip(0) =~= lib.registry@);
            while i < lib.registry.len()
                invariant
                    i <= lib.registry@.len(),
                    memo_str(cfg.last_save_per_family@, family@) == Some(rel@),
                    abs@ == abs_of(*cfg, rel@),
                    first_game_with(*lib, lib.registry@, family@, abs@) == first_game_with(
                        *lib,
                        lib.registry@.skip(i as int),
                        family@,
                        abs@,
                    ),
                decreases lib.registry@.len() - i,
            {
                let ghost rest = lib.registry@.skip(i as int);
                assert(rest[0] == lib.registry@[i as int]);
                let g = &lib.registry[i].game;
                if str_eq(g.family.as_str(), family) && lib.owns_rom(g) && lib.holds_save(g, &abs) {
                    return Some((crate::loadout::copy_game(g), abs));
                }
                assert(rest.drop_first() =~= lib.registry@.skip(i + 1));
                i = i + 1;
            }
            assert(lib.registry@.skip(i as int).len() == 0);
        },
        None => {},
    }
    first_available_family_save(lib, family)
}

/// Why a selection could not be made or launched.
#[derive(Debug, PartialEq, Eq)]
pub enum Error {
    /// No game is selected.
    MissingGame,
    /// No save is selected.
    MissingSave,
    /// This build does not support the family and variant.
    UnknownGame(String, u8),
    /// The match settings carry no game.
    MissingGameInfo,
    /// This build simulates the family differently from the peer.
    SimulationVersion(String),
    /// Reading the save failed.
    Io(crate::storage::StorageError),
}

/// What the user is bringing to a session: a game family, the concrete
/// game and save picked within it, and an optional patch overlay.
///
/// Fields change only through the methods below, which keep game, save
/// and patch consistent with each other and with the library.
#[derive(Clone, Debug, PartialEq, Eq)]
pub struct Selection {
    family: Option<String>,
    game: Option<GameId>,
    save: Option<StorePath>,
    patch: Option<String>,
    /// `None` with a patch named when no version of it resolves; such a
    /// selection is never patch-ready.
    patch_version: Option<semver::Version>,
}

impl View for Selection {
    type V = SelView;

    closed spec fn view(&self) -> SelView {
        SelView {
            family: opt_text(self.family),
            game: crate::loadout::opt_game(self.game),
            save: opt_path(self.save),
            patch: opt_text(self.patch),
            version: self.patch_version,
        }
    }
}

impl Default for Selection {
    fn default() -> (r: Selection)
        ensures
            r@ == no_selection(),
    {
        Selection { family: None, game: None, save: None, patch: None, patch_version: None }
    }
}


impl Selection {
    /// The picked family.
    pub fn family(&self) -> (r: Option<&str>)
        ensures
            match r {
                Some(f) => self@.family == Some(f@),
                None => self@.family is None,
            },
    {
        match &self.family {
            Some(f) => Some(f.as_str()),
            None => None,
        }
    }

    /// The concrete game, which the picked save resolves.
    pub fn game(&self) -> (r: Option<&GameId>)
        ensures
            crate::loadout::opt_game(match r {
                Some(g) => Some(*g),
                None => None,
            }) == self@.game,
    {
        match &self.game {
            Some(g) => Some(g),
            None => None,
        }
    }

    /// The picked save.
    pub fn save(&self) -> (r: Option<&StorePath>)
        ensures
            match r {
                Some(p) => self@.save == Some(p@),
                None => self@.save is None,
            },
    {
        match &self.save {
            Some(p) => Some(p),
            None => None,
        }
    }

    /// The overlay's patch name.
    pub fn patch_name(&self) -> (r: Option<&str>)
        ensures
            match r {
                Some(n) => self@.patch == Some(n@),
                None => self@.patch is None,
            },
    {
        match &self.patch {
            Some(n) => Some(n.as_str()),
            None => None,
        }
    }

    /// The overlay's version.
    pub fn patch_version(&self) -> (r: Option<&semver::Version>)
        ensures
            match r {
                Some(v) => self@.version == Some(*v),
                None => self@.version is None,
            },
    {
        match &self.patch_version {
            Some(v) => Some(v),
            None => None,
        }
    }

    /// The patch overlay, when both its name and version are chosen.
    pub fn patch(&self) -> (r: Option<(&str, &semver::Version)>)
        ensures
            match r {
                Some((n, v)) => overlay_of(self@) == Some((n@, *v)),
                None => overlay_of(self@) is None,
            },
    {
        match (&self.patch, &self.patch_version) {
            (Some(n), Some(v)) => Some((n.as_str(), v)),
            _ => None,
        }
    }

    /// Whether a game and a save are both picked.
    pub fn is_playable(&self) -> (r: bool)
        ensures
            r == (self@.game is Some && self@.save is Some),
    {
        self.game.is_some() && self.save.is_some()
    }

    /// Keep the overlay only if it can run the current game.
    fn retain_patch_for_game(&mut self, lib: &LibraryIndex)
        ensures
            final(self)@ == retained(*lib, old(self)@),
    {
        let (name, game) = match (&self.patch, &self.game) {
            (Some(n), Some(g)) => (n.clone(), crate::loadout::copy_game(g)),
            _ => {
                return;
            },
        };
        let current_ok = match &self.patch_version {
            Some(v) => lib.supports(name.as_str(), v, &game),
            None => false,
        };
        if current_ok {
            return;
        }
        match lib.newest_version(name.as_str(), Some(&game)) {
            Some(v) => {
                self.patch_version = Some(v);
            },
            None => {
                self.patch = None;
                self.patch_version = None;
            },
        }
    }

    /// Apply the selected save's remembered overlay.
    fn restore_patch_memory(&mut self, cfg: &Config, lib: &LibraryIndex)
        ensures
            final(self)@ == with_patch_memory(*cfg, *lib, old(self)@),
    {
        let rel = match &self.save {
            Some(p) => cfg.data_relative_string(p),
            None => None,
        };
        let memory = match &rel {
            Some(r) => last_patch_for(cfg, r.as_str()),
            None => None,
        };
        match memory {
            Some(Some((name, version))) => {
                let supported = match &self.game {
                    Some(g) => lib.supports(name.as_str(), &version, g),
                    None => false,
                };
                if supported {
                    self.patch = Some(name);
                    self.patch_version = Some(version);
                } else {
                    self.retain_patch_for_game(lib);
                }
            },
            Some(None) => {
                self.patch = None;
                self.patch_version = None;
            },
            None => {
                self.retain_patch_for_game(lib);
            },
        }
    }

    /// Pick a save, which carries the concrete game it resolves to. The
    /// patch follows the save: its remembered overlay applies, and only a
    /// save with no memory inherits the current patch, kept only if it
    /// supports the new variant.
    pub fn pick_save(&mut self, game: GameId, path: StorePath, lib: &LibraryIndex, cfg: &Config)
        ensures
            final(self)@ == picked_save(*cfg, *lib, old(self)@, game@, path@),
    {
        self.family = Some(game.family.clone());
        self.game = Some(game);
        self.save = Some(path);
        self.restore_patch_memory(cfg, lib);
    }

    /// Switch families, landing on the family's remembered (or first
    /// available) save, which also fixes the concrete game; the landed
    /// save's own patch memory then has the last word.
    pub fn pick_family(&mut self, family: &str, lib: &LibraryIndex, cfg: &Config)
        ensures
            final(self)@ == picked_family(*cfg, *lib, old(self)@, family@),
    {
        self.family = Some(family.to_string());
        match resolve_family_save_for(cfg, lib, family) {
            Some((game, path)) => {
                self.game = Some(game);
                self.save = Some(path);
            },
            None => {
                self.game = None;
                self.save = None;
            },
        }
        self.patch = None;
        self.patch_version = None;
        self.restore_patch_memory(cfg, lib);
    }

    /// Switch to one concrete game, landing on its remembered (or first)
    /// save and that save's patch memory.
    pub fn pick_game(&mut self, game: GameId, lib: &LibraryIndex, cfg: &Config)
        ensures
            final(self)@ == picked_game(*cfg, *lib, old(self)@, game@),
    {
        self.family = Some(game.family.clone());
        self.save = remembered_save_for_game(cfg, lib, &game);
        self.game = Some(game);
        self.restore_patch_memory(cfg, lib);
    }

    /// Pick a patch by name (`None` for no patch), at its newest version
    /// supporting the current game. A patch the current save cannot run
    /// still wins: the save and its game are dropped, and the version is
    /// then the newest overall. With no save selected, the game's
    /// remembered (or first) save is landed on, keeping the picked patch.
    pub fn pick_patch(&mut self, name: Option<String>, lib: &LibraryIndex, cfg: &Config)
        ensures
            final(self)@ == picked_patch(*cfg, *lib, old(self)@, opt_text(name)),
    {
        match name {
            None => {
                self.patch = None;
                self.patch_version = None;
            },
            Some(name) => {
                let mut version = match &self.game {
                    Some(g) => lib.newest_version(name.as_str(), Some(g)),
                    None => lib.newest_version(name.as_str(), None),
                };
                if self.game.is_some() && version.is_none() {
                    self.save = None;
                    self.game = None;
                    version = lib.newest_version(name.as_str(), None);
                }
                self.patch_version = version;
                self.patch = Some(name);
            },
        }
        if self.save.is_none() {
            let landed = match &self.game {
                Some(g) => Some(remembered_save_for_game(cfg, lib, g)),
                None => None,
            };
            if let Some(save) = landed {
                self.save = save;
            }
        }
    }

    /// Pick a version of the current patch.
    pub fn pick_patch_version(&mut self, version: semver::Version)
        ensures
            final(self)@ == (SelView { version: Some(version), ..old(self)@ }),
    {
        self.patch_version = Some(version);
    }

    /// Whether the selected overlay supports `game`; true when no patch
    /// version is selected, or it lists no games.
    pub fn patch_supports(&self, lib: &LibraryIndex, game: &GameId) -> (r: bool)
        ensures
            r == overlay_supports(*lib, self@, game@),
    {
        match (&self.patch, &self.patch_version) {
            (Some(n), Some(v)) => lib.supports_nothing(n.as_str(), v) || lib.supports(n.as_str(), v, game),
            _ => true,
        }
    }

    /// Adopt a save just created for `game` from a template. The overlay
    /// is dropped only if it cannot run the created variant; the save's
    /// own memory is not consulted.
    pub fn adopt_created_save(&mut self, game: GameId, path: StorePath, lib: &LibraryIndex)
        ensures
            final(self)@ == adopted(*lib, old(self)@, game@, path@),
    {
        if !self.patch_supports(lib, &game) {
            self.patch = None;
            self.patch_version = None;
        }
        self.family = Some(game.family.clone());
        self.game = Some(game);
        self.save = Some(path);
    }

    /// The selected save's file was renamed, or duplicated and the copy
    /// is taking over: point at `path`, keeping the game and patch.
    pub fn follow_save_file(&mut self, path: StorePath)
        ensures
            final(self)@ == (SelView { save: Some(path@), ..old(self)@ }),
    {
        self.save = Some(path);
    }

    /// Drop the save, keeping the family, game and patch.
    pub fn clear_save(&mut self)
        ensures
            final(self)@ == (SelView { save: None, ..old(self)@ }),
    {
        self.save = None;
    }

    /// With no save selected, land on the first available save anywhere
    /// in the family, fixing the game to whatever that save resolves to.
    pub fn pick_first_family_save(&mut self, lib: &LibraryIndex, cfg: &Config)
        ensures
            final(self)@ == first_family_save_picked(*cfg, *lib, old(self)@),
    {
        if self.save.is_some() {
            return;
        }
        let found = match &self.family {
            Some(f) => first_available_family_save(lib, f.as_str()),
            None => None,
        };
        if let Some((game, path)) = found {
            self.pick_save(game, path, lib, cfg);
        }
    }

    /// Whether the selected patch is installed: false while no version of
    /// it resolves or it is not installed, true with no patch selected.
    pub fn patch_ready(&self, lib: &LibraryIndex) -> (r: bool)
        ensures
            r == patch_is_ready(*lib, self@),
    {
        match (&self.patch, &self.patch_version) {
            (None, _) => true,
            (Some(n), Some(v)) => lib.is_installed(n.as_str(), v),
            (Some(_), None) => false,
        }
    }

    /// Bring back the selection a persist recorded. The family needs no
    /// scan and comes back whenever none is picked yet; the game, its save
    /// and that save's overlay each have to still be in the library, so a
    /// host calls this again once its first scan lands.
    pub fn restore(&mut self, cfg: &Config, lib: &LibraryIndex)
        ensures
            final(self)@ == restored(*cfg, *lib, old(self)@),
    {
        if self.family.is_none() {
            let from_family = match &cfg.last_family {
                Some(f) => if lib.knows_family(f.as_str()) {
                    Some(f.clone())
                } else {
                    None
                },
                None => None,
            };
            self.family = match from_family {
                Some(f) => Some(f),
                None => match &cfg.last_game {
                    Some((f, _)) => if lib.knows_family(f.as_str()) {
                        Some(f.clone())
                    } else {
                        None
                    },
                    None => None,
                },
            };
        }
        let game = match &cfg.last_game {
            Some((f, v)) => GameId { family: f.clone(), variant: *v },
            None => {
                return;
            },
        };
        if !lib.is_registered(&game) || !lib.owns_rom(&game) {
            return;
        }
        self.family = Some(game.family.clone());
        self.game = Some(crate::loadout::copy_game(&game));
        let rel = match last_save_for(cfg, game.family.as_str()) {
            Some(r) => r,
            None => {
                return;
            },
        };
        let abs = cfg.data_relative_to_absolute(rel.as_str());
        if !lib.holds_save(&game, &abs) {
            return;
        }
        self.save = Some(abs);
        match last_patch_for(cfg, rel.as_str()) {
            Some(Some((name, version))) => {
                if lib.supports(name.as_str(), &version, &game) {
                    self.patch = Some(name);
                    self.patch_version = Some(version);
                }
            },
            _ => {},
        }
    }

    /// Record the selection in `cfg` so the next launch restores it: the
    /// family and game, the save per family, and the overlay per save.
    pub fn persist(&self, cfg: &mut Config)
        ensures
            opt_text(final(cfg).last_family) == self@.family,
            match final(cfg).last_game {
                Some((f, v)) => self@.game == Some((f@, v)),
                None => self@.game is None,
            },
            forall|k: Seq<char>| #[trigger] memo_str(final(cfg).last_save_per_family@, k) == persisted_save_memo(*old(cfg), self@, k),
            forall|k: Seq<char>| #[trigger] patch_memory(*final(cfg), k) == persisted_patch_memo(*old(cfg), self@, k),
            final(cfg).data_path == old(cfg).data_path,
            final(cfg).matchmaking_endpoint == old(cfg).matchmaking_endpoint,
            final(cfg).patch_repo == old(cfg).patch_repo,
            final(cfg).last_match_type_per_family == old(cfg).last_match_type_per_family,
            final(cfg).favorite_patches == old(cfg).favorite_patches,
            final(cfg).cache_dir == old(cfg).cache_dir,
    {
        cfg.last_family = match &self.family {
            Some(f) => Some(f.clone()),
            None => None,
        };
        cfg.last_game = match &self.game {
            Some(g) => Some((g.family.clone(), g.variant)),
            None => None,
        };
        let ghost before = *cfg;
        let (game, path) = match (&self.game, &self.save) {
            (Some(g), Some(p)) => (g, p),
            _ => {
                return;
            },
        };
        let rel = match cfg.data_relative_string(path) {
            Some(r) => r,
            None => {
                return;
            },
        };
        memo_insert(&mut cfg.last_save_per_family, game.family.clone(), rel.clone());
        let overlay = match (&self.patch, &self.patch_version) {
            (Some(n), Some(v)) => Some((n.clone(), clone_version(v))),
            _ => None,
        };
        let ghost ov = overlay;
        memo_insert(&mut cfg.last_patch_per_save, rel, overlay);
        assert(patch_memo_view(Some(ov)) == Some(overlay_of(self@)));
    }

    /// The game this selection advertises; `None` with no game picked, or
    /// one this build does not support.
    pub fn game_info(&self, lib: &LibraryIndex) -> (r: Option<GameInfo>)
        ensures
            match r {
                Some(i) => info_of(*lib, self@) == Some(i@),
                None => info_of(*lib, self@) is None,
            },
    {
        let game = match &self.game {
            Some(g) => g,
            None => {
                return None;
            },
        };
        let sim = match lib.sim_version(game) {
            Some(s) => s,
            None => {
                return None;
            },
        };
        let patch = match (&self.patch, &self.patch_version) {
            (Some(n), Some(v)) => Some(PatchInfo { name: n.clone(), version: clone_version(v) }),
            _ => None,
        };
        Some(GameInfo { family_and_variant: (game.family.clone(), game.variant), patch, sim_version: sim })
    }

    /// The selection a peer committed to, with no save of ours attached.
    /// A game this build does not support, or simulates differently, is
    /// refused.
    pub fn from_game_info(info: &GameInfo, lib: &LibraryIndex) -> (r: Result<Selection, Error>)
        ensures
            match crate::loadout::sim_of(*lib, (info@.family, info@.variant)) {
                None => r matches Err(Error::UnknownGame(f, v)) && f@ == info@.family && v == info@.variant,
                Some(sim) => if sim != info.sim_version {
                    r matches Err(Error::SimulationVersion(f)) && f@ == info@.family
                } else {
                    r matches Ok(sel) && sel@ == from_info(info@)
                },
            },
    {
        let game = GameId { family: info.family_and_variant.0.clone(), variant: info.family_and_variant.1 };
        match lib.sim_version(&game) {
            None => Err(Error::UnknownGame(info.family_and_variant.0.clone(), info.family_and_variant.1)),
            Some(sim) => {
                if sim != info.sim_version {
                    return Err(Error::SimulationVersion(info.family_and_variant.0.clone()));
                }
                let (patch, patch_version) = match &info.patch {
                    Some(p) => (Some(p.name.clone()), Some(clone_version(&p.version))),
                    None => (None, None),
                };
                Ok(Selection {
                    family: Some(info.family_and_variant.0.clone()),
                    game: Some(game),
                    save: None,
                    patch,
                    patch_version,
                })
            },
        }
    }

    /// The games the selected overlay supports, or `None` when no patch
    /// version is selected or it lists none, meaning "don't filter".
    pub fn patch_supported_games(&self, lib: &LibraryIndex) -> (r: Option<Vec<GameId>>)
        ensures
            match r {
                Some(gs) => overlay_games(*lib, self@) == Some(games_view(gs@)),
                None => overlay_games(*lib, self@) is None,
            },
    {
        let (name, version) = match (&self.patch, &self.patch_version) {
            (Some(n), Some(v)) => (n, v),
            _ => {
                return None;
            },
        };
        match lib.info(name.as_str(), version) {
            Some((p, k)) => {
                let games = &lib.patches[p].versions[k].games;
                if games.len() == 0 {
                    return None;
                }
                let mut out: Vec<GameId> = Vec::new();
                let mut i: usize = 0;
                while i < games.len()
                    invariant
                        i <= games@.len(),
                        games_view(out@) == games_view(games@).take(i as int),
                    decreases games@.len() - i,
                {
                    let ghost before = out@;
                    out.push(crate::loadout::copy_game(&games[i]));
                    assert(games_view(out@) =~= games_view(before).push(games@[i as int]@));
                    i = i + 1;
                    assert(games_view(out@) =~= games_view(games@).take(i as int));
                }
                assert(games_view(games@).take(i as int) =~= games_view(games@));
                Some(out)
            },
            None => None,
        }
    }

    /// The game and save bytes a launch boots from: `snapshot` when the
    /// session committed one, else the selected save as stored. A missing
    /// game or save is refused before anything is read.
    pub fn launch_bytes<S: crate::storage::Storage>(&self, snapshot: Option<&[u8]>, storage: &S) -> (r: Result<(GameId, Vec<u8>), Error>)
        ensures
            self@.game is None ==> r matches Err(Error::MissingGame),
            self@.game is Some && snapshot is Some ==> (r matches Ok((g, b)) && g@ == self@.game->0 && b@ == snapshot->0@),
            self@.game is Some && snapshot is None && self@.save is None ==> r matches Err(Error::MissingSave),
            self@.game is Some && snapshot is None && self@.save is Some ==> {
                &&& (r matches Ok((g, b)) ==> g@ == self@.game->0 && storage.files().contains_key(self@.save->0)
                    && b@ == storage.files()[self@.save->0])
                &&& r is Err ==> r matches Err(Error::Io(_))
            },
    {
        let game = match &self.game {
            Some(g) => crate::loadout::copy_game(g),
            None => {
                return Err(Error::MissingGame);
            },
        };
        match snapshot {
            Some(bytes) => Ok((game, crate::storage::slice_to_vec(bytes))),
            None => {
                let path = match &self.save {
                    Some(p) => p,
                    None => {
                        return Err(Error::MissingSave);
                    },
                };
                match storage.read(path) {
                    Ok(bytes) => Ok((game, bytes)),
                    Err(e) => Err(Error::Io(e)),
                }
            },
        }
    }

    /// Re-validate after a rescan: a game whose ROM is gone clears
    /// everything, a save that is gone falls back to the game's
    /// remembered (or first) save, and a patch that is not installed is
    /// dropped.
    pub fn reconcile(&mut self, lib: &LibraryIndex, cfg: &Config)
        ensures
            final(self)@ == reconciled(*cfg, *lib, old(self)@),
    {
        let game = match &self.game {
            Some(g) => {
                if lib.owns_rom(g) {
                    crate::loadout::copy_game(g)
                } else {
                    *self = Selection::default();
                    return;
                }
            },
            None => {
                *self = Selection::default();
                return;
            },
        };
        self.family = Some(game.family.clone());
        let kept = match &self.save {
            Some(p) => lib.holds_save(&game, p),
            None => false,
        };
        if !kept {
            self.save = remembered_save_for_game(cfg, lib, &game);
            self.restore_patch_memory(cfg, lib);
        }
        if !self.patch_ready(lib) {
            self.patch = None;
            self.patch_version = None;
        }
    }
}

pub open spec fn cand_view(v: Seq<(GameId, StorePath)>) -> Seq<(GameKey, Seq<CompView>)> {
    Seq::new(v.len(), |i: int| (v[i].0@, v[i].1@))
}

/// Whether save `a` comes before save `b` in the picker.
pub(crate) fn picker_less(a: &StorePath, b: &StorePath) -> (r: bool)
    ensures
        r == picker_lt(a@, b@),
{
    let sa = a.file_stem();
    let sb = b.file_stem();
    let stem_less = match (&sa, &sb) {
        (None, Some(_)) => true,
        (Some(x), Some(y)) => str_lt(x.as_str(), y.as_str()),
        _ => false,
    };
    if stem_less {
        return true;
    }
    let same_stem = match (&sa, &sb) {
        (None, None) => true,
        (Some(x), Some(y)) => str_eq(x.as_str(), y.as_str()),
        _ => false,
    };
    same_stem && store_path_lt(a, b)
}

/// Every save of an owned game of `family`, game by game in registry
/// order, each with its game.
fn family_candidates(lib: &LibraryIndex, family: &str) -> (r: Vec<(GameId, StorePath)>)
    ensures
        cand_view(r@) == candidates(*lib, family@),
{
    let mut out: Vec<(GameId, StorePath)> = Vec::new();
    let mut i: usize = 0;
    while i < lib.registry.len()
        invariant
            i <= lib.registry@.len(),
            cand_view(out@) == candidates_in(*lib, lib.registry@.take(i as int), family@),
        decreases lib.registry@.len() - i,
    {
        let ghost t = lib.registry@.take(i + 1);
        assert(t.drop_last() =~= lib.registry@.take(i as int));
        assert(t.last() == lib.registry@[i as int]);
        let g = &lib.registry[i].game;
        if str_eq(g.family.as_str(), family) && lib.owns_rom(g) {
            let saves = lib.saves_for(g);
            let ghost base = cand_view(out@);
            let mut k: usize = 0;
            while k < saves.len()
                invariant
                    k <= saves@.len(),
                    g@.0 == family@,
                    paths_of(saves@) == saves_of(*lib, g@),
                    cand_view(out@) == base + paired(g@, paths_of(saves@)).take(k as int),
                decreases saves@.len() - k,
            {
                let ghost before = cand_view(out@);
                out.push((crate::loadout::copy_game(g), saves[k].copy()));
                assert(cand_view(out@) =~= before.push((g@, saves@[k as int]@)));
                k = k + 1;
                assert(cand_view(out@) =~= base + paired(g@, paths_of(saves@)).take(k as int));
            }
            assert(paired(g@, paths_of(saves@)).take(k as int) =~= paired(g@, paths_of(saves@)));
        }
        i = i + 1;
    }
    assert(lib.registry@.take(i as int) =~= lib.registry@);
    out
}

/// The first owned save of `family` in picker order, with its game.
fn first_available_family_save(lib: &LibraryIndex, family: &str) -> (r: Option<(GameId, StorePath)>)
    ensures
        match r {
            Some((g, p)) => first_available(*lib, family@) == Some((g@, p@)),
            None => first_available(*lib, family@) is None,
        },
{
    let mut cands = family_candidates(lib, family);
    let ghost c = candidates(*lib, family@);
    if cands.len() == 0 {
        assert forall|i: int| !first_pick(c, i) by {}
        return None;
    }
    let mut best: usize = 0;
    let mut n: usize = 1;
    assert(cands@[0].1@ == c[0].1);
    proof { lemma_picker_irreflexive(c[0].1); }
    while n < cands.len()
        invariant
            1 <= n <= cands@.len(),
            best < n,
            cand_view(cands@) == c,
            first_pick(c.take(n as int), best as int),
        decreases cands@.len() - n,
    {
        let ghost t = c.take(n as int);
        let ghost t1 = c.take(n + 1);
        assert(cands@[n as int].1@ == c[n as int].1);
        assert(cands@[best as int].1@ == c[best as int].1);
        assert(t[best as int] == c[best as int]);
        if picker_less(&cands[n].1, &cands[best].1) {
            proof {
                let e = c[n as int].1;
                assert forall|j: int| 0 <= j < t1.len() implies !picker_lt(#[trigger] t1[j].1, t1[n as int].1) by {
                    if j < n {
                        assert(t1[j] == t[j]);
                        if picker_lt(t1[j].1, e) {
                            lemma_picker_transitive(t1[j].1, e, c[best as int].1);
                        }
                    } else {
                        lemma_picker_irreflexive(e);
                    }
                }
                assert forall|j: int| 0 <= j < n implies picker_lt(t1[n as int].1, #[trigger] t1[j].1) by {
                    assert(t1[j] == t[j]);
                    if t[j].1 == e {
                    } else {
                        lemma_picker_total(e, t[j].1);
                        if picker_lt(t[j].1, e) {
                            lemma_picker_transitive(t[j].1, e, c[best as int].1);
                        }
                    }
                }
            }
            best = n;
        } else {
            proof {
                assert forall|j: int| 0 <= j < t1.len() implies !picker_lt(#[trigger] t1[j].1, t1[best as int].1) by {
                    if j < n {
                        assert(t1[j] == t[j]);
                    }
                }
                assert forall|j: int| 0 <= j < best implies picker_lt(t1[best as int].1, #[trigger] t1[j].1) by {
                    assert(t1[j] == t[j]);
                }
            }
        }
        n = n + 1;
    }
    assert(c.take(n as int) =~= c);
    proof {
        assert(first_pick(c, best as int));
        let k = choose|i: int| first_pick(c, i);
        lemma_first_pick_unique(c, best as int, k);
    }
    let (g, p) = cands.swap_remove(best);
    Some((g, p))
}

} // verus!
