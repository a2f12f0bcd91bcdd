//! What the loadout pickers offer, and the library facts they read.
pub mod selection;

use vstd::prelude::*;
use crate::order::{lex_lt, str_lt, lemma_lex_total, lemma_lex_asymmetric, lemma_lex_transitive};
use crate::text::str_eq;
use crate::paths::{StorePath, CompView};
use crate::lobby::protocol::{clone_version, version_eq, semver_before};

verus! {

/// A game, as patches name the games they support: its family and variant.
#[derive(Clone, Debug, PartialEq, Eq, Hash)]
pub struct GameId {
    pub family: String,
    pub variant: u8,
}

impl View for GameId {
    type V = (Seq<char>, u8);

    open spec fn view(&self) -> (Seq<char>, u8) {
        (self.family@, self.variant)
    }
}

/// A patch in the catalog, installed or only indexed: its name and, for
/// each of its versions, the games that version supports.
pub struct PatchOffer {
    pub name: String,
    pub versions: Vec<Vec<GameId>>,
}

pub open spec fn games_view(v: Seq<GameId>) -> Seq<(Seq<char>, u8)> {
    Seq::new(v.len(), |i: int| v[i]@)
}

pub open spec fn versions_view(v: Seq<Vec<GameId>>) -> Seq<Seq<(Seq<char>, u8)>> {
    Seq::new(v.len(), |i: int| games_view(v[i]@))
}

/// Whether some version supports one of `games`.
pub open spec fn supports_any(versions: Seq<Seq<(Seq<char>, u8)>>, games: Seq<(Seq<char>, u8)>) -> bool {
    exists|v: int, g: int| 0 <= v < versions.len() && 0 <= g < games.len() && #[trigger] versions[v].contains(#[trigger] games[g])
}

/// Whether the patch `name` is offered for `games`.
pub open spec fn offered(offers: Seq<PatchOffer>, games: Seq<(Seq<char>, u8)>, name: Seq<char>) -> bool {
    exists|i: int| 0 <= i < offers.len() && (#[trigger] offers[i]).name@ == name && supports_any(versions_view(offers[i].versions@), games)
}

/// Whether `name` is among `v`.
pub open spec fn holds_name(v: Seq<String>, name: Seq<char>) -> bool {
    exists|k: int| 0 <= k < v.len() && (#[trigger] v[k])@ == name
}

pub open spec fn favored(favorites: Seq<String>, name: Seq<char>) -> bool {
    exists|i: int| 0 <= i < favorites.len() && (#[trigger] favorites[i])@ == name
}

/// The picker order: favorites first, alphabetical within each group.
pub open spec fn picked_before(favorites: Seq<String>, a: Seq<char>, b: Seq<char>) -> bool {
    (favored(favorites, a) && !favored(favorites, b)) || (favored(favorites, a) == favored(favorites, b)
        && lex_lt(a, b))
}

proof fn lemma_before_total(f: Seq<String>, a: Seq<char>, b: Seq<char>)
    requires
        a != b,
    ensures
        picked_before(f, a, b) || picked_before(f, b, a),
{
    lemma_lex_total(a, b);
}

proof fn lemma_before_transitive(f: Seq<String>, a: Seq<char>, b: Seq<char>, c: Seq<char>)
    requires
        picked_before(f, a, b),
        picked_before(f, b, c),
    ensures
        picked_before(f, a, c),
{
    if favored(f, a) == favored(f, b) && favored(f, b) == favored(f, c) {
        lemma_lex_transitive(a, b, c);
    }
}

fn is_favored(favorites: &[String], name: &String) -> (r: bool)
    ensures
        r == favored(favorites@, name@),
{
    let mut i: usize = 0;
    while i < favorites.len()
        invariant
            i <= favorites@.len(),
            forall|k: int| 0 <= k < i ==> (#[trigger] favorites@[k])@ != name@,
        decreases favorites@.len() - i,
    {
        if str_eq(favorites[i].as_str(), name.as_str()) {
            return true;
        }
        i = i + 1;
    }
    false
}

fn before(favorites: &[String], a: &String, b: &String) -> (r: bool)
    ensures
        r == picked_before(favorites@, a@, b@),
{
    let fa = is_favored(favorites, a);
    let fb = is_favored(favorites, b);
    if fa != fb {
        fa
    } else {
        str_lt(a.as_str(), b.as_str())
    }
}

fn supports(offer: &PatchOffer, games: &[GameId]) -> (r: bool)
    ensures
        r == supports_any(versions_view(offer.versions@), games_view(games@)),
{
    let ghost vs = versions_view(offer.versions@);
    let ghost gs = games_view(games@);
    let mut v: usize = 0;
    while v < offer.versions.len()
        invariant
            v <= offer.versions@.len(),
            vs == versions_view(offer.versions@),
            gs == games_view(games@),
            forall|a: int, g: int| 0 <= a < v && 0 <= g < gs.len() ==> !#[trigger] vs[a].contains(#[trigger] gs[g]),
        decreases offer.versions@.len() - v,
    {
        let supported = &offer.versions[v];
        let mut g: usize = 0;
        while g < games.len()
            invariant
                g <= games@.len(),
                v < offer.versions@.len(),
                vs == versions_view(offer.versions@),
                gs == games_view(games@),
                supported@ == offer.versions@[v as int]@,
                forall|b: int| 0 <= b < g ==> !#[trigger] vs[v as int].contains(gs[b]),
            decreases games@.len() - g,
        {
            let mut k: usize = 0;
            let mut found = false;
            while k < supported.len()
                invariant
                    k <= supported@.len(),
                    g < games@.len(),
                    v < offer.versions@.len(),
                    vs == versions_view(offer.versions@),
                    gs == games_view(games@),
                    supported@ == offer.versions@[v as int]@,
                    found == exists|t: int| 0 <= t < k && #[trigger] vs[v as int][t] == gs[g as int],
                decreases supported@.len() - k,
            {
                if str_eq(supported[k].family.as_str(), games[g].family.as_str()) && supported[k].variant
                    == games[g].variant {
                    assert(vs[v as int][k as int] == gs[g as int]);
                    found = true;
                }
                k = k + 1;
            }
            if found {
                let ghost t = choose|t: int| 0 <= t < k && #[trigger] vs[v as int][t] == gs[g as int];
                assert(vs[v as int].contains(gs[g as int]));
                return true;
            }
            assert(!vs[v as int].contains(gs[g as int])) by {
                if vs[v as int].contains(gs[g as int]) {
                    let t = choose|t: int| 0 <= t < vs[v as int].len() && vs[v as int][t] == gs[g as int];
                }
            }
            g = g + 1;
        }
        v = v + 1;
    }
    false
}

/// Patch names the picker offers for `games`: every patch, installed or
/// merely indexed, with a version supporting any of them, each once.
/// Favorites sort first, alphabetical within each group.
pub fn patch_names_for(patches: &[PatchOffer], games: &[GameId], favorites: &[String]) -> (r: Vec<String>)
    ensures
        forall|i: int, j: int| 0 <= i < j < r@.len() ==> picked_before(favorites@, #[trigger] r@[i]@, #[trigger] r@[j]@),
        forall|n: Seq<char>| #[trigger] holds_name(r@, n) <==> offered(patches@, games_view(games@), n),
{
    let ghost gs = games_view(games@);
    let mut out: Vec<String> = Vec::new();
    let mut i: usize = 0;
    while i < patches.len()
        invariant
            i <= patches@.len(),
            gs == games_view(games@),
            forall|a: int, b: int| 0 <= a < b < out@.len() ==> picked_before(favorites@, #[trigger] out@[a]@, #[trigger] out@[b]@),
            forall|n: Seq<char>| #[trigger] holds_name(out@, n) <==> offered(patches@.take(i as int), gs, n),
        decreases patches@.len() - i,
    {
        let offer = &patches[i];
        let ghost before_out = out@;
        proof {
            assert forall|n: Seq<char>| offered(patches@.take(i + 1), gs, n) <==> (offered(patches@.take(i as int), gs, n)
                || (offer.name@ == n && supports_any(versions_view(offer.versions@), gs))) by {
                if offered(patches@.take(i + 1), gs, n) {
                    let t = choose|t: int| 0 <= t < patches@.take(i + 1).len() && (#[trigger] patches@.take(i + 1)[t]).name@ == n
                        && supports_any(versions_view(patches@.take(i + 1)[t].versions@), gs);
                    if t < i {
                        assert(patches@.take(i as int)[t] == patches@.take(i + 1)[t]);
                    }
                }
                if offered(patches@.take(i as int), gs, n) {
                    let t = choose|t: int| 0 <= t < patches@.take(i as int).len() && (#[trigger] patches@.take(i as int)[t]).name@ == n
                        && supports_any(versions_view(patches@.take(i as int)[t].versions@), gs);
                    assert(patches@.take(i + 1)[t] == patches@.take(i as int)[t]);
                }
                if offer.name@ == n && supports_any(versions_view(offer.versions@), gs) {
                    assert(patches@.take(i + 1)[i as int] == *offer);
                }
            }
        }
        if supports(offer, games) {
            let mut present = false;
            let mut k: usize = 0;
            while k < out.len()
                invariant
                    k <= out@.len(),
                    present == exists|t: int| 0 <= t < k && (#[trigger] out@[t])@ == offer.name@,
                decreases out@.len() - k,
            {
                if str_eq(out[k].as_str(), offer.name.as_str()) {
                    present = true;
                }
                k = k + 1;
            }
            if !present {
                let mut p: usize = 0;
                while p < out.len() && !before(favorites, &offer.name, &out[p])
                    invariant
                        p <= out@.len(),
                        forall|t: int| 0 <= t < p ==> !picked_before(favorites@, offer.name@, #[trigger] out@[t]@),
                    decreases out@.len() - p,
                {
                    p = p + 1;
                }
                let name = offer.name.clone();
                out.insert(p, name);
                proof {
                    let o = out@;
                    let nm = offer.name@;
                    assert(o == before_out.insert(p as int, name));
                    assert forall|a: int, b: int| 0 <= a < b < o.len() implies picked_before(favorites@, #[trigger] o[a]@, #[trigger] o[b]@) by {
                        if b < p {
                            assert(o[a] == before_out[a] && o[b] == before_out[b]);
                        } else if b == p {
                            assert(o[a] == before_out[a]);
                            assert(before_out[a]@ != nm);
                            lemma_before_total(favorites@, before_out[a]@, nm);
                        } else if a < p {
                            assert(o[a] == before_out[a] && o[b] == before_out[b - 1]);
                        } else if a == p {
                            assert(o[b] == before_out[b - 1]);
                            assert(picked_before(favorites@, nm, before_out[p as int]@));
                            if b - 1 > p {
                                lemma_before_transitive(favorites@, nm, before_out[p as int]@, before_out[b - 1]@);
                            }
                        } else {
                            assert(o[a] == before_out[a - 1] && o[b] == before_out[b - 1]);
                        }
                    }
                    assert forall|n: Seq<char>| #[trigger] holds_name(o, n) <==> holds_name(before_out, n) || n == nm by {
                        if holds_name(o, n) {
                            let k = choose|k: int| 0 <= k < o.len() && (#[trigger] o[k])@ == n;
                            if k < p {
                                assert(before_out[k] == o[k]);
                            } else if k > p {
                                assert(before_out[k - 1] == o[k]);
                            }
                        }
                        if holds_name(before_out, n) {
                            let k = choose|k: int| 0 <= k < before_out.len() && (#[trigger] before_out[k])@ == n;
                            if k < p {
                                assert(o[k] == before_out[k]);
                            } else {
                                assert(o[k + 1] == before_out[k]);
                            }
                        }
                        if n == nm {
                            assert(o[p as int]@ == nm);
                        }
                    }
                }
            } else {
                proof {
                    let t = choose|t: int| 0 <= t < out@.len() && (#[trigger] out@[t])@ == offer.name@;
                    assert(holds_name(out@, offer.name@));
                }
            }
            assert forall|n: Seq<char>| #[trigger] holds_name(out@, n) <==> offered(patches@.take(i + 1), gs, n) by {
                assert(holds_name(before_out, n) <==> offered(patches@.take(i as int), gs, n));
                if n == offer.name@ {
                    assert(offered(patches@.take(i + 1), gs, n));
                }
            }
        } else {
            assert forall|n: Seq<char>| #[trigger] holds_name(out@, n) <==> offered(patches@.take(i + 1), gs, n) by {
                assert(holds_name(before_out, n) <==> offered(patches@.take(i as int), gs, n));
            }
        }
        i = i + 1;
    }
    assert(patches@.take(i as int) =~= patches@);
    out
}

/// A game this build supports, with the way it simulates link battles.
pub struct RegisteredGame {
    pub game: GameId,
    pub sim_version: u32,
}

/// One version of a patch, as the catalog knows it: installed or only
/// indexed, and the games it supports.
pub struct PatchVersionInfo {
    pub version: semver::Version,
    pub installed: bool,
    pub games: Vec<GameId>,
}

/// A patch, with its versions oldest first.
pub struct PatchVersions {
    pub name: String,
    pub versions: Vec<PatchVersionInfo>,
}

/// What the selection policy reads of the library: the game registry
/// (family by family, in each family's own order), the ROMs owned, the
/// saves scanned for each game (in picker order), and the patch catalog.
pub struct LibraryIndex {
    pub registry: Vec<RegisteredGame>,
    pub roms: Vec<GameId>,
    pub saves: Vec<(GameId, Vec<StorePath>)>,
    pub patches: Vec<PatchVersions>,
}

pub open spec fn paths_of(v: Seq<StorePath>) -> Seq<Seq<CompView>> {
    Seq::new(v.len(), |i: int| v[i]@)
}

/// Whether the ROM for `g` is owned.
pub open spec fn owns(lib: LibraryIndex, g: (Seq<char>, u8)) -> bool {
    exists|i: int| 0 <= i < lib.roms@.len() && (#[trigger] lib.roms@[i])@ == g
}

/// Whether `g` is a game this build supports.
pub open spec fn registered(lib: LibraryIndex, g: (Seq<char>, u8)) -> bool {
    exists|i: int| 0 <= i < lib.registry@.len() && (#[trigger] lib.registry@[i]).game@ == g
}

/// Whether `family` names a family this build supports.
pub open spec fn family_known(lib: LibraryIndex, family: Seq<char>) -> bool {
    exists|i: int| 0 <= i < lib.registry@.len() && (#[trigger] lib.registry@[i]).game@.0 == family
}

pub open spec fn first_saves(s: Seq<(GameId, Vec<StorePath>)>, g: (Seq<char>, u8)) -> Seq<Seq<CompView>>
    decreases s.len(),
{
    if s.len() == 0 {
        Seq::empty()
    } else if s[0].0@ == g {
        paths_of(s[0].1@)
    } else {
        first_saves(s.drop_first(), g)
    }
}

/// The saves scanned for `g`, in picker order.
pub open spec fn saves_of(lib: LibraryIndex, g: (Seq<char>, u8)) -> Seq<Seq<CompView>> {
    first_saves(lib.saves@, g)
}

pub open spec fn has_save(lib: LibraryIndex, g: (Seq<char>, u8), p: Seq<CompView>) -> bool {
    saves_of(lib, g).contains(p)
}

pub open spec fn first_versions(s: Seq<PatchVersions>, name: Seq<char>) -> Seq<PatchVersionInfo>
    decreases s.len(),
{
    if s.len() == 0 {
        Seq::empty()
    } else if s[0].name@ == name {
        s[0].versions@
    } else {
        first_versions(s.drop_first(), name)
    }
}

/// The catalog's versions of `name`, oldest first.
pub open spec fn versions_of(lib: LibraryIndex, name: Seq<char>) -> Seq<PatchVersionInfo> {
    first_versions(lib.patches@, name)
}

pub open spec fn first_info(vs: Seq<PatchVersionInfo>, v: semver::Version) -> Option<PatchVersionInfo>
    decreases vs.len(),
{
    if vs.len() == 0 {
        None
    } else if vs[0].version == v {
        Some(vs[0])
    } else {
        first_info(vs.drop_first(), v)
    }
}

/// What the catalog knows of `name` at version `v`.
pub open spec fn version_info(lib: LibraryIndex, name: Seq<char>, v: semver::Version) -> Option<PatchVersionInfo> {
    first_info(versions_of(lib, name), v)
}

/// Whether `name` at `v` supports `g`.
pub open spec fn supports_game(lib: LibraryIndex, name: Seq<char>, v: semver::Version, g: (Seq<char>, u8)) -> bool {
    match version_info(lib, name, v) {
        Some(info) => games_view(info.games@).contains(g),
        None => false,
    }
}

/// Whether `name` at `v` is installed.
pub open spec fn installed(lib: LibraryIndex, name: Seq<char>, v: semver::Version) -> bool {
    match version_info(lib, name, v) {
        Some(info) => info.installed,
        None => false,
    }
}

pub open spec fn newest_in(lib: LibraryIndex, name: Seq<char>, vs: Seq<PatchVersionInfo>, g: Option<(Seq<char>, u8)>) -> Option<semver::Version>
    decreases vs.len(),
{
    if vs.len() == 0 {
        None
    } else {
        let v = vs.last().version;
        let fits = match g {
            Some(game) => supports_game(lib, name, v, game),
            None => true,
        };
        if fits {
            Some(v)
        } else {
            newest_in(lib, name, vs.drop_last(), g)
        }
    }
}

/// The newest version of `name` supporting `g` (any version for `None`).
pub open spec fn newest(lib: LibraryIndex, name: Seq<char>, g: Option<(Seq<char>, u8)>) -> Option<semver::Version> {
    newest_in(lib, name, versions_of(lib, name), g)
}

/// Whether `info` is a version that may be picked for `g`: one supporting
/// the game, or any version when no game is given.
pub open spec fn fits_game(lib: LibraryIndex, name: Seq<char>, info: PatchVersionInfo, g: Option<(Seq<char>, u8)>) -> bool {
    match g {
        Some(game) => supports_game(lib, name, info.version, game),
        None => true,
    }
}

/// Versions listed in ascending semver order, as a scan lists them.
pub open spec fn ascending(vs: Seq<PatchVersionInfo>) -> bool {
    forall|i: int, j: int| 0 <= i < j < vs.len() ==> semver_before(#[trigger] vs[i].version, #[trigger] vs[j].version)
}

proof fn lemma_newest_in_is_greatest(lib: LibraryIndex, name: Seq<char>, vs: Seq<PatchVersionInfo>, g: Option<(Seq<char>, u8)>)
    requires
        ascending(vs),
    ensures
        newest_in(lib, name, vs, g) is None <==> forall|i: int| 0 <= i < vs.len() ==> !fits_game(lib, name, #[trigger] vs[i], g),
        newest_in(lib, name, vs, g) matches Some(v) ==> exists|k: int|
            0 <= k < vs.len() && #[trigger] vs[k].version == v && fits_game(lib, name, vs[k], g) && forall|j: int|
                0 <= j < vs.len() && j != k && fits_game(lib, name, #[trigger] vs[j], g) ==> semver_before(vs[j].version, v),
    decreases vs.len(),
{
    if vs.len() > 0 {
        let d = vs.drop_last();
        let last = vs.len() - 1;
        assert(vs.last() == vs[last]);
        if fits_game(lib, name, vs[last], g) {
            assert forall|j: int| 0 <= j < vs.len() && j != last && fits_game(lib, name, #[trigger] vs[j], g)
                implies semver_before(vs[j].version, vs[last].version) by {}
        } else {
            assert forall|i: int, j: int| 0 <= i < j < d.len() implies semver_before(#[trigger] d[i].version, #[trigger] d[j].version) by {
                assert(d[i] == vs[i] && d[j] == vs[j]);
            }
            lemma_newest_in_is_greatest(lib, name, d, g);
            assert forall|i: int| 0 <= i < d.len() implies #[trigger] d[i] == vs[i] by {}
            if newest_in(lib, name, d, g) is None {
                assert forall|i: int| 0 <= i < vs.len() implies !fits_game(lib, name, #[trigger] vs[i], g) by {
                    if i < last {
                        assert(d[i] == vs[i]);
                    }
                }
            } else {
                let v = newest_in(lib, name, d, g)->Some_0;
                let k = choose|k: int|
                    0 <= k < d.len() && #[trigger] d[k].version == v && fits_game(lib, name, d[k], g) && forall|j: int|
                        0 <= j < d.len() && j != k && fits_game(lib, name, #[trigger] d[j], g) ==> semver_before(d[j].version, v);
                assert(vs[k] == d[k]);
                assert forall|j: int| 0 <= j < vs.len() && j != k && fits_game(lib, name, #[trigger] vs[j], g)
                    implies semver_before(vs[j].version, v) by {
                    assert(j != last);
                    assert(d[j] == vs[j]);
                }
            }
        }
    }
}

/// The newest version is the greatest: for a patch whose versions are
/// listed in semver order, as a scan lists them, the version picked for `g`
/// (a game, or `None` for any) is one of the patch's versions that fits,
/// and every other version that fits comes before it; there is none
/// exactly when no version fits.
pub proof fn law_newest_version_is_the_greatest(lib: LibraryIndex, name: Seq<char>, g: Option<(Seq<char>, u8)>)
    requires
        ascending(versions_of(lib, name)),
    ensures
        newest(lib, name, g) is None <==> forall|i: int|
            0 <= i < versions_of(lib, name).len() ==> !fits_game(lib, name, #[trigger] versions_of(lib, name)[i], g),
        newest(lib, name, g) matches Some(v) ==> exists|k: int|
            0 <= k < versions_of(lib, name).len() && #[trigger] versions_of(lib, name)[k].version == v && fits_game(
                lib,
                name,
                versions_of(lib, name)[k],
                g,
            ) && forall|j: int|
                0 <= j < versions_of(lib, name).len() && j != k && fits_game(lib, name, #[trigger] versions_of(lib, name)[j], g)
                    ==> semver_before(versions_of(lib, name)[j].version, v),
{
    lemma_newest_in_is_greatest(lib, name, versions_of(lib, name), g);
}

pub open spec fn first_sim(reg: Seq<RegisteredGame>, g: (Seq<char>, u8)) -> Option<u32>
    decreases reg.len(),
{
    if reg.len() == 0 {
        None
    } else if reg[0].game@ == g {
        Some(reg[0].sim_version)
    } else {
        first_sim(reg.drop_first(), g)
    }
}

/// How this build simulates `g`, if it supports it.
pub open spec fn sim_of(lib: LibraryIndex, g: (Seq<char>, u8)) -> Option<u32> {
    first_sim(lib.registry@, g)
}

/// The patch a side runs that is not installed here, if any.
pub open spec fn patch_missing(lib: LibraryIndex, s: crate::lobby::protocol::SettingsView) -> Option<(Seq<char>, semver::Version)> {
    match s.game_info {
        Some(g) => match g.patch {
            Some(p) => if installed(lib, p.name, p.version) {
                None
            } else {
                Some((p.name, p.version))
            },
            None => None,
        },
        None => None,
    }
}

fn missing_patch_of(lib: &LibraryIndex, s: &crate::lobby::protocol::Settings) -> (r: Option<(String, semver::Version)>)
    ensures
        match r {
            Some((n, v)) => patch_missing(*lib, s@) == Some((n@, v)),
            None => patch_missing(*lib, s@) is None,
        },
{
    match &s.game_info {
        Some(g) => match &g.patch {
            Some(p) => {
                if lib.is_installed(p.name.as_str(), &p.version) {
                    None
                } else {
                    Some((p.name.clone(), clone_version(&p.version)))
                }
            },
            None => None,
        },
        None => None,
    }
}

/// The library facts the lobby's compatibility verdict needs: whether the
/// peer's ROM is here (a game this build supports, and owned), whether
/// the two sides' netplay tags match (`matching_tags`, resolved from the
/// patch packages), and the first patch of either side, ours first, that
/// is not installed.
pub fn compatibility_facts(
    local: &crate::lobby::protocol::Settings,
    remote: &crate::lobby::protocol::Settings,
    lib: &LibraryIndex,
    matching_tags: bool,
) -> (r: crate::lobby::compat::Facts)
    ensures
        r.remote_rom_available == match remote@.game_info {
            Some(g) => registered(*lib, (g.family, g.variant)) && owns(*lib, (g.family, g.variant)),
            None => false,
        },
        r.matching_tags == matching_tags,
        match r.missing_patch {
            Some((n, v)) => Some((n@, v)) == match patch_missing(*lib, local@) {
                Some(x) => Some(x),
                None => patch_missing(*lib, remote@),
            },
            None => patch_missing(*lib, local@) is None && patch_missing(*lib, remote@) is None,
        },
{
    let remote_rom_available = match &remote.game_info {
        Some(g) => {
            let game = GameId { family: g.family_and_variant.0.clone(), variant: g.family_and_variant.1 };
            lib.is_registered(&game) && lib.owns_rom(&game)
        },
        None => false,
    };
    let missing_patch = match missing_patch_of(lib, local) {
        Some(x) => Some(x),
        None => missing_patch_of(lib, remote),
    };
    crate::lobby::compat::Facts { remote_rom_available, matching_tags, missing_patch }
}

pub open spec fn opt_game(g: Option<GameId>) -> Option<(Seq<char>, u8)> {
    match g {
        Some(x) => Some(x@),
        None => None,
    }
}

pub(crate) fn copy_game(g: &GameId) -> (r: GameId)
    ensures
        r@ == g@,
{
    GameId { family: g.family.clone(), variant: g.variant }
}

pub(crate) fn same_game(a: &GameId, b: &GameId) -> (r: bool)
    ensures
        r == (a@ == b@),
{
    str_eq(a.family.as_str(), b.family.as_str()) && a.variant == b.variant
}

fn copy_paths(v: &Vec<StorePath>) -> (r: Vec<StorePath>)
    ensures
        paths_of(r@) == paths_of(v@),
{
    let mut out: Vec<StorePath> = Vec::new();
    let mut i: usize = 0;
    while i < v.len()
        invariant
            i <= v@.len(),
            paths_of(out@) == paths_of(v@).take(i as int),
        decreases v@.len() - i,
    {
        let ghost before = out@;
        out.push(v[i].copy());
        assert(paths_of(out@) =~= paths_of(before).push(v@[i as int]@));
        i = i + 1;
        assert(paths_of(out@) =~= paths_of(v@).take(i as int));
    }
    assert(paths_of(v@).take(i as int) =~= paths_of(v@));
    out
}

impl LibraryIndex {
    /// Whether the ROM for `g` is owned.
    pub fn owns_rom(&self, g: &GameId) -> (r: bool)
        ensures
            r == owns(*self, g@),
    {
        let mut i: usize = 0;
        while i < self.roms.len()
            invariant
                i <= self.roms@.len(),
                forall|k: int| 0 <= k < i ==> (#[trigger] self.roms@[k])@ != g@,
            decreases self.roms@.len() - i,
        {
            if same_game(&self.roms[i], g) {
                return true;
            }
            i = i + 1;
        }
        false
    }

    /// How this build simulates `g`; `None` for a game it does not support.
    pub fn sim_version(&self, g: &GameId) -> (r: Option<u32>)
        ensures
            r == sim_of(*self, g@),
            r is Some <==> registered(*self, g@),
    {
        let mut i: usize = 0;
        assert(self.registry@.skip(0) =~= self.registry@);
        while i < self.registry.len()
            invariant
                i <= self.registry@.len(),
                sim_of(*self, g@) == first_sim(self.registry@.skip(i as int), g@),
                forall|k: int| 0 <= k < i ==> (#[trigger] self.registry@[k]).game@ != g@,
            decreases self.registry@.len() - i,
        {
            let ghost rest = self.registry@.skip(i as int);
            assert(rest[0] == self.registry@[i as int]);
            if same_game(&self.registry[i].game, g) {
                return Some(self.registry[i].sim_version);
            }
            assert(rest.drop_first() =~= self.registry@.skip(i + 1));
            i = i + 1;
        }
        assert(self.registry@.skip(i as int).len() == 0);
        None
    }

    /// Whether `g` is a game this build supports.
    pub fn is_registered(&self, g: &GameId) -> (r: bool)
        ensures
            r == registered(*self, g@),
    {
        let mut i: usize = 0;
        while i < self.registry.len()
            invariant
                i <= self.registry@.len(),
                forall|k: int| 0 <= k < i ==> (#[trigger] self.registry@[k]).game@ != g@,
            decreases self.registry@.len() - i,
        {
            if same_game(&self.registry[i].game, g) {
                return true;
            }
            i = i + 1;
        }
        false
    }

    /// Whether `family` names a family this build supports.
    pub fn knows_family(&self, family: &str) -> (r: bool)
        ensures
            r == family_known(*self, family@),
    {
        let mut i: usize = 0;
        while i < self.registry.len()
            invariant
                i <= self.registry@.len(),
                forall|k: int| 0 <= k < i ==> (#[trigger] self.registry@[k]).game@.0 != family@,
            decreases self.registry@.len() - i,
        {
            if str_eq(self.registry[i].game.family.as_str(), family) {
                return true;
            }
            i = i + 1;
        }
        false
    }

    /// The saves scanned for `g`, in picker order.
    pub fn saves_for(&self, g: &GameId) -> (r: Vec<StorePath>)
        ensures
            paths_of(r@) == saves_of(*self, g@),
    {
        let mut i: usize = 0;
        assert(self.saves@.skip(0) =~= self.saves@);
        while i < self.saves.len()
            invariant
                i <= self.saves@.len(),
                saves_of(*self, g@) == first_saves(self.saves@.skip(i as int), g@),
            decreases self.saves@.len() - i,
        {
            let ghost rest = self.saves@.skip(i as int);
            assert(rest[0] == self.saves@[i as int]);
            if same_game(&self.saves[i].0, g) {
                return copy_paths(&self.saves[i].1);
            }
            assert(rest.drop_first() =~= self.saves@.skip(i + 1));
            i = i + 1;
        }
        Vec::new()
    }

    /// Whether `p` is among the saves scanned for `g`.
    pub fn holds_save(&self, g: &GameId, p: &StorePath) -> (r: bool)
        ensures
            r == has_save(*self, g@, p@),
    {
        let saves = self.saves_for(g);
        let mut i: usize = 0;
        while i < saves.len()
            invariant
                i <= saves@.len(),
                paths_of(saves@) == saves_of(*self, g@),
                forall|k: int| 0 <= k < i ==> paths_of(saves@)[k] != p@,
            decreases saves@.len() - i,
        {
            if saves[i].same(p) {
                assert(paths_of(saves@)[i as int] == p@);
                return true;
            }
            i = i + 1;
        }
        false
    }

    fn versions(&self, name: &str) -> (r: Option<usize>)
        ensures
            match r {
                Some(i) => i < self.patches@.len() && versions_of(*self, name@) == self.patches@[i as int].versions@,
                None => versions_of(*self, name@) == Seq::<PatchVersionInfo>::empty(),
            },
    {
        let mut i: usize = 0;
        assert(self.patches@.skip(0) =~= self.patches@);
        while i < self.patches.len()
            invariant
                i <= self.patches@.len(),
                versions_of(*self, name@) == first_versions(self.patches@.skip(i as int), name@),
            decreases self.patches@.len() - i,
        {
            let ghost rest = self.patches@.skip(i as int);
            assert(rest[0] == self.patches@[i as int]);
            if str_eq(self.patches[i].name.as_str(), name) {
                return Some(i);
            }
            assert(rest.drop_first() =~= self.patches@.skip(i + 1));
            i = i + 1;
        }
        None
    }

    fn info(&self, name: &str, v: &semver::Version) -> (r: Option<(usize, usize)>)
        ensures
            match r {
                Some((p, k)) => p < self.patches@.len() && k < self.patches@[p as int].versions@.len()
                    && version_info(*self, name@, *v) == Some(self.patches@[p as int].versions@[k as int]),
                None => version_info(*self, name@, *v) is None,
            },
    {
        let p = match self.versions(name) {
            Some(p) => p,
            None => {
                return None;
            },
        };
        let vs = &self.patches[p].versions;
        let mut k: usize = 0;
        assert(vs@.skip(0) =~= vs@);
        while k < vs.len()
            invariant
                k <= vs@.len(),
                p < self.patches@.len(),
                *vs == self.patches@[p as int].versions,
                versions_of(*self, name@) == vs@,
                version_info(*self, name@, *v) == first_info(vs@.skip(k as int), *v),
            decreases vs@.len() - k,
        {
            let ghost rest = vs@.skip(k as int);
            assert(rest[0] == vs@[k as int]);
            if version_eq(&vs[k].version, v) {
                return Some((p, k));
            }
            assert(rest.drop_first() =~= vs@.skip(k + 1));
            k = k + 1;
        }
        None
    }

    /// Whether `name` at `v` supports `g`.
    pub fn supports(&self, name: &str, v: &semver::Version, g: &GameId) -> (r: bool)
        ensures
            r == supports_game(*self, name@, *v, g@),
    {
        match self.info(name, v) {
            None => false,
            Some((p, k)) => {
                let games = &self.patches[p].versions[k].games;
                let ghost info = self.patches@[p as int].versions@[k as int];
                assert(*games == info.games);
                let mut i: usize = 0;
                while i < games.len()
                    invariant
                        i <= games@.len(),
                        *games == info.games,
                        version_info(*self, name@, *v) == Some(info),
                        forall|t: int| 0 <= t < i ==> games_view(games@)[t] != g@,
                    decreases games@.len() - i,
                {
                    if same_game(&games[i], g) {
                        assert(games_view(games@)[i as int] == g@);
                        assert(games_view(info.games@).contains(g@));
                        return true;
                    }
                    i = i + 1;
                }
                false
            },
        }
    }

    /// Whether `name` at `v` is installed.
    pub fn is_installed(&self, name: &str, v: &semver::Version) -> (r: bool)
        ensures
            r == installed(*self, name@, *v),
    {
        match self.info(name, v) {
            None => false,
            Some((p, k)) => self.patches[p].versions[k].installed,
        }
    }

    /// Whether `name` at `v` has no supported games on record.
    fn supports_nothing(&self, name: &str, v: &semver::Version) -> (r: bool)
        ensures
            r == match version_info(*self, name@, *v) {
                Some(info) => info.games@.len() == 0,
                None => true,
            },
    {
        match self.info(name, v) {
            None => true,
            Some((p, k)) => self.patches[p].versions[k].games.len() == 0,
        }
    }

    /// The newest version of `name` supporting `g` (any, for `None`).
    pub fn newest_version(&self, name: &str, g: Option<&GameId>) -> (r: Option<semver::Version>)
        ensures
            r == newest(*self, name@, match g {
                Some(x) => Some(x@),
                None => None,
            }),
    {
        let ghost gv = match g {
            Some(x) => Some(x@),
            None => None::<(Seq<char>, u8)>,
        };
        let p = match self.versions(name) {
            Some(p) => p,
            None => {
                return None;
            },
        };
        let vs = &self.patches[p].versions;
        let mut k: usize = vs.len();
        assert(vs@.take(k as int) =~= vs@);
        while k > 0
            invariant
                k <= vs@.len(),
                p < self.patches@.len(),
                *vs == self.patches@[p as int].versions,
                versions_of(*self, name@) == vs@,
                newest(*self, name@, gv) == newest_in(*self, name@, vs@.take(k as int), gv),
                gv == match g {
                    Some(x) => Some(x@),
                    None => None::<(Seq<char>, u8)>,
                },
            decreases k,
        {
            let ghost t = vs@.take(k as int);
            assert(t.last() == vs@[k - 1]);
            assert(t.drop_last() =~= vs@.take(k - 1));
            let v = &vs[k - 1].version;
            let fits = match g {
                Some(x) => self.supports(name, v, x),
                None => true,
            };
            assert(fits == match gv {
                Some(game) => supports_game(*self, name@, *v, game),
                None => true,
            });
            if fits {
                let out = clone_version(v);
                assert(newest_in(*self, name@, t, gv) == Some(*v));
                return Some(out);
            }
            assert(newest_in(*self, name@, t, gv) == newest_in(*self, name@, t.drop_last(), gv));
            k = k - 1;
        }
        None
    }
}

} // verus!
