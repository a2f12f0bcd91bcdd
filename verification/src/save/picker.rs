//! The order a save picker lists a family's saves in: variant first, so
//! the list reads as one block per variant; within a variant a
//! folder-first walk, where at the first differing component whichever
//! side is still inside a folder wins, and files at one level order by
//! their extensionless name, the raw name breaking stem ties.
use vstd::prelude::*;
use std::cmp::Ordering;
use crate::paths::{StorePath, CompView, Component, comp_text, stem_of, strip_prefix_spec, view_comps, component_text, name_stem};
use crate::order::{lex_lt, lemma_lex_total, lemma_lex_asymmetric, lemma_lex_irreflexive, lemma_lex_transitive};
use crate::text::{str_eq, string_from_chars};
use crate::loadout::GameId;

verus! {

/// Where one thing sorts against another: before, level, or after.
pub enum Rank {
    Before,
    Level,
    After,
}

pub open spec fn rank_int(r: Rank) -> int {
    match r {
        Rank::Before => -1,
        Rank::Level => 0,
        Rank::After => 1,
    }
}

pub open spec fn text_sign(a: Seq<char>, b: Seq<char>) -> int {
    if lex_lt(a, b) {
        -1
    } else if a == b {
        0
    } else {
        1
    }
}

/// A lone component's stem, as `Path::file_stem` reads it: names only.
pub open spec fn comp_stem(c: CompView) -> Option<Seq<char>> {
    match c {
        CompView::Normal(n) => Some(stem_of(n)),
        _ => None,
    }
}

pub open spec fn stem_sign(a: Option<Seq<char>>, b: Option<Seq<char>>) -> int {
    match (a, b) {
        (None, None) => 0,
        (None, Some(_)) => -1,
        (Some(_), None) => 1,
        (Some(x), Some(y)) => text_sign(x, y),
    }
}

pub open spec fn len_sign(a: nat, b: nat) -> int {
    if a < b {
        -1
    } else if a == b {
        0
    } else {
        1
    }
}

/// The folder-first walk over two component lists.
pub open spec fn walk_sign(a: Seq<CompView>, b: Seq<CompView>) -> int
    decreases a.len(),
{
    if a.len() == 0 || b.len() == 0 {
        len_sign(a.len(), b.len())
    } else if comp_text(a[0]) != comp_text(b[0]) {
        let a_dir = a.len() > 1;
        let b_dir = b.len() > 1;
        if a_dir && !b_dir {
            -1
        } else if !a_dir && b_dir {
            1
        } else if a_dir {
            text_sign(comp_text(a[0]), comp_text(b[0]))
        } else {
            let s = stem_sign(comp_stem(a[0]), comp_stem(b[0]));
            if s != 0 {
                s
            } else {
                text_sign(comp_text(a[0]), comp_text(b[0]))
            }
        }
    } else {
        walk_sign(a.drop_first(), b.drop_first())
    }
}

/// A path relative to `base` when under it, else the path itself.
pub open spec fn under(p: Seq<CompView>, base: Seq<CompView>) -> Seq<CompView> {
    match strip_prefix_spec(p, base) {
        Some(r) => r,
        None => p,
    }
}

/// The picker's order between two saves of a family, as -1, 0 or 1.
pub open spec fn picker_sign(
    base: Seq<CompView>,
    a: ((Seq<char>, u8), Seq<CompView>),
    b: ((Seq<char>, u8), Seq<CompView>),
) -> int {
    if a.0.1 < b.0.1 {
        -1
    } else if a.0.1 > b.0.1 {
        1
    } else {
        walk_sign(under(a.1, base), under(b.1, base))
    }
}

proof fn lemma_text_sign_flip(a: Seq<char>, b: Seq<char>)
    ensures
        text_sign(a, b) == -text_sign(b, a),
{
    if a == b {
        lemma_lex_irreflexive(a);
    } else {
        lemma_lex_total(a, b);
        if lex_lt(a, b) {
            lemma_lex_asymmetric(a, b);
        } else {
            lemma_lex_asymmetric(b, a);
        }
    }
}

proof fn lemma_walk_flip(a: Seq<CompView>, b: Seq<CompView>)
    ensures
        walk_sign(a, b) == -walk_sign(b, a),
    decreases a.len(),
{
    if a.len() > 0 && b.len() > 0 {
        if comp_text(a[0]) != comp_text(b[0]) {
            lemma_text_sign_flip(comp_text(a[0]), comp_text(b[0]));
            match (comp_stem(a[0]), comp_stem(b[0])) {
                (Some(x), Some(y)) => lemma_text_sign_flip(x, y),
                _ => {},
            }
        } else {
            lemma_walk_flip(a.drop_first(), b.drop_first());
        }
    }
}

proof fn lemma_walk_same(a: Seq<CompView>)
    ensures
        walk_sign(a, a) == 0,
    decreases a.len(),
{
    if a.len() > 0 {
        lemma_walk_same(a.drop_first());
    }
}

/// The picker order is antisymmetric and every save sorts level with
/// itself: swapping the two saves flips the answer.
pub proof fn law_picker_order_flips(
    base: Seq<CompView>,
    a: ((Seq<char>, u8), Seq<CompView>),
    b: ((Seq<char>, u8), Seq<CompView>),
)
    ensures
        picker_sign(base, a, b) == -picker_sign(base, b, a),
        picker_sign(base, a, a) == 0,
{
    lemma_walk_flip(under(a.1, base), under(b.1, base));
    lemma_walk_same(under(a.1, base));
}

/// Whether `a` and `b` part ways at a component both have: neither is
/// the other or lies inside it. Two entries of one real folder tree
/// always do, since a name there is either a file or a folder.
pub open spec fn diverge(a: Seq<CompView>, b: Seq<CompView>) -> bool {
    exists|i: int| 0 <= i < a.len() && i < b.len() && comp_text(a[i]) != comp_text(b[i])
}

/// How two differing components at one level order: folders first, then
/// folders by name and files by stem, the raw name breaking stem ties.
pub open spec fn level_sign(x: CompView, y: CompView, x_dir: bool, y_dir: bool) -> int {
    if x_dir && !y_dir {
        -1
    } else if !x_dir && y_dir {
        1
    } else if x_dir {
        text_sign(comp_text(x), comp_text(y))
    } else {
        let s = stem_sign(comp_stem(x), comp_stem(y));
        if s != 0 {
            s
        } else {
            text_sign(comp_text(x), comp_text(y))
        }
    }
}

proof fn lemma_text_sign_facts(a: Seq<char>, b: Seq<char>)
    ensures
        text_sign(a, b) == 0 <==> a == b,
        text_sign(a, b) == -text_sign(b, a),
{
    lemma_text_sign_flip(a, b);
    if a == b {
        lemma_lex_irreflexive(a);
    }
}

proof fn lemma_text_sign_transitive(a: Seq<char>, b: Seq<char>, c: Seq<char>)
    requires
        text_sign(a, b) < 0,
        text_sign(b, c) < 0,
    ensures
        text_sign(a, c) < 0,
{
    lemma_lex_transitive(a, b, c);
}

proof fn lemma_stem_sign_facts(a: Option<Seq<char>>, b: Option<Seq<char>>)
    ensures
        stem_sign(a, b) == 0 <==> a == b,
        stem_sign(a, b) == -stem_sign(b, a),
{
    match (a, b) {
        (Some(x), Some(y)) => lemma_text_sign_facts(x, y),
        _ => {},
    }
}

proof fn lemma_stem_sign_transitive(a: Option<Seq<char>>, b: Option<Seq<char>>, c: Option<Seq<char>>)
    requires
        stem_sign(a, b) <= 0,
        stem_sign(b, c) <= 0,
    ensures
        stem_sign(a, c) <= 0,
        stem_sign(a, b) < 0 || stem_sign(b, c) < 0 ==> stem_sign(a, c) < 0,
{
    lemma_stem_sign_facts(a, b);
    lemma_stem_sign_facts(b, c);
    lemma_stem_sign_facts(a, c);
    match (a, b, c) {
        (Some(x), Some(y), Some(z)) => {
            if text_sign(x, y) < 0 && text_sign(y, z) < 0 {
                lemma_text_sign_transitive(x, y, z);
            }
        },
        _ => {},
    }
}

proof fn lemma_level_flip(x: CompView, y: CompView, x_dir: bool, y_dir: bool)
    ensures
        level_sign(x, y, x_dir, y_dir) == -level_sign(y, x, y_dir, x_dir),
{
    lemma_text_sign_facts(comp_text(x), comp_text(y));
    lemma_stem_sign_facts(comp_stem(x), comp_stem(y));
}

proof fn lemma_level_transitive(x: CompView, y: CompView, z: CompView, x_dir: bool, y_dir: bool, z_dir: bool)
    requires
        level_sign(x, y, x_dir, y_dir) < 0,
        level_sign(y, z, y_dir, z_dir) < 0,
    ensures
        level_sign(x, z, x_dir, z_dir) < 0,
{
    let (tx, ty, tz) = (comp_text(x), comp_text(y), comp_text(z));
    let (sx, sy, sz) = (comp_stem(x), comp_stem(y), comp_stem(z));
    lemma_text_sign_facts(tx, ty);
    lemma_text_sign_facts(ty, tz);
    lemma_text_sign_facts(tx, tz);
    lemma_stem_sign_facts(sx, sy);
    lemma_stem_sign_facts(sy, sz);
    lemma_stem_sign_facts(sx, sz);
    if x_dir == y_dir && y_dir == z_dir {
        if x_dir {
            lemma_text_sign_transitive(tx, ty, tz);
        } else {
            lemma_stem_sign_transitive(sx, sy, sz);
            if stem_sign(sx, sy) == 0 && stem_sign(sy, sz) == 0 {
                lemma_text_sign_transitive(tx, ty, tz);
            }
        }
    }
}

proof fn lemma_walk_at_first(a: Seq<CompView>, b: Seq<CompView>)
    requires
        diverge(a, b),
    ensures
        a.len() > 0 && b.len() > 0,
        comp_text(a[0]) != comp_text(b[0]) ==> walk_sign(a, b) == level_sign(a[0], b[0], a.len() > 1, b.len() > 1),
        comp_text(a[0]) == comp_text(b[0]) ==> a.len() > 1 && b.len() > 1 && diverge(a.drop_first(), b.drop_first())
            && walk_sign(a, b) == walk_sign(a.drop_first(), b.drop_first()),
{
    let i = choose|i: int| 0 <= i < a.len() && i < b.len() && comp_text(a[i]) != comp_text(b[i]);
    if comp_text(a[0]) == comp_text(b[0]) {
        assert(i > 0);
        assert(a.drop_first()[i - 1] == a[i] && b.drop_first()[i - 1] == b[i]);
    }
}

/// Among entries of one real folder tree (no two where one is the other
/// or lies inside it), the picker's walk is transitive: with the flip law
/// it is a strict order a sort can rely on. Where a file and a folder
/// share a name at one level it is not: `x` (a file), `x/y` and `w` (a
/// file, `w` before `x`) would go round in a circle.
pub proof fn law_picker_walk_is_transitive(a: Seq<CompView>, b: Seq<CompView>, c: Seq<CompView>)
    requires
        diverge(a, b),
        diverge(b, c),
        diverge(a, c),
        walk_sign(a, b) < 0,
        walk_sign(b, c) < 0,
    ensures
        walk_sign(a, c) < 0,
    decreases a.len(),
{
    lemma_walk_at_first(a, b);
    lemma_walk_at_first(b, c);
    lemma_walk_at_first(a, c);
    let (ta, tb, tc) = (comp_text(a[0]), comp_text(b[0]), comp_text(c[0]));
    if ta == tb && tb == tc {
        law_picker_walk_is_transitive(a.drop_first(), b.drop_first(), c.drop_first());
    } else if ta == tb {
        assert(level_sign(a[0], c[0], true, c.len() > 1) == level_sign(b[0], c[0], true, c.len() > 1));
    } else if tb == tc {
        assert(level_sign(a[0], c[0], a.len() > 1, true) == level_sign(a[0], b[0], a.len() > 1, true));
    } else if ta == tc {
        lemma_level_flip(a[0], b[0], a.len() > 1, b.len() > 1);
        assert(level_sign(b[0], c[0], b.len() > 1, true) == level_sign(b[0], a[0], b.len() > 1, true));
    } else {
        lemma_level_transitive(a[0], b[0], c[0], a.len() > 1, b.len() > 1, c.len() > 1);
    }
}

/// The picker's order is transitive over the saves of one folder tree
/// (same conditions as [`law_picker_walk_is_transitive`], on the paths
/// below `base`).
pub proof fn law_picker_order_is_transitive(
    base: Seq<CompView>,
    a: ((Seq<char>, u8), Seq<CompView>),
    b: ((Seq<char>, u8), Seq<CompView>),
    c: ((Seq<char>, u8), Seq<CompView>),
)
    requires
        diverge(under(a.1, base), under(b.1, base)),
        diverge(under(b.1, base), under(c.1, base)),
        diverge(under(a.1, base), under(c.1, base)),
        picker_sign(base, a, b) < 0,
        picker_sign(base, b, c) < 0,
    ensures
        picker_sign(base, a, c) < 0,
{
    if a.0.1 == b.0.1 && b.0.1 == c.0.1 {
        law_picker_walk_is_transitive(under(a.1, base), under(b.1, base), under(c.1, base));
    }
}

fn text_rank(a: &Vec<char>, b: &Vec<char>) -> (r: Rank)
    ensures
        rank_int(r) == text_sign(a@, b@),
{
    let x = string_from_chars(copy_vec(a));
    let y = string_from_chars(copy_vec(b));
    if crate::order::str_lt(x.as_str(), y.as_str()) {
        Rank::Before
    } else if str_eq(x.as_str(), y.as_str()) {
        Rank::Level
    } else {
        Rank::After
    }
}

fn copy_vec(v: &Vec<char>) -> (r: Vec<char>)
    ensures
        r@ == v@,
{
    let mut out: Vec<char> = Vec::new();
    let mut i: usize = 0;
    while i < v.len()
        invariant
            i <= v@.len(),
            out@ == v@.take(i as int),
        decreases v@.len() - i,
    {
        out.push(v[i]);
        i = i + 1;
        assert(out@ =~= v@.take(i as int));
    }
    assert(v@.take(i as int) =~= v@);
    out
}

fn stem_rank(a: &Component, b: &Component) -> (r: Rank)
    ensures
        rank_int(r) == stem_sign(comp_stem(a@), comp_stem(b@)),
{
    match (a, b) {
        (Component::Normal(x), Component::Normal(y)) => {
            let sx = name_stem(x.as_str());
            let sy = name_stem(y.as_str());
            text_rank(&crate::text::chars_of(sx.as_str()), &crate::text::chars_of(sy.as_str()))
        },
        (Component::Normal(_), _) => Rank::After,
        (_, Component::Normal(_)) => Rank::Before,
        _ => Rank::Level,
    }
}

/// The folder-first walk over two component lists.
fn walk_rank(x: &Vec<Component>, y: &Vec<Component>) -> (r: Rank)
    ensures
        rank_int(r) == walk_sign(view_comps(x@), view_comps(y@)),
{
    let ghost a = view_comps(x@);
    let ghost b = view_comps(y@);
    let mut i: usize = 0;
    assert(a.skip(0) =~= a);
    assert(b.skip(0) =~= b);
    while i < x.len() && i < y.len()
        invariant
            i <= x@.len(),
            i <= y@.len(),
            a == view_comps(x@),
            b == view_comps(y@),
            walk_sign(a, b) == walk_sign(a.skip(i as int), b.skip(i as int)),
        decreases x@.len() - i,
    {
        let ghost s = a.skip(i as int);
        let ghost t = b.skip(i as int);
        assert(s[0] == x@[i as int]@);
        assert(t[0] == y@[i as int]@);
        let tx = component_text(&x[i]);
        let ty = component_text(&y[i]);
        proof {
            lemma_lex_irreflexive(tx@);
            assert(s.len() == x@.len() - i);
            assert(t.len() == y@.len() - i);
        }
        let differ = match text_rank(&tx, &ty) {
            Rank::Level => false,
            _ => true,
        };
        if differ {
            assert(comp_text(s[0]) != comp_text(t[0]));
            let a_dir = i + 1 < x.len();
            let b_dir = i + 1 < y.len();
            if a_dir && !b_dir {
                return Rank::Before;
            }
            if !a_dir && b_dir {
                return Rank::After;
            }
            if a_dir {
                return text_rank(&tx, &ty);
            }
            return match stem_rank(&x[i], &y[i]) {
                Rank::Level => text_rank(&tx, &ty),
                other => other,
            };
        }
        assert(s.drop_first() =~= a.skip(i + 1));
        assert(t.drop_first() =~= b.skip(i + 1));
        i = i + 1;
    }
    if x.len() < y.len() {
        Rank::Before
    } else if x.len() == y.len() {
        Rank::Level
    } else {
        Rank::After
    }
}

pub open spec fn ord_int(o: Ordering) -> int {
    match o {
        Ordering::Less => -1,
        Ordering::Equal => 0,
        Ordering::Greater => 1,
    }
}

fn rank_between(saves_path: &StorePath, a: (&GameId, &StorePath), b: (&GameId, &StorePath)) -> (r: Rank)
    ensures
        rank_int(r) == picker_sign(saves_path@, (a.0@, a.1@), (b.0@, b.1@)),
{
    if a.0.variant < b.0.variant {
        return Rank::Before;
    }
    if a.0.variant > b.0.variant {
        return Rank::After;
    }
    let av = match a.1.strip_prefix(saves_path) {
        Some(r) => r,
        None => a.1.copy(),
    };
    let bv = match b.1.strip_prefix(saves_path) {
        Some(r) => r,
        None => b.1.copy(),
    };
    walk_rank(av.parts(), bv.parts())
}

/// The order a save picker lists a family's saves in.
pub fn picker_order(saves_path: &StorePath, a: (&GameId, &StorePath), b: (&GameId, &StorePath)) -> (r: Ordering)
    ensures
        ord_int(r) == picker_sign(saves_path@, (a.0@, a.1@), (b.0@, b.1@)),
{
    match rank_between(saves_path, a, b) {
        Rank::Before => Ordering::Less,
        Rank::Level => Ordering::Equal,
        Rank::After => Ordering::Greater,
    }
}

} // verus!
