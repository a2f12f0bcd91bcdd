//! Text order: strings compared character by character, the way Rust's
//! `str` ordering compares them (UTF-8 preserves character order).
use vstd::prelude::*;
use crate::text::chars_of;
use crate::paths::{CompView, Component, StorePath, view_comps};

verus! {

/// Whether `a` comes strictly before `b`.
pub open spec fn lex_lt(a: Seq<char>, b: Seq<char>) -> bool
    decreases a.len(),
{
    if a.len() == 0 {
        b.len() > 0
    } else if b.len() == 0 {
        false
    } else if a[0] != b[0] {
        (a[0] as u32) < (b[0] as u32)
    } else {
        lex_lt(a.drop_first(), b.drop_first())
    }
}

pub proof fn lemma_lex_irreflexive(a: Seq<char>)
    ensures
        !lex_lt(a, a),
    decreases a.len(),
{
    if a.len() > 0 {
        lemma_lex_irreflexive(a.drop_first());
    }
}

pub proof fn lemma_lex_total(a: Seq<char>, b: Seq<char>)
    requires
        a != b,
    ensures
        lex_lt(a, b) || lex_lt(b, a),
    decreases a.len(),
{
    if a.len() > 0 && b.len() > 0 {
        if a[0] == b[0] {
            if a.drop_first() == b.drop_first() {
                assert(a =~= seq![a[0]] + a.drop_first());
                assert(b =~= seq![b[0]] + b.drop_first());
            }
            lemma_lex_total(a.drop_first(), b.drop_first());
        } else {
            vstd::utf8::char_u32_cast(a[0], a[0] as u32);
            vstd::utf8::char_u32_cast(b[0], b[0] as u32);
            assert((a[0] as u32) != (b[0] as u32));
        }
    } else if a.len() == 0 && b.len() == 0 {
        assert(a =~= b);
    }
}

pub proof fn lemma_lex_asymmetric(a: Seq<char>, b: Seq<char>)
    requires
        lex_lt(a, b),
    ensures
        !lex_lt(b, a),
    decreases a.len(),
{
    if a.len() > 0 && b.len() > 0 && a[0] == b[0] {
        lemma_lex_asymmetric(a.drop_first(), b.drop_first());
    }
}

pub proof fn lemma_lex_transitive(a: Seq<char>, b: Seq<char>, c: Seq<char>)
    requires
        lex_lt(a, b),
        lex_lt(b, c),
    ensures
        lex_lt(a, c),
    decreases a.len(),
{
    if a.len() > 0 && b.len() > 0 && c.len() > 0 {
        if a[0] == b[0] && b[0] == c[0] {
            lemma_lex_transitive(a.drop_first(), b.drop_first(), c.drop_first());
        }
    }
}

/// Whether `a` comes strictly before `b`.
pub fn str_lt(a: &str, b: &str) -> (r: bool)
    ensures
        r == lex_lt(a@, b@),
{
    let x = chars_of(a);
    let y = chars_of(b);
    let mut i: usize = 0;
    assert(a@.skip(0) =~= a@);
    assert(b@.skip(0) =~= b@);
    while i < x.len() && i < y.len()
        invariant
            i <= x@.len(),
            i <= y@.len(),
            x@ == a@,
            y@ == b@,
            lex_lt(a@, b@) == lex_lt(a@.skip(i as int), b@.skip(i as int)),
        decreases x@.len() - i,
    {
        let ghost s = a@.skip(i as int);
        let ghost t = b@.skip(i as int);
        assert(s[0] == x@[i as int]);
        assert(t[0] == y@[i as int]);
        if x[i] != y[i] {
            return (x[i] as u32) < (y[i] as u32);
        }
        assert(s.drop_first() =~= a@.skip(i + 1));
        assert(t.drop_first() =~= b@.skip(i + 1));
        i = i + 1;
    }
    if i == x.len() {
        assert(a@.skip(i as int).len() == 0);
        i < y.len()
    } else {
        assert(b@.skip(i as int).len() == 0);
        false
    }
}

/// How components order: the root, then `.`, then `..`, then names.
pub open spec fn comp_rank(c: CompView) -> int {
    match c {
        CompView::Root => 0,
        CompView::Cur => 1,
        CompView::Parent => 2,
        CompView::Normal(_) => 3,
    }
}

pub open spec fn comp_lt(a: CompView, b: CompView) -> bool {
    comp_rank(a) < comp_rank(b) || (a is Normal && b is Normal && lex_lt(a->Normal_0, b->Normal_0))
}

/// Whether path `a` orders strictly before path `b`: component by
/// component, as paths order.
pub open spec fn path_lt(a: Seq<CompView>, b: Seq<CompView>) -> bool
    decreases a.len(),
{
    if a.len() == 0 {
        b.len() > 0
    } else if b.len() == 0 {
        false
    } else if a[0] != b[0] {
        comp_lt(a[0], b[0])
    } else {
        path_lt(a.drop_first(), b.drop_first())
    }
}

proof fn lemma_comp_total(a: CompView, b: CompView)
    requires
        a != b,
    ensures
        comp_lt(a, b) || comp_lt(b, a),
{
    if a is Normal && b is Normal {
        lemma_lex_total(a->Normal_0, b->Normal_0);
    }
}

proof fn lemma_comp_asymmetric(a: CompView, b: CompView)
    requires
        comp_lt(a, b),
    ensures
        !comp_lt(b, a),
{
    if a is Normal && b is Normal {
        lemma_lex_asymmetric(a->Normal_0, b->Normal_0);
    }
}

proof fn lemma_comp_transitive(a: CompView, b: CompView, c: CompView)
    requires
        comp_lt(a, b),
        comp_lt(b, c),
    ensures
        comp_lt(a, c),
{
    if a is Normal && b is Normal && c is Normal {
        lemma_lex_transitive(a->Normal_0, b->Normal_0, c->Normal_0);
    }
}

pub proof fn lemma_path_total(a: Seq<CompView>, b: Seq<CompView>)
    requires
        a != b,
    ensures
        path_lt(a, b) || path_lt(b, a),
    decreases a.len(),
{
    if a.len() > 0 && b.len() > 0 {
        if a[0] == b[0] {
            if a.drop_first() == b.drop_first() {
                assert(a =~= seq![a[0]] + a.drop_first());
                assert(b =~= seq![b[0]] + b.drop_first());
            }
            lemma_path_total(a.drop_first(), b.drop_first());
        } else {
            lemma_comp_total(a[0], b[0]);
        }
    } else if a.len() == 0 && b.len() == 0 {
        assert(a =~= b);
    }
}

pub proof fn lemma_path_irreflexive(a: Seq<CompView>)
    ensures
        !path_lt(a, a),
    decreases a.len(),
{
    if a.len() > 0 {
        lemma_path_irreflexive(a.drop_first());
    }
}

pub proof fn lemma_path_asymmetric(a: Seq<CompView>, b: Seq<CompView>)
    requires
        path_lt(a, b),
    ensures
        !path_lt(b, a),
    decreases a.len(),
{
    if a.len() > 0 && b.len() > 0 {
        if a[0] == b[0] {
            lemma_path_asymmetric(a.drop_first(), b.drop_first());
        } else {
            lemma_comp_asymmetric(a[0], b[0]);
        }
    }
}

pub proof fn lemma_path_transitive(a: Seq<CompView>, b: Seq<CompView>, c: Seq<CompView>)
    requires
        path_lt(a, b),
        path_lt(b, c),
    ensures
        path_lt(a, c),
    decreases a.len(),
{
    if a.len() > 0 && b.len() > 0 && c.len() > 0 {
        if a[0] == b[0] && b[0] == c[0] {
            lemma_path_transitive(a.drop_first(), b.drop_first(), c.drop_first());
        } else if a[0] == b[0] {
            assert(comp_lt(b[0], c[0]));
        } else if b[0] == c[0] {
            assert(comp_lt(a[0], b[0]));
        } else {
            lemma_comp_transitive(a[0], b[0], c[0]);
            if a[0] == c[0] {
                lemma_comp_asymmetric(a[0], b[0]);
            }
        }
    }
}

fn component_lt(a: &Component, b: &Component) -> (r: bool)
    ensures
        r == comp_lt(a@, b@),
{
    let ra: u8 = match a {
        Component::RootDir => 0,
        Component::CurDir => 1,
        Component::ParentDir => 2,
        Component::Normal(_) => 3,
    };
    let rb: u8 = match b {
        Component::RootDir => 0,
        Component::CurDir => 1,
        Component::ParentDir => 2,
        Component::Normal(_) => 3,
    };
    if ra != rb {
        return ra < rb;
    }
    match (a, b) {
        (Component::Normal(x), Component::Normal(y)) => str_lt(x.as_str(), y.as_str()),
        _ => false,
    }
}

/// Whether path `a` orders strictly before path `b`.
pub fn store_path_lt(a: &StorePath, b: &StorePath) -> (r: bool)
    ensures
        r == path_lt(a@, b@),
{
    let x = a.parts();
    let y = b.parts();
    let mut i: usize = 0;
    assert(a@.skip(0) =~= a@);
    assert(b@.skip(0) =~= b@);
    while i < x.len() && i < y.len()
        invariant
            i <= x@.len(),
            i <= y@.len(),
            view_comps(x@) == a@,
            view_comps(y@) == b@,
            path_lt(a@, b@) == path_lt(a@.skip(i as int), b@.skip(i as int)),
        decreases x@.len() - i,
    {
        let ghost s = a@.skip(i as int);
        let ghost t = b@.skip(i as int);
        assert(s[0] == x@[i as int]@);
        assert(t[0] == y@[i as int]@);
        let same = crate::paths::component_eq(&x[i], &y[i]);
        if !same {
            return component_lt(&x[i], &y[i]);
        }
        assert(s.drop_first() =~= a@.skip(i + 1));
        assert(t.drop_first() =~= b@.skip(i + 1));
        i = i + 1;
    }
    if i == x.len() {
        assert(a@.skip(i as int).len() == 0);
        i < y.len()
    } else {
        assert(b@.skip(i as int).len() == 0);
        false
    }
}

} // verus!
