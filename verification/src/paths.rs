//! Store paths: `/`-separated keys, read component by component the way
//! a Unix path is. Every file the library touches is named by one; two
//! paths are the same path when their components are the same, whatever
//! redundant separators or `.` segments their text carried.
use vstd::prelude::*;
use crate::text::{chars_of, string_from_chars, push_all, copy_chars};

verus! {

/// The text between separators: `s` cut at every character for which
/// `sep` holds. There is always one more piece than separators.
pub open spec fn split_where(s: Seq<char>, sep: spec_fn(char) -> bool) -> Seq<Seq<char>>
    decreases s.len(),
{
    if s.len() == 0 {
        seq![Seq::<char>::empty()]
    } else {
        let p = split_where(s.drop_last(), sep);
        if sep(s.last()) {
            p.push(Seq::<char>::empty())
        } else {
            p.update(p.len() - 1, p.last().push(s.last()))
        }
    }
}

pub open spec fn is_slash(c: char) -> bool {
    c == '/'
}

/// The `/`-separated pieces of `s`.
pub open spec fn pieces(s: Seq<char>) -> Seq<Seq<char>> {
    split_where(s, |c: char| is_slash(c))
}

pub proof fn lemma_split_nonempty(s: Seq<char>, sep: spec_fn(char) -> bool)
    ensures
        split_where(s, sep).len() >= 1,
    decreases s.len(),
{
    if s.len() > 0 {
        lemma_split_nonempty(s.drop_last(), sep);
    }
}

/// One component of a path, as a value.
pub enum CompView {
    Root,
    Cur,
    Parent,
    Normal(Seq<char>),
}

/// One component of a path. Components order as a path's do: the root,
/// then `.`, then `..`, then names by their text.
#[derive(Debug, Clone, PartialEq, Eq, PartialOrd, Ord, Hash)]
pub enum Component {
    /// The leading `/`.
    RootDir,
    /// A leading `.`.
    CurDir,
    /// `..`.
    ParentDir,
    /// A name.
    Normal(String),
}

impl View for Component {
    type V = CompView;

    open spec fn view(&self) -> CompView {
        match self {
            Component::RootDir => CompView::Root,
            Component::CurDir => CompView::Cur,
            Component::ParentDir => CompView::Parent,
            Component::Normal(s) => CompView::Normal(s@),
        }
    }
}

/// What a piece between separators contributes: nothing for an empty
/// piece or `.`, the parent for `..`, a name otherwise.
pub open spec fn classify(p: Seq<char>) -> Option<CompView> {
    if p.len() == 0 || p == seq!['.'] {
        None
    } else if p == seq!['.', '.'] {
        Some(CompView::Parent)
    } else {
        Some(CompView::Normal(p))
    }
}

pub open spec fn classify_all(ps: Seq<Seq<char>>) -> Seq<CompView>
    decreases ps.len(),
{
    if ps.len() == 0 {
        Seq::empty()
    } else {
        let r = classify_all(ps.drop_last());
        match classify(ps.last()) {
            Some(c) => r.push(c),
            None => r,
        }
    }
}

/// Whether the text starts at the root.
pub open spec fn rooted(s: Seq<char>) -> bool {
    s.len() > 0 && s[0] == '/'
}

/// Whether the text starts with a `.` segment.
pub open spec fn dotted(s: Seq<char>) -> bool {
    s.len() > 0 && s[0] == '.' && (s.len() == 1 || s[1] == '/')
}

/// The components of the text `s`: the root or a leading `.` first, then
/// every piece that is neither empty nor `.`.
pub open spec fn components(s: Seq<char>) -> Seq<CompView> {
    let head = if rooted(s) {
        seq![CompView::Root]
    } else if dotted(s) {
        seq![CompView::Cur]
    } else {
        Seq::empty()
    };
    head + classify_all(pieces(s))
}

pub open spec fn view_comps(v: Seq<Component>) -> Seq<CompView> {
    Seq::new(v.len(), |i: int| v[i]@)
}

pub proof fn lemma_view_comps_push(v: Seq<Component>, c: Component)
    ensures
        #[trigger] view_comps(v.push(c)) == view_comps(v).push(c@),
{
    assert(view_comps(v.push(c)) =~= view_comps(v).push(c@));
}

/// A copy of a component.
fn copy_component(c: &Component) -> (r: Component)
    ensures
        r@ == c@,
{
    match c {
        Component::RootDir => Component::RootDir,
        Component::CurDir => Component::CurDir,
        Component::ParentDir => Component::ParentDir,
        Component::Normal(s) => Component::Normal(s.clone()),
    }
}

/// Whether two components are the same.
pub fn component_eq(a: &Component, b: &Component) -> (r: bool)
    ensures
        r == (a@ == b@),
{
    match a {
        Component::RootDir => matches!(b, Component::RootDir),
        Component::CurDir => matches!(b, Component::CurDir),
        Component::ParentDir => matches!(b, Component::ParentDir),
        Component::Normal(x) => match b {
            Component::Normal(y) => {
                let same = x.eq(y);
                same
            },
            _ => false,
        },
    }
}

/// The component a piece makes, if any.
fn classify_piece(p: &Vec<char>) -> (r: Option<Component>)
    ensures
        match r {
            Some(c) => classify(p@) == Some(c@),
            None => classify(p@) is None,
        },
{
    if p.len() == 0 {
        return None;
    }
    if p.len() == 1 && p[0] == '.' {
        assert(p@ =~= seq!['.']);
        return None;
    }
    if p.len() == 2 && p[0] == '.' && p[1] == '.' {
        assert(p@ =~= seq!['.', '.']);
        return Some(Component::ParentDir);
    }
    assert(p@ != seq!['.']) by {
        if p@ == seq!['.'] {
            assert(p@.len() == 1);
        }
    }
    assert(p@ != seq!['.', '.']) by {
        if p@ == seq!['.', '.'] {
            assert(p@.len() == 2);
        }
    }
    let name = string_from_chars(p.clone());
    Some(Component::Normal(name))
}

/// The components of the text `s`.
pub fn parse_components(s: &str) -> (r: Vec<Component>)
    ensures
        view_comps(r@) == components(s@),
{
    let cs = chars_of(s);
    let n = cs.len();
    let mut out: Vec<Component> = Vec::new();
    let ghost head: Seq<CompView>;
    if n > 0 && cs[0] == '/' {
        out.push(Component::RootDir);
        proof { head = seq![CompView::Root]; }
    } else if n > 0 && cs[0] == '.' && (n == 1 || cs[1] == '/') {
        out.push(Component::CurDir);
        proof { head = seq![CompView::Cur]; }
    } else {
        proof { head = Seq::empty(); }
    }
    assert(view_comps(out@) =~= head);
    let mut cur: Vec<char> = Vec::new();
    let mut i: usize = 0;
    proof {
        assert(s@.take(0) =~= Seq::<char>::empty());
        assert(pieces(s@.take(0)) =~= seq![Seq::<char>::empty()]);
        assert(pieces(s@.take(0)).drop_last() =~= Seq::<Seq<char>>::empty());
    }
    while i < n
        invariant
            i <= n,
            n == s@.len(),
            cs@ == s@,
            pieces(s@.take(i as int)).len() >= 1,
            cur@ == pieces(s@.take(i as int)).last(),
            view_comps(out@) == head + classify_all(pieces(s@.take(i as int)).drop_last()),
        decreases n - i,
    {
        let c = cs[i];
        let ghost t = s@.take(i as int);
        let ghost t1 = s@.take(i + 1);
        proof {
            assert(t1.drop_last() =~= t);
            assert(t1.last() == c);
            lemma_split_nonempty(t, |c: char| is_slash(c));
        }
        if c == '/' {
            let ghost before = view_comps(out@);
            match classify_piece(&cur) {
                Some(comp) => {
                    out.push(comp);
                    assert(view_comps(out@) =~= before.push(comp@));
                }
                None => {}
            }
            cur = Vec::new();
            proof {
                let p = pieces(t);
                assert(pieces(t1) == p.push(Seq::<char>::empty()));
                assert(pieces(t1).drop_last() =~= p);
                assert(p.drop_last().push(p.last()) =~= p);
                assert(cur@ =~= pieces(t1).last());
            }
        } else {
            cur.push(c);
            proof {
                let p = pieces(t);
                assert(pieces(t1) == p.update(p.len() - 1, p.last().push(c)));
                assert(pieces(t1).drop_last() =~= p.drop_last());
                assert(cur@ =~= pieces(t1).last());
            }
        }
        i = i + 1;
    }
    proof {
        assert(s@.take(n as int) =~= s@);
        lemma_split_nonempty(s@, |c: char| is_slash(c));
    }
    let ghost before = view_comps(out@);
    match classify_piece(&cur) {
        Some(comp) => {
            out.push(comp);
            assert(view_comps(out@) =~= before.push(comp@));
        }
        None => {}
    }
    proof {
        let p = pieces(s@);
        assert(p.drop_last().push(p.last()) =~= p);
        assert(classify_all(p) == {
            let r = classify_all(p.drop_last());
            match classify(p.last()) {
                Some(c) => r.push(c),
                None => r,
            }
        });
    }
    assert(view_comps(out@) =~= components(s@));
    out
}

/// `more` appended to `base` the way a path push does it: a rooted
/// `more` replaces `base`, and a leading `.` of `more` disappears once it
/// is no longer at the front.
pub open spec fn join_spec(base: Seq<CompView>, more: Seq<CompView>) -> Seq<CompView> {
    if more.len() > 0 && more[0] == CompView::Root {
        more
    } else if more.len() > 0 && more[0] == CompView::Cur && base.len() > 0 {
        base + more.drop_first()
    } else {
        base + more
    }
}

/// The last component, when it is a name.
pub open spec fn file_name_spec(cs: Seq<CompView>) -> Option<Seq<char>> {
    if cs.len() > 0 {
        match cs.last() {
            CompView::Normal(n) => Some(n),
            _ => None,
        }
    } else {
        None
    }
}

/// Everything but the last component; none for the root or the empty path.
pub open spec fn parent_spec(cs: Seq<CompView>) -> Option<Seq<CompView>> {
    if cs.len() > 0 && cs.last() != CompView::Root {
        Some(cs.drop_last())
    } else {
        None
    }
}

/// What is left of `cs` after the components of `base`, when `base` is a
/// leading run of them.
pub open spec fn strip_prefix_spec(cs: Seq<CompView>, base: Seq<CompView>) -> Option<Seq<CompView>> {
    if base.len() <= cs.len() && cs.take(base.len() as int) == base {
        Some(cs.skip(base.len() as int))
    } else {
        None
    }
}

/// Position of the last `.` in a name, or -1.
pub open spec fn last_dot(n: Seq<char>) -> int
    decreases n.len(),
{
    if n.len() == 0 {
        -1
    } else if n.last() == '.' {
        n.len() - 1
    } else {
        last_dot(n.drop_last())
    }
}

pub proof fn lemma_last_dot_range(n: Seq<char>)
    ensures
        -1 <= last_dot(n) < n.len(),
        last_dot(n) >= 0 ==> n[last_dot(n)] == '.',
    decreases n.len(),
{
    if n.len() > 0 && n.last() != '.' {
        lemma_last_dot_range(n.drop_last());
    }
}

/// A name without its extension; a leading dot is part of the stem.
pub open spec fn stem_of(n: Seq<char>) -> Seq<char> {
    if last_dot(n) <= 0 {
        n
    } else {
        n.take(last_dot(n))
    }
}

/// What follows the last dot of a name that does not start with it.
pub open spec fn ext_of(n: Seq<char>) -> Option<Seq<char>> {
    if last_dot(n) <= 0 {
        None
    } else {
        Some(n.skip(last_dot(n) + 1))
    }
}

/// The path with its last name replaced by (the components of) `name`.
pub open spec fn with_file_name_spec(cs: Seq<CompView>, name: Seq<char>) -> Seq<CompView> {
    let base = if file_name_spec(cs) is Some {
        cs.drop_last()
    } else {
        cs
    };
    join_spec(base, components(name))
}

/// A name's extension replaced: the stem, then `.` and `ext` unless `ext`
/// is empty.
pub open spec fn with_ext_name(name: Seq<char>, ext: Seq<char>) -> Seq<char> {
    if ext.len() == 0 {
        stem_of(name)
    } else {
        stem_of(name) + seq!['.'] + ext
    }
}

/// The path with the extension of its last name replaced; unchanged when
/// it has no last name.
pub open spec fn with_extension_spec(cs: Seq<CompView>, ext: Seq<char>) -> Seq<CompView> {
    match file_name_spec(cs) {
        Some(n) => join_spec(cs.drop_last(), components(with_ext_name(n, ext))),
        None => cs,
    }
}

/// The text a component is written as.
pub open spec fn comp_text(c: CompView) -> Seq<char> {
    match c {
        CompView::Root => seq!['/'],
        CompView::Cur => seq!['.'],
        CompView::Parent => seq!['.', '.'],
        CompView::Normal(n) => n,
    }
}

/// Components written out, a separator between two of them unless the
/// text so far already ends in one.
pub open spec fn render(cs: Seq<CompView>) -> Seq<char>
    decreases cs.len(),
{
    if cs.len() == 0 {
        Seq::empty()
    } else {
        let r = render(cs.drop_last());
        let t = comp_text(cs.last());
        if r.len() > 0 && r.last() != '/' {
            r + seq!['/'] + t
        } else {
            r + t
        }
    }
}


/// A path in the store, held as its components; paths compare and order
/// component by component.
#[derive(Debug, Clone, PartialEq, Eq, PartialOrd, Ord, Hash)]
pub struct StorePath {
    comps: Vec<Component>,
}

impl View for StorePath {
    type V = Seq<CompView>;

    closed spec fn view(&self) -> Seq<CompView> {
        view_comps(self.comps@)
    }
}

impl StorePath {
    /// The path the text `s` names.
    pub fn parse(s: &str) -> (p: StorePath)
        ensures
            p@ == components(s@),
    {
        StorePath { comps: parse_components(s) }
    }

    /// A copy of the path.
    pub fn copy(&self) -> (r: StorePath)
        ensures
            r@ == self@,
    {
        let mut out: Vec<Component> = Vec::new();
        let mut i: usize = 0;
        while i < self.comps.len()
            invariant
                i <= self.comps@.len(),
                view_comps(out@) == view_comps(self.comps@).take(i as int),
            decreases self.comps@.len() - i,
        {
            let c = copy_component(&self.comps[i]);
            proof { lemma_view_comps_push(out@, c); }
            out.push(c);
            i = i + 1;
            assert(view_comps(out@) =~= view_comps(self.comps@).take(i as int));
        }
        assert(view_comps(self.comps@).take(i as int) =~= view_comps(self.comps@));
        StorePath { comps: out }
    }

    /// The components, in order.
    pub fn parts(&self) -> (r: &Vec<Component>)
        ensures
            view_comps(r@) == self@,
    {
        &self.comps
    }

    /// How many components the path has.
    pub fn len(&self) -> (r: usize)
        ensures
            r == self@.len(),
    {
        self.comps.len()
    }

    /// Whether the two paths are the same path.
    pub fn same(&self, other: &StorePath) -> (r: bool)
        ensures
            r == (self@ == other@),
    {
        let n = self.comps.len();
        if n != other.comps.len() {
            assert(self@.len() != other@.len());
            return false;
        }
        let mut i: usize = 0;
        while i < n
            invariant
                i <= n,
                n == self.comps@.len(),
                n == other.comps@.len(),
                forall|k: int| 0 <= k < i ==> self.comps@[k]@ == other.comps@[k]@,
            decreases n - i,
        {
            if !component_eq(&self.comps[i], &other.comps[i]) {
                assert(self@[i as int] != other@[i as int]);
                return false;
            }
            i = i + 1;
        }
        assert(self@ =~= other@);
        true
    }

    /// Whether `base` is a leading run of this path's components.
    pub fn starts_with(&self, base: &StorePath) -> (r: bool)
        ensures
            r == (strip_prefix_spec(self@, base@) is Some),
    {
        let n = base.comps.len();
        if n > self.comps.len() {
            return false;
        }
        let mut i: usize = 0;
        while i < n
            invariant
                i <= n,
                n == base.comps@.len(),
                n <= self.comps@.len(),
                forall|k: int| 0 <= k < i ==> self.comps@[k]@ == base.comps@[k]@,
            decreases n - i,
        {
            if !component_eq(&self.comps[i], &base.comps[i]) {
                assert(self@.take(n as int)[i as int] != base@[i as int]);
                return false;
            }
            i = i + 1;
        }
        assert(self@.take(n as int) =~= base@);
        true
    }

    /// This path with the components of `base` taken off the front, when
    /// they are there.
    pub fn strip_prefix(&self, base: &StorePath) -> (r: Option<StorePath>)
        ensures
            match r {
                Some(p) => strip_prefix_spec(self@, base@) == Some(p@),
                None => strip_prefix_spec(self@, base@) is None,
            },
    {
        if !self.starts_with(base) {
            return None;
        }
        let n = base.comps.len();
        let mut out: Vec<Component> = Vec::new();
        let mut i: usize = n;
        while i < self.comps.len()
            invariant
                n <= i <= self.comps@.len(),
                view_comps(out@) == self@.subrange(n as int, i as int),
            decreases self.comps@.len() - i,
        {
            let c = copy_component(&self.comps[i]);
            proof { lemma_view_comps_push(out@, c); }
            out.push(c);
            i = i + 1;
            assert(view_comps(out@) =~= self@.subrange(n as int, i as int));
        }
        assert(self@.subrange(n as int, i as int) =~= self@.skip(n as int));
        Some(StorePath { comps: out })
    }

    /// `more` appended to this path.
    pub fn join(&self, more: &StorePath) -> (r: StorePath)
        ensures
            r@ == join_spec(self@, more@),
    {
        let m = more.comps.len();
        if m > 0 && matches!(more.comps[0], Component::RootDir) {
            return more.copy();
        }
        let mut out = self.copy().comps;
        let start: usize = if m > 0 && matches!(more.comps[0], Component::CurDir) && self.comps.len() > 0 {
            1
        } else {
            0
        };
        let ghost base = view_comps(out@);
        let mut i: usize = start;
        while i < m
            invariant
                start <= i <= m,
                m == more.comps@.len(),
                start <= m || m == 0,
                base == self@,
                view_comps(out@) == base + more@.subrange(start as int, i as int),
            decreases m - i,
        {
            let c = copy_component(&more.comps[i]);
            proof { lemma_view_comps_push(out@, c); }
            out.push(c);
            i = i + 1;
            assert(view_comps(out@) =~= base + more@.subrange(start as int, i as int));
        }
        proof {
            if m == 0 {
                assert(more@ =~= Seq::<CompView>::empty());
                assert(view_comps(out@) =~= self@ + more@);
            } else {
                assert(more@.subrange(start as int, m as int) =~= more@.skip(start as int));
                assert(more@.skip(0) =~= more@);
                assert(more@.skip(1) =~= more@.drop_first());
            }
        }
        StorePath { comps: out }
    }

    /// The path the text `more` names, appended to this one.
    pub fn join_str(&self, more: &str) -> (r: StorePath)
        ensures
            r@ == join_spec(self@, components(more@)),
    {
        self.join(&StorePath::parse(more))
    }

    /// The last component, when it is a name.
    pub fn file_name(&self) -> (r: Option<String>)
        ensures
            match r {
                Some(n) => file_name_spec(self@) == Some(n@),
                None => file_name_spec(self@) is None,
            },
    {
        let n = self.comps.len();
        if n == 0 {
            return None;
        }
        match &self.comps[n - 1] {
            Component::Normal(name) => Some(name.clone()),
            _ => None,
        }
    }

    /// The path without its last component.
    pub fn parent(&self) -> (r: Option<StorePath>)
        ensures
            match r {
                Some(p) => parent_spec(self@) == Some(p@),
                None => parent_spec(self@) is None,
            },
    {
        let n = self.comps.len();
        if n == 0 || matches!(self.comps[n - 1], Component::RootDir) {
            return None;
        }
        let mut out: Vec<Component> = Vec::new();
        let mut i: usize = 0;
        while i < n - 1
            invariant
                i <= n - 1,
                n == self.comps@.len(),
                view_comps(out@) == self@.take(i as int),
            decreases n - 1 - i,
        {
            let c = copy_component(&self.comps[i]);
            proof { lemma_view_comps_push(out@, c); }
            out.push(c);
            i = i + 1;
            assert(view_comps(out@) =~= self@.take(i as int));
        }
        assert(self@.take(i as int) =~= self@.drop_last());
        Some(StorePath { comps: out })
    }

    /// The last name without its extension.
    pub fn file_stem(&self) -> (r: Option<String>)
        ensures
            match r {
                Some(s) => file_name_spec(self@) is Some && s@ == stem_of(file_name_spec(self@)->0),
                None => file_name_spec(self@) is None,
            },
    {
        match self.file_name() {
            None => None,
            Some(name) => {
                let cs = chars_of(name.as_str());
                match last_dot_index(&cs) {
                    Some(d) if d > 0 => {
                        let stem = take_chars(&cs, d);
                        Some(string_from_chars(stem))
                    },
                    _ => Some(name),
                }
            },
        }
    }

    /// What follows the last dot of the last name.
    pub fn extension(&self) -> (r: Option<String>)
        ensures
            match r {
                Some(e) => file_name_spec(self@) is Some && ext_of(file_name_spec(self@)->0) == Some(e@),
                None => file_name_spec(self@) is None || ext_of(file_name_spec(self@)->0) is None,
            },
    {
        match self.file_name() {
            None => None,
            Some(name) => {
                let cs = chars_of(name.as_str());
                match last_dot_index(&cs) {
                    Some(d) if d > 0 => {
                        let l = cs.len();
                        assert(d < l);
                        let ext = skip_chars(&cs, d + 1);
                        Some(string_from_chars(ext))
                    },
                    _ => None,
                }
            },
        }
    }

    /// The path with its last name replaced by `name`.
    pub fn with_file_name(&self, name: &str) -> (r: StorePath)
        ensures
            r@ == with_file_name_spec(self@, name@),
    {
        let n = self.comps.len();
        if n > 0 && matches!(self.comps[n - 1], Component::Normal(_)) {
            let p = self.parent().unwrap();
            p.join_str(name)
        } else {
            self.join_str(name)
        }
    }

    /// The path with the extension of its last name replaced by `ext`.
    pub fn with_extension_str(&self, ext: &str) -> (r: StorePath)
        ensures
            r@ == with_extension_spec(self@, ext@),
    {
        let name = match self.file_name() {
            Some(n) => n,
            None => {
                return self.copy();
            },
        };
        let cs = chars_of(name.as_str());
        let mut text: Vec<char> = match last_dot_index(&cs) {
            Some(d) if d > 0 => take_chars(&cs, d),
            _ => copy_chars(&cs),
        };
        assert(text@ == stem_of(name@));
        let ec = chars_of(ext);
        if ec.len() > 0 {
            text.push('.');
            push_all(&mut text, ec.as_slice());
        }
        assert(text@ =~= with_ext_name(name@, ext@));
        let t = string_from_chars(text);
        let base = self.parent().unwrap();
        base.join_str(t.as_str())
    }

    /// The path written out.
    pub fn to_string(&self) -> (r: String)
        ensures
            r@ == render(self@),
    {
        let mut out: Vec<char> = Vec::new();
        let mut i: usize = 0;
        while i < self.comps.len()
            invariant
                i <= self.comps@.len(),
                out@ == render(self@.take(i as int)),
            decreases self.comps@.len() - i,
        {
            let ghost before = out@;
            let text = component_text(&self.comps[i]);
            if out.len() > 0 && out[out.len() - 1] != '/' {
                out.push('/');
            }
            push_all(&mut out, text.as_slice());
            proof {
                let t1 = self@.take(i + 1);
                assert(t1.drop_last() =~= self@.take(i as int));
                assert(t1.last() == self@[i as int]);
            }
            i = i + 1;
            assert(out@ =~= render(self@.take(i as int)));
        }
        assert(self@.take(i as int) =~= self@);
        string_from_chars(out)
    }
}

/// The text of a component.
pub fn component_text(c: &Component) -> (r: Vec<char>)
    ensures
        r@ == comp_text(c@),
{
    match c {
        Component::RootDir => {
            let v = vec!['/'];
            assert(v@ =~= seq!['/']);
            v
        },
        Component::CurDir => {
            let v = vec!['.'];
            assert(v@ =~= seq!['.']);
            v
        },
        Component::ParentDir => {
            let v = vec!['.', '.'];
            assert(v@ =~= seq!['.', '.']);
            v
        },
        Component::Normal(n) => chars_of(n.as_str()),
    }
}

/// A name without its extension.
pub fn name_stem(name: &str) -> (r: String)
    ensures
        r@ == stem_of(name@),
{
    let cs = chars_of(name);
    match last_dot_index(&cs) {
        Some(d) if d > 0 => string_from_chars(take_chars(&cs, d)),
        _ => string_from_chars(cs),
    }
}

/// Position of the last `.` in `cs`, if there is one.
fn last_dot_index(cs: &Vec<char>) -> (r: Option<usize>)
    ensures
        match r {
            Some(d) => last_dot(cs@) == d && d < cs@.len(),
            None => last_dot(cs@) == -1,
        },
{
    let mut i: usize = cs.len();
    assert(cs@.take(i as int) =~= cs@);
    while i > 0
        invariant
            i <= cs@.len(),
            last_dot(cs@) == last_dot(cs@.take(i as int)),
        decreases i,
    {
        let ghost t = cs@.take(i as int);
        assert(t.drop_last() =~= cs@.take(i - 1));
        if cs[i - 1] == '.' {
            return Some(i - 1);
        }
        i = i - 1;
    }
    assert(cs@.take(0) =~= Seq::<char>::empty());
    None
}

/// The first `n` characters.
fn take_chars(cs: &Vec<char>, n: usize) -> (r: Vec<char>)
    requires
        n <= cs@.len(),
    ensures
        r@ == cs@.take(n as int),
{
    let mut out: Vec<char> = Vec::new();
    let mut i: usize = 0;
    while i < n
        invariant
            i <= n,
            n <= cs@.len(),
            out@ == cs@.take(i as int),
        decreases n - i,
    {
        out.push(cs[i]);
        i = i + 1;
        assert(out@ =~= cs@.take(i as int));
    }
    out
}

/// Everything from position `n` on.
fn skip_chars(cs: &Vec<char>, n: usize) -> (r: Vec<char>)
    requires
        n <= cs@.len(),
    ensures
        r@ == cs@.skip(n as int),
{
    let mut out: Vec<char> = Vec::new();
    let mut i: usize = n;
    while i < cs.len()
        invariant
            n <= i <= cs@.len(),
            out@ == cs@.subrange(n as int, i as int),
        decreases cs@.len() - i,
    {
        out.push(cs[i]);
        i = i + 1;
        assert(out@ =~= cs@.subrange(n as int, i as int));
    }
    assert(cs@.subrange(n as int, i as int) =~= cs@.skip(n as int));
    out
}

pub open spec fn seqs_view(v: Seq<Vec<char>>) -> Seq<Seq<char>> {
    Seq::new(v.len(), |i: int| v[i]@)
}

/// The `/`-separated pieces of `cs`.
pub fn split_pieces(cs: &Vec<char>) -> (r: Vec<Vec<char>>)
    ensures
        seqs_view(r@) == pieces(cs@),
{
    let n = cs.len();
    let mut out: Vec<Vec<char>> = Vec::new();
    let mut cur: Vec<char> = Vec::new();
    let mut i: usize = 0;
    proof {
        assert(cs@.take(0) =~= Seq::<char>::empty());
        assert(pieces(cs@.take(0)) =~= seq![Seq::<char>::empty()]);
    }
    while i < n
        invariant
            i <= n,
            n == cs@.len(),
            pieces(cs@.take(i as int)).len() >= 1,
            cur@ == pieces(cs@.take(i as int)).last(),
            seqs_view(out@) == pieces(cs@.take(i as int)).drop_last(),
        decreases n - i,
    {
        let c = cs[i];
        let ghost t = cs@.take(i as int);
        let ghost t1 = cs@.take(i + 1);
        proof {
            assert(t1.drop_last() =~= t);
            assert(t1.last() == c);
            lemma_split_nonempty(t, |c: char| is_slash(c));
        }
        if c == '/' {
            let ghost before = seqs_view(out@);
            let ghost piece = cur@;
            let mut done: Vec<char> = Vec::new();
            std::mem::swap(&mut done, &mut cur);
            out.push(done);
            proof {
                let p = pieces(t);
                assert(seqs_view(out@) =~= before.push(piece));
                assert(pieces(t1) == p.push(Seq::<char>::empty()));
                assert(pieces(t1).drop_last() =~= p);
                assert(p.drop_last().push(p.last()) =~= p);
                assert(cur@ =~= pieces(t1).last());
            }
        } else {
            cur.push(c);
            proof {
                let p = pieces(t);
                assert(pieces(t1) == p.update(p.len() - 1, p.last().push(c)));
                assert(pieces(t1).drop_last() =~= p.drop_last());
                assert(cur@ =~= pieces(t1).last());
            }
        }
        i = i + 1;
    }
    proof {
        assert(cs@.take(n as int) =~= cs@);
        lemma_split_nonempty(cs@, |c: char| is_slash(c));
        let p = pieces(cs@);
        assert(p.drop_last().push(p.last()) =~= p);
    }
    let ghost before = seqs_view(out@);
    let ghost piece = cur@;
    out.push(cur);
    assert(seqs_view(out@) =~= before.push(piece));
    out
}

/// The text of `more` pushed onto the text `base`: a rooted `more`
/// replaces `base`; otherwise a separator goes between them unless
/// `base` is empty or already ends in one.
pub open spec fn push_text(base: Seq<char>, more: Seq<char>) -> Seq<char> {
    if rooted(more) {
        more
    } else if base.len() > 0 && base.last() != '/' {
        base + seq!['/'] + more
    } else {
        base + more
    }
}

/// The characters of `push_text(base, more)`.
pub fn push_chars(base: &Vec<char>, more: &Vec<char>) -> (r: Vec<char>)
    ensures
        r@ == push_text(base@, more@),
{
    let mut out: Vec<char> = Vec::new();
    if more.len() > 0 && more[0] == '/' {
        push_all(&mut out, more.as_slice());
        assert(out@ =~= more@);
        return out;
    }
    push_all(&mut out, base.as_slice());
    if base.len() > 0 && base[base.len() - 1] != '/' {
        out.push('/');
    }
    push_all(&mut out, more.as_slice());
    assert(out@ =~= push_text(base@, more@));
    out
}

/// Every name among the components is free of separators, as every name
/// read out of a text is.
pub open spec fn names_plain(cs: Seq<CompView>) -> bool {
    forall|k: int| 0 <= k < cs.len() && #[trigger] cs[k] is Normal ==> !cs[k]->Normal_0.contains('/')
}

/// A text without separators is a single piece.
pub proof fn lemma_pieces_of_plain(s: Seq<char>)
    requires
        !s.contains('/'),
    ensures
        pieces(s) == seq![s],
    decreases s.len(),
{
    if s.len() > 0 {
        assert(!s.drop_last().contains('/')) by {
            if s.drop_last().contains('/') {
                let i = choose|i: int| 0 <= i < s.drop_last().len() && s.drop_last()[i] == '/';
                assert(s[i] == '/');
            }
        }
        lemma_pieces_of_plain(s.drop_last());
        assert(s.last() != '/') by {
            assert(s[s.len() - 1] == s.last());
        }
        assert(s.drop_last().push(s.last()) =~= s);
    } else {
        assert(s =~= Seq::<char>::empty());
    }
}

/// A separator-free text other than `.` and `..` reads as the one name.
pub proof fn lemma_components_of_name(s: Seq<char>)
    requires
        !s.contains('/'),
        s.len() > 0,
        s != seq!['.'],
        s != seq!['.', '.'],
    ensures
        components(s) == seq![CompView::Normal(s)],
{
    lemma_pieces_of_plain(s);
    assert(!rooted(s));
    assert(!dotted(s)) by {
        if dotted(s) {
            if s.len() == 1 {
                assert(s =~= seq!['.']);
            } else {
                assert(s.contains('/')) by {
                    assert(s[1] == '/');
                }
            }
        }
    }
    let ps = seq![s];
    assert(ps.drop_last() =~= Seq::<Seq<char>>::empty());
    assert(ps.last() == s);
    assert(classify(s) == Some(CompView::Normal(s)));
    assert(classify_all(ps.drop_last()) == Seq::<CompView>::empty());
    assert(classify_all(ps) == classify_all(ps.drop_last()).push(CompView::Normal(s)));
    assert(classify_all(ps) =~= seq![CompView::Normal(s)]);
}

/// A name component as reading a text produces one: not empty, no
/// separator, and neither `.` nor `..`.
pub open spec fn valid_name(n: Seq<char>) -> bool {
    n.len() > 0 && !n.contains('/') && n != seq!['.'] && n != seq!['.', '.']
}

/// Components as reading a text produces them: the root or a leading `.`
/// only first, and every name valid.
pub open spec fn wf_path(cs: Seq<CompView>) -> bool {
    forall|k: int|
        0 <= k < cs.len() ==> (#[trigger] cs[k] == CompView::Root ==> k == 0) && (cs[k] == CompView::Cur ==> k
            == 0) && (cs[k] is Normal ==> valid_name(cs[k]->Normal_0))
}

proof fn lemma_pieces_plain(s: Seq<char>)
    ensures
        forall|k: int| 0 <= k < pieces(s).len() ==> !(#[trigger] pieces(s)[k]).contains('/'),
    decreases s.len(),
{
    if s.len() > 0 {
        lemma_pieces_plain(s.drop_last());
        lemma_split_nonempty(s.drop_last(), |c: char| is_slash(c));
        let p = pieces(s.drop_last());
        if s.last() != '/' {
            let q = p.update(p.len() - 1, p.last().push(s.last()));
            assert forall|k: int| 0 <= k < q.len() implies !(#[trigger] q[k]).contains('/') by {
                if k == p.len() - 1 {
                    if q[k].contains('/') {
                        let i = choose|i: int| 0 <= i < q[k].len() && q[k][i] == '/';
                        if i < p.last().len() {
                            assert(p.last()[i] == '/');
                            assert(p[p.len() - 1].contains('/'));
                        }
                    }
                }
            }
        } else {
            let q = p.push(Seq::<char>::empty());
            assert forall|k: int| 0 <= k < q.len() implies !(#[trigger] q[k]).contains('/') by {
                if k < p.len() {
                    assert(q[k] == p[k]);
                }
            }
        }
    }
}

proof fn lemma_classify_all_names(ps: Seq<Seq<char>>)
    requires
        forall|k: int| 0 <= k < ps.len() ==> !(#[trigger] ps[k]).contains('/'),
    ensures
        forall|k: int|
            0 <= k < classify_all(ps).len() ==> #[trigger] classify_all(ps)[k] != CompView::Root && classify_all(
                ps,
            )[k] != CompView::Cur && (classify_all(ps)[k] is Normal ==> valid_name(classify_all(ps)[k]->Normal_0)),
    decreases ps.len(),
{
    if ps.len() > 0 {
        assert forall|k: int| 0 <= k < ps.drop_last().len() implies !(#[trigger] ps.drop_last()[k]).contains('/') by {
            assert(ps.drop_last()[k] == ps[k]);
        }
        lemma_classify_all_names(ps.drop_last());
        assert(!ps.last().contains('/')) by {
            assert(ps[ps.len() - 1] == ps.last());
        }
    }
}

/// Reading a text gives well-formed components.
pub proof fn lemma_components_wf(s: Seq<char>)
    ensures
        wf_path(components(s)),
{
    lemma_pieces_plain(s);
    lemma_classify_all_names(pieces(s));
    let c = components(s);
    let rest = classify_all(pieces(s));
    assert forall|k: int| 0 <= k < c.len() implies (#[trigger] c[k] == CompView::Root ==> k == 0) && (c[k]
        == CompView::Cur ==> k == 0) && (c[k] is Normal ==> valid_name(c[k]->Normal_0)) by {
        let h = c.len() - rest.len();
        if k >= h {
            assert(c[k] == rest[k - h]);
        }
    }
}

/// The texts of `cs` joined by `/`.
pub open spec fn join_texts(cs: Seq<CompView>) -> Seq<char>
    decreases cs.len(),
{
    if cs.len() == 0 {
        Seq::empty()
    } else if cs.len() == 1 {
        comp_text(cs[0])
    } else {
        join_texts(cs.drop_last()) + seq!['/'] + comp_text(cs.last())
    }
}

/// The texts of the components, joined by `/`.
pub fn joined_texts(comps: &Vec<Component>) -> (r: Vec<char>)
    ensures
        r@ == join_texts(view_comps(comps@)),
{
    let ghost cv = view_comps(comps@);
    let mut out: Vec<char> = Vec::new();
    let mut i: usize = 0;
    while i < comps.len()
        invariant
            i <= comps@.len(),
            cv == view_comps(comps@),
            out@ == join_texts(cv.take(i as int)),
        decreases comps@.len() - i,
    {
        let ghost t1 = cv.take(i + 1);
        assert(t1.drop_last() =~= cv.take(i as int));
        if i > 0 {
            out.push('/');
        }
        let text = component_text(&comps[i]);
        push_all(&mut out, text.as_slice());
        i = i + 1;
        assert(out@ =~= join_texts(cv.take(i as int)));
    }
    assert(cv.take(i as int) =~= cv);
    out
}

/// Pieces of texts joined by a separator are the texts, when none holds one.
pub proof fn lemma_pieces_of_join(a: Seq<char>, b: Seq<char>)
    requires
        !b.contains('/'),
    ensures
        pieces(a + seq!['/'] + b) == pieces(a).push(b),
    decreases b.len(),
{
    if b.len() == 0 {
        let t = a + seq!['/'] + b;
        assert(t.drop_last() =~= a);
        assert(t.last() == '/');
        assert(b =~= Seq::<char>::empty());
        assert(pieces(t) == pieces(t.drop_last()).push(Seq::<char>::empty()));
    } else {
        let b0 = b.drop_last();
        assert(!b0.contains('/')) by {
            if b0.contains('/') {
                let i = choose|i: int| 0 <= i < b0.len() && b0[i] == '/';
                assert(b[i] == '/');
            }
        }
        lemma_pieces_of_join(a, b0);
        let t = a + seq!['/'] + b;
        assert(t.drop_last() =~= a + seq!['/'] + b0);
        assert(t.last() == b.last());
        assert(b.last() != '/') by {
            assert(b[b.len() - 1] == b.last());
        }
        lemma_split_nonempty(a, |c: char| is_slash(c));
        assert(b0.push(b.last()) =~= b);
        let p = pieces(a).push(b0);
        assert(pieces(t.drop_last()) == p);
        assert(p.last() == b0);
        assert(p.len() - 1 == pieces(a).len());
        assert(pieces(t) == p.update(p.len() - 1, p.last().push(t.last())));
        assert(p.update(pieces(a).len() as int, b0.push(b.last())) =~= pieces(a).push(b));
    }
}

} // verus!
