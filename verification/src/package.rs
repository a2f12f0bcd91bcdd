//! The package library's bookkeeping: where packages live, which loaded
//! packages a catalog accepts under its limits, which are quarantined for
//! conflicting contents, what blocks a removal, and how a batch of
//! archives is written all-or-nothing. Loading and resolving a package's
//! contents is the script runtime's; the catalog works from the facts it
//! reports.
use vstd::prelude::*;
use crate::paths::{StorePath, CompView, Component, components, join_spec, strip_prefix_spec, stem_of, ext_of};
use crate::lobby::protocol::{clone_version, version_eq, version_less, semver_before};
use crate::storage::{Storage, StorageError, Listing, write_atomic, temp_path};
use crate::order::{path_lt, store_path_lt, lemma_path_total, lemma_path_transitive, lex_lt, str_lt, lemma_lex_total, lemma_lex_transitive};
use crate::text::{string_from_chars, str_eq, chars_of};

pub mod install;

verus! {

/// Most packages a library holds.
pub const MAX_PACKAGES: usize = 256;

/// Most bytes a library holds.
pub const MAX_BYTES: usize = 268435456;

/// Where a catalogued package came from.
#[derive(Clone, Debug, PartialEq, Eq, PartialOrd, Ord)]
pub enum Source {
    Bundled,
    Directory(StorePath),
    Archive(StorePath),
}

pub enum SourceView {
    Bundled,
    Directory(Seq<CompView>),
    Archive(Seq<CompView>),
}

impl View for Source {
    type V = SourceView;

    open spec fn view(&self) -> SourceView {
        match self {
            Source::Bundled => SourceView::Bundled,
            Source::Directory(p) => SourceView::Directory(p@),
            Source::Archive(p) => SourceView::Archive(p@),
        }
    }
}

impl Source {
    /// A copy of the source.
    pub fn copy(&self) -> (r: Source)
        ensures
            r@ == self@,
    {
        match self {
            Source::Bundled => Source::Bundled,
            Source::Directory(p) => Source::Directory(p.copy()),
            Source::Archive(p) => Source::Archive(p.copy()),
        }
    }

    /// Whether two sources are the same.
    pub fn same(&self, other: &Source) -> (r: bool)
        ensures
            r == (self@ == other@),
    {
        match (self, other) {
            (Source::Bundled, Source::Bundled) => true,
            (Source::Directory(a), Source::Directory(b)) => a.same(b),
            (Source::Archive(a), Source::Archive(b)) => a.same(b),
            (Source::Bundled, _) => false,
            (Source::Directory(_), _) => false,
            (Source::Archive(_), _) => false,
        }
    }
}

/// `package.toml`, a development package's manifest.
pub open spec fn manifest_name() -> Seq<char> {
    seq!['p', 'a', 'c', 'k', 'a', 'g', 'e', '.', 't', 'o', 'm', 'l']
}

/// `tangopkg`, an installed archive's extension.
pub open spec fn archive_ext() -> Seq<char> {
    seq!['t', 'a', 'n', 'g', 'o', 'p', 'k', 'g']
}

/// What `semver::Version::parse` makes of a text.
pub uninterp spec fn semver_parse(text: Seq<char>) -> Option<semver::Version>;

/// Read a version number.
///
/// Calls `semver::Version::parse`, whose result depends on the text alone;
/// `None` where it reports an error.
#[verifier::external_body]
fn parse_version(text: &str) -> (r: Option<semver::Version>)
    ensures
        r == semver_parse(text@),
{
    semver::Version::parse(text).ok()
}

/// A package found in a library listing.
pub struct Candidate {
    /// The directory of a development package, or the archive itself.
    pub path: StorePath,
    pub name: String,
    /// The version an archive's file name carries; none for a directory.
    pub version: Option<semver::Version>,
}

/// What a listed file under `root` makes: `<root>/<name>/package.toml` is
/// a development package at `<root>/<name>`; `<root>/<name>/<v>.tangopkg`
/// is an archive of version `v`; anything else, or any deeper or
/// shallower path, is nothing.
pub open spec fn candidate_spec(root: Seq<CompView>, path: Seq<CompView>) -> Option<(Seq<CompView>, Seq<char>, Option<semver::Version>)> {
    match strip_prefix_spec(path, root) {
        Some(rel) => if rel.len() == 2 && rel[0] is Normal && rel[1] is Normal {
            let name = rel[0]->Normal_0;
            let file = rel[1]->Normal_0;
            if file == manifest_name() {
                Some((join_spec(root, components(name)), name, None))
            } else if ext_of(file) == Some(archive_ext()) {
                match semver_parse(stem_of(file)) {
                    Some(v) => Some((path, name, Some(v))),
                    None => None,
                }
            } else {
                None
            }
        } else {
            None
        },
        None => None,
    }
}

/// What a listed file under `root` offers the catalog, if anything.
pub fn candidate(root: &StorePath, path: &StorePath) -> (r: Option<Candidate>)
    ensures
        match candidate_spec(root@, path@) {
            Some((p, n, v)) => r is Some && r->Some_0.path@ == p && r->Some_0.name@ == n && r->Some_0.version
                == v,
            None => r is None,
        },
{
    let rel = match path.strip_prefix(root) {
        Some(r) => r,
        None => {
            return None;
        },
    };
    let parts = rel.parts();
    if parts.len() != 2 {
        return None;
    }
    let name = match &parts[0] {
        Component::Normal(n) => n.clone(),
        _ => {
            return None;
        },
    };
    let file = match &parts[1] {
        Component::Normal(f) => f.clone(),
        _ => {
            return None;
        },
    };
    let manifest = string_from_chars(manifest_text());
    if str_eq(file.as_str(), manifest.as_str()) {
        return Some(Candidate { path: root.join_str(name.as_str()), name, version: None });
    }
    assert(rel@[1] is Normal);
    let ext = match rel.extension() {
        Some(e) => e,
        None => {
            return None;
        },
    };
    let pkg = string_from_chars(archive_text());
    if !str_eq(ext.as_str(), pkg.as_str()) {
        return None;
    }
    let stem = match rel.file_stem() {
        Some(s) => s,
        None => {
            return None;
        },
    };
    match parse_version(stem.as_str()) {
        Some(v) => Some(Candidate { path: path.copy(), name, version: Some(v) }),
        None => None,
    }
}

fn manifest_text() -> (r: Vec<char>)
    ensures
        r@ == manifest_name(),
{
    let v = vec!['p', 'a', 'c', 'k', 'a', 'g', 'e', '.', 't', 'o', 'm', 'l'];
    assert(v@ =~= manifest_name());
    v
}

pub(crate) fn archive_text() -> (r: Vec<char>)
    ensures
        r@ == archive_ext(),
{
    let v = vec!['t', 'a', 'n', 'g', 'o', 'p', 'k', 'g'];
    assert(v@ =~= archive_ext());
    v
}

/// What the catalog learns from a loaded package.
pub struct PackageFacts {
    pub name: String,
    pub version: semver::Version,
    /// Digest of the package's exact contents.
    pub digest: Vec<u8>,
    /// Its size, as counted against the library limit.
    pub byte_len: usize,
    /// Its exact-version dependencies, by package name.
    pub dependencies: Vec<(String, semver::Version)>,
}

pub struct FactsView {
    pub name: Seq<char>,
    pub version: semver::Version,
    pub digest: Seq<u8>,
    pub byte_len: nat,
    pub dependencies: Seq<(Seq<char>, semver::Version)>,
}

pub open spec fn deps_view(d: Seq<(String, semver::Version)>) -> Seq<(Seq<char>, semver::Version)> {
    Seq::new(d.len(), |i: int| (d[i].0@, d[i].1))
}

impl View for PackageFacts {
    type V = FactsView;

    open spec fn view(&self) -> FactsView {
        FactsView {
            name: self.name@,
            version: self.version,
            digest: self.digest@,
            byte_len: self.byte_len as nat,
            dependencies: deps_view(self.dependencies@),
        }
    }
}

/// A package's identity: its name and exact version.
pub open spec fn key_of(f: FactsView) -> (Seq<char>, semver::Version) {
    (f.name, f.version)
}

/// Something the catalog reports instead of failing as a whole.
#[derive(Debug)]
pub enum Issue {
    /// The same name and version turned up with different contents; the
    /// identity is quarantined.
    Conflict { name: String, version: semver::Version },
    /// Taking in the package would break the library's limits.
    OverLimits { name: String, version: semver::Version },
    /// The listing offered more sources than a library may hold.
    TooManySources,
    /// The package at `path` could not be taken in: it failed to load, or
    /// it names itself otherwise than where it is installed.
    Unloadable { path: StorePath, message: String },
}

pub enum IssueView {
    Conflict(Seq<char>, semver::Version),
    OverLimits(Seq<char>, semver::Version),
    TooManySources,
    Unloadable(Seq<CompView>, Seq<char>),
}

impl View for Issue {
    type V = IssueView;

    open spec fn view(&self) -> IssueView {
        match self {
            Issue::Conflict { name, version } => IssueView::Conflict(name@, *version),
            Issue::OverLimits { name, version } => IssueView::OverLimits(name@, *version),
            Issue::TooManySources => IssueView::TooManySources,
            Issue::Unloadable { path, message } => IssueView::Unloadable(path@, message@),
        }
    }
}

/// The total size of accepted packages.
pub open spec fn total_size(es: Seq<(FactsView, bool)>) -> nat
    decreases es.len(),
{
    if es.len() == 0 {
        0
    } else {
        total_size(es.drop_last()) + es.last().0.byte_len
    }
}

/// Whether an identity is among `es`.
pub open spec fn has_key(es: Seq<(FactsView, bool)>, k: (Seq<char>, semver::Version)) -> bool {
    exists|i: int| 0 <= i < es.len() && #[trigger] key_of(es[i].0) == k
}

/// The sources recorded for an identity.
pub open spec fn sources_for(seen: Seq<((Seq<char>, semver::Version), Set<SourceView>)>, k: (Seq<char>, semver::Version)) -> Set<SourceView> {
    if exists|i: int| 0 <= i < seen.len() && #[trigger] seen[i].0 == k {
        seen[choose|i: int| 0 <= i < seen.len() && #[trigger] seen[i].0 == k].1
    } else {
        Set::empty()
    }
}

pub open spec fn sources_view(v: Seq<Source>) -> Set<SourceView> {
    Set::new(|s: SourceView| exists|i: int| 0 <= i < v.len() && #[trigger] v[i]@ == s)
}

/// What taking in a loaded package found at `source` makes of a builder
/// `b0`: the identity's sources gain `source`; an identity already
/// accepted is quarantined when the contents differ, with one conflict
/// reported; a new identity is accepted when it fits within the limits
/// and reported otherwise.
pub open spec fn took_in(b0: CatalogBuilder, b1: CatalogBuilder, facts: FactsView, source: SourceView) -> bool {
    &&& forall|k: (Seq<char>, semver::Version)| #[trigger] b1.sources(k) == if k == key_of(facts) {
        b0.sources(k).insert(source)
    } else {
        b0.sources(k)
    }
    &&& has_key(b0.packages(), key_of(facts)) ==> exists|i: int|
        0 <= i < b0.packages().len() && key_of(#[trigger] b0.packages()[i].0) == key_of(facts) && b1.packages()
            == b0.packages().update(i, (b0.packages()[i].0, b0.packages()[i].1 || b0.packages()[i].0.digest != facts.digest))
            && b1.bytes_used() == b0.bytes_used() && b1.reported() == if !b0.packages()[i].1 && b0.packages()[i].0.digest
            != facts.digest {
            b0.reported().push(IssueView::Conflict(facts.name, facts.version))
        } else {
            b0.reported()
        }
    &&& !has_key(b0.packages(), key_of(facts)) && (b0.packages().len() >= MAX_PACKAGES || facts.byte_len > MAX_BYTES
        - b0.bytes_used()) ==> b1.packages() == b0.packages() && b1.bytes_used() == b0.bytes_used() && b1.reported()
        == b0.reported().push(IssueView::OverLimits(facts.name, facts.version))
    &&& !has_key(b0.packages(), key_of(facts)) && !(b0.packages().len() >= MAX_PACKAGES || facts.byte_len > MAX_BYTES
        - b0.bytes_used()) ==> b1.packages() == b0.packages().push((facts, false)) && b1.bytes_used() == b0.bytes_used()
        + facts.byte_len && b1.reported() == b0.reported()
}

/// Packages being accepted to a catalog: each identity once, within the
/// library's count and byte limits, with every source each identity was
/// found at, and the identities found with conflicting contents marked.
pub struct CatalogBuilder {
    entries: Vec<(PackageFacts, bool)>,
    seen: Vec<(String, semver::Version, Vec<Source>)>,
    bytes: usize,
    issues: Vec<Issue>,
}

pub open spec fn facts_seq(es: Seq<(PackageFacts, bool)>) -> Seq<(FactsView, bool)> {
    Seq::new(es.len(), |i: int| (es[i].0@, es[i].1))
}

pub open spec fn seen_seq(s: Seq<(String, semver::Version, Vec<Source>)>) -> Seq<((Seq<char>, semver::Version), Set<SourceView>)> {
    Seq::new(s.len(), |i: int| ((s[i].0@, s[i].1), sources_view(s[i].2@)))
}

pub open spec fn distinct_keys(es: Seq<(FactsView, bool)>) -> bool {
    forall|i: int, j: int| 0 <= i < j < es.len() ==> key_of(#[trigger] es[i].0) != key_of(#[trigger] es[j].0)
}

pub open spec fn distinct_seen(s: Seq<((Seq<char>, semver::Version), Set<SourceView>)>) -> bool {
    forall|i: int, j: int| 0 <= i < j < s.len() ==> (#[trigger] s[i]).0 != (#[trigger] s[j]).0
}

impl CatalogBuilder {
    /// The accepted packages, with whether each is quarantined.
    pub closed spec fn packages(&self) -> Seq<(FactsView, bool)> {
        facts_seq(self.entries@)
    }

    /// The bytes accepted so far.
    pub closed spec fn bytes_used(&self) -> nat {
        self.bytes as nat
    }

    /// The issues reported so far.
    pub closed spec fn reported(&self) -> Seq<IssueView> {
        Seq::new(self.issues@.len(), |i: int| self.issues@[i]@)
    }

    /// The sources recorded for an identity.
    pub closed spec fn sources(&self, k: (Seq<char>, semver::Version)) -> Set<SourceView> {
        sources_for(seen_seq(self.seen@), k)
    }

    #[verifier::type_invariant]
    spec fn inv(self) -> bool {
        &&& distinct_keys(facts_seq(self.entries@))
        &&& distinct_seen(seen_seq(self.seen@))
        &&& self.bytes as nat == total_size(facts_seq(self.entries@))
        &&& self.bytes <= MAX_BYTES
        &&& self.entries@.len() <= MAX_PACKAGES
    }

    /// An empty catalog.
    pub fn new() -> (a: CatalogBuilder)
        ensures
            a.packages() == Seq::<(FactsView, bool)>::empty(),
            a.bytes_used() == 0,
            a.reported() == Seq::<IssueView>::empty(),
            forall|k: (Seq<char>, semver::Version)| #[trigger] a.sources(k) == Set::<SourceView>::empty(),
    {
        let a = CatalogBuilder { entries: Vec::new(), seen: Vec::new(), bytes: 0, issues: Vec::new() };
        assert(a.packages() =~= Seq::<(FactsView, bool)>::empty());
        assert(a.reported() =~= Seq::<IssueView>::empty());
        a
    }

    /// The accepted packages stay within the library's limits.
    pub fn within_limits(&self) -> (r: bool)
        ensures
            r,
            self.packages().len() <= MAX_PACKAGES,
            self.bytes_used() == total_size(self.packages()),
            self.bytes_used() <= MAX_BYTES,
            distinct_keys(self.packages()),
    {
        proof {
            use_type_invariant(self);
        }
        true
    }

    fn find(&self, name: &String, version: &semver::Version) -> (r: Option<usize>)
        ensures
            match r {
                Some(i) => i < self.entries@.len() && key_of(self.entries@[i as int].0@) == (name@, *version),
                None => !has_key(facts_seq(self.entries@), (name@, *version)),
            },
    {
        let mut i: usize = 0;
        while i < self.entries.len()
            invariant
                i <= self.entries@.len(),
                forall|j: int| 0 <= j < i ==> key_of(#[trigger] self.entries@[j].0@) != (name@, *version),
            decreases self.entries@.len() - i,
        {
            if str_eq(self.entries[i].0.name.as_str(), name.as_str()) && version_eq(&self.entries[i].0.version, version) {
                return Some(i);
            }
            i = i + 1;
        }
        assert forall|j: int| 0 <= j < facts_seq(self.entries@).len() implies key_of(
            #[trigger] facts_seq(self.entries@)[j].0,
        ) != (name@, *version) by {
            assert(facts_seq(self.entries@)[j].0 == self.entries@[j].0@);
        }
        None
    }

    fn find_seen(&self, name: &String, version: &semver::Version) -> (r: Option<usize>)
        ensures
            match r {
                Some(i) => i < self.seen@.len() && seen_seq(self.seen@)[i as int].0 == (name@, *version),
                None => forall|j: int| 0 <= j < self.seen@.len() ==> (#[trigger] seen_seq(self.seen@)[j]).0 != (name@, *version),
            },
    {
        let mut i: usize = 0;
        while i < self.seen.len()
            invariant
                i <= self.seen@.len(),
                forall|j: int| 0 <= j < i ==> (#[trigger] seen_seq(self.seen@)[j]).0 != (name@, *version),
            decreases self.seen@.len() - i,
        {
            assert(seen_seq(self.seen@)[i as int].0 == (self.seen@[i as int].0@, self.seen@[i as int].1));
            if str_eq(self.seen[i].0.as_str(), name.as_str()) && version_eq(&self.seen[i].1, version) {
                return Some(i);
            }
            i = i + 1;
        }
        None
    }

    /// Record that the identity was found at `source`.
    fn note_source(&mut self, name: &String, version: &semver::Version, source: Source)
        ensures
            final(self).packages() == old(self).packages(),
            final(self).bytes_used() == old(self).bytes_used(),
            final(self).reported() == old(self).reported(),
            forall|k: (Seq<char>, semver::Version)| #[trigger] final(self).sources(k) == if k == (name@, *version) {
                old(self).sources(k).insert(source@)
            } else {
                old(self).sources(k)
            },
    {
        proof {
            use_type_invariant(&*self);
        }
        let ghost before = seen_seq(self.seen@);
        let ghost key = (name@, *version);
        let found = self.find_seen(name, version);
        let i: usize = match found {
            Some(i) => i,
            None => self.seen.len(),
        };
        let mut seen: Vec<(String, semver::Version, Vec<Source>)> = Vec::new();
        std::mem::swap(&mut seen, &mut self.seen);
        if i < seen.len() {
            assert(before[i as int].0 == key);
            assert(found is Some);
            let (n, v, mut srcs) = seen.remove(i);
            let ghost old_set = sources_view(srcs@);
            let ghost old_srcs = srcs@;
            let mut present = false;
            let mut j: usize = 0;
            while j < srcs.len()
                invariant
                    j <= srcs@.len(),
                    present == exists|t: int| 0 <= t < j && #[trigger] srcs@[t]@ == source@,
                decreases srcs@.len() - j,
            {
                if srcs[j].same(&source) {
                    present = true;
                }
                j = j + 1;
            }
            if !present {
                srcs.push(source);
            }
            let ghost new_set = sources_view(srcs@);
            assert(new_set =~= old_set.insert(source@)) by {
                assert forall|x: SourceView| new_set.contains(x) implies #[trigger] old_set.insert(source@).contains(x) by {
                    let t = choose|t: int| 0 <= t < srcs@.len() && #[trigger] srcs@[t]@ == x;
                    if !present && t == srcs@.len() - 1 {
                    } else {
                        assert(srcs@[t] == old_srcs[t]);
                        assert(old_set.contains(x));
                    }
                }
                assert forall|x: SourceView| old_set.insert(source@).contains(x) implies #[trigger] new_set.contains(x) by {
                    if x == source@ {
                        if present {
                            let t = choose|t: int| 0 <= t < srcs@.len() && #[trigger] srcs@[t]@ == source@;
                        } else {
                            assert(srcs@[srcs@.len() - 1]@ == x);
                        }
                    } else {
                        let t = choose|t: int| 0 <= t < old_srcs.len() && #[trigger] old_srcs[t]@ == x;
                        assert(srcs@[t] == old_srcs[t]);
                    }
                }
            }
            seen.insert(i, (n, v, srcs));
            proof {
                let after = seen_seq(seen@);
                assert(after =~= before.update(i as int, (key, new_set)));
                assert(distinct_seen(after)) by {
                    assert forall|a: int, b: int| 0 <= a < b < after.len() implies (#[trigger] after[a]).0 != (#[trigger] after[b]).0 by {
                        assert(before[a].0 != before[b].0);
                    }
                }
                assert forall|k: (Seq<char>, semver::Version)| #[trigger] sources_for(after, k) == if k == key {
                    sources_for(before, k).insert(source@)
                } else {
                    sources_for(before, k)
                } by {
                    if k == key {
                        assert(after[i as int].0 == k);
                        assert(before[i as int].1 == old_set);
                        assert(after[i as int].1 == new_set);
                        let c = choose|c: int| 0 <= c < before.len() && #[trigger] before[c].0 == k;
                        assert(c == i) by {
                            if c != i {
                                if c < i {
                                    assert(before[c].0 != before[i as int].0);
                                } else {
                                    assert(before[i as int].0 != before[c].0);
                                }
                            }
                        }
                        let c2 = choose|c: int| 0 <= c < after.len() && #[trigger] after[c].0 == k;
                        assert(c2 == i) by {
                            if c2 != i {
                                if c2 < i {
                                    assert(after[c2].0 != after[i as int].0);
                                } else {
                                    assert(after[i as int].0 != after[c2].0);
                                }
                            }
                        }
                    } else {
                        if exists|c: int| 0 <= c < before.len() && #[trigger] before[c].0 == k {
                            let c = choose|c: int| 0 <= c < before.len() && #[trigger] before[c].0 == k;
                            assert(after[c].0 == k);
                            let c2 = choose|c: int| 0 <= c < after.len() && #[trigger] after[c].0 == k;
                            assert(c2 != i);
                            assert(before[c2].0 == k);
                            assert(c2 == c) by {
                                if c2 != c {
                                    if c2 < c {
                                        assert(before[c2].0 != before[c].0);
                                    } else {
                                        assert(before[c].0 != before[c2].0);
                                    }
                                }
                            }
                        }
                        if exists|c: int| 0 <= c < after.len() && #[trigger] after[c].0 == k {
                            let c = choose|c: int| 0 <= c < after.len() && #[trigger] after[c].0 == k;
                            assert(c != i);
                            assert(before[c].0 == k);
                        }
                    }
                }
            }
        } else {
            let mut srcs: Vec<Source> = Vec::new();
            srcs.push(source);
            let ghost new_set = sources_view(srcs@);
            assert(new_set =~= Set::<SourceView>::empty().insert(source@)) by {
                assert forall|x: SourceView| new_set.contains(x) implies #[trigger] Set::<SourceView>::empty().insert(source@).contains(x) by {
                    let t = choose|t: int| 0 <= t < srcs@.len() && #[trigger] srcs@[t]@ == x;
                }
                assert(srcs@[0]@ == source@);
            }
            seen.push((name.clone(), clone_version(version), srcs));
            proof {
                let after = seen_seq(seen@);
                let n = before.len() as int;
                assert(after =~= before.push((key, new_set)));
                assert(distinct_seen(after)) by {
                    assert forall|a: int, b: int| 0 <= a < b < after.len() implies (#[trigger] after[a]).0 != (#[trigger] after[b]).0 by {
                        if b < n {
                            assert(before[a].0 != before[b].0);
                        } else {
                            assert(after[a] == before[a]);
                        }
                    }
                }
                assert forall|k: (Seq<char>, semver::Version)| #[trigger] sources_for(after, k) == if k == key {
                    sources_for(before, k).insert(source@)
                } else {
                    sources_for(before, k)
                } by {
                    if k == key {
                        assert(after[n].0 == k);
                        let c2 = choose|c: int| 0 <= c < after.len() && #[trigger] after[c].0 == k;
                        assert(c2 == n) by {
                            if c2 != n {
                                assert(after[c2] == before[c2]);
                            }
                        }
                        assert(!(exists|c: int| 0 <= c < before.len() && #[trigger] before[c].0 == k));
                    } else {
                        if exists|c: int| 0 <= c < before.len() && #[trigger] before[c].0 == k {
                            let c = choose|c: int| 0 <= c < before.len() && #[trigger] before[c].0 == k;
                            assert(after[c].0 == k);
                            let c2 = choose|c: int| 0 <= c < after.len() && #[trigger] after[c].0 == k;
                            assert(c2 != n);
                            assert(before[c2].0 == k);
                            assert(c2 == c) by {
                                if c2 != c {
                                    if c2 < c {
                                        assert(before[c2].0 != before[c].0);
                                    } else {
                                        assert(before[c].0 != before[c2].0);
                                    }
                                }
                            }
                        }
                        if exists|c: int| 0 <= c < after.len() && #[trigger] after[c].0 == k {
                            let c = choose|c: int| 0 <= c < after.len() && #[trigger] after[c].0 == k;
                            assert(c != n);
                            assert(before[c].0 == k);
                        }
                    }
                }
            }
        }
        self.seen = seen;
    }

    /// Take in a loaded package found at `source`. An identity already
    /// accepted gains the source; if the contents differ, it is
    /// quarantined and the conflict reported (once). A new identity is
    /// accepted when it fits within the limits and reported otherwise.
    /// Every source is recorded either way.
    pub fn add_package(&mut self, facts: PackageFacts, source: Source)
        ensures
            forall|k: (Seq<char>, semver::Version)| #[trigger] final(self).sources(k) == if k == key_of(facts@) {
                old(self).sources(k).insert(source@)
            } else {
                old(self).sources(k)
            },
            has_key(old(self).packages(), key_of(facts@)) ==> exists|i: int|
                0 <= i < old(self).packages().len() && key_of(#[trigger] old(self).packages()[i].0) == key_of(facts@)
                    && final(self).packages() == old(self).packages().update(
                    i,
                    (old(self).packages()[i].0, old(self).packages()[i].1 || old(self).packages()[i].0.digest
                        != facts@.digest),
                ) && final(self).bytes_used() == old(self).bytes_used() && final(self).reported() == if !old(
                    self,
                ).packages()[i].1 && old(self).packages()[i].0.digest != facts@.digest {
                    old(self).reported().push(IssueView::Conflict(facts@.name, facts@.version))
                } else {
                    old(self).reported()
                },
            !has_key(old(self).packages(), key_of(facts@)) && (old(self).packages().len() >= MAX_PACKAGES
                || facts@.byte_len > MAX_BYTES - old(self).bytes_used()) ==> final(self).packages() == old(
                self,
            ).packages() && final(self).bytes_used() == old(self).bytes_used() && final(self).reported() == old(
                self,
            ).reported().push(IssueView::OverLimits(facts@.name, facts@.version)),
            !has_key(old(self).packages(), key_of(facts@)) && !(old(self).packages().len() >= MAX_PACKAGES
                || facts@.byte_len > MAX_BYTES - old(self).bytes_used()) ==> final(self).packages() == old(
                self,
            ).packages().push((facts@, false)) && final(self).bytes_used() == old(self).bytes_used()
                + facts@.byte_len && final(self).reported() == old(self).reported(),
            took_in(*old(self), *final(self), facts@, source@),
    {
        let name = facts.name.clone();
        let version = clone_version(&facts.version);
        self.note_source(&name, &version, source);
        let ghost noted = seen_seq(self.seen@);
        let ghost mid = *self;
        proof {
            use_type_invariant(&*self);
        }
        let found = self.find(&name, &version);
        let mut tmp = CatalogBuilder::new();
        std::mem::swap(self, &mut tmp);
        let CatalogBuilder { mut entries, seen, bytes, mut issues } = tmp;
        let ghost es0 = facts_seq(entries@);
        let ghost is0 = issues@;
        let ghost key = key_of(facts@);
        match found {
            Some(i) => {
                let (f, conflicted) = entries.remove(i);
                let differs = !bytes_eq(f.digest.as_slice(), facts.digest.as_slice());
                if !conflicted && differs {
                    issues.push(Issue::Conflict { name, version });
                }
                entries.insert(i, (f, conflicted || differs));
                proof {
                    let es1 = facts_seq(entries@);
                    assert(es1 =~= es0.update(i as int, (es0[i as int].0, es0[i as int].1 || es0[i as int].0.digest != facts@.digest)));
                    assert(distinct_keys(es1)) by {
                        assert forall|a: int, b: int| 0 <= a < b < es1.len() implies key_of(#[trigger] es1[a].0) != key_of(#[trigger] es1[b].0) by {
                            assert(key_of(es0[a].0) != key_of(es0[b].0));
                        }
                    }
                    lemma_total_size_update(es0, i as int, es0[i as int].1 || es0[i as int].0.digest != facts@.digest);
                }
                *self = CatalogBuilder { entries, seen, bytes, issues };
                proof {
                    assert(seen_seq(self.seen@) == noted);

                    assert(self.reported() =~= if !es0[i as int].1 && es0[i as int].0.digest != facts@.digest {
                        Seq::new(is0.len(), |j: int| is0[j]@).push(IssueView::Conflict(facts@.name, facts@.version))
                    } else {
                        Seq::new(is0.len(), |j: int| is0[j]@)
                    });
                }
            },
            None => {
                if entries.len() >= MAX_PACKAGES || facts.byte_len > MAX_BYTES - bytes {
                    issues.push(Issue::OverLimits { name, version });
                    *self = CatalogBuilder { entries, seen, bytes, issues };
                    assert(self.reported() =~= Seq::new(is0.len(), |j: int| is0[j]@).push(IssueView::OverLimits(facts@.name, facts@.version)));
                } else {
                    let len = facts.byte_len;
                    entries.push((facts, false));
                    proof {
                        let es1 = facts_seq(entries@);
                        assert(es1 =~= es0.push((facts@, false)));
                        assert(es1.drop_last() =~= es0);
                        assert(distinct_keys(es1)) by {
                            assert forall|a: int, b: int| 0 <= a < b < es1.len() implies key_of(#[trigger] es1[a].0) != key_of(#[trigger] es1[b].0) by {
                                if b < es0.len() {
                                    assert(key_of(es0[a].0) != key_of(es0[b].0));
                                } else {
                                    assert(es1[a] == es0[a]);
                                    if key_of(es0[a].0) == key {
                                        assert(has_key(es0, key));
                                    }
                                }
                            }
                        }
                    }
                    *self = CatalogBuilder { entries, seen, bytes: bytes + len, issues };
                    assert(self.reported() =~= Seq::new(is0.len(), |j: int| is0[j]@));
                }
            },
        }
        assert forall|k: (Seq<char>, semver::Version)| #[trigger] self.sources(k) == if k == key_of(facts@) {
            old(self).sources(k).insert(source@)
        } else {
            old(self).sources(k)
        } by {
            assert(self.sources(k) == mid.sources(k));
        }
    }
}

/// Whether two byte strings are equal.
pub fn bytes_eq(a: &[u8], b: &[u8]) -> (r: bool)
    ensures
        r == (a@ == b@),
{
    if a.len() != b.len() {
        return false;
    }
    let mut i: usize = 0;
    while i < a.len()
        invariant
            i <= a@.len(),
            a@.len() == b@.len(),
            forall|k: int| 0 <= k < i ==> a@[k] == b@[k],
        decreases a@.len() - i,
    {
        if a[i] != b[i] {
            return false;
        }
        i = i + 1;
    }
    assert(a@ =~= b@);
    true
}

proof fn lemma_total_size_update(es: Seq<(FactsView, bool)>, i: int, c: bool)
    requires
        0 <= i < es.len(),
    ensures
        total_size(es.update(i, (es[i].0, c))) == total_size(es),
    decreases es.len(),
{
    let u = es.update(i, (es[i].0, c));
    if i == es.len() - 1 {
        assert(u.drop_last() =~= es.drop_last());
    } else {
        lemma_total_size_update(es.drop_last(), i, c);
        assert(u.drop_last() =~= es.drop_last().update(i, (es[i].0, c)));
    }
}

/// One package in a catalog: what it is, every place it was found, and
/// whether its identity is quarantined for conflicting contents.
pub struct CatalogEntry {
    pub facts: PackageFacts,
    pub sources: Vec<Source>,
    pub conflicted: bool,
}

pub struct EntryView {
    pub facts: FactsView,
    pub sources: Set<SourceView>,
    pub conflicted: bool,
}

impl View for CatalogEntry {
    type V = EntryView;

    open spec fn view(&self) -> EntryView {
        EntryView { facts: self.facts@, sources: sources_view(self.sources@), conflicted: self.conflicted }
    }
}

/// The packages a library holds, and what was reported while reading it.
pub struct Catalog {
    entries: Vec<CatalogEntry>,
    issues: Vec<Issue>,
}

pub open spec fn entries_view(es: Seq<CatalogEntry>) -> Seq<EntryView> {
    Seq::new(es.len(), |i: int| es[i]@)
}

fn copy_sources(v: &Vec<Source>) -> (r: Vec<Source>)
    ensures
        sources_view(r@) == sources_view(v@),
{
    let mut out: Vec<Source> = Vec::new();
    let mut i: usize = 0;
    while i < v.len()
        invariant
            i <= v@.len(),
            out@.len() == i,
            forall|k: int| 0 <= k < i ==> (#[trigger] out@[k])@ == v@[k]@,
        decreases v@.len() - i,
    {
        out.push(v[i].copy());
        i = i + 1;
    }
    assert(sources_view(out@) =~= sources_view(v@)) by {
        assert forall|x: SourceView| sources_view(out@).contains(x) implies #[trigger] sources_view(v@).contains(x) by {
            let t = choose|t: int| 0 <= t < out@.len() && #[trigger] out@[t]@ == x;
            assert(v@[t]@ == x);
        }
        assert forall|x: SourceView| sources_view(v@).contains(x) implies #[trigger] sources_view(out@).contains(x) by {
            let t = choose|t: int| 0 <= t < v@.len() && #[trigger] v@[t]@ == x;
            assert(out@[t]@ == x);
        }
    }
    out
}

fn copy_deps(v: &Vec<(String, semver::Version)>) -> (r: Vec<(String, semver::Version)>)
    ensures
        deps_view(r@) == deps_view(v@),
{
    let mut out: Vec<(String, semver::Version)> = Vec::new();
    let mut i: usize = 0;
    while i < v.len()
        invariant
            i <= v@.len(),
            out@.len() == i,
            forall|k: int| 0 <= k < i ==> (#[trigger] out@[k]).0@ == v@[k].0@ && out@[k].1 == v@[k].1,
        decreases v@.len() - i,
    {
        let n = v[i].0.clone();
        let ver = clone_version(&v[i].1);
        out.push((n, ver));
        i = i + 1;
    }
    assert(deps_view(out@) =~= deps_view(v@));
    out
}

impl PackageFacts {
    /// A copy of the facts.
    pub fn copy(&self) -> (r: PackageFacts)
        ensures
            r@ == self@,
    {
        PackageFacts {
            name: self.name.clone(),
            version: clone_version(&self.version),
            digest: crate::lobby::handshake::copy_bytes(&self.digest),
            byte_len: self.byte_len,
            dependencies: copy_deps(&self.dependencies),
        }
    }
}

impl CatalogBuilder {
    /// Report an issue that is not about one package.
    pub fn report(&mut self, issue: Issue)
        ensures
            final(self).packages() == old(self).packages(),
            final(self).bytes_used() == old(self).bytes_used(),
            final(self).reported() == old(self).reported().push(issue@),
            forall|k: (Seq<char>, semver::Version)| #[trigger] final(self).sources(k) == old(self).sources(k),
    {
        proof {
            use_type_invariant(&*self);
        }
        let ghost mid = *self;
        let mut tmp = CatalogBuilder::new();
        std::mem::swap(self, &mut tmp);
        let CatalogBuilder { entries, seen, bytes, mut issues } = tmp;
        let ghost is0 = issues@;
        issues.push(issue);
        *self = CatalogBuilder { entries, seen, bytes, issues };
        assert(self.reported() =~= Seq::new(is0.len(), |j: int| is0[j]@).push(issue@));
        assert forall|k: (Seq<char>, semver::Version)| #[trigger] self.sources(k) == old(self).sources(k) by {
            assert(self.sources(k) == mid.sources(k));
        }
    }

    /// What the catalog holds for the `k`th accepted package.
    #[verifier::opaque]
    pub open spec fn accepted(&self, k: int) -> EntryView {
        EntryView {
            facts: self.packages()[k].0,
            sources: self.sources(key_of(self.packages()[k].0)),
            conflicted: self.packages()[k].1,
        }
    }

    /// What the catalog holds for each accepted package, in the order
    /// they were accepted.
    pub open spec fn accepted_entries(&self) -> Seq<EntryView> {
        Seq::new(self.packages().len(), |k: int| self.accepted(k))
    }

    /// The finished catalog: each package with every source it was found
    /// at, ordered by name, then version.
    pub fn finish(self) -> (c: Catalog)
        ensures
            sorted_by_key(c.entries_spec()),
            c.entries_spec().to_multiset() == self.accepted_entries().to_multiset(),
            c.issues_spec() == self.reported(),
    {
        proof {
            use_type_invariant(&self);
        }
        let ghost all = self.accepted_entries();
        let mut out: Vec<CatalogEntry> = Vec::new();
        let mut i: usize = 0;
        assert(entries_view(out@) =~= all.take(0));
        while i < self.entries.len()
            invariant
                i <= self.entries@.len(),
                all == self.accepted_entries(),
                all.len() == self.entries@.len(),
                distinct_seen(seen_seq(self.seen@)),
                distinct_keys(self.packages()),
                sorted_by_key(entries_view(out@)),
                entries_view(out@).to_multiset() == all.take(i as int).to_multiset(),
            decreases self.entries@.len() - i,
        {
            let facts = self.entries[i].0.copy();
            let sources = match self.find_seen(&self.entries[i].0.name, &self.entries[i].0.version) {
                Some(j) => {
                    proof {
                        let s = seen_seq(self.seen@);
                        let k = (self.entries@[i as int].0@.name, self.entries@[i as int].0@.version);
                        let c = choose|c: int| 0 <= c < s.len() && #[trigger] s[c].0 == k;
                        assert(c == j) by {
                            if c != j {
                                if c < j {
                                    assert(s[c].0 != s[j as int].0);
                                } else {
                                    assert(s[j as int].0 != s[c].0);
                                }
                            }
                        }
                    }
                    copy_sources(&self.seen[j].2)
                },
                None => {
                    let empty: Vec<Source> = Vec::new();
                    assert(sources_view(empty@) =~= Set::<SourceView>::empty());
                    empty
                },
            };
            let e = CatalogEntry { facts, sources, conflicted: self.entries[i].1 };
            let ghost o = entries_view(out@);
            let ghost t = all.take(i as int);
            proof {
                reveal(CatalogBuilder::accepted);
                assert(e@ == all[i as int]);
                o.to_multiset_ensures();
                t.to_multiset_ensures();
                assert forall|a: int| 0 <= a < o.len() implies key_of((#[trigger] o[a]).facts) != key_of(e@.facts) by {
                    assert(o.contains(o[a]));
                    assert(o.to_multiset().count(o[a]) > 0);
                    assert(t.to_multiset().count(o[a]) > 0);
                    assert(t.contains(o[a]));
                    let k = choose|k: int| 0 <= k < t.len() && t[k] == o[a];
                    assert(t[k] == all[k]);
                    assert(key_of(self.packages()[k].0) != key_of(self.packages()[i as int].0));
                }
            }
            let j = insert_by_key(&mut out, e);
            proof {
                vstd::seq_lib::to_multiset_insert(o, j as int, e@);
                assert(all.take(i + 1) =~= t.push(e@));
                t.to_multiset_ensures();
            }
            i = i + 1;
        }
        assert(all.take(i as int) =~= all);
        let c = Catalog { entries: out, issues: self.issues };
        assert(c.issues_spec() =~= self.reported());
        assert(c.entries_spec() == entries_view(out@));
        c
    }
}

/// Whether the entries come strictly by identity.
pub open spec fn sorted_by_key(es: Seq<EntryView>) -> bool {
    forall|a: int, b: int| 0 <= a < b < es.len() ==> key_lt(key_of((#[trigger] es[a]).facts), key_of((#[trigger] es[b]).facts))
}

/// Put `e` among entries ordered by identity, where it belongs.
fn insert_by_key(out: &mut Vec<CatalogEntry>, e: CatalogEntry) -> (j: usize)
    requires
        sorted_by_key(entries_view(old(out)@)),
        forall|a: int|
            0 <= a < entries_view(old(out)@).len() ==> key_of((#[trigger] entries_view(old(out)@)[a]).facts) != key_of(
                e@.facts,
            ),
    ensures
        j <= old(out)@.len(),
        entries_view(final(out)@) == entries_view(old(out)@).insert(j as int, e@),
        sorted_by_key(entries_view(final(out)@)),
{
    let ghost o = entries_view(out@);
    let ghost ev = e@;
    let mut j: usize = 0;
    let mut stop = false;
    while !stop && j < out.len()
        invariant
            j <= out@.len(),
            entries_view(out@) == o,
            out@.len() == o.len(),
            e@ == ev,
            forall|a: int| 0 <= a < o.len() ==> key_of((#[trigger] o[a]).facts) != key_of(ev.facts),
            forall|a: int| 0 <= a < j ==> key_lt(key_of((#[trigger] o[a]).facts), key_of(ev.facts)),
            stop ==> j < o.len() && key_lt(key_of(ev.facts), key_of(o[j as int].facts)),
            stop ==> forall|t: (Seq<char>, semver::Version)|
                key_lt(key_of(o[j as int].facts), t) ==> #[trigger] key_lt(key_of(ev.facts), t),
        decreases out@.len() + 1 - j - (if stop { 1int } else { 0int }),
    {
        assert(o[j as int] == out@[j as int]@);
        if key_before(&e.facts, &out[j].facts) {
            stop = true;
        } else {
            assert(key_of(o[j as int].facts) != key_of(ev.facts));
            j = j + 1;
        }
    }
    out.insert(j, e);
    proof {
        let n = o.insert(j as int, ev);
        assert(entries_view(out@) =~= n);
        assert forall|a: int, b: int| 0 <= a < b < n.len() implies key_lt(
            key_of((#[trigger] n[a]).facts),
            key_of((#[trigger] n[b]).facts),
        ) by {
            if b < j {
                assert(n[a] == o[a] && n[b] == o[b]);
            } else if b == j {
                assert(n[a] == o[a]);
            } else if a == j {
                assert(n[b] == o[b - 1]);
                if b - 1 > j {
                    assert(key_lt(key_of(o[j as int].facts), key_of(o[b - 1].facts)));
                }
            } else if a < j {
                assert(n[a] == o[a] && n[b] == o[b - 1]);
            } else {
                assert(n[a] == o[a - 1] && n[b] == o[b - 1]);
            }
        }
    }
    j
}

/// Whether identity `a` comes before identity `b`: by name, then by version.
pub open spec fn key_lt(a: (Seq<char>, semver::Version), b: (Seq<char>, semver::Version)) -> bool {
    lex_lt(a.0, b.0) || (a.0 == b.0 && semver_before(a.1, b.1))
}

/// Whether `a`'s identity comes before `b`'s.
fn key_before(a: &PackageFacts, b: &PackageFacts) -> (r: bool)
    ensures
        r == key_lt(key_of(a@), key_of(b@)),
        !r ==> key_of(a@) == key_of(b@) || key_lt(key_of(b@), key_of(a@)),
        r ==> forall|t: (Seq<char>, semver::Version)| key_lt(key_of(b@), t) ==> #[trigger] key_lt(key_of(a@), t),
{
    if str_lt(a.name.as_str(), b.name.as_str()) {
        proof {
            assert forall|t: (Seq<char>, semver::Version)| key_lt(key_of(b@), t) implies #[trigger] key_lt(key_of(a@), t) by {
                if lex_lt(b@.name, t.0) {
                    lemma_lex_transitive(a@.name, b@.name, t.0);
                }
            }
        }
        true
    } else if str_eq(a.name.as_str(), b.name.as_str()) {
        let r = version_less(&a.version, &b.version);
        proof {
            if r {
                assert forall|t: (Seq<char>, semver::Version)| key_lt(key_of(b@), t) implies #[trigger] key_lt(key_of(a@), t) by {
                    if !lex_lt(b@.name, t.0) {
                        assert(semver_before(b@.version, t.1));
                    }
                }
            }
        }
        r
    } else {
        proof {
            lemma_lex_total(a@.name, b@.name);
        }
        false
    }
}

/// The version a package depends on `name` at, if any.
pub open spec fn dep_version(deps: Seq<(Seq<char>, semver::Version)>, name: Seq<char>) -> Option<semver::Version>
    decreases deps.len(),
{
    if deps.len() == 0 {
        None
    } else if deps[0].0 == name {
        Some(deps[0].1)
    } else {
        dep_version(deps.drop_first(), name)
    }
}

/// The identities in `es`, other than `k`, that depend on exactly `k`.
pub open spec fn dependents_spec(es: Seq<EntryView>, k: (Seq<char>, semver::Version)) -> Seq<(Seq<char>, semver::Version)>
    decreases es.len(),
{
    if es.len() == 0 {
        Seq::empty()
    } else {
        let r = dependents_spec(es.drop_last(), k);
        let e = es.last();
        if key_of(e.facts) != k && dep_version(e.facts.dependencies, k.0) == Some(k.1) {
            r.push(key_of(e.facts))
        } else {
            r
        }
    }
}

/// Whether an identity is held with some source other than an archive.
pub open spec fn kept_elsewhere(es: Seq<EntryView>, k: (Seq<char>, semver::Version)) -> bool {
    exists|i: int|
        0 <= i < es.len() && key_of(#[trigger] es[i].facts) == k && exists|s: SourceView|
            es[i].sources.contains(s) && !(s is Archive)
}

pub open spec fn keys_view(v: Seq<(String, semver::Version)>) -> Seq<(Seq<char>, semver::Version)> {
    Seq::new(v.len(), |i: int| (v[i].0@, v[i].1))
}

fn dep_version_of(deps: &Vec<(String, semver::Version)>, name: &String) -> (r: Option<semver::Version>)
    ensures
        r == dep_version(deps_view(deps@), name@),
{
    let mut i: usize = 0;
    assert(deps_view(deps@).skip(0) =~= deps_view(deps@));
    while i < deps.len()
        invariant
            i <= deps@.len(),
            dep_version(deps_view(deps@), name@) == dep_version(deps_view(deps@).skip(i as int), name@),
        decreases deps@.len() - i,
    {
        let ghost rest = deps_view(deps@).skip(i as int);
        assert(rest[0] == (deps@[i as int].0@, deps@[i as int].1));
        assert(rest.drop_first() =~= deps_view(deps@).skip(i + 1));
        if str_eq(deps[i].0.as_str(), name.as_str()) {
            return Some(clone_version(&deps[i].1));
        }
        i = i + 1;
    }
    assert(deps_view(deps@).skip(i as int) =~= Seq::<(Seq<char>, semver::Version)>::empty());
    None
}

impl Catalog {
    pub closed spec fn entries_spec(&self) -> Seq<EntryView> {
        entries_view(self.entries@)
    }

    pub closed spec fn issues_spec(&self) -> Seq<IssueView> {
        Seq::new(self.issues@.len(), |i: int| self.issues@[i]@)
    }

    /// The packages, by name, then version.
    pub fn entries(&self) -> (r: &Vec<CatalogEntry>)
        ensures
            entries_view(r@) == self.entries_spec(),
    {
        &self.entries
    }

    /// What was reported while reading the library.
    pub fn issues(&self) -> (r: &Vec<Issue>)
        ensures
            Seq::new(r@.len(), |i: int| r@[i]@) == self.issues_spec(),
    {
        &self.issues
    }

    /// The identities, other than `name version` itself, that depend on
    /// exactly that version.
    pub fn dependents(&self, name: &String, version: &semver::Version) -> (r: Vec<(String, semver::Version)>)
        ensures
            keys_view(r@) == dependents_spec(self.entries_spec(), (name@, *version)),
    {
        let ghost es = self.entries_spec();
        let ghost k = (name@, *version);
        let mut out: Vec<(String, semver::Version)> = Vec::new();
        let mut i: usize = 0;
        while i < self.entries.len()
            invariant
                i <= self.entries@.len(),
                es == self.entries_spec(),
                k == (name@, *version),
                keys_view(out@) == dependents_spec(es.take(i as int), k),
            decreases self.entries@.len() - i,
        {
            let e = &self.entries[i];
            let ghost t1 = es.take(i + 1);
            assert(t1.drop_last() =~= es.take(i as int));
            assert(t1.last() == e@);
            let same_name = str_eq(e.facts.name.as_str(), name.as_str());
            let same_version = version_eq(&e.facts.version, version);
            let same = same_name && same_version;
            assert(same_name == (e.facts.name@ == name@));
            assert(same_version == (e.facts.version == *version));
            assert(e@.facts.name == e.facts.name@);
            assert(e@.facts.version == e.facts.version);
            assert(same == (key_of(e@.facts) == k));
            let ghost before = keys_view(out@);
            let ghost cond = key_of(e@.facts) != k && dep_version(e@.facts.dependencies, k.0) == Some(k.1);
            assert(dependents_spec(t1, k) == if cond {
                dependents_spec(es.take(i as int), k).push(key_of(e@.facts))
            } else {
                dependents_spec(es.take(i as int), k)
            });
            if !same {
                match dep_version_of(&e.facts.dependencies, name) {
                    Some(v) => {
                        if version_eq(&v, version) {
                            let nm = e.facts.name.clone();
                            let vv = clone_version(&e.facts.version);
                            out.push((nm, vv));
                            assert(keys_view(out@) =~= before.push(key_of(e@.facts)));
                        } else {
                            assert(!cond);
                        }
                    },
                    None => {
                        assert(!cond);
                    },
                }
            } else {
                assert(!cond);
            }
            i = i + 1;
        }
        assert(es.take(i as int) =~= es);
        out
    }

    /// What stops `name version` from being removed: nothing when the
    /// same identity is also kept somewhere other than an archive (a
    /// bundled or development copy), and otherwise every identity that
    /// depends on exactly it.
    pub fn removal_blockers(&self, name: &String, version: &semver::Version) -> (r: Vec<(String, semver::Version)>)
        ensures
            kept_elsewhere(self.entries_spec(), (name@, *version)) ==> r@.len() == 0,
            !kept_elsewhere(self.entries_spec(), (name@, *version)) ==> keys_view(r@) == dependents_spec(
                self.entries_spec(),
                (name@, *version),
            ),
    {
        let ghost es = self.entries_spec();
        let ghost k = (name@, *version);
        let mut i: usize = 0;
        while i < self.entries.len()
            invariant
                i <= self.entries@.len(),
                es == self.entries_spec(),
                k == (name@, *version),
                forall|j: int| 0 <= j < i && key_of(#[trigger] es[j].facts) == k ==> forall|s: SourceView|
                    es[j].sources.contains(s) ==> s is Archive,
            decreases self.entries@.len() - i,
        {
            let e = &self.entries[i];
            assert(es[i as int] == e@);
            if str_eq(e.facts.name.as_str(), name.as_str()) && version_eq(&e.facts.version, version) {
                assert(key_of(e@.facts) == k);
                let mut t: usize = 0;
                while t < e.sources.len()
                    invariant
                        t <= e.sources@.len(),
                        i < es.len(),
                        es == self.entries_spec(),
                        es[i as int] == e@,
                        k == (name@, *version),
                        key_of(e@.facts) == k,
                        forall|u: int| 0 <= u < t ==> (#[trigger] e.sources@[u])@ is Archive,
                    decreases e.sources@.len() - t,
                {
                    match &e.sources[t] {
                        Source::Archive(_) => {},
                        _ => {
                            proof {
                                let s = e.sources@[t as int]@;
                                assert(es[i as int].sources.contains(s));
                                assert(kept_elsewhere(es, k));
                            }
                            return Vec::new();
                        },
                    }
                    t = t + 1;
                }
                assert forall|s: SourceView| es[i as int].sources.contains(s) implies s is Archive by {
                    let u = choose|u: int| 0 <= u < e.sources@.len() && #[trigger] e.sources@[u]@ == s;
                }
            }
            i = i + 1;
        }
        assert(!kept_elsewhere(es, k)) by {
            if kept_elsewhere(es, k) {
                let j = choose|j: int| 0 <= j < es.len() && key_of(#[trigger] es[j].facts) == k && exists|s: SourceView|
                    es[j].sources.contains(s) && !(s is Archive);
            }
        }
        self.dependents(name, version)
    }
}

/// Why writing a batch of archives failed.
#[derive(Debug)]
pub enum BatchError {
    /// Writing the archive at `index` failed; every archive before it was
    /// removed again.
    Write { index: usize, error: StorageError },
    /// Writing the archive at `index` failed, and removing some of the
    /// archives written before it failed too.
    RollbackFailed { index: usize, error: StorageError, failures: Vec<(StorePath, StorageError)> },
}

pub open spec fn outputs_view(v: Seq<(StorePath, Vec<u8>)>) -> Seq<(Seq<CompView>, Seq<u8>)> {
    Seq::new(v.len(), |i: int| (v[i].0@, v[i].1@))
}

/// The files after each output was written through its temporary, in order.
pub open spec fn batch_result(
    f: Map<Seq<CompView>, Seq<u8>>,
    outs: Seq<(Seq<CompView>, Seq<u8>)>,
) -> Map<Seq<CompView>, Seq<u8>>
    decreases outs.len(),
{
    if outs.len() == 0 {
        f
    } else {
        batch_result(f, outs.drop_last()).remove(temp_path(outs.last().0)).insert(outs.last().0, outs.last().1)
    }
}

/// Whether none of the outputs' paths, nor their temporaries, is a file
/// before the batch: every archive the batch writes is new.
pub open spec fn batch_fresh(f: Map<Seq<CompView>, Seq<u8>>, outs: Seq<(Seq<CompView>, Seq<u8>)>) -> bool {
    forall|t: int| 0 <= t < outs.len() ==> !f.contains_key(#[trigger] outs[t].0) && !f.contains_key(temp_path(outs[t].0))
}

/// Whether `k` is the path of one of the first `n` outputs.
pub open spec fn among_outputs(outs: Seq<(Seq<CompView>, Seq<u8>)>, n: int, k: Seq<CompView>) -> bool {
    exists|t: int| 0 <= t < n && #[trigger] outs[t].0 == k
}

/// Whether `a` and `b` hold the same file at `k`, or both none.
pub open spec fn same_at(a: Map<Seq<CompView>, Seq<u8>>, b: Map<Seq<CompView>, Seq<u8>>, k: Seq<CompView>) -> bool {
    a.contains_key(k) == b.contains_key(k) && (a.contains_key(k) ==> a[k] == b[k])
}

proof fn lemma_batch_fresh(f: Map<Seq<CompView>, Seq<u8>>, outs: Seq<(Seq<CompView>, Seq<u8>)>, n: int, k: Seq<CompView>)
    requires
        0 <= n <= outs.len(),
        batch_fresh(f, outs),
        !among_outputs(outs, n, k),
    ensures
        same_at(batch_result(f, outs.take(n)), f, k),
    decreases n,
{
    if n > 0 {
        let t = outs.take(n);
        assert(t.drop_last() =~= outs.take(n - 1));
        assert(t.last() == outs[n - 1]);
        assert(outs[n - 1].0 != k);
        assert(!among_outputs(outs, n - 1, k)) by {
            if among_outputs(outs, n - 1, k) {
                let w = choose|w: int| 0 <= w < n - 1 && #[trigger] outs[w].0 == k;
                assert(0 <= w < n && outs[w].0 == k);
            }
        }
        lemma_batch_fresh(f, outs, n - 1, k);
        if k == temp_path(outs[n - 1].0) {
            assert(!f.contains_key(temp_path(outs[n - 1].0)));
        }
    }
}

/// Write every archive, each through its own temporary; when one fails,
/// remove the ones already written, newest first, so a failed batch
/// leaves none of its archives behind. When every archive is new and the
/// removals all go through, the store is as it was, but for the
/// temporary of the failed write where the store would not clear it.
pub fn write_batch<S: Storage>(storage: &mut S, outputs: &[(StorePath, Vec<u8>)]) -> (r: Result<(), BatchError>)
    ensures
        r is Ok ==> final(storage).files() == batch_result(old(storage).files(), outputs_view(outputs@)),
        r matches Err(BatchError::Write { index, error: _ }) ==> index < outputs@.len() && (forall|j: int|
            0 <= j < index ==> !final(storage).files().contains_key(#[trigger] outputs@[j].0@)) && (batch_fresh(
            old(storage).files(),
            outputs_view(outputs@),
        ) ==> final(storage).files().remove(temp_path(outputs@[index as int].0@)) == old(storage).files().remove(
            temp_path(outputs@[index as int].0@),
        )),
        r matches Err(BatchError::RollbackFailed { index, error: _, failures }) ==> index < outputs@.len()
            && failures@.len() > 0,
{
    let ghost f0 = storage.files();
    let ghost outs = outputs_view(outputs@);
    let mut i: usize = 0;
    while i < outputs.len()
        invariant
            i <= outputs@.len(),
            outs == outputs_view(outputs@),
            f0 == old(storage).files(),
            storage.files() == batch_result(f0, outs.take(i as int)),
        decreases outputs@.len() - i,
    {
        let ghost t1 = outs.take(i + 1);
        proof {
            assert(t1.drop_last() =~= outs.take(i as int));
            assert(t1.last() == (outputs@[i as int].0@, outputs@[i as int].1@));
        }
        let ghost before = storage.files();
        match write_atomic(storage, &outputs[i].0, outputs[i].1.as_slice()) {
            Ok(()) => {},
            Err(error) => {
                let ghost tmp = temp_path(outputs@[i as int].0@);
                let mut failures: Vec<(StorePath, StorageError)> = Vec::new();
                let mut j: usize = i;
                proof {
                    assert(storage.files().remove(tmp) == before.remove(tmp)) by {
                        if crate::paths::file_name_spec(outputs@[i as int].0@) is None {
                            assert(storage.files() == before);
                        }
                    }
                    if batch_fresh(f0, outs) {
                        assert forall|k: Seq<CompView>|
                            k != tmp && !among_outputs(outs, i as int, k) && !among_outputs(outs, i as int, k)
                                implies #[trigger] same_at(storage.files(), f0, k) by {
                            lemma_batch_fresh(f0, outs, i as int, k);
                            assert(storage.files().remove(tmp).contains_key(k) == before.remove(tmp).contains_key(k));
                            if storage.files().contains_key(k) {
                                assert(storage.files().remove(tmp)[k] == before.remove(tmp)[k]);
                            }
                        }
                    }
                }
                while j > 0
                    invariant
                        j <= i,
                        i < outputs@.len(),
                        outs == outputs_view(outputs@),
                        f0 == old(storage).files(),
                        tmp == temp_path(outputs@[i as int].0@),
                        before == batch_result(f0, outs.take(i as int)),
                        failures@.len() == 0 ==> forall|t: int| j <= t < i ==> !storage.files().contains_key(#[trigger] outputs@[t].0@),
                        failures@.len() == 0 && batch_fresh(f0, outs) ==> forall|k: Seq<CompView>|
                            k != tmp && !among_outputs(outs, j as int, k) && !among_outputs(outs, i as int, k)
                                ==> #[trigger] same_at(storage.files(), f0, k),
                        failures@.len() == 0 ==> forall|k: Seq<CompView>|
                            k != tmp && !among_outputs(outs, j as int, k) && among_outputs(outs, i as int, k)
                                ==> !#[trigger] storage.files().contains_key(k),
                    decreases j,
                {
                    j = j - 1;
                    let ghost mid = storage.files();
                    match storage.remove_file(&outputs[j].0) {
                        Ok(()) => {},
                        Err(e) => {
                            failures.push((outputs[j].0.copy(), e));
                        },
                    }
                    proof {
                        if failures@.len() == 0 {
                            assert(storage.files() == mid.remove(outputs@[j as int].0@));
                            assert forall|k: Seq<CompView>|
                                k != tmp && !among_outputs(outs, j as int, k) && among_outputs(outs, i as int, k)
                                    implies !#[trigger] storage.files().contains_key(k) by {
                                if k != outputs@[j as int].0@ {
                                    assert(!among_outputs(outs, j + 1, k)) by {
                                        if among_outputs(outs, j + 1, k) {
                                            let w = choose|w: int| 0 <= w < j + 1 && #[trigger] outs[w].0 == k;
                                            assert(outs[w].0 == outputs@[w].0@);
                                            assert(w != j);
                                        }
                                    }
                                }
                            }
                            if batch_fresh(f0, outs) {
                                assert forall|k: Seq<CompView>|
                                    k != tmp && !among_outputs(outs, j as int, k) && !among_outputs(outs, i as int, k)
                                        implies #[trigger] same_at(storage.files(), f0, k) by {
                                    assert(outs[j as int].0 == outputs@[j as int].0@);
                                    if k == outputs@[j as int].0@ {
                                        assert(among_outputs(outs, i as int, k));
                                    }
                                    assert(!among_outputs(outs, j + 1, k)) by {
                                        if among_outputs(outs, j + 1, k) {
                                            let w = choose|w: int| 0 <= w < j + 1 && #[trigger] outs[w].0 == k;
                                            assert(0 <= w < i as int && outs[w].0 == k);
                                        }
                                    }
                                    assert(same_at(mid, f0, k));
                                }
                            }
                        }
                    }
                }
                if failures.len() == 0 {
                    proof {
                        if batch_fresh(f0, outs) {
                            assert forall|k: Seq<CompView>| k != tmp implies #[trigger] same_at(storage.files(), f0, k) by {
                                assert(!among_outputs(outs, 0, k));
                                if among_outputs(outs, i as int, k) {
                                    let w = choose|w: int| 0 <= w < i && #[trigger] outs[w].0 == k;
                                    assert(!f0.contains_key(outs[w].0));
                                    assert(!storage.files().contains_key(k));
                                }
                            }
                            assert(storage.files().remove(tmp) =~= f0.remove(tmp)) by {
                                assert forall|k: Seq<CompView>| #[trigger] storage.files().remove(tmp).contains_key(k)
                                    == f0.remove(tmp).contains_key(k) by {
                                    if k != tmp {
                                        assert(same_at(storage.files(), f0, k));
                                    }
                                }
                                assert forall|k: Seq<CompView>| #[trigger] storage.files().remove(tmp).contains_key(k)
                                    implies storage.files().remove(tmp)[k] == f0.remove(tmp)[k] by {
                                    assert(same_at(storage.files(), f0, k));
                                }
                            }
                            assert(outs[i as int].0 == outputs@[i as int].0@);
                        }
                        assert forall|t: int| 0 <= t < i implies !storage.files().contains_key(#[trigger] outputs@[t].0@) by {}
                    }
                    return Err(BatchError::Write { index: i, error });
                }
                return Err(BatchError::RollbackFailed { index: i, error, failures });
            },
        }
        i = i + 1;
    }
    assert(outputs_view(outputs@).take(i as int) =~= outputs_view(outputs@));
    Ok(())
}

} // verus!

verus! {

/// The first catalog entry holding an identity.
pub open spec fn first_entry(es: Seq<EntryView>, k: (Seq<char>, semver::Version)) -> Option<EntryView>
    decreases es.len(),
{
    if es.len() == 0 {
        None
    } else if key_of(es[0].facts) == k {
        Some(es[0])
    } else {
        first_entry(es.drop_first(), k)
    }
}

impl Catalog {
    /// Where the first entry holding `name version` sits, if any.
    pub fn entry(&self, name: &str, version: &semver::Version) -> (r: Option<usize>)
        ensures
            match r {
                Some(i) => i < self.entries_spec().len() && first_entry(self.entries_spec(), (name@, *version)) == Some(
                    self.entries_spec()[i as int],
                ),
                None => first_entry(self.entries_spec(), (name@, *version)) is None,
            },
    {
        let ghost es = self.entries_spec();
        let mut i: usize = 0;
        assert(es.skip(0) =~= es);
        while i < self.entries.len()
            invariant
                i <= self.entries@.len(),
                es == self.entries_spec(),
                first_entry(es, (name@, *version)) == first_entry(es.skip(i as int), (name@, *version)),
            decreases self.entries@.len() - i,
        {
            let ghost rest = es.skip(i as int);
            assert(rest[0] == es[i as int]);
            assert(rest.drop_first() =~= es.skip(i + 1));
            if str_eq(self.entries[i].facts.name.as_str(), name) && version_eq(&self.entries[i].facts.version, version) {
                return Some(i);
            }
            i = i + 1;
        }
        assert(es.skip(i as int) =~= Seq::<EntryView>::empty());
        None
    }
}

/// The text an installed package is refused with when it names itself
/// otherwise than its installed path.
pub open spec fn misplaced_text() -> Seq<char> {
    "package name/version does not match its installed path"@
}

/// The packages a listing under `root` offers, each source once, in path
/// order: each is what [`candidate_spec`] makes of some listed file, and
/// every listed file that makes one has its path here.
#[verifier::spinoff_prover]
pub fn catalog_candidates(root: &StorePath, listing: &Listing) -> (r: Vec<Candidate>)
    ensures
        forall|i: int, j: int| 0 <= i < j < r@.len() ==> path_lt(#[trigger] r@[i].path@, #[trigger] r@[j].path@),
        forall|i: int|
            0 <= i < r@.len() ==> exists|k: int|
                0 <= k < listing@.len() && #[trigger] candidate_spec(root@, listing@[k].0) == Some(
                    ((#[trigger] r@[i]).path@, r@[i].name@, r@[i].version),
                ),
        forall|k: int|
            0 <= k < listing@.len() && (#[trigger] candidate_spec(root@, listing@[k].0)) is Some ==> exists|i: int|
                0 <= i < r@.len() && #[trigger] r@[i].path@ == candidate_spec(root@, listing@[k].0)->Some_0.0,
{
    let entries = listing.entries();
    let ghost lv = listing@;
    let mut out: Vec<Candidate> = Vec::new();
    let mut k: usize = 0;
    while k < entries.len()
        invariant
            k <= entries@.len(),
            crate::storage::entries_view(entries@) == lv,
            forall|i: int, j: int| 0 <= i < j < out@.len() ==> path_lt(#[trigger] out@[i].path@, #[trigger] out@[j].path@),
            forall|i: int|
                0 <= i < out@.len() ==> exists|t: int|
                    0 <= t < lv.len() && #[trigger] candidate_spec(root@, lv[t].0) == Some(
                        ((#[trigger] out@[i]).path@, out@[i].name@, out@[i].version),
                    ),
            forall|t: int|
                0 <= t < k && (#[trigger] candidate_spec(root@, lv[t].0)) is Some ==> exists|i: int|
                    0 <= i < out@.len() && #[trigger] out@[i].path@ == candidate_spec(root@, lv[t].0)->Some_0.0,
        decreases entries@.len() - k,
    {
        assert(lv[k as int] == entries@[k as int]@);
        let ghost o0 = out@;
        match candidate(root, &entries[k].path) {
            Some(c) => {
                let ghost cv = c.path@;
                let mut j: usize = 0;
                let mut stop = false;
                while !stop && j < out.len()
                    invariant
                        j <= out@.len(),
                        out@ == o0,
                        forall|i: int| 0 <= i < j ==> path_lt((#[trigger] out@[i]).path@, cv),
                        stop ==> j < out@.len() && !path_lt(out@[j as int].path@, cv),
                        cv == c.path@,
                    decreases out@.len() + 1 - j - (if stop { 1int } else { 0int }),
                {
                    if store_path_lt(&out[j].path, &c.path) {
                        j = j + 1;
                    } else {
                        stop = true;
                    }
                }
                if stop && out[j].path.same(&c.path) {
                    assert(out@[j as int].path@ == cv);
                } else {
                    if j < out.len() {
                        proof {
                            lemma_path_total(out@[j as int].path@, cv);
                        }
                    }
                    out.insert(j, c);
                    proof {
                        let n = o0.insert(j as int, out@[j as int]);
                        assert(out@ =~= n);
                        assert forall|a: int, b: int| 0 <= a < b < n.len() implies path_lt(
                            #[trigger] n[a].path@,
                            #[trigger] n[b].path@,
                        ) by {
                            if b < j {
                                assert(n[a] == o0[a] && n[b] == o0[b]);
                            } else if b == j {
                                assert(n[a] == o0[a]);
                            } else if a == j {
                                assert(n[b] == o0[b - 1]);
                                if b - 1 > j {
                                    lemma_path_transitive(cv, o0[j as int].path@, o0[b - 1].path@);
                                }
                            } else if a < j {
                                assert(n[a] == o0[a] && n[b] == o0[b - 1]);
                                lemma_path_transitive(o0[a].path@, cv, o0[j as int].path@);
                                if b - 1 > j {
                                    lemma_path_transitive(o0[a].path@, o0[j as int].path@, o0[b - 1].path@);
                                }
                            } else {
                                assert(n[a] == o0[a - 1] && n[b] == o0[b - 1]);
                            }
                        }
                        assert forall|i: int| 0 <= i < n.len() implies exists|t: int|
                            0 <= t < lv.len() && #[trigger] candidate_spec(root@, lv[t].0) == Some(
                                ((#[trigger] n[i]).path@, n[i].name@, n[i].version),
                            ) by {
                            if i < j {
                                assert(n[i] == o0[i]);
                            } else if i == j {
                                assert(candidate_spec(root@, lv[k as int].0) == Some((n[i].path@, n[i].name@, n[i].version)));
                            } else {
                                assert(n[i] == o0[i - 1]);
                            }
                        }
                        assert forall|t: int|
                            0 <= t < k + 1 && (#[trigger] candidate_spec(root@, lv[t].0)) is Some implies exists|i: int|
                                0 <= i < n.len() && #[trigger] n[i].path@ == candidate_spec(root@, lv[t].0)->Some_0.0 by {
                            if t == k {
                                assert(n[j as int].path@ == cv);
                            } else {
                                let i = choose|i: int|
                                    0 <= i < o0.len() && #[trigger] o0[i].path@ == candidate_spec(root@, lv[t].0)->Some_0.0;
                                if i < j {
                                    assert(n[i] == o0[i]);
                                } else {
                                    assert(n[i + 1] == o0[i]);
                                }
                            }
                        }
                    }
                }
            },
            None => {},
        }
        k = k + 1;
    }
    assert(lv.take(k as int) =~= lv);
    out
}

/// A library holds at most [`MAX_PACKAGES`] sources: beyond that the
/// first ones in path order are kept, and the excess is reported.
pub fn limit_sources(builder: &mut CatalogBuilder, candidates: &mut Vec<Candidate>)
    ensures
        old(candidates)@.len() > MAX_PACKAGES ==> final(candidates)@ == old(candidates)@.take(MAX_PACKAGES as int)
            && final(builder).reported() == old(builder).reported().push(IssueView::TooManySources),
        old(candidates)@.len() <= MAX_PACKAGES ==> final(candidates)@ == old(candidates)@ && final(builder).reported()
            == old(builder).reported(),
        final(builder).packages() == old(builder).packages(),
        final(builder).bytes_used() == old(builder).bytes_used(),
        forall|k: (Seq<char>, semver::Version)| #[trigger] final(builder).sources(k) == old(builder).sources(k),
{
    if candidates.len() > MAX_PACKAGES {
        builder.report(Issue::TooManySources);
        candidates.truncate(MAX_PACKAGES);
    }
}

/// Take in what loading a listed package gave: its facts, or why it
/// failed to load. A package that names itself otherwise than its path
/// says (its name, or an archive's version) is refused; both refusals are
/// reported against the path. Otherwise the package is accepted as
/// [`CatalogBuilder::add_package`] says, from its archive or its
/// development directory.
pub fn take_in(builder: &mut CatalogBuilder, candidate: &Candidate, loaded: Result<PackageFacts, String>)
    ensures
        match loaded {
            Err(m) => final(builder).packages() == old(builder).packages() && final(builder).bytes_used() == old(
                builder,
            ).bytes_used() && final(builder).reported() == old(builder).reported().push(
                IssueView::Unloadable(candidate.path@, m@),
            ) && forall|k: (Seq<char>, semver::Version)| #[trigger] final(builder).sources(k) == old(builder).sources(k),
            Ok(f) => if f.name@ != candidate.name@ || (candidate.version matches Some(v) && v != f.version) {
                final(builder).packages() == old(builder).packages() && final(builder).bytes_used() == old(
                    builder,
                ).bytes_used() && final(builder).reported() == old(builder).reported().push(
                    IssueView::Unloadable(candidate.path@, misplaced_text()),
                ) && forall|k: (Seq<char>, semver::Version)| #[trigger] final(builder).sources(k) == old(builder).sources(k)
            } else {
                took_in(
                    *old(builder),
                    *final(builder),
                    f@,
                    if candidate.version is Some {
                        SourceView::Archive(candidate.path@)
                    } else {
                        SourceView::Directory(candidate.path@)
                    },
                )
            },
        },
{
    match loaded {
        Err(m) => {
            builder.report(Issue::Unloadable { path: candidate.path.copy(), message: m });
        },
        Ok(f) => {
            let mismatch = !str_eq(f.name.as_str(), candidate.name.as_str()) || match &candidate.version {
                Some(v) => !version_eq(v, &f.version),
                None => false,
            };
            if mismatch {
                let text = "package name/version does not match its installed path";
                builder.report(
                    Issue::Unloadable { path: candidate.path.copy(), message: string_from_chars(chars_of(text)) },
                );
            } else {
                let source = match &candidate.version {
                    Some(_) => Source::Archive(candidate.path.copy()),
                    None => Source::Directory(candidate.path.copy()),
                };
                builder.add_package(f, source);
            }
        },
    }
}

} // verus!
