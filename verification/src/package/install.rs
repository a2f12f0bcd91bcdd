//! Installing and removing packages: which selections a library can take
//! in, where each archive goes, and when an archive may be removed.
//! Loading a package and resolving its dependency graph are the script
//! runtime's; this works from the facts it reports.
use vstd::prelude::*;
use crate::lobby::protocol::{clone_version, semver_before, version_eq, version_less, version_text, write_version};
use crate::order::{lemma_lex_total, lex_lt, str_lt};
use crate::package::{
    Catalog, EntryView, FactsView, Issue, IssueView, bytes_eq, PackageFacts, MAX_BYTES, MAX_PACKAGES, Source, SourceView, archive_ext, archive_text,
    candidate, candidate_spec, dependents_spec, first_entry, key_of, keys_view, kept_elsewhere, sources_view,
};
use crate::paths::{StorePath, CompView, components, join_spec, render};
use crate::storage::{Listing, Storage, StorageError};
use crate::text::{chars_of, push_all, push_str, str_eq, string_from_chars};

verus! {

/// Where the archive of an identity is installed:
/// `<root>/<name>/<version>.tangopkg`.
pub open spec fn archive_path_spec(root: Seq<CompView>, k: (Seq<char>, semver::Version)) -> Seq<CompView> {
    join_spec(join_spec(root, components(k.0)), components(version_text(k.1) + seq!['.'] + archive_ext()))
}

/// The path the archive of `name` at `version` is installed at.
pub fn archive_path(root: &StorePath, name: &str, version: &semver::Version) -> (r: StorePath)
    ensures
        r@ == archive_path_spec(root@, (name@, *version)),
{
    let dir = root.join_str(name);
    let v = write_version(version);
    let mut file = chars_of(v.as_str());
    file.push('.');
    let ext = archive_text();
    push_all(&mut file, ext.as_slice());
    assert(file@ =~= version_text(*version) + seq!['.'] + archive_ext());
    let file = string_from_chars(file);
    dir.join_str(file.as_str())
}

fn has_source(sources: &Vec<Source>, s: &Source) -> (r: bool)
    ensures
        r == sources_view(sources@).contains(s@),
{
    let mut i: usize = 0;
    while i < sources.len()
        invariant
            i <= sources@.len(),
            forall|j: int| 0 <= j < i ==> (#[trigger] sources@[j])@ != s@,
        decreases sources@.len() - i,
    {
        if sources[i].same(s) {
            return true;
        }
        i = i + 1;
    }
    false
}

/// Why an installed package could not be removed.
#[derive(Debug)]
pub enum UninstallError {
    /// No package of that name and version is installed.
    NotInstalled,
    /// The package is kept only as a bundled or development copy, which
    /// is never deleted.
    NotAnArchive,
    /// Removing the archive would strand these exact-version dependents.
    RequiredBy(Vec<(String, semver::Version)>),
    /// The store refused to remove the archive.
    Storage(StorageError),
}

/// Remove the installed archive of `name version`, judged against
/// `catalog`; a caller checks the current dependencies by scanning the
/// library afresh for it, rather than passing an older inventory. The
/// name becomes a path only after it has been found in the catalog;
/// bundled copies and development trees are never touched.
pub fn uninstall<S: Storage>(
    storage: &mut S,
    catalog: &Catalog,
    root: &StorePath,
    name: &String,
    version: &semver::Version,
) -> (r: Result<(), UninstallError>)
    ensures
        ({
            let es = catalog.entries_spec();
            let k = (name@, *version);
            match first_entry(es, k) {
                None => r matches Err(UninstallError::NotInstalled) && final(storage).files() == old(storage).files(),
                Some(e) => if !e.sources.contains(SourceView::Archive(archive_path_spec(root@, k))) {
                    r matches Err(UninstallError::NotAnArchive) && final(storage).files() == old(storage).files()
                } else if !kept_elsewhere(es, k) && dependents_spec(es, k).len() > 0 {
                    (r matches Err(UninstallError::RequiredBy(v)) && keys_view(v@) == dependents_spec(es, k))
                        && final(storage).files() == old(storage).files()
                } else {
                    &&& r is Ok ==> final(storage).files() == old(storage).files().remove(archive_path_spec(root@, k))
                    &&& r is Err ==> r->Err_0 is Storage
                },
            }
        }),
{
    let i = match catalog.entry(name.as_str(), version) {
        Some(i) => i,
        None => {
            return Err(UninstallError::NotInstalled);
        },
    };
    let path = archive_path(root, name.as_str(), version);
    let archive = Source::Archive(path);
    if !has_source(&catalog.entries()[i].sources, &archive) {
        return Err(UninstallError::NotAnArchive);
    }
    let blockers = catalog.removal_blockers(name, version);
    if blockers.len() > 0 {
        return Err(UninstallError::RequiredBy(blockers));
    }
    let path = match archive {
        Source::Archive(p) => p,
        _ => {
            return Err(UninstallError::NotAnArchive);
        },
    };
    match storage.remove_file(&path) {
        Ok(()) => Ok(()),
        Err(e) => Err(UninstallError::Storage(e)),
    }
}

} // verus!

verus! {

/// The first package in `m` with identity `k`.
pub open spec fn lookup(m: Seq<FactsView>, k: (Seq<char>, semver::Version)) -> Option<FactsView>
    decreases m.len(),
{
    if m.len() == 0 {
        None
    } else if key_of(m[0]) == k {
        Some(m[0])
    } else {
        lookup(m.drop_first(), k)
    }
}

/// `m` with `f` taking the place of the package of its identity, or
/// added at the end when `m` has none.
pub open spec fn put(m: Seq<FactsView>, f: FactsView) -> Seq<FactsView>
    decreases m.len(),
{
    if m.len() == 0 {
        seq![f]
    } else if key_of(m[0]) == key_of(f) {
        seq![f] + m.drop_first()
    } else {
        seq![m[0]] + put(m.drop_first(), f)
    }
}

/// `m` with each of `sel` put in turn.
pub open spec fn put_all(m: Seq<FactsView>, sel: Seq<FactsView>) -> Seq<FactsView>
    decreases sel.len(),
{
    if sel.len() == 0 {
        m
    } else {
        put(put_all(m, sel.drop_last()), sel.last())
    }
}

/// What the library already offers to satisfy dependencies: every
/// installed identity that is not quarantined, a later entry of the same
/// identity taking the place of an earlier one.
pub open spec fn installed_available(es: Seq<EntryView>) -> Seq<FactsView>
    decreases es.len(),
{
    if es.len() == 0 {
        Seq::empty()
    } else if es.last().conflicted {
        installed_available(es.drop_last())
    } else {
        put(installed_available(es.drop_last()), es.last().facts)
    }
}

/// What is available once the selected packages are taken in.
pub open spec fn available_after(es: Seq<EntryView>, sel: Seq<FactsView>) -> Seq<FactsView> {
    put_all(installed_available(es), sel)
}

/// Each selected identity once, at its first selection, with the
/// contents it was last selected with.
pub open spec fn selection(sel: Seq<FactsView>) -> Seq<FactsView> {
    put_all(Seq::empty(), sel)
}

/// The total size of some packages.
pub open spec fn bytes_sum(m: Seq<FactsView>) -> nat
    decreases m.len(),
{
    if m.len() == 0 {
        0
    } else {
        bytes_sum(m.drop_last()) + m.last().byte_len
    }
}

/// Whether selecting `f` after `prior` clashes with what is there: its
/// identity is quarantined, or is already available with other contents.
pub open spec fn clashes(es: Seq<EntryView>, prior: Seq<FactsView>, f: FactsView) -> bool {
    ||| (match first_entry(es, key_of(f)) {
        Some(e) => e.conflicted,
        None => false,
    })
    ||| (match lookup(available_after(es, prior), key_of(f)) {
        Some(g) => g.digest != f.digest,
        None => false,
    })
}

/// How a selection fares, package by package, before the library's
/// limits are looked at.
pub enum SelectionCheck {
    Passed,
    /// The first selected package that clashes.
    Clash((Seq<char>, semver::Version)),
    /// The selection so far is bigger than a library may hold.
    TooLarge,
}

pub open spec fn check_selection(es: Seq<EntryView>, sel: Seq<FactsView>) -> SelectionCheck
    decreases sel.len(),
{
    if sel.len() == 0 {
        SelectionCheck::Passed
    } else {
        let before = check_selection(es, sel.drop_last());
        if !(before is Passed) {
            before
        } else if clashes(es, sel.drop_last(), sel.last()) {
            SelectionCheck::Clash(key_of(sel.last()))
        } else if bytes_sum(sel) > MAX_BYTES {
            SelectionCheck::TooLarge
        } else {
            SelectionCheck::Passed
        }
    }
}

/// The package path a listed file stands for, if any.
pub open spec fn listed_path(root: Seq<CompView>, file: Seq<CompView>) -> Option<Seq<CompView>> {
    match candidate_spec(root, file) {
        Some(c) => Some(c.0),
        None => None,
    }
}

/// The package paths a listing under `root` turns up.
pub open spec fn listed_paths(root: Seq<CompView>, listing: Seq<(Seq<CompView>, u64, Option<u64>)>) -> Set<Seq<CompView>> {
    Set::new(
        |p: Seq<CompView>| exists|i: int| 0 <= i < listing.len() && #[trigger] listed_path(root, listing[i].0) == Some(p),
    )
}

/// The archive paths of the selected identities.
pub open spec fn archive_paths(root: Seq<CompView>, sel: Seq<FactsView>) -> Set<Seq<CompView>> {
    Set::new(|p: Seq<CompView>| exists|i: int| 0 <= i < sel.len() && archive_path_spec(root, key_of(#[trigger] sel[i])) == p)
}

/// Whether taking in the selection would break the library's limits: on
/// package paths, on identities available, or on their total size.
pub open spec fn over_limits(
    es: Seq<EntryView>,
    listing: Seq<(Seq<CompView>, u64, Option<u64>)>,
    root: Seq<CompView>,
    sel: Seq<FactsView>,
) -> bool {
    ||| listed_paths(root, listing).union(archive_paths(root, sel)).len() > MAX_PACKAGES
    ||| available_after(es, sel).len() > MAX_PACKAGES
    ||| bytes_sum(available_after(es, sel)) > MAX_BYTES
}

proof fn lemma_put_at(m: Seq<FactsView>, f: FactsView, i: int)
    requires
        0 <= i < m.len(),
        key_of(m[i]) == key_of(f),
        forall|j: int| 0 <= j < i ==> key_of(#[trigger] m[j]) != key_of(f),
    ensures
        put(m, f) == m.update(i, f),
    decreases m.len(),
{
    if i == 0 {
        assert(put(m, f) =~= m.update(i, f));
    } else {
        assert(key_of(m[0]) != key_of(f));
        let t = m.drop_first();
        assert forall|j: int| 0 <= j < i - 1 implies key_of(#[trigger] t[j]) != key_of(f) by {
            assert(t[j] == m[j + 1]);
        }
        lemma_put_at(t, f, i - 1);
        assert(put(m, f) =~= m.update(i, f));
    }
}

proof fn lemma_put_new(m: Seq<FactsView>, f: FactsView)
    requires
        forall|j: int| 0 <= j < m.len() ==> key_of(#[trigger] m[j]) != key_of(f),
    ensures
        put(m, f) == m.push(f),
    decreases m.len(),
{
    if m.len() == 0 {
        assert(put(m, f) =~= m.push(f));
    } else {
        assert(key_of(m[0]) != key_of(f));
        let t = m.drop_first();
        assert forall|j: int| 0 <= j < t.len() implies key_of(#[trigger] t[j]) != key_of(f) by {
            assert(t[j] == m[j + 1]);
        }
        lemma_put_new(t, f);
        assert(put(m, f) =~= m.push(f));
    }
}

proof fn lemma_lookup_at(m: Seq<FactsView>, k: (Seq<char>, semver::Version), i: int)
    requires
        0 <= i < m.len(),
        key_of(m[i]) == k,
        forall|j: int| 0 <= j < i ==> key_of(#[trigger] m[j]) != k,
    ensures
        lookup(m, k) == Some(m[i]),
    decreases m.len(),
{
    if i > 0 {
        let t = m.drop_first();
        assert(key_of(m[0]) != k);
        assert forall|j: int| 0 <= j < i - 1 implies key_of(#[trigger] t[j]) != k by {
            assert(t[j] == m[j + 1]);
        }
        lemma_lookup_at(t, k, i - 1);
    }
}

proof fn lemma_lookup_none(m: Seq<FactsView>, k: (Seq<char>, semver::Version))
    requires
        forall|j: int| 0 <= j < m.len() ==> key_of(#[trigger] m[j]) != k,
    ensures
        lookup(m, k) is None,
    decreases m.len(),
{
    if m.len() > 0 {
        let t = m.drop_first();
        assert(key_of(m[0]) != k);
        assert forall|j: int| 0 <= j < t.len() implies key_of(#[trigger] t[j]) != k by {
            assert(t[j] == m[j + 1]);
        }
        lemma_lookup_none(t, k);
    }
}

proof fn lemma_check_sticks(es: Seq<EntryView>, sel: Seq<FactsView>, i: int)
    requires
        0 <= i <= sel.len(),
        !(check_selection(es, sel.take(i)) is Passed),
    ensures
        check_selection(es, sel) == check_selection(es, sel.take(i)),
    decreases sel.len() - i,
{
    if i < sel.len() {
        assert(sel.drop_last().take(i) =~= sel.take(i));
        lemma_check_sticks(es, sel.drop_last(), i);
    } else {
        assert(sel.take(i) =~= sel);
    }
}

proof fn lemma_bytes_prefix(m: Seq<FactsView>, j: int)
    requires
        0 <= j <= m.len(),
    ensures
        bytes_sum(m.take(j)) <= bytes_sum(m),
    decreases m.len() - j,
{
    if j < m.len() {
        lemma_bytes_prefix(m.drop_last(), j);
        assert(m.drop_last().take(j) =~= m.take(j));
    } else {
        assert(m.take(j) =~= m);
    }
}

} // verus!

verus! {

pub open spec fn facts_view(v: Seq<PackageFacts>) -> Seq<FactsView> {
    Seq::new(v.len(), |i: int| v[i]@)
}

pub open spec fn path_views(v: Seq<StorePath>) -> Seq<Seq<CompView>> {
    Seq::new(v.len(), |i: int| v[i]@)
}

/// Whether `plan` names each identity of the selection `sel` once, in
/// order, by the index of its last selection and with its archive path.
pub open spec fn planned(plan: Seq<(usize, StorePath)>, sel: Seq<FactsView>, root: Seq<CompView>) -> bool {
    let s = selection(sel);
    &&& plan.len() == s.len()
    &&& forall|i: int|
        0 <= i < plan.len() ==> (#[trigger] plan[i]).0 < sel.len() && sel[plan[i].0 as int] == s[i] && plan[i].1@
            == archive_path_spec(root, key_of(s[i]))
}

/// Why a selection of packages cannot be installed.
#[derive(Debug)]
pub enum InstallError {
    /// Nothing was selected, or more packages than a library may hold.
    SelectionSize,
    /// A selected identity is installed with other contents, or is
    /// quarantined: its version has to go up.
    DifferentContents { name: String, version: semver::Version },
    /// The selected packages together exceed the library's size limit.
    SelectionTooLarge,
    /// Taking the selection in would break the library's limits.
    OverLimits,
}

fn find_key(m: &Vec<PackageFacts>, name: &String, version: &semver::Version) -> (r: Option<usize>)
    ensures
        match r {
            Some(i) => i < m@.len() && key_of(m@[i as int]@) == (name@, *version) && forall|j: int|
                0 <= j < i ==> key_of(#[trigger] m@[j]@) != (name@, *version),
            None => forall|j: int| 0 <= j < m@.len() ==> key_of(#[trigger] m@[j]@) != (name@, *version),
        },
{
    let mut i: usize = 0;
    while i < m.len()
        invariant
            i <= m@.len(),
            forall|j: int| 0 <= j < i ==> key_of(#[trigger] m@[j]@) != (name@, *version),
        decreases m@.len() - i,
    {
        if str_eq(m[i].name.as_str(), name.as_str()) && version_eq(&m[i].version, version) {
            return Some(i);
        }
        i = i + 1;
    }
    None
}

fn put_facts(m: &mut Vec<PackageFacts>, f: PackageFacts)
    ensures
        facts_view(final(m)@) == put(facts_view(old(m)@), f@),
{
    let ghost fv = facts_view(m@);
    match find_key(m, &f.name, &f.version) {
        Some(i) => {
            proof {
                assert forall|j: int| 0 <= j < i implies key_of(#[trigger] fv[j]) != key_of(f@) by {
                    assert(fv[j] == m@[j]@);
                }
                lemma_put_at(fv, f@, i as int);
            }
            m.set(i, f);
            assert(facts_view(m@) =~= fv.update(i as int, f@));
        },
        None => {
            proof {
                assert forall|j: int| 0 <= j < fv.len() implies key_of(#[trigger] fv[j]) != key_of(f@) by {
                    assert(fv[j] == m@[j]@);
                }
                lemma_put_new(fv, f@);
            }
            m.push(f);
            assert(facts_view(m@) =~= fv.push(f@));
        },
    }
}

fn installed_vec(catalog: &Catalog) -> (r: Vec<PackageFacts>)
    ensures
        facts_view(r@) == installed_available(catalog.entries_spec()),
{
    let ghost es = catalog.entries_spec();
    let entries = catalog.entries();
    let mut out: Vec<PackageFacts> = Vec::new();
    let mut i: usize = 0;
    assert(facts_view(out@) =~= installed_available(es.take(0)));
    while i < entries.len()
        invariant
            i <= entries@.len(),
            es == catalog.entries_spec(),
            crate::package::entries_view(entries@) == es,
            facts_view(out@) == installed_available(es.take(i as int)),
        decreases entries@.len() - i,
    {
        let ghost t = es.take(i + 1);
        assert(t.drop_last() =~= es.take(i as int));
        assert(t.last() == entries@[i as int]@);
        if !entries[i].conflicted {
            put_facts(&mut out, entries[i].facts.copy());
        }
        i = i + 1;
    }
    assert(es.take(i as int) =~= es);
    out
}

fn insert_path(paths: &mut Vec<StorePath>, p: StorePath)
    requires
        path_views(old(paths)@).no_duplicates(),
    ensures
        path_views(final(paths)@).no_duplicates(),
        path_views(final(paths)@).to_set() == path_views(old(paths)@).to_set().insert(p@),
{
    let ghost v0 = path_views(paths@);
    let mut i: usize = 0;
    while i < paths.len()
        invariant
            i <= paths@.len(),
            v0 == path_views(paths@),
            v0.no_duplicates(),
            forall|j: int| 0 <= j < i ==> (#[trigger] paths@[j])@ != p@,
        decreases paths@.len() - i,
    {
        if paths[i].same(&p) {
            assert(v0[i as int] == p@);
            assert(v0.to_set() =~= v0.to_set().insert(p@));
            return;
        }
        i = i + 1;
    }
    let ghost pv = p@;
    paths.push(p);
    assert(path_views(paths@) =~= v0.push(pv));
    assert(v0.push(pv).to_set() =~= v0.to_set().insert(pv)) by {
        assert forall|x: Seq<CompView>| v0.push(pv).to_set().contains(x) implies v0.to_set().insert(pv).contains(x) by {
            let j = choose|j: int| 0 <= j < v0.push(pv).len() && v0.push(pv)[j] == x;
            if j < v0.len() {
                assert(v0[j] == x);
            }
        }
        assert forall|x: Seq<CompView>| v0.to_set().insert(pv).contains(x) implies v0.push(pv).to_set().contains(x) by {
            if x == pv {
                assert(v0.push(pv)[v0.len() as int] == x);
            } else {
                let j = choose|j: int| 0 <= j < v0.len() && v0[j] == x;
                assert(v0.push(pv)[j] == x);
            }
        }
    }
    assert forall|a: int, b: int| 0 <= a < b < v0.push(pv).len() implies v0.push(pv)[a] != v0.push(pv)[b] by {
        if b == v0.len() {
            assert(v0[a] == paths@[a]@);
        }
    }
}

fn put_chosen(
    chosen: &mut Vec<(usize, StorePath)>,
    selected: &[PackageFacts],
    i: usize,
    path: StorePath,
    root: &StorePath,
)
    requires
        i < selected@.len(),
        planned(old(chosen)@, facts_view(selected@).take(i as int), root@),
        path@ == archive_path_spec(root@, key_of(selected@[i as int]@)),
    ensures
        planned(final(chosen)@, facts_view(selected@).take(i + 1), root@),
{
    let ghost sel = facts_view(selected@);
    let ghost m = selection(sel.take(i as int));
    let ghost f = sel[i as int];
    let ghost c0 = chosen@;
    proof {
        let t = sel.take(i + 1);
        assert(t.drop_last() =~= sel.take(i as int));
        assert(t.last() == f);
        assert(selection(t) == put(m, f));
    }
    let mut j: usize = 0;
    while j < chosen.len()
        invariant
            j <= chosen@.len(),
            c0 == chosen@,
            i < selected@.len(),
            sel == facts_view(selected@),
            f == sel[i as int],
            m == selection(sel.take(i as int)),
            selection(sel.take(i + 1)) == put(m, f),
            path@ == archive_path_spec(root@, key_of(f)),
            planned(c0, sel.take(i as int), root@),
            forall|t: int| 0 <= t < j ==> key_of(#[trigger] m[t]) != key_of(f),
        decreases chosen@.len() - j,
    {
        let idx = chosen[j].0;
        assert(sel.take(i as int)[idx as int] == m[j as int]);
        if str_eq(selected[idx].name.as_str(), selected[i].name.as_str()) && version_eq(
            &selected[idx].version,
            &selected[i].version,
        ) {
            proof {
                lemma_put_at(m, f, j as int);
            }
            chosen.set(j, (i, path));
            assert forall|t: int| 0 <= t < chosen@.len() implies (#[trigger] chosen@[t]).0 < sel.take(i + 1).len()
                && sel.take(i + 1)[chosen@[t].0 as int] == selection(sel.take(i + 1))[t] && chosen@[t].1@
                == archive_path_spec(root@, key_of(selection(sel.take(i + 1))[t])) by {
                if t != j {
                    assert(chosen@[t] == c0[t]);
                    assert(c0[t].0 < i);
                    assert(sel.take(i + 1)[c0[t].0 as int] == sel.take(i as int)[c0[t].0 as int]);
                    assert(selection(sel.take(i + 1))[t] == m[t]);
                } else {
                    assert(selection(sel.take(i + 1))[t] == f);
                    assert(sel.take(i + 1)[i as int] == f);
                }
            }
            return;
        }
        j = j + 1;
    }
    proof {
        lemma_put_new(m, f);
    }
    chosen.push((i, path));
    assert forall|t: int| 0 <= t < chosen@.len() implies (#[trigger] chosen@[t]).0 < sel.take(i + 1).len()
        && sel.take(i + 1)[chosen@[t].0 as int] == selection(sel.take(i + 1))[t] && chosen@[t].1@ == archive_path_spec(
        root@,
        key_of(selection(sel.take(i + 1))[t]),
    ) by {
        if t < c0.len() {
            assert(chosen@[t] == c0[t]);
            assert(c0[t].0 < i);
            assert(sel.take(i + 1)[c0[t].0 as int] == sel.take(i as int)[c0[t].0 as int]);
            assert(selection(sel.take(i + 1))[t] == m[t]);
        } else {
            assert(selection(sel.take(i + 1))[t] == f);
            assert(sel.take(i + 1)[i as int] == f);
        }
    }
}

} // verus!

verus! {

fn total_over(m: &Vec<PackageFacts>) -> (r: bool)
    ensures
        r == (bytes_sum(facts_view(m@)) > MAX_BYTES),
{
    let ghost v = facts_view(m@);
    let mut total: usize = 0;
    let mut j: usize = 0;
    while j < m.len()
        invariant
            j <= m@.len(),
            v == facts_view(m@),
            total == bytes_sum(v.take(j as int)),
            total <= MAX_BYTES,
        decreases m@.len() - j,
    {
        assert(v.take(j + 1).drop_last() =~= v.take(j as int));
        if m[j].byte_len > MAX_BYTES - total {
            proof {
                lemma_bytes_prefix(v, j + 1);
            }
            return true;
        }
        total = total + m[j].byte_len;
        j = j + 1;
    }
    assert(v.take(j as int) =~= v);
    false
}

/// Check a selection of packages against the library before anything is
/// written, and name the archive each selected identity goes to.
///
/// `selected` holds what loading each selected file reported, in the
/// order they were picked; `catalog` and `listing` are the library as it
/// stands. Selected packages may supply one another's dependencies, so
/// they are checked against what the library offers plus what was picked
/// before them: a picked identity must not be quarantined, nor already
/// available with other contents, and the picks together must fit the
/// size limit. Then the library as it would be (its package paths, its
/// available identities and their total size) must stay within its
/// limits. What comes back names each picked identity once, in name then
/// version order, by the index of its last pick, with its archive path.
pub fn plan_install(
    catalog: &Catalog,
    listing: &Listing,
    root: &StorePath,
    selected: &[PackageFacts],
) -> (r: Result<Vec<(usize, StorePath)>, InstallError>)
    ensures
        ({
            let es = catalog.entries_spec();
            let sel = facts_view(selected@);
            if sel.len() == 0 || sel.len() > MAX_PACKAGES {
                r matches Err(InstallError::SelectionSize)
            } else {
                match check_selection(es, sel) {
                    SelectionCheck::Clash(k) => (r matches Err(InstallError::DifferentContents { name, version })
                        && name@ == k.0 && version == k.1),
                    SelectionCheck::TooLarge => r matches Err(InstallError::SelectionTooLarge),
                    SelectionCheck::Passed => if over_limits(es, listing@, root@, sel) {
                        r matches Err(InstallError::OverLimits)
                    } else {
                        r matches Ok(plan) && ordered_plan(plan@, sel, root@)
                    },
                }
            }
        }),
{
    let n = selected.len();
    if n == 0 || n > MAX_PACKAGES {
        return Err(InstallError::SelectionSize);
    }
    let ghost es = catalog.entries_spec();
    let ghost sel = facts_view(selected@);
    let ghost lv = listing@;
    let entries = listing.entries();
    let mut paths: Vec<StorePath> = Vec::new();
    let mut j: usize = 0;
    assert(path_views(paths@).to_set() =~= listed_paths(root@, lv.take(0)));
    while j < entries.len()
        invariant
            j <= entries@.len(),
            crate::storage::entries_view(entries@) == lv,
            path_views(paths@).no_duplicates(),
            path_views(paths@).to_set() == listed_paths(root@, lv.take(j as int)),
        decreases entries@.len() - j,
    {
        let ghost before = path_views(paths@).to_set();
        let ghost t = lv.take(j + 1);
        assert(t[j as int] == entries@[j as int]@);
        match candidate(root, &entries[j].path) {
            Some(c) => {
                insert_path(&mut paths, c.path);
                assert(listed_paths(root@, t) =~= before.insert(listed_path(root@, t[j as int].0)->Some_0)) by {
                    assert forall|p: Seq<CompView>| #[trigger] listed_paths(root@, t).contains(p) implies before.insert(
                        listed_path(root@, t[j as int].0)->Some_0,
                    ).contains(p) by {
                        let w = choose|w: int| 0 <= w < t.len() && #[trigger] listed_path(root@, t[w].0) == Some(p);
                        if w < j {
                            assert(lv.take(j as int)[w] == t[w]);
                        }
                    }
                    assert forall|p: Seq<CompView>| before.insert(listed_path(root@, t[j as int].0)->Some_0).contains(p)
                        implies #[trigger] listed_paths(root@, t).contains(p) by {
                        if p != listed_path(root@, t[j as int].0)->Some_0 {
                            let w = choose|w: int|
                                0 <= w < j && #[trigger] listed_path(root@, lv.take(j as int)[w].0) == Some(p);
                            assert(lv.take(j as int)[w] == t[w]);
                        }
                    }
                }
            },
            None => {
                assert(listed_paths(root@, t) =~= before) by {
                    assert forall|p: Seq<CompView>| #[trigger] listed_paths(root@, t).contains(p) implies before.contains(p) by {
                        let w = choose|w: int| 0 <= w < t.len() && #[trigger] listed_path(root@, t[w].0) == Some(p);
                        assert(w != j);
                        assert(lv.take(j as int)[w] == t[w]);
                    }
                    assert forall|p: Seq<CompView>| before.contains(p) implies #[trigger] listed_paths(root@, t).contains(p) by {
                        let w = choose|w: int|
                            0 <= w < j && #[trigger] listed_path(root@, lv.take(j as int)[w].0) == Some(p);
                        assert(lv.take(j as int)[w] == t[w]);
                    }
                }
            },
        }
        j = j + 1;
    }
    assert(lv.take(j as int) =~= lv);
    let mut avail = installed_vec(catalog);
    let mut chosen: Vec<(usize, StorePath)> = Vec::new();
    let mut bytes: usize = 0;
    let mut i: usize = 0;
    proof {
        assert(sel.take(0) =~= Seq::<FactsView>::empty());
        assert(archive_paths(root@, sel.take(0)) =~= Set::<Seq<CompView>>::empty());
        assert(listed_paths(root@, lv).union(archive_paths(root@, sel.take(0))) =~= listed_paths(root@, lv));
        assert(selection(sel.take(0)) =~= Seq::<FactsView>::empty());
    }
    while i < n
        invariant
            i <= n,
            0 < n <= MAX_PACKAGES,
            n == selected@.len(),
            sel == facts_view(selected@),
            es == catalog.entries_spec(),
            lv == listing@,
            facts_view(avail@) == available_after(es, sel.take(i as int)),
            check_selection(es, sel.take(i as int)) is Passed,
            bytes == bytes_sum(sel.take(i as int)),
            bytes <= MAX_BYTES,
            path_views(paths@).no_duplicates(),
            path_views(paths@).to_set() == listed_paths(root@, lv).union(archive_paths(root@, sel.take(i as int))),
            planned(chosen@, sel.take(i as int), root@),
        decreases n - i,
    {
        let ghost t = sel.take(i + 1);
        let ghost f = sel[i as int];
        proof {
            assert(t.drop_last() =~= sel.take(i as int));
            assert(t.last() == f);
            assert(f == selected@[i as int]@);
        }
        let in_catalog = catalog.entry(selected[i].name.as_str(), &selected[i].version);
        let quarantined = match in_catalog {
            Some(e) => catalog.entries()[e].conflicted,
            None => false,
        };
        let differs = match find_key(&avail, &selected[i].name, &selected[i].version) {
            Some(a) => {
                proof {
                    let av = facts_view(avail@);
                    assert forall|w: int| 0 <= w < a implies key_of(#[trigger] av[w]) != key_of(f) by {
                        assert(av[w] == avail@[w]@);
                    }
                    lemma_lookup_at(av, key_of(f), a as int);
                }
                !crate::package::bytes_eq(avail[a].digest.as_slice(), selected[i].digest.as_slice())
            },
            None => {
                proof {
                    let av = facts_view(avail@);
                    assert forall|w: int| 0 <= w < av.len() implies key_of(#[trigger] av[w]) != key_of(f) by {
                        assert(av[w] == avail@[w]@);
                    }
                    lemma_lookup_none(av, key_of(f));
                }
                false
            },
        };
        assert((quarantined || differs) == clashes(es, sel.take(i as int), f));
        if quarantined || differs {
            proof {
                assert(check_selection(es, t) == SelectionCheck::Clash(key_of(f)));
                lemma_check_sticks(es, sel, i + 1);
            }
            return Err(
                InstallError::DifferentContents {
                    name: selected[i].name.clone(),
                    version: clone_version(&selected[i].version),
                },
            );
        }
        if selected[i].byte_len > MAX_BYTES - bytes {
            proof {
                assert(check_selection(es, t) == SelectionCheck::TooLarge);
                lemma_check_sticks(es, sel, i + 1);
            }
            return Err(InstallError::SelectionTooLarge);
        }
        bytes = bytes + selected[i].byte_len;
        let path = archive_path(root, selected[i].name.as_str(), &selected[i].version);
        let ghost before = path_views(paths@).to_set();
        insert_path(&mut paths, path.copy());
        proof {
            let ap = archive_path_spec(root@, key_of(f));
            assert(archive_paths(root@, t) =~= archive_paths(root@, sel.take(i as int)).insert(ap)) by {
                assert forall|p: Seq<CompView>| archive_paths(root@, t).contains(p) implies archive_paths(
                    root@,
                    sel.take(i as int),
                ).insert(ap).contains(p) by {
                    let w = choose|w: int| 0 <= w < t.len() && archive_path_spec(root@, key_of(#[trigger] t[w])) == p;
                    if w < i {
                        assert(sel.take(i as int)[w] == t[w]);
                    }
                }
                assert forall|p: Seq<CompView>| archive_paths(root@, sel.take(i as int)).insert(ap).contains(p) implies archive_paths(
                    root@,
                    t,
                ).contains(p) by {
                    if p == ap {
                        assert(t[i as int] == f);
                    } else {
                        let w = choose|w: int|
                            0 <= w < i && archive_path_spec(root@, key_of(#[trigger] sel.take(i as int)[w])) == p;
                        assert(sel.take(i as int)[w] == t[w]);
                    }
                }
            }
            assert(path_views(paths@).to_set() =~= listed_paths(root@, lv).union(archive_paths(root@, t)));
        }
        put_chosen(&mut chosen, selected, i, path, root);
        put_facts(&mut avail, selected[i].copy());
        i = i + 1;
    }
    proof {
        assert(sel.take(n as int) =~= sel);
        path_views(paths@).unique_seq_to_set();
    }
    if paths.len() > MAX_PACKAGES || avail.len() > MAX_PACKAGES || total_over(&avail) {
        return Err(InstallError::OverLimits);
    }
    Ok(order_plan(chosen, selected, root))
}

} // verus!

verus! {

/// How an identity reads: its name, a space, its version.
pub open spec fn ref_text(k: (Seq<char>, semver::Version)) -> Seq<char> {
    k.0 + seq![' '] + version_text(k.1)
}

/// Identities as a comma-separated list.
pub open spec fn refs_text(ks: Seq<(Seq<char>, semver::Version)>) -> Seq<char>
    decreases ks.len(),
{
    if ks.len() == 0 {
        Seq::empty()
    } else if ks.len() == 1 {
        ref_text(ks[0])
    } else {
        refs_text(ks.drop_last()) + seq![',', ' '] + ref_text(ks.last())
    }
}

fn push_ref(out: &mut Vec<char>, name: &String, version: &semver::Version)
    ensures
        final(out)@ == old(out)@ + ref_text((name@, *version)),
{
    push_str(out, name.as_str());
    out.push(' ');
    let v = write_version(version);
    push_str(out, v.as_str());
    assert(out@ =~= old(out)@ + ref_text((name@, *version)));
}

/// The text an installation error reads as.
pub open spec fn install_message(e: InstallError) -> Seq<char> {
    match e {
        InstallError::SelectionSize => "select between 1 and 256 packages"@,
        InstallError::DifferentContents { name, version } => ref_text((name@, version))
            + " already has different contents; increment the package version"@,
        InstallError::SelectionTooLarge => "selected packages exceed the package library size limit"@,
        InstallError::OverLimits => "installation exceeds the package library limits"@,
    }
}

impl InstallError {
    /// The text the error reads as.
    pub fn message(&self) -> (r: String)
        ensures
            r@ == install_message(*self),
    {
        let mut out: Vec<char> = Vec::new();
        match self {
            InstallError::SelectionSize => push_str(&mut out, "select between 1 and 256 packages"),
            InstallError::DifferentContents { name, version } => {
                push_ref(&mut out, name, version);
                push_str(&mut out, " already has different contents; increment the package version");
            },
            InstallError::SelectionTooLarge => push_str(
                &mut out,
                "selected packages exceed the package library size limit",
            ),
            InstallError::OverLimits => push_str(&mut out, "installation exceeds the package library limits"),
        }
        string_from_chars(out)
    }
}

/// What loading the archive already at a planned output path gave: the
/// digest of a package that loaded, no file there, or why it failed.
pub enum Existing {
    Found(Vec<u8>),
    Missing,
    Unreadable(String),
}

/// What an install does with one planned output.
#[derive(Debug)]
pub enum OutputStep {
    /// The same package is already there: nothing to write.
    Keep,
    /// Nothing is there: write the archive.
    Write,
    /// Another package is there: the install is refused, for this reason.
    Refuse(String),
    /// Reading what is there failed: the install fails with that error.
    Fail(String),
}

/// The text an install is refused with when `path` holds other contents.
pub open spec fn occupied_text(path: Seq<CompView>) -> Seq<char> {
    render(path) + " already has different contents"@
}

/// Decide on one planned output from what is already at `path`: an
/// archive with the same digest is kept, a missing one is written, and
/// one with other contents refuses the install.
pub fn existing_output(path: &StorePath, existing: Existing, digest: &[u8]) -> (r: OutputStep)
    ensures
        match existing {
            Existing::Found(d) => if d@ == digest@ {
                r is Keep
            } else {
                r matches OutputStep::Refuse(m) && m@ == occupied_text(path@)
            },
            Existing::Missing => r is Write,
            Existing::Unreadable(e) => r matches OutputStep::Fail(m) && m@ == e@,
        },
{
    match existing {
        Existing::Found(d) => if bytes_eq(d.as_slice(), digest) {
            OutputStep::Keep
        } else {
            let mut out: Vec<char> = Vec::new();
            let shown = path.to_string();
            push_str(&mut out, shown.as_str());
            push_str(&mut out, " already has different contents");
            OutputStep::Refuse(string_from_chars(out))
        },
        Existing::Missing => OutputStep::Write,
        Existing::Unreadable(e) => OutputStep::Fail(e),
    }
}

/// The text a catalog issue reads as.
pub open spec fn issue_message(i: IssueView) -> Seq<char> {
    match i {
        IssueView::Conflict(name, version) => ref_text((name, version)) + " has conflicting contents; use a new version"@,
        IssueView::OverLimits(name, version) => ref_text((name, version)) + " exceeds the package library limits"@,
        IssueView::TooManySources => "package library contains more than 256 sources"@,
        IssueView::Unloadable(path, message) => render(path) + ": "@ + message,
    }
}

impl Issue {
    /// The text the issue reads as.
    pub fn message(&self) -> (r: String)
        ensures
            r@ == issue_message(self@),
    {
        let mut out: Vec<char> = Vec::new();
        match self {
            Issue::Conflict { name, version } => {
                push_ref(&mut out, name, version);
                push_str(&mut out, " has conflicting contents; use a new version");
            },
            Issue::OverLimits { name, version } => {
                push_ref(&mut out, name, version);
                push_str(&mut out, " exceeds the package library limits");
            },
            Issue::TooManySources => push_str(&mut out, "package library contains more than 256 sources"),
            Issue::Unloadable { path, message } => {
                let shown = path.to_string();
                push_str(&mut out, shown.as_str());
                push_str(&mut out, ": ");
                push_str(&mut out, message.as_str());
            },
        }
        string_from_chars(out)
    }
}

/// The text a removal error reads as; a store's own failure reads as the
/// store reported it.
pub open spec fn uninstall_message(e: UninstallError) -> Seq<char> {
    match e {
        UninstallError::NotInstalled => "package is not installed"@,
        UninstallError::NotAnArchive => "only installed archives can be removed"@,
        UninstallError::RequiredBy(v) => "package is required by "@ + refs_text(keys_view(v@)),
        UninstallError::Storage(StorageError::NotFound) => "entity not found"@,
        UninstallError::Storage(StorageError::Other(m)) => m@,
    }
}

impl UninstallError {
    /// The text the error reads as.
    pub fn message(&self) -> (r: String)
        ensures
            r@ == uninstall_message(*self),
    {
        let mut out: Vec<char> = Vec::new();
        match self {
            UninstallError::NotInstalled => push_str(&mut out, "package is not installed"),
            UninstallError::NotAnArchive => push_str(&mut out, "only installed archives can be removed"),
            UninstallError::RequiredBy(v) => {
                push_str(&mut out, "package is required by ");
                let ghost start = out@;
                let ghost ks = keys_view(v@);
                let mut i: usize = 0;
                assert(ks.take(0) =~= Seq::<(Seq<char>, semver::Version)>::empty());
                while i < v.len()
                    invariant
                        i <= v@.len(),
                        ks == keys_view(v@),
                        out@ == start + refs_text(ks.take(i as int)),
                    decreases v@.len() - i,
                {
                    let ghost t = ks.take(i + 1);
                    assert(t.drop_last() =~= ks.take(i as int));
                    assert(t.last() == (v@[i as int].0@, v@[i as int].1));
                    if i > 0 {
                        out.push(',');
                        out.push(' ');
                    }
                    push_ref(&mut out, &v[i].0, &v[i].1);
                    assert(out@ =~= start + refs_text(t));
                    i = i + 1;
                }
                assert(ks.take(i as int) =~= ks);
            },
            UninstallError::Storage(StorageError::NotFound) => push_str(&mut out, "entity not found"),
            UninstallError::Storage(StorageError::Other(m)) => push_str(&mut out, m.as_str()),
        }
        string_from_chars(out)
    }
}

} // verus!

verus! {

/// Whether identity `a` comes before `b`: by name, then by version.
pub open spec fn key_before(a: (Seq<char>, semver::Version), b: (Seq<char>, semver::Version)) -> bool {
    lex_lt(a.0, b.0) || (a.0 == b.0 && semver_before(a.1, b.1))
}

/// Whether `a` comes no later than `b`.
pub open spec fn key_le(a: (Seq<char>, semver::Version), b: (Seq<char>, semver::Version)) -> bool {
    key_before(a, b) || a == b
}

fn facts_before(a: &PackageFacts, b: &PackageFacts) -> (r: bool)
    ensures
        r == key_before(key_of(a@), key_of(b@)),
        !r ==> key_le(key_of(b@), key_of(a@)),
{
    if str_lt(a.name.as_str(), b.name.as_str()) {
        return true;
    }
    if str_eq(a.name.as_str(), b.name.as_str()) {
        let r = version_less(&a.version, &b.version);
        return r;
    }
    proof {
        lemma_lex_total(a.name@, b.name@);
    }
    false
}

/// The packages a plan installs, in its order.
pub open spec fn plan_facts(plan: Seq<(usize, StorePath)>, sel: Seq<FactsView>) -> Seq<FactsView> {
    Seq::new(plan.len(), |i: int| sel[plan[i].0 as int])
}

/// Whether `plan` installs each identity of the selection `sel` once, in
/// name-then-version order, by the index of its last selection and with
/// its archive path.
pub open spec fn ordered_plan(plan: Seq<(usize, StorePath)>, sel: Seq<FactsView>, root: Seq<CompView>) -> bool {
    &&& plan_facts(plan, sel).to_multiset() == selection(sel).to_multiset()
    &&& forall|i: int|
        0 <= i < plan.len() ==> (#[trigger] plan[i]).0 < sel.len() && plan[i].1@ == archive_path_spec(
            root,
            key_of(sel[plan[i].0 as int]),
        )
    &&& forall|i: int|
        0 <= i < plan.len() - 1 ==> key_le(key_of(#[trigger] sel[plan[i].0 as int]), key_of(sel[plan[i + 1].0 as int]))
}

/// Put a plan in name-then-version order.
fn order_plan(chosen: Vec<(usize, StorePath)>, selected: &[PackageFacts], root: &StorePath) -> (r: Vec<(usize, StorePath)>)
    requires
        planned(chosen@, facts_view(selected@), root@),
    ensures
        ordered_plan(r@, facts_view(selected@), root@),
{
    let ghost sel = facts_view(selected@);
    let mut out: Vec<(usize, StorePath)> = Vec::new();
    let mut k: usize = 0;
    let mut rest = chosen;
    let ghost all = rest@;
    let n0 = rest.len();
    proof {
        assert(all.len() == n0);
        assert(plan_facts(out@, sel) =~= plan_facts(all, sel).take(0));
    }
    while rest.len() > 0
        invariant
            all.len() == k + rest@.len(),
            all.len() <= usize::MAX,
            rest@ == all.skip(k as int),
            planned(all, sel, root@),
            sel == facts_view(selected@),
            plan_facts(out@, sel).to_multiset() == plan_facts(all, sel).take(k as int).to_multiset(),
            forall|i: int|
                0 <= i < out@.len() ==> (#[trigger] out@[i]).0 < sel.len() && out@[i].1@ == archive_path_spec(
                    root@,
                    key_of(sel[out@[i].0 as int]),
                ),
            forall|i: int|
                0 <= i < out@.len() - 1 ==> key_le(
                    key_of(#[trigger] sel[out@[i].0 as int]),
                    key_of(sel[out@[i + 1].0 as int]),
                ),
        decreases rest@.len(),
    {
        let e = rest.remove(0);
        assert(e == all[k as int]);
        assert(rest@ =~= all.skip(k + 1));
        let ghost x = sel[e.0 as int];
        let ghost s = plan_facts(out@, sel);
        let ghost o0 = out@;
        let mut j: usize = 0;
        let mut done = false;
        while !done && j < out.len()
            invariant
                j <= out@.len(),
                o0 == out@,
                e.0 < sel.len(),
                x == sel[e.0 as int],
                sel == facts_view(selected@),
                forall|i: int| 0 <= i < out@.len() ==> (#[trigger] out@[i]).0 < sel.len(),
                forall|t: int| 0 <= t < j ==> key_le(key_of(sel[(#[trigger] out@[t]).0 as int]), key_of(x)),
                done ==> j < out@.len() && key_before(key_of(x), key_of(sel[out@[j as int].0 as int])),
            decreases out@.len() + 1 - j - (if done { 1int } else { 0int }),
        {
            if facts_before(&selected[e.0], &selected[out[j].0]) {
                done = true;
            } else {
                j = j + 1;
            }
        }
        let ghost pj = j;
        out.insert(j, e);
        proof {
            let n = o0.insert(pj as int, e);
            assert(out@ =~= n);
            assert(plan_facts(out@, sel) =~= s.insert(pj as int, x));
            vstd::seq_lib::to_multiset_insert(s, pj as int, x);
            let t = plan_facts(all, sel).take(k + 1);
            assert(t =~= plan_facts(all, sel).take(k as int).push(x));
            vstd::seq_lib::to_multiset_build(plan_facts(all, sel).take(k as int), x);
            assert forall|i: int| 0 <= i < n.len() - 1 implies key_le(
                key_of(#[trigger] sel[n[i].0 as int]),
                key_of(sel[n[i + 1].0 as int]),
            ) by {
                if i + 1 < pj {
                    assert(n[i] == o0[i] && n[i + 1] == o0[i + 1]);
                } else if i + 1 == pj {
                    assert(n[i] == o0[i] && n[i + 1] == e);
                } else if i == pj {
                    assert(n[i] == e && n[i + 1] == o0[i]);
                } else {
                    assert(n[i] == o0[i - 1] && n[i + 1] == o0[i]);
                }
            }
            assert forall|i: int| 0 <= i < n.len() implies (#[trigger] n[i]).0 < sel.len() && n[i].1@
                == archive_path_spec(root@, key_of(sel[n[i].0 as int])) by {
                if i < pj {
                    assert(n[i] == o0[i]);
                } else if i == pj {
                    assert(n[i] == e);
                    assert(all[k as int] == e);
                    assert(selection(sel)[k as int] == sel[e.0 as int]);
                } else {
                    assert(n[i] == o0[i - 1]);
                }
            }
        }
        k = k + 1;
    }
    proof {
        assert(plan_facts(all, sel).take(k as int) =~= plan_facts(all, sel));
        assert(plan_facts(all, sel) =~= selection(sel)) by {
            assert forall|i: int| 0 <= i < all.len() implies plan_facts(all, sel)[i] == selection(sel)[i] by {
                assert(all[i].0 < sel.len());
            }
        }
    }
    out
}

} // verus!
