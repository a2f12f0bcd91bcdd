//! Patch installation's plain facts.
use vstd::prelude::*;
use crate::lobby::protocol::{clone_version, semver_before, version_eq, version_less, version_text, write_version};
use crate::order::{lemma_lex_asymmetric, lemma_lex_irreflexive, lemma_lex_total, lemma_lex_transitive, lex_lt, str_lt};
use crate::paths::{CompView, StorePath, components, ext_of, file_name_spec, join_spec};
use crate::rom::paths_view;
use crate::storage::{Storage, StorageError, read_opt, temp_path, write_atomic};
use crate::text::{chars_of, string_from_chars, push_all, str_eq, trim_chars, trim_spec};
use vstd::utf8::{decode_utf8, encode_utf8, valid_utf8};

verus! {

/// Everything a patch scan reads: the packages and the cached index all
/// live in the one directory.
pub fn scan_roots(patches_path: &StorePath) -> (r: Vec<StorePath>)
    ensures
        paths_view(r@) == seq![patches_path@],
{
    let mut roots: Vec<StorePath> = Vec::new();
    roots.push(patches_path.copy());
    assert(paths_view(roots@) =~= seq![patches_path@]);
    roots
}

/// How a download ended, short of an error.
#[derive(Debug, PartialEq, Eq)]
pub enum Outcome {
    Installed,
    /// The progress callback asked to stop. Nothing was written.
    Cancelled,
}

/// One entry of a parsed address list.
pub enum MailAddress {
    /// A mailbox, with the display name written before it, if any.
    Single { display_name: Option<String>, addr: String },
    /// A named group of mailboxes.
    Group,
}

pub enum AddrView {
    Single(Option<Seq<char>>, Seq<char>),
    Group,
}

impl View for MailAddress {
    type V = AddrView;

    open spec fn view(&self) -> AddrView {
        match self {
            MailAddress::Single { display_name, addr } => AddrView::Single(
                match display_name {
                    Some(n) => Some(n@),
                    None => None,
                },
                addr@,
            ),
            MailAddress::Group => AddrView::Group,
        }
    }
}

pub open spec fn addrs_view(v: Option<Vec<MailAddress>>) -> Option<Seq<AddrView>> {
    match v {
        Some(list) => Some(Seq::new(list@.len(), |i: int| list@[i]@)),
        None => None,
    }
}

/// What `mailparse::addrparse` reads out of an author line.
pub uninterp spec fn mail_addresses(text: Seq<char>) -> Option<Seq<AddrView>>;

/// Parse an address list.
///
/// Calls `mailparse::addrparse`, which reads the text alone: `None` where
/// it reports an error, otherwise each address it found, in order.
#[verifier::external_body]
fn parse_addresses(text: &str) -> (r: Option<Vec<MailAddress>>)
    ensures
        addrs_view(r) == mail_addresses(text@),
{
    match mailparse::addrparse(text) {
        Ok(list) => Some(
            list.iter().map(|a| match a {
                mailparse::MailAddr::Single(info) => MailAddress::Single {
                    display_name: info.display_name.clone(),
                    addr: info.addr.clone(),
                },
                mailparse::MailAddr::Group(_) => MailAddress::Group,
            }).collect(),
        ),
        Err(_) => None,
    }
}

/// What a mailbox is shown as: its display name, or its address.
pub open spec fn shown(a: AddrView) -> Option<Seq<char>> {
    match a {
        AddrView::Single(Some(n), _) => Some(n),
        AddrView::Single(None, addr) => Some(addr),
        AddrView::Group => None,
    }
}

/// The mailboxes' shown names, joined by `, `; groups are left out.
pub open spec fn shown_names(addrs: Seq<AddrView>) -> Seq<char>
    decreases addrs.len(),
{
    if addrs.len() == 0 {
        Seq::empty()
    } else {
        let r = shown_names(addrs.drop_last());
        match shown(addrs.last()) {
            Some(n) => if !has_shown(addrs.drop_last()) {
                n
            } else {
                r + seq![',', ' '] + n
            },
            None => r,
        }
    }
}

/// Whether any address is shown.
pub open spec fn has_shown(addrs: Seq<AddrView>) -> bool {
    exists|i: int| 0 <= i < addrs.len() && #[trigger] shown(addrs[i]) is Some
}

/// How an author line is displayed: the names of its mailboxes when it
/// reads as an address list, the line itself otherwise.
pub open spec fn author_display(a: Seq<char>) -> Seq<char> {
    match mail_addresses(a) {
        Some(addrs) => shown_names(addrs),
        None => a,
    }
}

fn shown_text(list: &Vec<MailAddress>) -> (r: Vec<char>)
    ensures
        r@ == shown_names(Seq::new(list@.len(), |i: int| list@[i]@)),
{
    let ghost v = Seq::new(list@.len(), |i: int| list@[i]@);
    let mut out: Vec<char> = Vec::new();
    let mut any = false;
    let mut i: usize = 0;
    while i < list.len()
        invariant
            i <= list@.len(),
            v == Seq::new(list@.len(), |i: int| list@[i]@),
            out@ == shown_names(v.take(i as int)),
            any == has_shown(v.take(i as int)),
        decreases list@.len() - i,
    {
        let ghost t1 = v.take(i + 1);
        proof {
            assert(t1.drop_last() =~= v.take(i as int));
            assert(t1.last() == list@[i as int]@);
        }
        let name: Option<&String> = match &list[i] {
            MailAddress::Single { display_name: Some(n), addr: _ } => Some(n),
            MailAddress::Single { display_name: None, addr } => Some(addr),
            MailAddress::Group => None,
        };
        match name {
            Some(n) => {
                if any {
                    out.push(',');
                    out.push(' ');
                }
                let nc = chars_of(n.as_str());
                push_all(&mut out, nc.as_slice());
                proof {
                    if !any {
                        assert(!has_shown(t1.drop_last()));
                        assert(shown_names(t1.drop_last()).len() == 0) by {
                            lemma_no_shown_empty(t1.drop_last());
                        }
                    }
                    assert(shown(t1[i as int]) is Some);
                }
                any = true;
            },
            None => {
                proof {
                    assert(has_shown(t1) == has_shown(t1.drop_last())) by {
                        if has_shown(t1) {
                            let k = choose|k: int| 0 <= k < t1.len() && #[trigger] shown(t1[k]) is Some;
                            assert(k < i);
                            assert(t1.drop_last()[k] == t1[k]);
                        }
                        if has_shown(t1.drop_last()) {
                            let k = choose|k: int| 0 <= k < t1.drop_last().len() && #[trigger] shown(t1.drop_last()[k]) is Some;
                            assert(t1[k] == t1.drop_last()[k]);
                        }
                    }
                }
            },
        }
        i = i + 1;
        assert(out@ =~= shown_names(v.take(i as int)));
        proof {
            if any {
                assert(has_shown(v.take(i as int))) by {
                    if name is Some {
                        assert(shown(v.take(i as int)[i - 1]) is Some);
                    } else {
                        let k = choose|k: int| 0 <= k < t1.drop_last().len() && #[trigger] shown(t1.drop_last()[k]) is Some;
                        assert(t1[k] == t1.drop_last()[k]);
                    }
                }
            }
        }
    }
    assert(v.take(i as int) =~= v);
    out
}

proof fn lemma_no_shown_empty(addrs: Seq<AddrView>)
    requires
        !has_shown(addrs),
    ensures
        shown_names(addrs).len() == 0,
    decreases addrs.len(),
{
    if addrs.len() > 0 {
        assert(!has_shown(addrs.drop_last())) by {
            if has_shown(addrs.drop_last()) {
                let k = choose|k: int| 0 <= k < addrs.drop_last().len() && #[trigger] shown(addrs.drop_last()[k]) is Some;
                assert(addrs[k] == addrs.drop_last()[k]);
            }
        }
        lemma_no_shown_empty(addrs.drop_last());
        assert(shown(addrs[addrs.len() - 1]) is None);
    }
}

/// How each author line is displayed: `Name <addr>` entries as their
/// names, bare addresses as themselves, and a line that does not read as
/// an address list unchanged.
pub fn display_authors(authors: &[String]) -> (r: Vec<String>)
    ensures
        r@.len() == authors@.len(),
        forall|i: int| 0 <= i < authors@.len() ==> (#[trigger] r@[i])@ == author_display(authors@[i]@),
{
    let mut out: Vec<String> = Vec::new();
    let mut i: usize = 0;
    while i < authors.len()
        invariant
            i <= authors@.len(),
            out@.len() == i,
            forall|k: int| 0 <= k < i ==> (#[trigger] out@[k])@ == author_display(authors@[k]@),
        decreases authors@.len() - i,
    {
        let a = &authors[i];
        let shown_line = match parse_addresses(a.as_str()) {
            Some(list) => string_from_chars(shown_text(&list)),
            None => a.clone(),
        };
        out.push(shown_line);
        i = i + 1;
    }
    out
}

} // verus!

verus! {

/// `tangopatch`, the extension of an installed patch package.
pub open spec fn patch_ext() -> Seq<char> {
    seq!['t', 'a', 'n', 'g', 'o', 'p', 'a', 't', 'c', 'h']
}

/// Where a patch version lives, or would live, on disk:
/// `<patches>/<name>-<version>.tangopatch`.
pub open spec fn package_path_spec(patches: Seq<CompView>, name: Seq<char>, version: semver::Version) -> Seq<CompView> {
    join_spec(patches, components(name + seq!['-'] + version_text(version) + seq!['.'] + patch_ext()))
}

fn patch_ext_chars() -> (r: Vec<char>)
    ensures
        r@ == patch_ext(),
{
    let v = vec!['t', 'a', 'n', 'g', 'o', 'p', 'a', 't', 'c', 'h'];
    assert(v@ =~= patch_ext());
    v
}

/// The path of a patch version's package.
pub fn package_path(patches_path: &StorePath, name: &str, version: &semver::Version) -> (r: StorePath)
    ensures
        r@ == package_path_spec(patches_path@, name@, *version),
{
    let mut file = chars_of(name);
    file.push('-');
    let v = write_version(version);
    let vc = chars_of(v.as_str());
    push_all(&mut file, vc.as_slice());
    file.push('.');
    let ext = patch_ext_chars();
    push_all(&mut file, ext.as_slice());
    assert(file@ =~= name@ + seq!['-'] + version_text(*version) + seq!['.'] + patch_ext());
    let file = string_from_chars(file);
    patches_path.join_str(file.as_str())
}

/// Whether a listed file is a patch package, by its extension.
pub fn is_package_file(path: &StorePath) -> (r: bool)
    ensures
        r == (file_name_spec(path@) is Some && ext_of(file_name_spec(path@)->0) == Some(patch_ext())),
{
    match path.extension() {
        Some(e) => {
            let ext = patch_ext_chars();
            let ec = chars_of(e.as_str());
            chars_eq(&ec, &ext)
        },
        None => false,
    }
}

fn chars_eq(a: &Vec<char>, b: &Vec<char>) -> (r: bool)
    ensures
        r == (a@ == b@),
{
    if a.len() != b.len() {
        return false;
    }
    let mut i: usize = 0;
    while i < a.len()
        invariant
            i <= a@.len(),
            a@.len() == b@.len(),
            forall|j: int| 0 <= j < i ==> a@[j] == b@[j],
        decreases a@.len() - i,
    {
        if a[i] != b[i] {
            return false;
        }
        i = i + 1;
    }
    assert(a@ =~= b@);
    true
}

/// An installed patch as a scan groups it: its name, and its versions
/// oldest first, each by the index of the package read for it. The
/// newest version's package supplies the patch's display metadata.
pub struct InstalledPatch {
    pub name: String,
    pub versions: Vec<usize>,
}

pub open spec fn keys_seq(keys: Seq<(String, semver::Version)>) -> Seq<(Seq<char>, semver::Version)> {
    Seq::new(keys.len(), |i: int| (keys[i].0@, keys[i].1))
}

/// Whether package `idx` is the last one read under its name and version
/// among the first `n`.
pub open spec fn last_read(keys: Seq<(Seq<char>, semver::Version)>, idx: int, n: int) -> bool {
    0 <= idx < n && forall|s: int| idx < s < n ==> #[trigger] keys[s] != keys[idx]
}

/// Whether some version of some patch in `r` was read under `k`.
pub open spec fn covers(r: Seq<InstalledPatch>, keys: Seq<(Seq<char>, semver::Version)>, k: (Seq<char>, semver::Version)) -> bool {
    exists|p: int, j: int|
        0 <= p < r.len() && 0 <= j < r[p].versions@.len() && #[trigger] keys[r[p].versions@[j] as int] == k
}

/// Whether `v` holds the versions of patch `name` among the first `n`
/// packages read: at least one, each by the last package read under it,
/// in version order, no version twice.
pub open spec fn versions_ok(v: Seq<usize>, keys: Seq<(Seq<char>, semver::Version)>, name: Seq<char>, n: int) -> bool {
    &&& v.len() > 0
    &&& forall|j: int| 0 <= j < v.len() ==> last_read(keys, #[trigger] v[j] as int, n) && keys[v[j] as int].0 == name
    &&& forall|j: int| 0 <= j < v.len() - 1 ==> semver_before(keys[(#[trigger] v[j]) as int].1, keys[v[j + 1] as int].1)
    &&& forall|a: int, b: int| 0 <= a < b < v.len() ==> keys[(#[trigger] v[a]) as int].1 != keys[(#[trigger] v[b]) as int].1
}

/// How a scan groups the packages read from the first `n` of `keys`: by
/// name in text order, each name's versions as [`versions_ok`] says, and
/// every package read under some name and version.
pub open spec fn grouped(r: Seq<InstalledPatch>, keys: Seq<(Seq<char>, semver::Version)>, n: int) -> bool {
    &&& forall|p: int| 0 <= p < r.len() - 1 ==> lex_lt((#[trigger] r[p]).name@, r[p + 1].name@)
    &&& forall|p: int| 0 <= p < r.len() ==> versions_ok((#[trigger] r[p]).versions@, keys, r[p].name@, n)
    &&& forall|s: int| 0 <= s < n ==> covers(r, keys, #[trigger] keys[s])
}

proof fn lemma_names_sorted(r: Seq<InstalledPatch>, a: int, b: int)
    requires
        forall|p: int| 0 <= p < r.len() - 1 ==> lex_lt((#[trigger] r[p]).name@, r[p + 1].name@),
        0 <= a < b < r.len(),
    ensures
        lex_lt(r[a].name@, r[b].name@),
    decreases b - a,
{
    if b > a + 1 {
        lemma_names_sorted(r, a, b - 1);
        lemma_lex_transitive(r[a].name@, r[b - 1].name@, r[b].name@);
    }
}

} // verus!


verus! {

/// Whether one of `v` was read under `k`.
pub open spec fn holds_key(v: Seq<usize>, keys: Seq<(Seq<char>, semver::Version)>, k: (Seq<char>, semver::Version)) -> bool {
    exists|i: int| 0 <= i < v.len() && #[trigger] keys[v[i] as int] == k
}

/// Add package `t` to the versions of its patch: in place of the package
/// of the same version, or at its place in version order.
#[verifier::spinoff_prover]
#[verifier::rlimit(40)]
fn add_version(v: Vec<usize>, keys: &[(String, semver::Version)], t: usize) -> (r: Vec<usize>)
    requires
        t < keys@.len(),
        versions_ok(v@, keys_seq(keys@), keys@[t as int].0@, t as int),
    ensures
        versions_ok(r@, keys_seq(keys@), keys@[t as int].0@, t + 1),
        exists|j: int| 0 <= j < r@.len() && r@[j] == t,
        forall|j: int| 0 <= j < v@.len() ==> holds_key(r@, keys_seq(keys@), keys_seq(keys@)[(#[trigger] v@[j]) as int]),
{
    let ghost ks = keys_seq(keys@);
    let ghost k = ks[t as int];
    let ghost name = k.0;
    assert(keys@[t as int].1 == k.1);
    let mut j: usize = 0;
    while j < v.len()
        invariant
            j <= v@.len(),
            t < keys@.len(),
            ks == keys_seq(keys@),
            k == ks[t as int],
            name == k.0,
            versions_ok(v@, ks, name, t as int),
            forall|i: int| 0 <= i < j ==> ks[(#[trigger] v@[i]) as int].1 != k.1,
        decreases v@.len() - j,
    {
        assert(ks[v@[j as int] as int].1 == keys@[v@[j as int] as int].1);
        if version_eq(&keys[v[j]].1, &keys[t].1) {
            let mut w = v;
            let ghost old_w = w@;
            w.set(j, t);
            proof {
                assert(ks[old_w[j as int] as int].1 == k.1);
                assert forall|i: int| 0 <= i < w@.len() implies last_read(ks, #[trigger] w@[i] as int, t + 1) && ks[w@[i] as int].0
                    == name by {
                    if i != j {
                        let idx = old_w[i] as int;
                        assert(w@[i] == old_w[i]);
                        assert(last_read(ks, idx, t as int));
                        if i < j {
                            assert(ks[old_w[i] as int].1 != ks[old_w[j as int] as int].1);
                        } else {
                            assert(ks[old_w[j as int] as int].1 != ks[old_w[i] as int].1);
                        }
                        assert(ks[t as int] != ks[idx]);
                        assert forall|x: int| idx < x < t + 1 implies #[trigger] ks[x] != ks[idx] by {
                            if x < t {
                                assert(ks[x] != ks[idx]);
                            }
                        }
                    } else {
                        assert(w@[i] == t);
                    }
                }
                assert forall|i: int| 0 <= i < w@.len() - 1 implies semver_before(
                    ks[(#[trigger] w@[i]) as int].1,
                    ks[w@[i + 1] as int].1,
                ) by {
                    assert(ks[w@[i] as int].1 == ks[old_w[i] as int].1);
                    assert(ks[w@[i + 1] as int].1 == ks[old_w[i + 1] as int].1);
                }
                assert forall|a: int, b: int| 0 <= a < b < w@.len() implies ks[(#[trigger] w@[a]) as int].1
                    != ks[(#[trigger] w@[b]) as int].1 by {
                    assert(ks[w@[a] as int].1 == ks[old_w[a] as int].1);
                    assert(ks[w@[b] as int].1 == ks[old_w[b] as int].1);
                }
                assert(w@[j as int] == t);
                assert forall|x: int| 0 <= x < old_w.len() implies holds_key(w@, ks, ks[#[trigger] old_w[x] as int]) by {
                    if x == j {
                        assert(ks[w@[x] as int] == ks[old_w[x] as int]);
                    } else {
                        assert(w@[x] == old_w[x]);
                    }
                }
            }
            return w;
        }
        j = j + 1;
    }
    // A new version: its place is before the first newer one.
    let mut jj: usize = 0;
    let mut done = false;
    while !done && jj < v.len()
        invariant
            jj <= v@.len(),
            t < keys@.len(),
            ks == keys_seq(keys@),
            k == ks[t as int],
            name == k.0,
            versions_ok(v@, ks, name, t as int),
            forall|i: int| 0 <= i < v@.len() ==> ks[(#[trigger] v@[i]) as int].1 != k.1,
            forall|i: int| 0 <= i < jj ==> semver_before(ks[(#[trigger] v@[i]) as int].1, k.1),
            done ==> jj < v@.len() && semver_before(k.1, ks[v@[jj as int] as int].1),
        decreases v@.len() + 1 - jj - (if done { 1int } else { 0int }),
    {
        assert(ks[v@[jj as int] as int].1 == keys@[v@[jj as int] as int].1);
        if version_less(&keys[t].1, &keys[v[jj]].1) {
            done = true;
        } else {
            assert(ks[v@[jj as int] as int].1 != k.1);
            jj = jj + 1;
        }
    }
    let mut w = v;
    let ghost old_w = w@;
    w.insert(jj, t);
    proof {
        let n = old_w.insert(jj as int, t);
        assert(w@ =~= n);
        assert forall|i: int| 0 <= i < n.len() implies last_read(ks, #[trigger] n[i] as int, t + 1) && ks[n[i] as int].0 == name by {
            if i < jj {
                assert(n[i] == old_w[i]);
            } else if i > jj {
                assert(n[i] == old_w[i - 1]);
            }
        }
        assert forall|i: int| 0 <= i < n.len() - 1 implies semver_before(ks[(#[trigger] n[i]) as int].1, ks[n[i + 1] as int].1) by {
            if i + 1 < jj {
                assert(n[i] == old_w[i] && n[i + 1] == old_w[i + 1]);
            } else if i + 1 == jj {
                assert(n[i] == old_w[i] && n[i + 1] == t);
            } else if i == jj {
                assert(n[i] == t && n[i + 1] == old_w[i]);
            } else {
                assert(n[i] == old_w[i - 1] && n[i + 1] == old_w[i]);
            }
        }
        assert forall|a: int, b: int| 0 <= a < b < n.len() implies ks[(#[trigger] n[a]) as int].1 != ks[(#[trigger] n[b]) as int].1 by {
            if a < jj && b < jj {
                assert(n[a] == old_w[a] && n[b] == old_w[b]);
            } else if a < jj && b == jj {
                assert(n[a] == old_w[a]);
            } else if a < jj {
                assert(n[a] == old_w[a] && n[b] == old_w[b - 1]);
            } else if a == jj {
                assert(n[b] == old_w[b - 1]);
            } else {
                assert(n[a] == old_w[a - 1] && n[b] == old_w[b - 1]);
            }
        }
        assert(n[jj as int] == t);
        assert forall|x: int| 0 <= x < old_w.len() implies holds_key(n, ks, ks[#[trigger] old_w[x] as int]) by {
            if x < jj {
                assert(n[x] == old_w[x]);
            } else {
                assert(n[x + 1] == old_w[x]);
            }
        }
    }
    w
}

} // verus!

verus! {

proof fn lemma_versions_ok_extend(v: Seq<usize>, ks: Seq<(Seq<char>, semver::Version)>, name: Seq<char>, t: int)
    requires
        versions_ok(v, ks, name, t),
        0 <= t < ks.len(),
        ks[t].0 != name,
    ensures
        versions_ok(v, ks, name, t + 1),
{
    assert forall|j: int| 0 <= j < v.len() implies last_read(ks, #[trigger] v[j] as int, t + 1) && ks[v[j] as int].0 == name by {
        let idx = v[j] as int;
        assert(last_read(ks, idx, t));
        assert forall|x: int| idx < x < t + 1 implies #[trigger] ks[x] != ks[idx] by {
            if x < t {
                assert(ks[x] != ks[idx]);
            }
        }
    }
}

/// Group the packages a scan read, one `(name, version)` each in listing
/// order, into installed patches: by name in text order, each with its
/// versions oldest first, a later package of the same name and version
/// taking the place of an earlier one.
pub fn installed_patches(keys: &[(String, semver::Version)]) -> (r: Vec<InstalledPatch>)
    ensures
        grouped(r@, keys_seq(keys@), keys@.len() as int),
{
    let ghost ks = keys_seq(keys@);
    let mut r: Vec<InstalledPatch> = Vec::new();
    let mut t: usize = 0;
    while t < keys.len()
        invariant
            t <= keys@.len(),
            ks == keys_seq(keys@),
            grouped(r@, ks, t as int),
        decreases keys@.len() - t,
    {
        let ghost k = ks[t as int];
        assert(k.0 == keys@[t as int].0@);
        let mut p: usize = 0;
        let mut done = false;
        while !done && p < r.len()
            invariant
                p <= r@.len(),
                t < keys@.len(),
                ks == keys_seq(keys@),
                k == ks[t as int],
                k.0 == keys@[t as int].0@,
                forall|q: int| 0 <= q < p ==> lex_lt((#[trigger] r@[q]).name@, k.0),
                done ==> p < r@.len() && !lex_lt(r@[p as int].name@, k.0),
            decreases r@.len() + 1 - p - (if done { 1int } else { 0int }),
        {
            if str_lt(r[p].name.as_str(), keys[t].0.as_str()) {
                p = p + 1;
            } else {
                done = true;
            }
        }
        let ghost r0 = r@;
        if p < r.len() && str_eq(r[p].name.as_str(), keys[t].0.as_str()) {
            let patch = r.remove(p);
            let versions = add_version(patch.versions, keys, t);
            r.insert(p, InstalledPatch { name: patch.name, versions });
            proof {
                let n = r@;
                assert(n =~= r0.update(p as int, n[p as int]));
                assert forall|q: int| 0 <= q < n.len() - 1 implies lex_lt((#[trigger] n[q]).name@, n[q + 1].name@) by {
                    assert(n[q].name@ == r0[q].name@ && n[q + 1].name@ == r0[q + 1].name@);
                }
                assert forall|q: int| 0 <= q < n.len() implies versions_ok((#[trigger] n[q]).versions@, ks, n[q].name@, t + 1) by {
                    if q != p {
                        assert(n[q] == r0[q]);
                        if q < p {
                            lemma_names_sorted(r0, q, p as int);
                        } else {
                            lemma_names_sorted(r0, p as int, q);
                            lemma_lex_irreflexive(r0[q].name@);
                        }
                        lemma_lex_irreflexive(r0[p as int].name@);
                        lemma_versions_ok_extend(r0[q].versions@, ks, r0[q].name@, t as int);
                    }
                }
                assert forall|s: int| 0 <= s < t + 1 implies covers(n, ks, #[trigger] ks[s]) by {
                    if s == t {
                        let j = choose|j: int| 0 <= j < n[p as int].versions@.len() && n[p as int].versions@[j] == t;
                        assert(ks[n[p as int].versions@[j] as int] == ks[s]);
                    } else {
                        assert(covers(r0, ks, ks[s]));
                        let (q, j) = choose|q: int, j: int|
                            0 <= q < r0.len() && 0 <= j < r0[q].versions@.len() && #[trigger] ks[r0[q].versions@[j] as int] == ks[s];
                        if q == p {
                            assert(holds_key(n[p as int].versions@, ks, ks[r0[q].versions@[j] as int]));
                            let i = choose|i: int|
                                0 <= i < n[p as int].versions@.len() && #[trigger] ks[n[p as int].versions@[i] as int] == ks[r0[q].versions@[j] as int];
                            assert(ks[n[p as int].versions@[i] as int] == ks[s]);
                        } else {
                            assert(n[q] == r0[q]);
                            assert(ks[n[q].versions@[j] as int] == ks[s]);
                        }
                    }
                }
            }
        } else {
            let mut versions: Vec<usize> = Vec::new();
            versions.push(t);
            let name = keys[t].0.clone();
            r.insert(p, InstalledPatch { name, versions });
            proof {
                let n = r@;
                assert(n =~= r0.insert(p as int, n[p as int]));
                assert(n[p as int].name@ == k.0);
                if p < r0.len() {
                    assert(r0[p as int].name@ != k.0);
                    lemma_lex_total(r0[p as int].name@, k.0);
                }
                assert forall|q: int| 0 <= q < n.len() - 1 implies lex_lt((#[trigger] n[q]).name@, n[q + 1].name@) by {
                    if q + 1 < p {
                        assert(n[q] == r0[q] && n[q + 1] == r0[q + 1]);
                    } else if q + 1 == p {
                        assert(n[q] == r0[q]);
                    } else if q == p {
                        assert(n[q + 1] == r0[q]);
                    } else {
                        assert(n[q] == r0[q - 1] && n[q + 1] == r0[q]);
                    }
                }
                assert forall|q: int| 0 <= q < n.len() implies versions_ok((#[trigger] n[q]).versions@, ks, n[q].name@, t + 1) by {
                    if q == p {
                        assert(n[q].versions@ =~= seq![t]);
                    } else {
                        let o = if q < p { q } else { q - 1 };
                        assert(n[q] == r0[o]);
                        if o < p {
                            lemma_lex_irreflexive(k.0);
                        } else {
                            if o > p {
                                lemma_names_sorted(r0, p as int, o);
                                lemma_lex_transitive(k.0, r0[p as int].name@, r0[o].name@);
                            }
                            lemma_lex_irreflexive(k.0);
                        }
                        lemma_versions_ok_extend(r0[o].versions@, ks, r0[o].name@, t as int);
                    }
                }
                assert forall|s: int| 0 <= s < t + 1 implies covers(n, ks, #[trigger] ks[s]) by {
                    if s == t {
                        assert(n[p as int].versions@[0] == t);
                        assert(ks[n[p as int].versions@[0] as int] == ks[s]);
                    } else {
                        assert(covers(r0, ks, ks[s]));
                        let (q, j) = choose|q: int, j: int|
                            0 <= q < r0.len() && 0 <= j < r0[q].versions@.len() && #[trigger] ks[r0[q].versions@[j] as int] == ks[s];
                        if q < p {
                            assert(n[q] == r0[q]);
                            assert(ks[n[q].versions@[j] as int] == ks[s]);
                        } else {
                            assert(n[q + 1] == r0[q]);
                            assert(ks[n[q + 1].versions@[j] as int] == ks[s]);
                        }
                    }
                }
            }
        }
        t = t + 1;
    }
    r
}

} // verus!

verus! {

/// What `String::from_utf8_lossy` makes of some bytes.
pub uninterp spec fn utf8_lossy(bytes: Seq<u8>) -> Seq<char>;

/// Text from bytes that ought to be UTF-8.
///
/// Calls `String::from_utf8_lossy`, which decodes valid UTF-8 as it is
/// and puts U+FFFD in place of each invalid sequence; the text depends on
/// the bytes alone.
#[verifier::external_body]
fn lossy_text(bytes: &[u8]) -> (r: String)
    ensures
        r@ == utf8_lossy(bytes@),
        valid_utf8(bytes@) ==> r@ == decode_utf8(bytes@),
{
    String::from_utf8_lossy(bytes).into_owned()
}

/// `<patches>/index.json`, the cached repository index.
pub open spec fn index_path_spec(patches: Seq<CompView>) -> Seq<CompView> {
    join_spec(patches, components("index.json"@))
}

/// `<patches>/index.etag`, the ETag the cached index was served with.
pub open spec fn etag_path_spec(patches: Seq<CompView>) -> Seq<CompView> {
    join_spec(patches, components("index.etag"@))
}

/// Where the cached repository index is kept.
pub fn index_path(patches_path: &StorePath) -> (r: StorePath)
    ensures
        r@ == index_path_spec(patches_path@),
{
    patches_path.join_str("index.json")
}

fn etag_path(patches_path: &StorePath) -> (r: StorePath)
    ensures
        r@ == etag_path_spec(patches_path@),
{
    patches_path.join_str("index.etag")
}

/// The validator to send with the next index fetch: the stored ETag,
/// trimmed, but only while the index it describes is still stored, so a
/// lost index is fetched whole again.
pub fn index_validator<S: Storage>(storage: &S, patches_path: &StorePath) -> (r: Result<Option<String>, StorageError>)
    ensures
        ({
            let files = storage.files();
            let etag = etag_path_spec(patches_path@);
            if !files.contains_key(index_path_spec(patches_path@)) {
                r matches Ok(None)
            } else {
                match r {
                    Ok(Some(e)) => files.contains_key(etag) && e@ == trim_spec(utf8_lossy(files[etag])),
                    Ok(None) => !files.contains_key(etag),
                    Err(e) => e != StorageError::NotFound,
                }
            }
        }),
{
    let index = index_path(patches_path);
    if !storage.is_file(&index) {
        return Ok(None);
    }
    let etag = etag_path(patches_path);
    match read_opt(storage, &etag)? {
        Some(raw) => {
            let text = lossy_text(raw.as_slice());
            let cs = chars_of(text.as_str());
            let trimmed = trim_chars(&cs);
            Ok(Some(string_from_chars(trimmed)))
        },
        None => Ok(None),
    }
}

/// Keep a freshly fetched index, already known to parse, and the ETag it
/// came with. The index is written whole through a temporary; an ETag
/// replaces the stored one, and a fetch without one drops the stored
/// one, a failure to drop it being no failure of the fetch. A failure
/// either left the index as it was (the temporary aside), or came from
/// writing the ETag after the new index was in place.
pub fn store_index<S: Storage>(storage: &mut S, patches_path: &StorePath, etag: Option<String>, body: &[u8]) -> (r: Result<
    (),
    StorageError,
>)
    ensures
        ({
            let index = index_path_spec(patches_path@);
            let written = old(storage).files().remove(temp_path(index)).insert(index, body@);
            let etag_at = etag_path_spec(patches_path@);
            &&& r is Ok ==> match etag {
                Some(e) => final(storage).files() == written.insert(etag_at, encode_utf8(e@)),
                None => final(storage).files() == written.remove(etag_at) || final(storage).files() == written,
            }
            &&& r is Err ==> final(storage).files().remove(temp_path(index)) == old(storage).files().remove(
                temp_path(index),
            ) || (etag is Some && final(storage).files().remove(etag_at) == written.remove(etag_at))
        }),
{
    let index = index_path(patches_path);
    write_atomic(storage, &index, body)?;
    let at = etag_path(patches_path);
    match etag {
        Some(e) => storage.write(&at, e.as_str().as_bytes()),
        None => {
            let _ = storage.remove_file(&at);
            Ok(())
        },
    }
}

/// `s` without the slashes it ends with.
pub open spec fn trim_end_slashes(s: Seq<char>) -> Seq<char>
    decreases s.len(),
{
    if s.len() > 0 && s.last() == '/' {
        trim_end_slashes(s.drop_last())
    } else {
        s
    }
}

/// Where a package the index lists at `entry_path` is fetched from: that
/// path under `url`, with one slash between.
pub fn download_url(url: &str, entry_path: &str) -> (r: String)
    ensures
        r@ == trim_end_slashes(url@) + seq!['/'] + entry_path@,
{
    let cs = chars_of(url);
    let mut n: usize = cs.len();
    assert(cs@.take(n as int) =~= url@);
    while n > 0 && cs[n - 1] == '/'
        invariant
            n <= cs@.len(),
            cs@ == url@,
            trim_end_slashes(cs@.take(n as int)) == trim_end_slashes(url@),
        decreases n,
    {
        assert(cs@.take(n as int).drop_last() =~= cs@.take(n - 1));
        n = n - 1;
    }
    let mut out: Vec<char> = Vec::new();
    let mut i: usize = 0;
    while i < n
        invariant
            i <= n <= cs@.len(),
            out@ == cs@.take(i as int),
        decreases n - i,
    {
        out.push(cs[i]);
        i = i + 1;
        assert(out@ =~= cs@.take(i as int));
    }
    assert(trim_end_slashes(cs@.take(n as int)) == cs@.take(n as int));
    out.push('/');
    let p = chars_of(entry_path);
    push_all(&mut out, p.as_slice());
    string_from_chars(out)
}

/// Where to fetch the package `name` from, the index listing it at
/// `entry_path` under `url`: a name that is not a patch name (`name_check`
/// is the verdict of the patch format's name rules) is refused before
/// any request is made.
pub fn download_target(name_check: Result<(), String>, url: &str, entry_path: &str) -> (r: Result<String, DownloadError>)
    ensures
        match name_check {
            Err(m) => r matches Err(DownloadError::BadName(b)) && b@ == m@,
            Ok(()) => r matches Ok(u) && u@ == trim_end_slashes(url@) + seq!['/'] + entry_path@,
        },
{
    match name_check {
        Err(m) => Err(DownloadError::BadName(m)),
        Ok(()) => Ok(download_url(url, entry_path)),
    }
}

/// The GET that fetches a package: unconditional, capped at the size the
/// index gives for it, reporting progress to `on_progress`.
pub fn download_request<'a>(
    full_url: &'a str,
    size: u64,
    on_progress: Option<&'a dyn crate::http::ProgressCallback>,
) -> (r: crate::http::Request<'a>)
    ensures
        r.url == full_url,
        r.if_none_match is None,
        r.max_len == Some(size),
        r.on_progress == on_progress,
{
    crate::http::Request { url: full_url, if_none_match: None, max_len: Some(size), on_progress }
}

/// Why a downloaded package was not installed.
#[derive(Debug)]
pub enum DownloadError {
    /// The package names itself as something other than what was asked
    /// for; `actual` is what it says it is.
    WrongPackage { name: String, version: semver::Version, actual: String },
    /// The patch name is not one a package may have, for the reason given.
    BadName(String),
    Storage(StorageError),
}

/// Install a downloaded package that matched the index's hash. `name`
/// must be a patch name (`name_check` is the verdict of the patch
/// format's name rules, with the reason for a refusal), checked before
/// any path is built from it; the package must also be what it says it
/// is, `manifest_name manifest_version`; then it is written whole,
/// through a temporary, at its package path.
pub fn install_downloaded<S: Storage>(
    storage: &mut S,
    patches_path: &StorePath,
    name: &str,
    name_check: Result<(), String>,
    version: &semver::Version,
    raw: &[u8],
    manifest_name: &str,
    manifest_version: &semver::Version,
) -> (r: Result<(), DownloadError>)
    ensures
        name_check matches Err(m) ==> (r matches Err(DownloadError::BadName(b)) && b@ == m@) && final(storage).files()
            == old(storage).files(),
        name_check is Ok && (manifest_name@ != name@ || *manifest_version != *version) ==> (r matches Err(
            DownloadError::WrongPackage { name: n, version: v, actual },
        ) && n@ == name@ && v == *version && actual@ == manifest_name@ + seq![' '] + version_text(*manifest_version))
            && final(storage).files() == old(storage).files(),
        name_check is Ok && (manifest_name@ == name@ && *manifest_version == *version) ==> {
            let path = package_path_spec(patches_path@, name@, *version);
            &&& r is Ok ==> final(storage).files() == old(storage).files().remove(temp_path(path)).insert(path, raw@)
            &&& r is Err ==> r->Err_0 is Storage
        },
{
    if let Err(m) = name_check {
        return Err(DownloadError::BadName(m));
    }
    if !str_eq(manifest_name, name) || !version_eq(manifest_version, version) {
        let mut actual = chars_of(manifest_name);
        actual.push(' ');
        let mv = write_version(manifest_version);
        let mc = chars_of(mv.as_str());
        push_all(&mut actual, mc.as_slice());
        assert(actual@ =~= manifest_name@ + seq![' '] + version_text(*manifest_version));
        return Err(
            DownloadError::WrongPackage {
                name: string_from_chars(chars_of(name)),
                version: clone_version(version),
                actual: string_from_chars(actual),
            },
        );
    }
    let path = package_path(patches_path, name, version);
    match write_atomic(storage, &path, raw) {
        Ok(()) => Ok(()),
        Err(e) => Err(DownloadError::Storage(e)),
    }
}

/// Delete an installed package. `name` must be a patch name
/// (`name_check` is the verdict of the patch format's name rules), checked
/// before any path is built from it. The next scan drops the package; the
/// index still lists it, so it can be installed again.
pub fn uninstall<S: Storage>(
    storage: &mut S,
    patches_path: &StorePath,
    name: &str,
    name_check: Result<(), String>,
    version: &semver::Version,
) -> (r: Result<(), DownloadError>)
    ensures
        name_check matches Err(m) ==> (r matches Err(DownloadError::BadName(b)) && b@ == m@),
        r is Ok ==> name_check is Ok && final(storage).files() == old(storage).files().remove(
            package_path_spec(patches_path@, name@, *version),
        ),
        r is Err ==> final(storage).files() == old(storage).files(),
        name_check is Ok && r is Err ==> r->Err_0 is Storage,
{
    if let Err(m) = name_check {
        return Err(DownloadError::BadName(m));
    }
    let path = package_path(patches_path, name, version);
    match storage.remove_file(&path) {
        Ok(()) => Ok(()),
        Err(e) => Err(DownloadError::Storage(e)),
    }
}

/// A download's progress, in bytes: `total` is the server's length, or
/// the index's when the server gave none.
#[derive(Debug, Clone, Copy, PartialEq, Eq)]
pub struct Progress {
    pub downloaded: u64,
    pub total: u64,
}

/// What a download is doing. A failure is kept so the screen can say so
/// instead of going quiet, until the download is tried again.
#[derive(Debug, Clone, Copy, PartialEq, Eq)]
pub enum Download {
    Running(Progress),
    Failed,
}

impl Download {
    /// Whole percent, once the size is known; `None` before that and
    /// after a failure.
    pub fn percent(&self) -> (r: Option<u64>)
        requires
            *self matches Download::Running(p) ==> p.downloaded * 100 <= u64::MAX,
        ensures
            r == match *self {
                Download::Running(p) => if p.total > 0 {
                    Some(((p.downloaded * 100) / (p.total as int)) as u64)
                } else {
                    None
                },
                Download::Failed => None,
            },
    {
        match self {
            Download::Running(p) => if p.total > 0 {
                Some(p.downloaded * 100 / p.total)
            } else {
                None
            },
            Download::Failed => None,
        }
    }

    /// Whether it is still going.
    pub fn is_running(&self) -> (r: bool)
        ensures
            r == (*self is Running),
    {
        match self {
            Download::Running(_) => true,
            Download::Failed => false,
        }
    }
}

} // verus!
