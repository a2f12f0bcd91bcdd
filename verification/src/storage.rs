//! The storage seam: every library file is read and written through a
//! [`Storage`], whatever backs it — a filesystem natively, a key-value
//! image in a browser, or [`Memory`] in tests.
use vstd::prelude::*;
use crate::paths::{StorePath, CompView, file_name_spec, with_file_name_spec};
use crate::text::{chars_of, string_from_chars, push_all};
use crate::order::{path_lt, store_path_lt, lemma_path_total, lemma_path_transitive, lemma_path_irreflexive, lemma_path_asymmetric};

verus! {

/// Why a storage operation failed. A missing file is told apart from
/// every other failure, because callers branch on it.
#[derive(Debug, PartialEq, Eq)]
pub enum StorageError {
    NotFound,
    Other(String),
}

/// A store of files addressed by path. Its contents are a map from path
/// to bytes; each operation says what it does to that map when it
/// succeeds.
pub trait Storage {
    /// The files in the store, by path. Every store this library verifies
    /// (such as [`Memory`]) defines it; a store implemented outside the
    /// verified code, over a real filesystem, is held to the contracts
    /// below by its author, and its contents are left unnamed here.
    closed spec fn files(&self) -> Map<Seq<CompView>, Seq<u8>> {
        vstd::pervasive::arbitrary()
    }

    /// Read a whole file.
    fn read(&self, path: &StorePath) -> (r: Result<Vec<u8>, StorageError>)
        ensures
            r is Ok ==> self.files().contains_key(path@) && r->Ok_0@ == self.files()[path@],
            r matches Err(StorageError::NotFound) ==> !self.files().contains_key(path@),
    ;

    /// Create or replace a file. A write that fails touches no other
    /// file, though it may have left `path` part-written.
    fn write(&mut self, path: &StorePath, data: &[u8]) -> (r: Result<(), StorageError>)
        ensures
            r is Ok ==> final(self).files() == old(self).files().insert(path@, data@),
            r is Err ==> final(self).files().remove(path@) == old(self).files().remove(path@),
    ;

    /// Remove a file. A removal that fails removes nothing.
    fn remove_file(&mut self, path: &StorePath) -> (r: Result<(), StorageError>)
        ensures
            r is Ok ==> final(self).files() == old(self).files().remove(path@),
            r is Err ==> final(self).files() == old(self).files(),
    ;

    /// Make sure a directory exists; no file changes, whether it works
    /// or not.
    fn create_dir_all(&mut self, path: &StorePath) -> (r: Result<(), StorageError>)
        ensures
            final(self).files() == old(self).files(),
    ;

    /// Replace `to` with `from`, overwriting an existing `to`. A rename
    /// that fails changes nothing.
    fn rename(&mut self, from: &StorePath, to: &StorePath) -> (r: Result<(), StorageError>)
        ensures
            r is Ok ==> old(self).files().contains_key(from@) && final(self).files() == old(
                self,
            ).files().remove(from@).insert(to@, old(self).files()[from@]),
            r is Err ==> final(self).files() == old(self).files(),
    ;

    /// Whether a file is at `path`.
    fn is_file(&self, path: &StorePath) -> (r: bool)
        ensures
            r == self.files().contains_key(path@),
    ;
}

/// One file a listing turned up: its path, its length, and its
/// modification time in milliseconds since the Unix epoch when the
/// backend tracks one.
#[derive(Clone, Debug, PartialEq, Eq)]
pub struct Entry {
    pub path: StorePath,
    pub len: u64,
    pub modified: Option<u64>,
}

impl View for Entry {
    type V = (Seq<CompView>, u64, Option<u64>);

    open spec fn view(&self) -> (Seq<CompView>, u64, Option<u64>) {
        (self.path@, self.len, self.modified)
    }
}

pub open spec fn entries_view(v: Seq<Entry>) -> Seq<(Seq<CompView>, u64, Option<u64>)> {
    Seq::new(v.len(), |i: int| v[i]@)
}

pub open spec fn time_lt(a: Option<u64>, b: Option<u64>) -> bool {
    match (a, b) {
        (None, Some(_)) => true,
        (Some(x), Some(y)) => x < y,
        _ => false,
    }
}

/// Entries order by path, then length, then modification time.
pub open spec fn entry_lt(a: (Seq<CompView>, u64, Option<u64>), b: (Seq<CompView>, u64, Option<u64>)) -> bool {
    path_lt(a.0, b.0) || (a.0 == b.0 && (a.1 < b.1 || (a.1 == b.1 && time_lt(a.2, b.2))))
}

pub open spec fn entries_sorted(s: Seq<(Seq<CompView>, u64, Option<u64>)>) -> bool {
    forall|i: int, j: int| 0 <= i < j < s.len() ==> !entry_lt(#[trigger] s[j], #[trigger] s[i])
}

proof fn lemma_entry_irreflexive(a: (Seq<CompView>, u64, Option<u64>))
    ensures
        !entry_lt(a, a),
{
    lemma_path_irreflexive(a.0);
}

proof fn lemma_entry_total(a: (Seq<CompView>, u64, Option<u64>), b: (Seq<CompView>, u64, Option<u64>))
    requires
        a != b,
    ensures
        entry_lt(a, b) || entry_lt(b, a),
{
    if a.0 != b.0 {
        lemma_path_total(a.0, b.0);
    }
}

proof fn lemma_entry_transitive(
    a: (Seq<CompView>, u64, Option<u64>),
    b: (Seq<CompView>, u64, Option<u64>),
    c: (Seq<CompView>, u64, Option<u64>),
)
    requires
        entry_lt(a, b),
        entry_lt(b, c),
    ensures
        entry_lt(a, c),
{
    lemma_path_irreflexive(a.0);
    lemma_path_irreflexive(b.0);
    if path_lt(a.0, b.0) && path_lt(b.0, c.0) {
        lemma_path_transitive(a.0, b.0, c.0);
    }
    if path_lt(a.0, b.0) && a.0 == c.0 {
        lemma_path_asymmetric(a.0, b.0);
    }
}

fn entry_less(a: &Entry, b: &Entry) -> (r: bool)
    ensures
        r == entry_lt(a@, b@),
{
    if store_path_lt(&a.path, &b.path) {
        return true;
    }
    if !a.path.same(&b.path) {
        return false;
    }
    if a.len != b.len {
        return a.len < b.len;
    }
    match (a.modified, b.modified) {
        (None, Some(_)) => true,
        (Some(x), Some(y)) => x < y,
        _ => false,
    }
}

/// What a listing of some directories turned up, held in entry order so
/// that two walks of the same files compare equal whatever order the
/// walks found them in: equality decides whether a rescan runs.
#[derive(Clone, Debug, PartialEq, Eq)]
pub struct Listing {
    entries: Vec<Entry>,
}

impl View for Listing {
    type V = Seq<(Seq<CompView>, u64, Option<u64>)>;

    closed spec fn view(&self) -> Seq<(Seq<CompView>, u64, Option<u64>)> {
        entries_view(self.entries@)
    }
}

impl Listing {
    /// The listing of `entries`, put in entry order.
    pub fn new(entries: Vec<Entry>) -> (r: Listing)
        ensures
            entries_sorted(r@),
            r@.to_multiset() == entries_view(entries@).to_multiset(),
    {
        let mut out: Vec<Entry> = Vec::new();
        let mut i: usize = 0;
        assert(entries_view(out@) =~= entries_view(entries@).take(0));
        while i < entries.len()
            invariant
                i <= entries@.len(),
                entries_sorted(entries_view(out@)),
                entries_view(out@).to_multiset() == entries_view(entries@).take(i as int).to_multiset(),
            decreases entries@.len() - i,
        {
            let e = Entry { path: entries[i].path.copy(), len: entries[i].len, modified: entries[i].modified };
            assert(e@ == entries@[i as int]@);
            let ghost ev = e@;
            let ghost s = entries_view(out@);
            let mut j: usize = 0;
            let mut done = false;
            while !done && j < out.len()
                invariant
                    j <= out@.len(),
                    s == entries_view(out@),
                    forall|t: int| 0 <= t < j ==> !entry_lt(ev, #[trigger] s[t]),
                    done ==> j < s.len() && entry_lt(ev, s[j as int]),
                    e@ == ev,
                decreases out@.len() + 1 - j - (if done { 1int } else { 0int }),
            {
                if entry_less(&e, &out[j]) {
                    done = true;
                } else {
                    j = j + 1;
                }
            }
            out.insert(j, e);
            proof {
                let n = s.insert(j as int, ev);
                assert(entries_view(out@) =~= n);
                s.insert_ensures(j as int, ev);
                vstd::seq_lib::to_multiset_insert(s, j as int, ev);
                let t = entries_view(entries@).take(i + 1);
                assert(t =~= entries_view(entries@).take(i as int).push(ev));
                vstd::seq_lib::to_multiset_build(entries_view(entries@).take(i as int), ev);
                assert forall|a: int, b: int| 0 <= a < b < n.len() implies !entry_lt(#[trigger] n[b], #[trigger] n[a]) by {
                    if b < j {
                        assert(n[a] == s[a] && n[b] == s[b]);
                    } else if b == j {
                        assert(n[a] == s[a]);
                    } else if a == j {
                        assert(n[b] == s[b - 1]);
                        if entry_lt(s[b - 1], ev) {
                            assert(done);
                            lemma_entry_transitive(s[b - 1], ev, s[j as int]);
                            if b - 1 == j {
                                lemma_entry_irreflexive(s[j as int]);
                            }
                        }
                    } else if a < j {
                        assert(n[a] == s[a] && n[b] == s[b - 1]);
                    } else {
                        assert(n[a] == s[a - 1] && n[b] == s[b - 1]);
                    }
                }
            }
            i = i + 1;
        }
        assert(entries_view(entries@).take(i as int) =~= entries_view(entries@));
        Listing { entries: out }
    }

    /// The entries, in entry order.
    pub fn entries(&self) -> (r: &[Entry])
        ensures
            entries_view(r@) == self@,
    {
        self.entries.as_slice()
    }

    /// Whether the listing turned up nothing.
    pub fn is_empty(&self) -> (r: bool)
        ensures
            r == (self@.len() == 0),
    {
        self.entries.len() == 0
    }

    /// Whether two listings hold the same entries.
    pub fn same(&self, other: &Listing) -> (r: bool)
        ensures
            r == (self@ == other@),
    {
        if self.entries.len() != other.entries.len() {
            assert(self@.len() != other@.len());
            return false;
        }
        let mut i: usize = 0;
        while i < self.entries.len()
            invariant
                i <= self.entries@.len(),
                self.entries@.len() == other.entries@.len(),
                forall|k: int| 0 <= k < i ==> entries_view(self.entries@)[k] == entries_view(other.entries@)[k],
            decreases self.entries@.len() - i,
        {
            let a = &self.entries[i];
            let b = &other.entries[i];
            if !(a.path.same(&b.path) && a.len == b.len && a.modified == b.modified) {
                assert(entries_view(self.entries@)[i as int] != entries_view(other.entries@)[i as int]);
                return false;
            }
            i = i + 1;
        }
        assert(entries_view(self.entries@) =~= entries_view(other.entries@));
        true
    }
}

proof fn lemma_sorted_first_is_least(s: Seq<(Seq<CompView>, u64, Option<u64>)>, x: (Seq<CompView>, u64, Option<u64>))
    requires
        entries_sorted(s),
        s.len() > 0,
        s.contains(x),
    ensures
        !entry_lt(x, s[0]),
{
    let k = choose|k: int| 0 <= k < s.len() && s[k] == x;
    if k > 0 {
        assert(!entry_lt(s[k], s[0]));
    } else {
        lemma_entry_irreflexive(x);
    }
}

/// Two walks that turned up the same files give equal listings, whatever
/// order each walk found them in.
pub proof fn law_listing_ignores_walk_order(
    a: Seq<(Seq<CompView>, u64, Option<u64>)>,
    b: Seq<(Seq<CompView>, u64, Option<u64>)>,
)
    requires
        entries_sorted(a),
        entries_sorted(b),
        a.to_multiset() == b.to_multiset(),
    ensures
        a == b,
    decreases a.len(),
{
    broadcast use vstd::multiset::group_multiset_axioms;
    vstd::seq_lib::to_multiset_len(a);
    vstd::seq_lib::to_multiset_len(b);
    if a.len() == 0 {
        assert(a =~= b);
    } else {
        vstd::seq_lib::to_multiset_contains(a, b[0]);
        vstd::seq_lib::to_multiset_contains(b, b[0]);
        vstd::seq_lib::to_multiset_contains(a, a[0]);
        vstd::seq_lib::to_multiset_contains(b, a[0]);
        lemma_sorted_first_is_least(a, b[0]);
        lemma_sorted_first_is_least(b, a[0]);
        if a[0] != b[0] {
            lemma_entry_total(a[0], b[0]);
        }
        vstd::seq_lib::to_multiset_remove(a, 0);
        vstd::seq_lib::to_multiset_remove(b, 0);
        assert(a.remove(0) =~= a.drop_first());
        assert(b.remove(0) =~= b.drop_first());
        assert(entries_sorted(a.drop_first())) by {
            assert forall|i: int, j: int| 0 <= i < j < a.drop_first().len() implies !entry_lt(
                #[trigger] a.drop_first()[j],
                #[trigger] a.drop_first()[i],
            ) by {
                assert(a.drop_first()[i] == a[i + 1] && a.drop_first()[j] == a[j + 1]);
            }
        }
        assert(entries_sorted(b.drop_first())) by {
            assert forall|i: int, j: int| 0 <= i < j < b.drop_first().len() implies !entry_lt(
                #[trigger] b.drop_first()[j],
                #[trigger] b.drop_first()[i],
            ) by {
                assert(b.drop_first()[i] == b[i + 1] && b.drop_first()[j] == b[j + 1]);
            }
        }
        law_listing_ignores_walk_order(a.drop_first(), b.drop_first());
        assert(a =~= seq![a[0]] + a.drop_first());
        assert(b =~= seq![b[0]] + b.drop_first());
    }
}

/// Read a file, a missing one reading as `None`.
pub fn read_opt<S: Storage>(storage: &S, path: &StorePath) -> (r: Result<Option<Vec<u8>>, StorageError>)
    ensures
        r matches Ok(Some(v)) ==> storage.files().contains_key(path@) && v@ == storage.files()[path@],
        r matches Ok(None) ==> !storage.files().contains_key(path@),
        r is Err ==> r->Err_0 != StorageError::NotFound,
{
    match storage.read(path) {
        Ok(v) => Ok(Some(v)),
        Err(StorageError::NotFound) => Ok(None),
        Err(e) => Err(e),
    }
}

/// The temporary a write to `path` goes through: `.<name>.tmp` beside it.
pub open spec fn temp_name(name: Seq<char>) -> Seq<char> {
    seq!['.'] + name + seq!['.', 't', 'm', 'p']
}

pub open spec fn temp_path(path: Seq<CompView>) -> Seq<CompView> {
    with_file_name_spec(path, temp_name(file_name_spec(path)->0))
}

/// Write through a temporary beside `path` and rename it into place, so
/// that an interrupted write cannot leave a truncated file where a whole
/// one was. A path without a file name is refused, and nothing changes.
pub fn write_atomic<S: Storage>(storage: &mut S, path: &StorePath, data: &[u8]) -> (r: Result<(), StorageError>)
    ensures
        file_name_spec(path@) is None ==> (r matches Err(StorageError::Other(m)) && m@ == no_file_name())
            && final(storage).files() == old(storage).files(),
        r is Ok ==> file_name_spec(path@) is Some && final(storage).files() == old(storage).files().remove(
            temp_path(path@),
        ).insert(path@, data@),
        r is Err && file_name_spec(path@) is Some ==> final(storage).files().remove(temp_path(path@)) == old(
            storage,
        ).files().remove(temp_path(path@)),
{
    let name = match path.file_name() {
        Some(n) => n,
        None => {
            return Err(StorageError::Other(string_from_chars(no_file_name_text())));
        },
    };
    let mut tmp_name: Vec<char> = Vec::new();
    tmp_name.push('.');
    let name_chars = chars_of(name.as_str());
    push_all(&mut tmp_name, name_chars.as_slice());
    tmp_name.push('.');
    tmp_name.push('t');
    tmp_name.push('m');
    tmp_name.push('p');
    assert(tmp_name@ =~= temp_name(name@));
    let tmp_text = string_from_chars(tmp_name);
    let tmp = path.with_file_name(tmp_text.as_str());
    let ghost f0 = storage.files();
    assert(tmp@ == temp_path(path@));
    match storage.write(&tmp, data) {
        Ok(()) => {},
        Err(e) => {
            return Err(e);
        },
    }
    match storage.rename(&tmp, path) {
        Ok(()) => {
            assert(storage.files() =~= f0.remove(tmp@).insert(path@, data@));
            Ok(())
        },
        Err(e) => {
            let _ = storage.remove_file(&tmp);
            assert(storage.files().remove(tmp@) =~= f0.remove(tmp@));
            Err(e)
        },
    }
}

/// The text a write to a path without a file name is refused with.
pub open spec fn no_file_name() -> Seq<char> {
    seq!['n', 'o', ' ', 'f', 'i', 'l', 'e', ' ', 'n', 'a', 'm', 'e']
}

fn no_file_name_text() -> (r: Vec<char>)
    ensures
        r@ == no_file_name(),
{
    let v = vec!['n', 'o', ' ', 'f', 'i', 'l', 'e', ' ', 'n', 'a', 'm', 'e'];
    assert(v@ =~= no_file_name());
    v
}

/// A store held in memory: each file once, by path.
pub struct Memory {
    entries: Vec<(StorePath, Vec<u8>)>,
}

/// No path occurs twice.
pub open spec fn distinct_paths(es: Seq<(StorePath, Vec<u8>)>) -> bool {
    forall|i: int, j: int| 0 <= i < j < es.len() ==> #[trigger] es[i].0@ != #[trigger] es[j].0@
}

/// Whether `es` holds an entry at path `k`.
pub open spec fn holds(es: Seq<(StorePath, Vec<u8>)>, k: Seq<CompView>) -> bool {
    exists|i: int| 0 <= i < es.len() && #[trigger] es[i].0@ == k
}

/// The map from path to bytes that `es` holds.
pub open spec fn entries_map(es: Seq<(StorePath, Vec<u8>)>) -> Map<Seq<CompView>, Seq<u8>> {
    Map::new(
        |k: Seq<CompView>| holds(es, k),
        |k: Seq<CompView>| es[choose|i: int| 0 <= i < es.len() && #[trigger] es[i].0@ == k].1@,
    )
}

/// The bytes at an entry's own path are the entry's bytes.
pub proof fn lemma_entry_value(es: Seq<(StorePath, Vec<u8>)>, i: int)
    requires
        distinct_paths(es),
        0 <= i < es.len(),
    ensures
        entries_map(es).contains_key(es[i].0@),
        entries_map(es)[es[i].0@] == es[i].1@,
{
    let k = es[i].0@;
    assert(holds(es, k));
    let j = choose|j: int| 0 <= j < es.len() && #[trigger] es[j].0@ == k;
    if j != i {
        if j < i {
            assert(es[j].0@ != es[i].0@);
        } else {
            assert(es[i].0@ != es[j].0@);
        }
    }
}

impl Memory {
    #[verifier::type_invariant]
    spec fn inv(self) -> bool {
        distinct_paths(self.entries@)
    }

    /// An empty store.
    pub fn new() -> (m: Memory)
        ensures
            m.files() == Map::<Seq<CompView>, Seq<u8>>::empty(),
    {
        let m = Memory { entries: Vec::new() };
        assert(m.files() =~= Map::<Seq<CompView>, Seq<u8>>::empty());
        m
    }

    /// How many files the store holds.
    pub fn len(&self) -> (r: usize)
        ensures
            r == self.files().len(),
    {
        proof {
            use_type_invariant(self);
            self.lemma_len();
        }
        self.entries.len()
    }

    proof fn lemma_len(&self)
        requires
            distinct_paths(self.entries@),
        ensures
            self.files().dom().finite(),
            self.files().len() == self.entries@.len(),
        decreases self.entries@.len(),
    {
        let es = self.entries@;
        let keys = es.map_values(|e: (StorePath, Vec<u8>)| e.0@);
        assert(self.files().dom() =~= keys.to_set()) by {
            assert forall|k: Seq<CompView>| self.files().dom().contains(k) implies keys.to_set().contains(k) by {
                let i = choose|i: int| 0 <= i < es.len() && #[trigger] es[i].0@ == k;
                assert(keys[i] == k);
            }
            assert forall|k: Seq<CompView>| keys.to_set().contains(k) implies self.files().dom().contains(k) by {
                let i = choose|i: int| 0 <= i < keys.len() && keys[i] == k;
                assert(es[i].0@ == k);
            }
        }
        assert(keys.no_duplicates()) by {
            assert forall|i: int, j: int| 0 <= i < keys.len() && 0 <= j < keys.len() && i != j implies keys[i] != keys[j] by {
                if i < j {
                    assert(es[i].0@ != es[j].0@);
                } else {
                    assert(es[j].0@ != es[i].0@);
                }
            }
        }
        keys.unique_seq_to_set();
    }

    /// Where `path` is held, if anywhere.
    fn find(&self, path: &StorePath) -> (r: Option<usize>)
        ensures
            match r {
                Some(i) => i < self.entries@.len() && self.entries@[i as int].0@ == path@,
                None => !holds(self.entries@, path@),
            },
    {
        let mut i: usize = 0;
        while i < self.entries.len()
            invariant
                i <= self.entries@.len(),
                forall|k: int| 0 <= k < i ==> self.entries@[k].0@ != path@,
            decreases self.entries@.len() - i,
        {
            if self.entries[i].0.same(path) {
                return Some(i);
            }
            i = i + 1;
        }
        None
    }
}

impl Default for Memory {
    fn default() -> (m: Memory)
        ensures
            m.files() == Map::<Seq<CompView>, Seq<u8>>::empty(),
    {
        Memory::new()
    }
}

impl Storage for Memory {
    closed spec fn files(&self) -> Map<Seq<CompView>, Seq<u8>> {
        entries_map(self.entries@)
    }

    fn read(&self, path: &StorePath) -> (r: Result<Vec<u8>, StorageError>)
        ensures
            r is Ok <==> self.files().contains_key(path@),
            r is Err ==> r == Err::<Vec<u8>, StorageError>(StorageError::NotFound),
    {
        proof {
            use_type_invariant(self);
        }
        match self.find(path) {
            Some(i) => {
                proof {
                    lemma_entry_value(self.entries@, i as int);
                }
                Ok(crate::lobby::handshake::copy_bytes(&self.entries[i].1))
            },
            None => Err(StorageError::NotFound),
        }
    }

    fn write(&mut self, path: &StorePath, data: &[u8]) -> (r: Result<(), StorageError>)
        ensures
            r is Ok,
    {
        proof {
            use_type_invariant(&*self);
        }
        let bytes = slice_to_vec(data);
        let ghost before = self.entries@;
        let ghost f0 = entries_map(before);
        match self.find(path) {
            Some(i) => {
                let key = path.copy();
                let mut entries: Vec<(StorePath, Vec<u8>)> = Vec::new();
                std::mem::swap(&mut entries, &mut self.entries);
                entries.set(i, (key, bytes));
                proof {
                    let es = entries@;
                    assert(es == before.update(i as int, (key, bytes)));
                    assert(distinct_paths(es)) by {
                        assert forall|a: int, b: int| 0 <= a < b < es.len() implies #[trigger] es[a].0@ != #[trigger] es[b].0@ by {
                            if a != i && b != i {
                                assert(before[a].0@ != before[b].0@);
                            } else if a == i {
                                assert(before[a].0@ != before[b].0@);
                            } else {
                                assert(before[a].0@ != before[b].0@);
                            }
                        }
                    }
                    assert forall|k: Seq<CompView>| #[trigger] entries_map(es).contains_key(k) == f0.insert(path@, data@).contains_key(k) by {
                        if k == path@ {
                            assert(es[i as int].0@ == k);
                        } else if holds(before, k) {
                            let j = choose|j: int| 0 <= j < before.len() && #[trigger] before[j].0@ == k;
                            assert(es[j].0@ == k);
                        } else if holds(es, k) {
                            let j = choose|j: int| 0 <= j < es.len() && #[trigger] es[j].0@ == k;
                            assert(before[j].0@ == k);
                        }
                    }
                    assert forall|k: Seq<CompView>| #[trigger] entries_map(es).contains_key(k) implies entries_map(es)[k] == f0.insert(path@, data@)[k] by {
                        if k == path@ {
                            lemma_entry_value(es, i as int);
                        } else {
                            let j = choose|j: int| 0 <= j < es.len() && #[trigger] es[j].0@ == k;
                            lemma_entry_value(es, j);
                            lemma_entry_value(before, j);
                        }
                    }
                    assert(entries_map(es) =~= f0.insert(path@, data@));
                }
                self.entries = entries;
            },
            None => {
                let key = path.copy();
                let mut entries: Vec<(StorePath, Vec<u8>)> = Vec::new();
                std::mem::swap(&mut entries, &mut self.entries);
                entries.push((key, bytes));
                proof {
                    let es = entries@;
                    let n = before.len() as int;
                    assert(es == before.push((key, bytes)));
                    assert(distinct_paths(es)) by {
                        assert forall|a: int, b: int| 0 <= a < b < es.len() implies #[trigger] es[a].0@ != #[trigger] es[b].0@ by {
                            if b < n {
                                assert(before[a].0@ != before[b].0@);
                            } else {
                                assert(es[a].0@ == before[a].0@);
                            }
                        }
                    }
                    assert forall|k: Seq<CompView>| #[trigger] entries_map(es).contains_key(k) == f0.insert(path@, data@).contains_key(k) by {
                        if k == path@ {
                            assert(es[n].0@ == k);
                        } else if holds(before, k) {
                            let j = choose|j: int| 0 <= j < before.len() && #[trigger] before[j].0@ == k;
                            assert(es[j].0@ == k);
                        } else if holds(es, k) {
                            let j = choose|j: int| 0 <= j < es.len() && #[trigger] es[j].0@ == k;
                            assert(before[j].0@ == k);
                        }
                    }
                    assert forall|k: Seq<CompView>| #[trigger] entries_map(es).contains_key(k) implies entries_map(es)[k] == f0.insert(path@, data@)[k] by {
                        if k == path@ {
                            lemma_entry_value(es, n);
                        } else {
                            let j = choose|j: int| 0 <= j < es.len() && #[trigger] es[j].0@ == k;
                            lemma_entry_value(es, j);
                            lemma_entry_value(before, j);
                        }
                    }
                    assert(entries_map(es) =~= f0.insert(path@, data@));
                }
                self.entries = entries;
            },
        }
        Ok(())
    }

    fn remove_file(&mut self, path: &StorePath) -> (r: Result<(), StorageError>)
        ensures
            r is Ok,
    {
        proof {
            use_type_invariant(&*self);
        }
        let ghost before = self.entries@;
        let ghost f0 = entries_map(before);
        match self.find(path) {
            Some(i) => {
                let mut entries: Vec<(StorePath, Vec<u8>)> = Vec::new();
                std::mem::swap(&mut entries, &mut self.entries);
                let _ = entries.remove(i);
                proof {
                    let es = entries@;
                    assert(es == before.remove(i as int));
                    assert forall|a: int| 0 <= a < es.len() implies #[trigger] es[a] == before[if a < i { a } else { a + 1 }] by {}
                    assert(distinct_paths(es)) by {
                        assert forall|a: int, b: int| 0 <= a < b < es.len() implies #[trigger] es[a].0@ != #[trigger] es[b].0@ by {
                            let a1 = if a < i { a } else { a + 1 };
                            let b1 = if b < i { b } else { b + 1 };
                            assert(es[a] == before[a1]);
                            assert(es[b] == before[b1]);
                            assert(before[a1].0@ != before[b1].0@);
                        }
                    }
                    assert forall|k: Seq<CompView>| #[trigger] entries_map(es).contains_key(k) == f0.remove(path@).contains_key(k) by {
                        if holds(es, k) {
                            let j = choose|j: int| 0 <= j < es.len() && #[trigger] es[j].0@ == k;
                            let j1 = if j < i { j } else { j + 1 };
                            assert(es[j] == before[j1]);
                            assert(before[j1].0@ == k);
                            assert(j1 != i);
                            if j1 < i {
                                assert(before[j1].0@ != before[i as int].0@);
                            } else {
                                assert(before[i as int].0@ != before[j1].0@);
                            }
                        } else if holds(before, k) && k != path@ {
                            let j = choose|j: int| 0 <= j < before.len() && #[trigger] before[j].0@ == k;
                            assert(j != i);
                            let j0 = if j < i { j } else { j - 1 };
                            assert(es[j0] == before[j]);
                        }
                    }
                    assert forall|k: Seq<CompView>| #[trigger] entries_map(es).contains_key(k) implies entries_map(es)[k] == f0.remove(path@)[k] by {
                        let j = choose|j: int| 0 <= j < es.len() && #[trigger] es[j].0@ == k;
                        let j1 = if j < i { j } else { j + 1 };
                        assert(es[j] == before[j1]);
                        lemma_entry_value(es, j);
                        lemma_entry_value(before, j1);
                    }
                    assert(entries_map(es) =~= f0.remove(path@));
                }
                self.entries = entries;
            },
            None => {
                assert(entries_map(before) =~= f0.remove(path@));
            },
        }
        Ok(())
    }

    fn create_dir_all(&mut self, path: &StorePath) -> (r: Result<(), StorageError>)
        ensures
            r is Ok,
    {
        Ok(())
    }

    fn rename(&mut self, from: &StorePath, to: &StorePath) -> (r: Result<(), StorageError>)
        ensures
            r is Ok <==> old(self).files().contains_key(from@),
            r is Err ==> r == Err::<(), StorageError>(StorageError::NotFound) && final(self).files() == old(
                self,
            ).files(),
    {
        proof {
            use_type_invariant(&*self);
        }
        let data = match self.read(from) {
            Ok(d) => d,
            Err(e) => {
                return Err(e);
            },
        };
        let _ = self.remove_file(from);
        let _ = self.write(to, data.as_slice());
        Ok(())
    }

    fn is_file(&self, path: &StorePath) -> (r: bool) {
        proof {
            use_type_invariant(self);
        }
        match self.find(path) {
            Some(i) => {
                proof {
                    lemma_entry_value(self.entries@, i as int);
                }
                true
            },
            None => false,
        }
    }
}

/// The bytes of a slice, as a vector.
pub fn slice_to_vec(data: &[u8]) -> (r: Vec<u8>)
    ensures
        r@ == data@,
{
    let mut r: Vec<u8> = Vec::new();
    let mut i: usize = 0;
    while i < data.len()
        invariant
            i <= data@.len(),
            r@ == data@.take(i as int),
        decreases data@.len() - i,
    {
        r.push(data[i]);
        i = i + 1;
        assert(r@ =~= data@.take(i as int));
    }
    assert(data@.take(data@.len() as int) =~= data@);
    r
}

} // verus!
