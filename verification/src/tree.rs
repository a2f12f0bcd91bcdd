//! Bounded file snapshots: a set of files copied into memory under
//! limits on total bytes, entries and depth, with every path checked to
//! stay inside the snapshot.
use vstd::prelude::*;
use vstd::utf8::encode_utf8;
use crate::paths::{StorePath, CompView, Component, pieces, seqs_view, split_pieces, strip_prefix_spec};
use crate::storage::slice_to_vec;
use crate::text::{chars_of, string_from_chars, push_all};

verus! {

/// How much a snapshot may hold.
#[derive(Clone, Copy, Debug, PartialEq, Eq)]
pub struct TreeLimits {
    pub bytes: usize,
    /// Includes directories, so empty trees cannot evade the traversal budget.
    pub entries: usize,
    pub depth: usize,
}

/// Why a snapshot was refused.
#[derive(Debug, PartialEq, Eq)]
pub enum TreeError {
    /// Too many entries, a path too long, or too deep.
    Limits,
    /// A path that is empty, has an empty, `.` or `..` part, or holds a
    /// control character, `\` or `:`.
    InvalidPath,
    /// More bytes than the limit.
    TooManyBytes,
    /// The same path twice.
    Duplicate,
}

/// Longest snapshot path, in bytes.
pub const MAX_PATH_BYTES: usize = 240;

/// Unicode general category `Cc`, what `char::is_control` tests for.
pub open spec fn is_control(c: char) -> bool {
    (c as u32) < 0x20 || (0x7f <= (c as u32) && (c as u32) <= 0x9f)
}

/// A character no snapshot path may hold.
pub open spec fn bad_char(c: char) -> bool {
    is_control(c) || c == '\\' || c == ':'
}

/// A part no snapshot path may have.
pub open spec fn bad_part(p: Seq<char>) -> bool {
    p.len() == 0 || p == seq!['.'] || p == seq!['.', '.']
}

/// What entering `path` does to the remaining limits.
pub open spec fn visit_spec(path: Seq<char>, rem: TreeLimits) -> Result<TreeLimits, TreeError> {
    if rem.entries == 0 || encode_utf8(path).len() > MAX_PATH_BYTES || pieces(path).len() > rem.depth {
        Err(TreeError::Limits)
    } else if path.len() == 0 || (exists|k: int| 0 <= k < path.len() && #[trigger] bad_char(path[k]))
        || (exists|k: int| 0 <= k < pieces(path).len() && #[trigger] bad_part(pieces(path)[k])) {
        Err(TreeError::InvalidPath)
    } else {
        Ok(TreeLimits { entries: (rem.entries - 1) as usize, ..rem })
    }
}

/// What adding the file `path` with `bytes` does to a snapshot so far.
pub open spec fn file_spec(
    files: Map<Seq<char>, Seq<u8>>,
    rem: TreeLimits,
    path: Seq<char>,
    bytes: Seq<u8>,
) -> Result<(Map<Seq<char>, Seq<u8>>, TreeLimits), TreeError> {
    match visit_spec(path, rem) {
        Err(e) => Err(e),
        Ok(r) => if bytes.len() > r.bytes {
            Err(TreeError::TooManyBytes)
        } else if files.contains_key(path) {
            Err(TreeError::Duplicate)
        } else {
            Ok((files.insert(path, bytes), TreeLimits { bytes: (r.bytes - bytes.len()) as usize, ..r }))
        },
    }
}

/// Whether every component is a name.
pub open spec fn all_names(cs: Seq<CompView>) -> bool {
    forall|k: int| 0 <= k < cs.len() ==> #[trigger] cs[k] is Normal
}

/// The names of `cs` joined by `/`.
pub open spec fn join_names(cs: Seq<CompView>) -> Seq<char>
    decreases cs.len(),
{
    if cs.len() == 0 {
        Seq::empty()
    } else if cs.len() == 1 {
        cs[0]->Normal_0
    } else {
        join_names(cs.drop_last()) + seq!['/'] + cs.last()->Normal_0
    }
}

pub open spec fn inputs_view(files: Seq<(StorePath, Vec<u8>)>) -> Seq<(Seq<CompView>, Seq<u8>)> {
    Seq::new(files.len(), |i: int| (files[i].0@, files[i].1@))
}

/// The snapshot of `files` under `root`: in order, each file outside
/// `root` is passed over, each inside is keyed by its names below `root`
/// joined with `/`, and the first path or limit violation fails the whole
/// snapshot.
pub open spec fn snapshot_spec(
    root: Seq<CompView>,
    files: Seq<(Seq<CompView>, Seq<u8>)>,
    limits: TreeLimits,
) -> Result<(Map<Seq<char>, Seq<u8>>, TreeLimits), TreeError>
    decreases files.len(),
{
    if files.len() == 0 {
        Ok((Map::empty(), limits))
    } else {
        match snapshot_spec(root, files.drop_last(), limits) {
            Err(e) => Err(e),
            Ok((m, rem)) => match strip_prefix_spec(files.last().0, root) {
                None => Ok((m, rem)),
                Some(rest) => if !all_names(rest) {
                    Err(TreeError::InvalidPath)
                } else {
                    file_spec(m, rem, join_names(rest), files.last().1)
                },
            },
        }
    }
}

/// Once a prefix of the inputs fails, the snapshot fails the same way.
pub proof fn lemma_snapshot_error_sticks(
    root: Seq<CompView>,
    fs: Seq<(Seq<CompView>, Seq<u8>)>,
    limits: TreeLimits,
    i: int,
)
    requires
        0 <= i <= fs.len(),
        snapshot_spec(root, fs.take(i), limits) is Err,
    ensures
        snapshot_spec(root, fs, limits) == snapshot_spec(root, fs.take(i), limits),
    decreases fs.len(),
{
    if fs.len() == i {
        assert(fs.take(i) =~= fs);
    } else {
        assert(fs.drop_last().take(i) =~= fs.take(i));
        lemma_snapshot_error_sticks(root, fs.drop_last(), limits, i);
    }
}

/// The files a snapshot took in, in the order it took them.
pub open spec fn accepted(
    root: Seq<CompView>,
    files: Seq<(Seq<CompView>, Seq<u8>)>,
    limits: TreeLimits,
) -> Seq<(Seq<char>, Seq<u8>)>
    decreases files.len(),
{
    if files.len() == 0 {
        Seq::empty()
    } else {
        let before = accepted(root, files.drop_last(), limits);
        match snapshot_spec(root, files.drop_last(), limits) {
            Ok((m, rem)) => match strip_prefix_spec(files.last().0, root) {
                Some(rest) => if all_names(rest) && file_spec(m, rem, join_names(rest), files.last().1) is Ok {
                    before.push((join_names(rest), files.last().1))
                } else {
                    before
                },
                None => before,
            },
            Err(_) => before,
        }
    }
}

/// The map a sequence of files makes, later ones winning.
pub open spec fn map_of(fs: Seq<(Seq<char>, Seq<u8>)>) -> Map<Seq<char>, Seq<u8>>
    decreases fs.len(),
{
    if fs.len() == 0 {
        Map::empty()
    } else {
        map_of(fs.drop_last()).insert(fs.last().0, fs.last().1)
    }
}

/// The total length of a sequence of files.
pub open spec fn total_len(fs: Seq<(Seq<char>, Seq<u8>)>) -> nat
    decreases fs.len(),
{
    if fs.len() == 0 {
        0
    } else {
        total_len(fs.drop_last()) + fs.last().1.len()
    }
}

/// A path a snapshot may hold: not empty, at most [`MAX_PATH_BYTES`]
/// bytes and `depth` parts, with no bad character or part.
pub open spec fn clean_key(k: Seq<char>, depth: usize) -> bool {
    &&& k.len() > 0
    &&& encode_utf8(k).len() <= MAX_PATH_BYTES
    &&& pieces(k).len() <= depth
    &&& forall|i: int| 0 <= i < k.len() ==> !bad_char(#[trigger] k[i])
    &&& forall|i: int| 0 <= i < pieces(k).len() ==> !bad_part(#[trigger] pieces(k)[i])
}

proof fn lemma_map_of_keys(fs: Seq<(Seq<char>, Seq<u8>)>, k: Seq<char>)
    ensures
        map_of(fs).contains_key(k) <==> exists|i: int| 0 <= i < fs.len() && #[trigger] fs[i].0 == k,
    decreases fs.len(),
{
    if fs.len() > 0 {
        lemma_map_of_keys(fs.drop_last(), k);
        if map_of(fs).contains_key(k) {
            if k == fs.last().0 {
                assert(fs[fs.len() - 1].0 == k);
            } else {
                let i = choose|i: int| 0 <= i < fs.drop_last().len() && #[trigger] fs.drop_last()[i].0 == k;
                assert(fs[i].0 == k);
            }
        }
        if exists|i: int| 0 <= i < fs.len() && #[trigger] fs[i].0 == k {
            let i = choose|i: int| 0 <= i < fs.len() && #[trigger] fs[i].0 == k;
            if i < fs.len() - 1 {
                assert(fs.drop_last()[i].0 == k);
            }
        }
    }
}

/// A snapshot stays inside its limits and its paths stay inside the
/// snapshot: it holds the files it took in, each under a distinct clean
/// relative path, no more of them than the entry limit allows, and no
/// more bytes in all than the byte limit.
pub proof fn law_snapshot_is_bounded(root: Seq<CompView>, files: Seq<(Seq<CompView>, Seq<u8>)>, limits: TreeLimits)
    requires
        snapshot_spec(root, files, limits) is Ok,
    ensures
        ({
            let (m, rem) = snapshot_spec(root, files, limits)->Ok_0;
            let acc = accepted(root, files, limits);
            &&& m == map_of(acc)
            &&& forall|i: int, j: int| 0 <= i < j < acc.len() ==> #[trigger] acc[i].0 != #[trigger] acc[j].0
            &&& acc.len() + rem.entries == limits.entries
            &&& total_len(acc) + rem.bytes == limits.bytes
            &&& rem.depth == limits.depth
            &&& forall|k: Seq<char>| #[trigger] m.contains_key(k) ==> clean_key(k, limits.depth)
        }),
    decreases files.len(),
{
    if files.len() > 0 {
        let fs = files.drop_last();
        if snapshot_spec(root, fs, limits) is Err {
            assert(snapshot_spec(root, files, limits) is Err);
        }
        law_snapshot_is_bounded(root, fs, limits);
        let (m, rem) = snapshot_spec(root, fs, limits)->Ok_0;
        let acc = accepted(root, fs, limits);
        match strip_prefix_spec(files.last().0, root) {
            None => {},
            Some(rest) => {
                if all_names(rest) {
                    let key = join_names(rest);
                    let bytes = files.last().1;
                    assert(file_spec(m, rem, key, bytes) is Ok);
                    let acc2 = acc.push((key, bytes));
                    assert(accepted(root, files, limits) == acc2);
                    assert(acc2.drop_last() =~= acc);
                    assert(!m.contains_key(key));
                    lemma_map_of_keys(acc, key);
                    assert forall|i: int, j: int| 0 <= i < j < acc2.len() implies #[trigger] acc2[i].0 != #[trigger] acc2[j].0 by {
                        if j == acc.len() {
                            assert(acc2[i] == acc[i]);
                            if acc[i].0 == key {
                                assert(exists|i: int| 0 <= i < acc.len() && #[trigger] acc[i].0 == key);
                            }
                        } else {
                            assert(acc2[i] == acc[i]);
                            assert(acc2[j] == acc[j]);
                        }
                    }
                    let m2 = snapshot_spec(root, files, limits)->Ok_0.0;
                    assert forall|k: Seq<char>| #[trigger] m2.contains_key(k) implies clean_key(k, limits.depth) by {
                        if k != key {
                            assert(m.contains_key(k));
                        }
                    }
                }
            },
        }
    }
}

/// A snapshot: file contents by `/`-joined path, each path once.
pub struct FileTree {
    entries: Vec<(String, Vec<u8>)>,
}

pub open spec fn distinct_keys(es: Seq<(String, Vec<u8>)>) -> bool {
    forall|i: int, j: int| 0 <= i < j < es.len() ==> #[trigger] es[i].0@ != #[trigger] es[j].0@
}

pub open spec fn tree_map(es: Seq<(String, Vec<u8>)>) -> Map<Seq<char>, Seq<u8>> {
    Map::new(
        |k: Seq<char>| exists|i: int| 0 <= i < es.len() && #[trigger] es[i].0@ == k,
        |k: Seq<char>| es[choose|i: int| 0 <= i < es.len() && #[trigger] es[i].0@ == k].1@,
    )
}

proof fn lemma_tree_value(es: Seq<(String, Vec<u8>)>, i: int)
    requires
        distinct_keys(es),
        0 <= i < es.len(),
    ensures
        tree_map(es).contains_key(es[i].0@),
        tree_map(es)[es[i].0@] == es[i].1@,
{
    let k = es[i].0@;
    assert(es[i].0@ == k);
    let j = choose|j: int| 0 <= j < es.len() && #[trigger] es[j].0@ == k;
    if j != i {
        if j < i {
            assert(es[j].0@ != es[i].0@);
        } else {
            assert(es[i].0@ != es[j].0@);
        }
    }
}

impl View for FileTree {
    type V = Map<Seq<char>, Seq<u8>>;

    closed spec fn view(&self) -> Map<Seq<char>, Seq<u8>> {
        tree_map(self.entries@)
    }
}

impl FileTree {
    #[verifier::type_invariant]
    spec fn inv(self) -> bool {
        distinct_keys(self.entries@)
    }

    fn new() -> (t: FileTree)
        ensures
            t@ == Map::<Seq<char>, Seq<u8>>::empty(),
    {
        let t = FileTree { entries: Vec::new() };
        assert(t@ =~= Map::<Seq<char>, Seq<u8>>::empty());
        t
    }

    /// How many files the snapshot holds.
    pub fn len(&self) -> (r: usize)
        ensures
            r == self@.len(),
    {
        proof {
            use_type_invariant(self);
            let es = self.entries@;
            let keys = es.map_values(|e: (String, Vec<u8>)| e.0@);
            assert(self@.dom() =~= keys.to_set()) by {
                assert forall|k: Seq<char>| self@.dom().contains(k) implies keys.to_set().contains(k) by {
                    let i = choose|i: int| 0 <= i < es.len() && #[trigger] es[i].0@ == k;
                    assert(keys[i] == k);
                }
                assert forall|k: Seq<char>| keys.to_set().contains(k) implies self@.dom().contains(k) by {
                    let i = choose|i: int| 0 <= i < keys.len() && keys[i] == k;
                    assert(es[i].0@ == k);
                }
            }
            assert(keys.no_duplicates()) by {
                assert forall|i: int, j: int| 0 <= i < keys.len() && 0 <= j < keys.len() && i != j implies keys[i] != keys[j] by {
                    if i < j {
                        assert(es[i].0@ != es[j].0@);
                    } else {
                        assert(es[j].0@ != es[i].0@);
                    }
                }
            }
            keys.unique_seq_to_set();
        }
        self.entries.len()
    }

    fn find(&self, path: &str) -> (r: Option<usize>)
        ensures
            match r {
                Some(i) => i < self.entries@.len() && self.entries@[i as int].0@ == path@,
                None => forall|i: int| 0 <= i < self.entries@.len() ==> self.entries@[i].0@ != path@,
            },
    {
        let mut i: usize = 0;
        while i < self.entries.len()
            invariant
                i <= self.entries@.len(),
                forall|k: int| 0 <= k < i ==> self.entries@[k].0@ != path@,
            decreases self.entries@.len() - i,
        {
            if crate::text::str_eq(self.entries[i].0.as_str(), path) {
                return Some(i);
            }
            i = i + 1;
        }
        None
    }

    /// The bytes of the file at `path`, if the snapshot holds one.
    pub fn get(&self, path: &str) -> (r: Option<&Vec<u8>>)
        ensures
            match r {
                Some(v) => self@.contains_key(path@) && v@ == self@[path@],
                None => !self@.contains_key(path@),
            },
    {
        proof {
            use_type_invariant(self);
        }
        match self.find(path) {
            Some(i) => {
                proof {
                    lemma_tree_value(self.entries@, i as int);
                }
                Some(&self.entries[i].1)
            },
            None => None,
        }
    }

    /// Whether a file is held at `path`.
    pub fn contains(&self, path: &str) -> (r: bool)
        ensures
            r == self@.contains_key(path@),
    {
        self.get(path).is_some()
    }

    /// Add a file at a path not yet held.
    fn insert_new(&mut self, path: String, bytes: Vec<u8>)
        requires
            !old(self)@.contains_key(path@),
        ensures
            final(self)@ == old(self)@.insert(path@, bytes@),
    {
        proof {
            use_type_invariant(&*self);
        }
        let ghost before = self.entries@;
        let ghost f0 = tree_map(before);
        let ghost key = path@;
        let ghost val = bytes@;
        let mut entries: Vec<(String, Vec<u8>)> = Vec::new();
        std::mem::swap(&mut entries, &mut self.entries);
        entries.push((path, bytes));
        proof {
            let es = entries@;
            let n = before.len() as int;
            assert(es[n].0@ == key);
            assert forall|j: int| 0 <= j < n implies before[j].0@ != key by {
                if before[j].0@ == key {
                    assert(f0.contains_key(key));
                }
            }
            assert(distinct_keys(es)) by {
                assert forall|a: int, b: int| 0 <= a < b < es.len() implies #[trigger] es[a].0@ != #[trigger] es[b].0@ by {
                    if b < n {
                        assert(before[a].0@ != before[b].0@);
                    } else {
                        assert(es[a] == before[a]);
                    }
                }
            }
            assert forall|k: Seq<char>| #[trigger] tree_map(es).contains_key(k) == f0.insert(key, val).contains_key(k) by {
                if k == key {
                    assert(es[n].0@ == k);
                } else if f0.contains_key(k) {
                    let j = choose|j: int| 0 <= j < before.len() && #[trigger] before[j].0@ == k;
                    assert(es[j].0@ == k);
                } else if tree_map(es).contains_key(k) {
                    let j = choose|j: int| 0 <= j < es.len() && #[trigger] es[j].0@ == k;
                    assert(before[j].0@ == k);
                }
            }
            assert forall|k: Seq<char>| #[trigger] tree_map(es).contains_key(k) implies tree_map(es)[k] == f0.insert(key, val)[k] by {
                let j = choose|j: int| 0 <= j < es.len() && #[trigger] es[j].0@ == k;
                lemma_tree_value(es, j);
                if k != key {
                    lemma_tree_value(before, j);
                }
            }
            assert(tree_map(es) =~= f0.insert(key, val));
        }
        self.entries = entries;
    }
}

/// Whether `c` is a control character.
fn control(c: char) -> (r: bool)
    ensures
        r == is_control(c),
{
    let u = c as u32;
    u < 0x20 || (0x7f <= u && u <= 0x9f)
}

/// A snapshot being filled, with what is left of its limits.
struct Builder {
    files: FileTree,
    remaining: TreeLimits,
}

impl Builder {
    fn new(limits: TreeLimits) -> (b: Builder)
        ensures
            b.files@ == Map::<Seq<char>, Seq<u8>>::empty(),
            b.remaining == limits,
    {
        Builder { files: FileTree::new(), remaining: limits }
    }

    /// Count `path` against the limits, refusing it when it breaks one or
    /// is not a plain relative path.
    fn visit(&mut self, path: &str) -> (r: Result<(), TreeError>)
        ensures
            final(self).files@ == old(self).files@,
            match visit_spec(path@, old(self).remaining) {
                Ok(rem) => r is Ok && final(self).remaining == rem,
                Err(e) => r == Err::<(), TreeError>(e),
            },
    {
        let cs = chars_of(path);
        let parts = split_pieces(&cs);
        let byte_len = path.as_bytes().len();
        if self.remaining.entries == 0 || byte_len > MAX_PATH_BYTES || parts.len() > self.remaining.depth {
            return Err(TreeError::Limits);
        }
        if cs.len() == 0 {
            return Err(TreeError::InvalidPath);
        }
        let mut i: usize = 0;
        while i < cs.len()
            invariant
                i <= cs@.len(),
                cs@ == path@,
                path@.len() > 0,
                !(self.remaining.entries == 0 || encode_utf8(path@).len() > MAX_PATH_BYTES || pieces(path@).len()
                    > self.remaining.depth),
                forall|k: int| 0 <= k < i ==> !bad_char(#[trigger] path@[k]),
            decreases cs@.len() - i,
        {
            let c = cs[i];
            if control(c) || c == '\\' || c == ':' {
                assert(bad_char(path@[i as int]));
                return Err(TreeError::InvalidPath);
            }
            i = i + 1;
        }
        let mut j: usize = 0;
        while j < parts.len()
            invariant
                j <= parts@.len(),
                seqs_view(parts@) == pieces(path@),
                path@.len() > 0,
                !(self.remaining.entries == 0 || encode_utf8(path@).len() > MAX_PATH_BYTES || pieces(path@).len()
                    > self.remaining.depth),
                forall|k: int| 0 <= k < path@.len() ==> !bad_char(#[trigger] path@[k]),
                forall|k: int| 0 <= k < j ==> !bad_part(#[trigger] pieces(path@)[k]),
            decreases parts@.len() - j,
        {
            let p = &parts[j];
            assert(p@ == pieces(path@)[j as int]);
            let bad = p.len() == 0 || (p.len() == 1 && p[0] == '.') || (p.len() == 2 && p[0] == '.'
                && p[1] == '.');
            proof {
                if p@ == seq!['.'] {
                    assert(p@.len() == 1 && p@[0] == '.');
                }
                if p@ == seq!['.', '.'] {
                    assert(p@.len() == 2 && p@[0] == '.' && p@[1] == '.');
                }
                if p@.len() == 1 && p@[0] == '.' {
                    assert(p@ =~= seq!['.']);
                }
                if p@.len() == 2 && p@[0] == '.' && p@[1] == '.' {
                    assert(p@ =~= seq!['.', '.']);
                }
            }
            if bad {
                assert(bad_part(pieces(path@)[j as int]));
                return Err(TreeError::InvalidPath);
            }
            j = j + 1;
        }
        self.remaining.entries = self.remaining.entries - 1;
        Ok(())
    }

    /// Add the file `path` with `bytes`, counting both against the limits.
    fn file(&mut self, path: String, bytes: &[u8]) -> (r: Result<(), TreeError>)
        ensures
            match file_spec(old(self).files@, old(self).remaining, path@, bytes@) {
                Ok((m, rem)) => r is Ok && final(self).files@ == m && final(self).remaining == rem,
                Err(e) => r == Err::<(), TreeError>(e),
            },
    {
        match self.visit(path.as_str()) {
            Ok(()) => {},
            Err(e) => {
                return Err(e);
            },
        }
        if bytes.len() > self.remaining.bytes {
            return Err(TreeError::TooManyBytes);
        }
        self.remaining.bytes = self.remaining.bytes - bytes.len();
        if self.files.contains(path.as_str()) {
            return Err(TreeError::Duplicate);
        }
        let data = slice_to_vec(bytes);
        self.files.insert_new(path, data);
        Ok(())
    }
}

/// The names of `comps` joined by `/`, or `None` when one is not a name.
fn joined_names(comps: &Vec<Component>) -> (r: Option<Vec<char>>)
    ensures
        match r {
            Some(s) => all_names(crate::paths::view_comps(comps@)) && s@ == join_names(crate::paths::view_comps(comps@)),
            None => !all_names(crate::paths::view_comps(comps@)),
        },
{
    let ghost cv = crate::paths::view_comps(comps@);
    let mut out: Vec<char> = Vec::new();
    let mut i: usize = 0;
    while i < comps.len()
        invariant
            i <= comps@.len(),
            cv == crate::paths::view_comps(comps@),
            all_names(cv.take(i as int)),
            out@ == join_names(cv.take(i as int)),
        decreases comps@.len() - i,
    {
        match &comps[i] {
            Component::Normal(name) => {
                let ghost t1 = cv.take(i + 1);
                assert(t1.drop_last() =~= cv.take(i as int));
                if i > 0 {
                    out.push('/');
                }
                let nc = chars_of(name.as_str());
                push_all(&mut out, nc.as_slice());
                i = i + 1;
                assert(out@ =~= join_names(cv.take(i as int)));
            },
            _ => {
                assert(!(cv[i as int] is Normal));
                return None;
            },
        }
    }
    assert(cv.take(i as int) =~= cv);
    Some(out)
}

/// Snapshot a virtual store whose paths are keys, without resolving any
/// OS path: every file under `root`, keyed by its path below `root`.
pub fn snapshot_files(root: &StorePath, files: &[(StorePath, Vec<u8>)], limits: TreeLimits) -> (r: Result<
    FileTree,
    TreeError,
>)
    ensures
        match snapshot_spec(root@, inputs_view(files@), limits) {
            Ok((m, _)) => r is Ok && r->Ok_0@ == m,
            Err(e) => r is Err && r->Err_0 == e,
        },
{
    let mut tree = Builder::new(limits);
    let mut i: usize = 0;
    proof {
        assert(inputs_view(files@).take(0) =~= Seq::<(Seq<CompView>, Seq<u8>)>::empty());
    }
    while i < files.len()
        invariant
            i <= files@.len(),
            snapshot_spec(root@, inputs_view(files@).take(i as int), limits) == Ok::<
                (Map<Seq<char>, Seq<u8>>, TreeLimits),
                TreeError,
            >((tree.files@, tree.remaining)),
        decreases files@.len() - i,
    {
        let ghost t1 = inputs_view(files@).take(i + 1);
        proof {
            assert(t1.drop_last() =~= inputs_view(files@).take(i as int));
            assert(t1.last() == (files@[i as int].0@, files@[i as int].1@));
        }
        let (path, bytes) = &files[i];
        match path.strip_prefix(root) {
            None => {},
            Some(rest) => {
                match joined_names(rest.parts()) {
                    None => {
                        proof {
                            lemma_snapshot_error_sticks(root@, inputs_view(files@), limits, i + 1);
                        }
                        return Err(TreeError::InvalidPath);
                    },
                    Some(key) => {
                        let k = string_from_chars(key);
                        match tree.file(k, bytes.as_slice()) {
                            Ok(()) => {},
                            Err(e) => {
                                proof {
                                    lemma_snapshot_error_sticks(root@, inputs_view(files@), limits, i + 1);
                                }
                                return Err(e);
                            },
                        }
                    },
                }
            },
        }
        i = i + 1;
    }
    assert(inputs_view(files@).take(i as int) =~= inputs_view(files@));
    Ok(tree.files)
}

} // verus!
