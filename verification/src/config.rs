//! The persisted settings every host shares: where the library lives,
//! which services it talks to, and what the user last picked in it — with
//! the content paths derived from them and the recovery rules for the
//! settings file. Turning the file's bytes into a [`Config`] and back is
//! the host's, through its serialization library.
use vstd::prelude::*;
use crate::paths::{
    StorePath, CompView, Component, components, join_spec, pieces, split_pieces, seqs_view, view_comps,
    strip_prefix_spec, join_texts, joined_texts, comp_text, wf_path, valid_name, parent_spec,
    lemma_pieces_of_plain, lemma_pieces_of_join, lemma_components_of_name, rooted, dotted, classify_all,
    classify,
};
use crate::storage::{Storage, StorageError, write_atomic};
use crate::text::{chars_of, string_from_chars, copy_chars};

verus! {

pub const DEFAULT_MATCHMAKING_ENDPOINT: &'static str = "wss://matchmaking.tango.n1gp.net";

pub const DEFAULT_PATCH_REPO: &'static str = "https://patches.tango.n1gp.net";

/// The default matchmaking endpoint, owned.
pub fn default_matchmaking_endpoint() -> (r: String)
    ensures
        r@ == DEFAULT_MATCHMAKING_ENDPOINT@,
{
    DEFAULT_MATCHMAKING_ENDPOINT.to_owned()
}

/// The default patch repository, owned.
pub fn default_patch_repo() -> (r: String)
    ensures
        r@ == DEFAULT_PATCH_REPO@,
{
    DEFAULT_PATCH_REPO.to_owned()
}

/// The settings every host shares.
pub struct Config {
    pub data_path: StorePath,
    pub matchmaking_endpoint: String,
    pub patch_repo: String,
    pub last_game: Option<(String, u8)>,
    /// Last selected game family.
    pub last_family: Option<String>,
    /// Per family, the data-relative path of the save it was last used
    /// with. Each family at most once; looked up by its first entry.
    pub last_save_per_family: Vec<(String, String)>,
    /// Per data-relative save path, the patch it was last used with, or
    /// `None` for "last used unpatched". Each path at most once.
    pub last_patch_per_save: Vec<(String, Option<(String, semver::Version)>)>,
    /// Per family, the link-battle mode last picked. Each family at most once.
    pub last_match_type_per_family: Vec<(String, (u8, u8))>,
    /// Patches the user has favorited.
    pub favorite_patches: Vec<String>,
    /// Where recomputable derived data goes, when the host has a cache
    /// directory; not persisted.
    pub cache_dir: Option<StorePath>,
}

pub open spec fn default_data_path() -> Seq<char> {
    seq!['.', '/', 't', 'a', 'n', 'g', 'o', '-', 'd', 'a', 't', 'a']
}

impl Config {
    /// Defaults rooted at `data_path`.
    pub fn with_data_path(data_path: StorePath) -> (c: Config)
        ensures
            c.data_path@ == data_path@,
            c.matchmaking_endpoint@ == DEFAULT_MATCHMAKING_ENDPOINT@,
            c.patch_repo@ == DEFAULT_PATCH_REPO@,
            c.last_game is None,
            c.last_family is None,
            c.cache_dir is None,
            c.last_save_per_family@.len() == 0,
            c.last_patch_per_save@.len() == 0,
            c.last_match_type_per_family@.len() == 0,
            c.favorite_patches@.len() == 0,
    {
        Config {
            data_path,
            matchmaking_endpoint: default_matchmaking_endpoint(),
            patch_repo: default_patch_repo(),
            last_game: None,
            last_family: None,
            last_save_per_family: Vec::new(),
            last_patch_per_save: Vec::new(),
            last_match_type_per_family: Vec::new(),
            favorite_patches: Vec::new(),
            cache_dir: None,
        }
    }

    /// `name` under the data path.
    fn under_data(&self, name: Vec<char>) -> (r: StorePath)
        ensures
            r@ == join_spec(self.data_path@, components(name@)),
    {
        let text = string_from_chars(name);
        self.data_path.join_str(text.as_str())
    }

    pub fn roms_path(&self) -> (r: StorePath)
        ensures
            r@ == join_spec(self.data_path@, components(seq!['r', 'o', 'm', 's'])),
    {
        let name = vec!['r', 'o', 'm', 's'];
        assert(name@ =~= seq!['r', 'o', 'm', 's']);
        self.under_data(name)
    }

    pub fn saves_path(&self) -> (r: StorePath)
        ensures
            r@ == join_spec(self.data_path@, components(seq!['s', 'a', 'v', 'e', 's'])),
    {
        let name = vec!['s', 'a', 'v', 'e', 's'];
        assert(name@ =~= seq!['s', 'a', 'v', 'e', 's']);
        self.under_data(name)
    }

    pub fn patches_path(&self) -> (r: StorePath)
        ensures
            r@ == join_spec(self.data_path@, components(seq!['p', 'a', 't', 'c', 'h', 'e', 's'])),
    {
        let name = vec!['p', 'a', 't', 'c', 'h', 'e', 's'];
        assert(name@ =~= seq!['p', 'a', 't', 'c', 'h', 'e', 's']);
        self.under_data(name)
    }

    pub fn replays_path(&self) -> (r: StorePath)
        ensures
            r@ == join_spec(self.data_path@, components(seq!['r', 'e', 'p', 'l', 'a', 'y', 's'])),
    {
        let name = vec!['r', 'e', 'p', 'l', 'a', 'y', 's'];
        assert(name@ =~= seq!['r', 'e', 'p', 'l', 'a', 'y', 's']);
        self.under_data(name)
    }

    /// Where recomputable derived data lives: the host's cache directory
    /// when it has one, `<data>/cache` otherwise.
    pub fn cache_path(&self) -> (r: StorePath)
        ensures
            r@ == match self.cache_dir {
                Some(d) => d@,
                None => join_spec(self.data_path@, components(seq!['c', 'a', 'c', 'h', 'e'])),
            },
    {
        match &self.cache_dir {
            Some(d) => d.copy(),
            None => {
                let name = vec!['c', 'a', 'c', 'h', 'e'];
                assert(name@ =~= seq!['c', 'a', 'c', 'h', 'e']);
                self.under_data(name)
            },
        }
    }

    /// The configured patch repo, or the default when the setting is blank.
    pub fn patch_repo_url(&self) -> (r: String)
        ensures
            r@ == if self.patch_repo@.len() == 0 {
                DEFAULT_PATCH_REPO@
            } else {
                self.patch_repo@
            },
    {
        if self.patch_repo.as_str().is_empty() {
            default_patch_repo()
        } else {
            self.patch_repo.clone()
        }
    }

    /// A path under the data path, as the `/`-separated relative string
    /// the per-family and per-save memories use; `None` outside it.
    pub fn data_relative_string(&self, path: &StorePath) -> (r: Option<String>)
        ensures
            match strip_prefix_spec(path@, self.data_path@) {
                Some(rest) => r is Some && r->Some_0@ == join_texts(rest),
                None => r is None,
            },
    {
        match path.strip_prefix(&self.data_path) {
            Some(rest) => Some(string_from_chars(joined_texts(rest.parts()))),
            None => None,
        }
    }

    /// The inverse of [`Self::data_relative_string`]: each non-empty
    /// `/`-separated segment of `rel` pushed onto the data path.
    pub fn data_relative_to_absolute(&self, rel: &str) -> (r: StorePath)
        ensures
            r@ == push_segments(self.data_path@, pieces(rel@)),
    {
        let cs = chars_of(rel);
        let segs = split_pieces(&cs);
        let mut p = self.data_path.copy();
        let mut i: usize = 0;
        while i < segs.len()
            invariant
                i <= segs@.len(),
                seqs_view(segs@) == pieces(rel@),
                p@ == push_segments(self.data_path@, pieces(rel@).take(i as int)),
            decreases segs@.len() - i,
        {
            let ghost t1 = pieces(rel@).take(i + 1);
            assert(t1.drop_last() =~= pieces(rel@).take(i as int));
            assert(t1.last() == segs@[i as int]@);
            if segs[i].len() > 0 {
                let seg = string_from_chars(copy_chars(&segs[i]));
                p = p.join_str(seg.as_str());
            }
            i = i + 1;
        }
        assert(pieces(rel@).take(i as int) =~= pieces(rel@));
        p
    }
}

impl Default for Config {
    fn default() -> (c: Config)
        ensures
            c.data_path@ == components(default_data_path()),
            c.matchmaking_endpoint@ == DEFAULT_MATCHMAKING_ENDPOINT@,
            c.patch_repo@ == DEFAULT_PATCH_REPO@,
            c.last_game is None,
            c.last_family is None,
            c.cache_dir is None,
    {
        let text = vec!['.', '/', 't', 'a', 'n', 'g', 'o', '-', 'd', 'a', 't', 'a'];
        assert(text@ =~= default_data_path());
        let s = string_from_chars(text);
        Config::with_data_path(StorePath::parse(s.as_str()))
    }
}

/// Each non-empty segment pushed onto `base`, in order.
pub open spec fn push_segments(base: Seq<CompView>, segs: Seq<Seq<char>>) -> Seq<CompView>
    decreases segs.len(),
{
    if segs.len() == 0 {
        base
    } else {
        let p = push_segments(base, segs.drop_last());
        if segs.last().len() == 0 {
            p
        } else {
            join_spec(p, components(segs.last()))
        }
    }
}

pub open spec fn texts(cs: Seq<CompView>) -> Seq<Seq<char>> {
    Seq::new(cs.len(), |j: int| comp_text(cs[j]))
}

proof fn lemma_text_plain(c: CompView)
    requires
        c != CompView::Root,
        c is Normal ==> valid_name(c->Normal_0),
    ensures
        !comp_text(c).contains('/'),
        comp_text(c).len() > 0,
        components(comp_text(c)) == seq![c],
{
    match c {
        CompView::Normal(n) => {
            lemma_components_of_name(n);
        },
        CompView::Cur => {
            let t = seq!['.'];
            assert(comp_text(c) == t);
            assert(!t.contains('/')) by {
                if t.contains('/') {
                    let i = choose|i: int| 0 <= i < t.len() && t[i] == '/';
                    assert(t[0] == '.');
                }
            }
            lemma_pieces_of_plain(t);
            assert(dotted(t));
            assert(seq![t].drop_last() =~= Seq::<Seq<char>>::empty());
            assert(classify(t) is None);
            assert(seq![t].last() == t);
            assert(classify_all(seq![t].drop_last()) == Seq::<CompView>::empty());
            assert(classify_all(seq![t]) == classify_all(seq![t].drop_last()));
            assert(classify_all(seq![t]) =~= Seq::<CompView>::empty());
            assert(components(t) =~= seq![CompView::Cur]);
        },
        CompView::Parent => {
            let t = seq!['.', '.'];
            assert(comp_text(c) == t);
            assert(!t.contains('/')) by {
                if t.contains('/') {
                    let i = choose|i: int| 0 <= i < t.len() && t[i] == '/';
                    assert(t[0] == '.' && t[1] == '.');
                }
            }
            lemma_pieces_of_plain(t);
            assert(!dotted(t));
            assert(!rooted(t));
            assert(seq![t].drop_last() =~= Seq::<Seq<char>>::empty());
            assert(classify(t) == Some(CompView::Parent));
            assert(seq![t].last() == t);
            assert(classify_all(seq![t].drop_last()) == Seq::<CompView>::empty());
            assert(classify_all(seq![t]) == classify_all(seq![t].drop_last()).push(CompView::Parent));
            assert(classify_all(seq![t]) =~= seq![CompView::Parent]);
            assert(components(t) =~= seq![CompView::Parent]);
        },
        CompView::Root => {},
    }
}

proof fn lemma_pieces_of_texts(rs: Seq<CompView>)
    requires
        rs.len() > 0,
        forall|j: int| 0 <= j < rs.len() ==> !(#[trigger] comp_text(rs[j])).contains('/'),
    ensures
        pieces(join_texts(rs)) == texts(rs),
    decreases rs.len(),
{
    if rs.len() == 1 {
        lemma_pieces_of_plain(comp_text(rs[0]));
        assert(texts(rs) =~= seq![comp_text(rs[0])]);
    } else {
        let a = rs.drop_last();
        assert forall|j: int| 0 <= j < a.len() implies !(#[trigger] comp_text(a[j])).contains('/') by {
            assert(a[j] == rs[j]);
        }
        lemma_pieces_of_texts(a);
        assert(!comp_text(rs.last()).contains('/')) by {
            assert(rs[rs.len() - 1] == rs.last());
        }
        lemma_pieces_of_join(join_texts(a), comp_text(rs.last()));
        assert(texts(a).push(comp_text(rs.last())) =~= texts(rs));
    }
}

proof fn lemma_push_texts(data: Seq<CompView>, rs: Seq<CompView>)
    requires
        forall|j: int| 0 <= j < rs.len() ==> #[trigger] rs[j] != CompView::Root,
        forall|j: int| 0 <= j < rs.len() && #[trigger] rs[j] == CompView::Cur ==> j == 0 && data.len() == 0,
        forall|j: int| 0 <= j < rs.len() && (#[trigger] rs[j]) is Normal ==> valid_name(rs[j]->Normal_0),
    ensures
        push_segments(data, texts(rs)) == data + rs,
    decreases rs.len(),
{
    if rs.len() == 0 {
        assert(texts(rs) =~= Seq::<Seq<char>>::empty());
        assert(data + rs =~= data);
    } else {
        let a = rs.drop_last();
        assert forall|j: int| 0 <= j < a.len() implies #[trigger] a[j] != CompView::Root by {
            assert(a[j] == rs[j]);
        }
        assert forall|j: int| 0 <= j < a.len() && #[trigger] a[j] == CompView::Cur implies j == 0 && data.len() == 0 by {
            assert(a[j] == rs[j]);
        }
        assert forall|j: int| 0 <= j < a.len() && (#[trigger] a[j]) is Normal implies valid_name(a[j]->Normal_0) by {
            assert(a[j] == rs[j]);
        }
        lemma_push_texts(data, a);
        let c = rs.last();
        assert(c == rs[rs.len() - 1]);
        lemma_text_plain(c);
        assert(texts(rs).drop_last() =~= texts(a));
        assert(texts(rs).last() == comp_text(c));
        if c == CompView::Cur {
            assert(rs.len() - 1 == 0);
            assert(a =~= Seq::<CompView>::empty());
            assert(data + a =~= data);
            assert(data + rs =~= seq![CompView::Cur]);
            assert(data =~= Seq::<CompView>::empty());
        }
        assert(data + rs =~= (data + a).push(c));
    }
}

/// [`Config::data_relative_to_absolute`] undoes
/// [`Config::data_relative_string`]: a path under the data path comes
/// back as itself. (Not when the data path is empty and the path is
/// rooted: the root's own `/` then reads as an empty segment.)
pub proof fn law_data_relative_roundtrip(data: Seq<CompView>, p: Seq<CompView>)
    requires
        wf_path(p),
        strip_prefix_spec(p, data) is Some,
        !(data.len() == 0 && p.len() > 0 && p[0] == CompView::Root),
    ensures
        push_segments(data, pieces(join_texts(strip_prefix_spec(p, data)->0))) == p,
{
    let n = data.len() as int;
    let rest = p.skip(n);
    assert(p.take(n) == data);
    assert(data + rest =~= p);
    assert forall|j: int| 0 <= j < rest.len() implies #[trigger] rest[j] != CompView::Root by {
        assert(rest[j] == p[n + j]);
    }
    assert forall|j: int| 0 <= j < rest.len() && #[trigger] rest[j] == CompView::Cur implies j == 0 && data.len() == 0 by {
        assert(rest[j] == p[n + j]);
    }
    assert forall|j: int| 0 <= j < rest.len() && (#[trigger] rest[j]) is Normal implies valid_name(rest[j]->Normal_0) by {
        assert(rest[j] == p[n + j]);
    }
    lemma_push_texts(data, rest);
    if rest.len() == 0 {
        assert(join_texts(rest) =~= Seq::<char>::empty());
        assert(pieces(Seq::<char>::empty()) =~= seq![Seq::<char>::empty()]);
        assert(seq![Seq::<char>::empty()].drop_last() =~= Seq::<Seq<char>>::empty());
        let e = seq![Seq::<char>::empty()];
        assert(e.last() == Seq::<char>::empty());
        assert(push_segments(data, e.drop_last()) == data);
        assert(push_segments(data, e) == data);
    } else {
        assert forall|j: int| 0 <= j < rest.len() implies !(#[trigger] comp_text(rest[j])).contains('/') by {
            lemma_text_plain(rest[j]);
        }
        lemma_pieces_of_texts(rest);
    }
}

/// What to do with a settings file once it has been read, and parsed if
/// it was there.
#[derive(Debug, PartialEq, Eq)]
pub enum SettingsLoad {
    /// Use what was parsed.
    Parsed,
    /// Use the defaults, and write them out.
    DefaultsPersisted,
    /// Use the defaults without writing them: the file may be fine on the
    /// next launch, or parking a bad one failed.
    DefaultsOnly,
}

/// The backup name a settings file that failed to parse is parked under.
pub open spec fn bad_backup(path: Seq<CompView>) -> Seq<CompView> {
    crate::paths::with_extension_spec(path, seq!['j', 's', 'o', 'n', '.', 'b', 'a', 'd'])
}

/// Whether `after` is `before` with the serialized defaults saved at
/// `path` through its temporary, or, the save having failed, with
/// nothing changed but that temporary.
pub open spec fn defaults_saved(
    before: Map<Seq<CompView>, Seq<u8>>,
    after: Map<Seq<CompView>, Seq<u8>>,
    path: Seq<CompView>,
    defaults: Seq<u8>,
) -> bool {
    let tmp = crate::storage::temp_path(path);
    ||| after == before.remove(tmp).insert(path, defaults)
    ||| after.remove(tmp) == before.remove(tmp)
}

/// Settle a settings load, after the file was read (`read`) and, if it
/// was there, parsed (`parsed`). A missing file gets the defaults, which
/// are saved (`defaults` is their serialized form); a file that could not
/// be read gets the defaults unsaved, since it may read fine next time; a
/// file that does not parse is parked beside itself as `.json.bad` so it
/// can be recovered and the defaults are then saved, unless parking it
/// failed, in which case nothing is touched. A failed save of the
/// defaults leaves them in use for this run.
pub fn settle_settings<S: Storage>(
    storage: &mut S,
    path: &StorePath,
    read: &Result<Option<Vec<u8>>, StorageError>,
    parsed: bool,
    defaults: &[u8],
) -> (r: SettingsLoad)
    ensures
        read matches Ok(Some(_)) && parsed ==> r == SettingsLoad::Parsed && final(storage).files() == old(
            storage,
        ).files(),
        read matches Ok(None) ==> r == SettingsLoad::DefaultsPersisted && defaults_saved(
            old(storage).files(),
            final(storage).files(),
            path@,
            defaults@,
        ),
        read is Err ==> r == SettingsLoad::DefaultsOnly && final(storage).files() == old(storage).files(),
        read matches Ok(Some(_)) && !parsed ==> (r == SettingsLoad::DefaultsPersisted && old(
            storage,
        ).files().contains_key(path@) && defaults_saved(
            old(storage).files().remove(path@).insert(bad_backup(path@), old(storage).files()[path@]),
            final(storage).files(),
            path@,
            defaults@,
        )) || (r == SettingsLoad::DefaultsOnly && final(storage).files() == old(storage).files()),
{
    match read {
        Ok(Some(_)) => {
            if parsed {
                return SettingsLoad::Parsed;
            }
            let ext = string_from_chars(json_bad());
            let backup = path.with_extension_str(ext.as_str());
            assert(backup@ == bad_backup(path@));
            match storage.rename(path, &backup) {
                Ok(()) => {},
                Err(_) => {
                    return SettingsLoad::DefaultsOnly;
                },
            }
        },
        Ok(None) => {},
        Err(_) => {
            return SettingsLoad::DefaultsOnly;
        },
    }
    let _ = save_serialized(storage, path, defaults);
    SettingsLoad::DefaultsPersisted
}

fn json_bad() -> (r: Vec<char>)
    ensures
        r@ == seq!['j', 's', 'o', 'n', '.', 'b', 'a', 'd'],
{
    let v = vec!['j', 's', 'o', 'n', '.', 'b', 'a', 'd'];
    assert(v@ =~= seq!['j', 's', 'o', 'n', '.', 'b', 'a', 'd']);
    v
}

/// Write a serialized settings file: make sure its directory exists, then
/// write it through a temporary so an interrupted save cannot truncate it.
pub fn save_serialized<S: Storage>(storage: &mut S, path: &StorePath, bytes: &[u8]) -> (r: Result<(), StorageError>)
    ensures
        r is Ok ==> crate::paths::file_name_spec(path@) is Some && final(storage).files() == old(
            storage,
        ).files().remove(crate::storage::temp_path(path@)).insert(path@, bytes@),
        r is Err ==> final(storage).files().remove(crate::storage::temp_path(path@)) == old(storage).files().remove(
            crate::storage::temp_path(path@),
        ),
{
    match path.parent() {
        Some(parent) => {
            match storage.create_dir_all(&parent) {
                Ok(()) => {},
                Err(e) => {
                    return Err(e);
                },
            }
        },
        None => {},
    }
    write_atomic(storage, path, bytes)
}

/// The value first recorded under `key`, if any.
pub open spec fn memo<V>(entries: Seq<(String, V)>, key: Seq<char>) -> Option<V>
    decreases entries.len(),
{
    if entries.len() == 0 {
        None
    } else if entries[0].0@ == key {
        Some(entries[0].1)
    } else {
        memo(entries.drop_first(), key)
    }
}

/// Where `key` is first recorded, if anywhere.
fn memo_index<V>(entries: &Vec<(String, V)>, key: &str) -> (r: Option<usize>)
    ensures
        match r {
            Some(i) => i < entries@.len() && entries@[i as int].0@ == key@ && memo(entries@, key@) == Some(
                entries@[i as int].1,
            ) && forall|j: int| 0 <= j < i ==> (#[trigger] entries@[j]).0@ != key@,
            None => memo(entries@, key@) is None && forall|j: int|
                0 <= j < entries@.len() ==> (#[trigger] entries@[j]).0@ != key@,
        },
{
    let mut i: usize = 0;
    assert(entries@.skip(0) =~= entries@);
    while i < entries.len()
        invariant
            i <= entries@.len(),
            memo(entries@, key@) == memo(entries@.skip(i as int), key@),
            forall|j: int| 0 <= j < i ==> (#[trigger] entries@[j]).0@ != key@,
        decreases entries@.len() - i,
    {
        let ghost rest = entries@.skip(i as int);
        assert(rest[0] == entries@[i as int]);
        if crate::text::str_eq(entries[i].0.as_str(), key) {
            return Some(i);
        }
        assert(rest.drop_first() =~= entries@.skip(i + 1));
        i = i + 1;
    }
    None
}

proof fn lemma_memo_update<V>(entries: Seq<(String, V)>, i: int, key: String, value: V, other: Seq<char>)
    requires
        0 <= i < entries.len(),
        entries[i].0@ == key@,
        forall|j: int| 0 <= j < i ==> (#[trigger] entries[j]).0@ != key@,
    ensures
        memo(entries.update(i, (key, value)), other) == if other == key@ {
            Some(value)
        } else {
            memo(entries, other)
        },
    decreases entries.len(),
{
    if i > 0 {
        assert forall|j: int| 0 <= j < i - 1 implies (#[trigger] entries.drop_first()[j]).0@ != key@ by {
            assert(entries.drop_first()[j] == entries[j + 1]);
        }
        lemma_memo_update(entries.drop_first(), i - 1, key, value, other);
        assert(entries.update(i, (key, value)).drop_first() =~= entries.drop_first().update(i - 1, (key, value)));
        assert(entries[0].0@ != key@);
    } else {
        assert(entries.update(i, (key, value)).drop_first() =~= entries.drop_first());
    }
}

proof fn lemma_memo_push<V>(entries: Seq<(String, V)>, key: String, value: V, other: Seq<char>)
    requires
        forall|j: int| 0 <= j < entries.len() ==> (#[trigger] entries[j]).0@ != key@,
    ensures
        memo(entries.push((key, value)), other) == if other == key@ {
            Some(value)
        } else {
            memo(entries, other)
        },
    decreases entries.len(),
{
    if entries.len() > 0 {
        assert forall|j: int| 0 <= j < entries.drop_first().len() implies (#[trigger] entries.drop_first()[j]).0@ != key@ by {
            assert(entries.drop_first()[j] == entries[j + 1]);
        }
        lemma_memo_push(entries.drop_first(), key, value, other);
        assert(entries.push((key, value)).drop_first() =~= entries.drop_first().push((key, value)));
        assert(entries.push((key, value))[0] == entries[0]);
        assert(entries[0].0@ != key@);
    } else {
        let e = entries.push((key, value));
        assert(e.len() == 1);
        assert(e[0] == (key, value));
        assert(e.drop_first() =~= Seq::<(String, V)>::empty());
        assert(memo(e.drop_first(), other) is None);
    }
}

/// Record `value` under `key`.
pub fn memo_insert<V>(entries: &mut Vec<(String, V)>, key: String, value: V)
    ensures
        forall|k: Seq<char>| #[trigger] memo(final(entries)@, k) == if k == key@ {
            Some(value)
        } else {
            memo(old(entries)@, k)
        },
{
    match memo_index(entries, key.as_str()) {
        Some(i) => {
            let ghost before = entries@;
            let ghost kk = key;
            let ghost vv = value;
            entries.set(i, (key, value));
            proof {
                assert(entries@ == before.update(i as int, (kk, vv)));
                assert forall|k: Seq<char>| #[trigger] memo(entries@, k) == if k == kk@ {
                    Some(vv)
                } else {
                    memo(before, k)
                } by {
                    lemma_memo_update(before, i as int, kk, vv, k);
                }
            }
        },
        None => {
            let ghost before = entries@;
            let ghost kk = key;
            let ghost vv = value;
            entries.push((key, value));
            proof {
                assert forall|k: Seq<char>| #[trigger] memo(entries@, k) == if k == kk@ {
                    Some(vv)
                } else {
                    memo(before, k)
                } by {
                    lemma_memo_push(before, kk, vv, k);
                }
            }
        },
    }
}

/// The data-relative save path recorded for `family`.
pub fn last_save_for(config: &Config, family: &str) -> (r: Option<String>)
    ensures
        match memo(config.last_save_per_family@, family@) {
            Some(rel) => r is Some && r->Some_0@ == rel@,
            None => r is None,
        },
{
    match memo_index(&config.last_save_per_family, family) {
        Some(i) => Some(config.last_save_per_family[i].1.clone()),
        None => None,
    }
}

pub open spec fn patch_memo_view(m: Option<Option<(String, semver::Version)>>) -> Option<Option<(Seq<char>, semver::Version)>> {
    match m {
        Some(Some((n, v))) => Some(Some((n@, v))),
        Some(None) => Some(None),
        None => None,
    }
}

/// The patch recorded for a data-relative save path: `Some(None)` when
/// it was last used unpatched, `None` when it was never used.
pub fn last_patch_for(config: &Config, rel: &str) -> (r: Option<Option<(String, semver::Version)>>)
    ensures
        patch_memo_view(r) == patch_memo_view(memo(config.last_patch_per_save@, rel@)),
{
    match memo_index(&config.last_patch_per_save, rel) {
        Some(i) => match &config.last_patch_per_save[i].1 {
            Some((n, v)) => Some(Some((n.clone(), crate::lobby::protocol::clone_version(v)))),
            None => Some(None),
        },
        None => None,
    }
}

} // verus!
