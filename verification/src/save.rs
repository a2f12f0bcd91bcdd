//! Save-file operations: naming, creating from a template's bytes,
//! duplicating, renaming and deleting, every file access through a
//! [`Storage`].
pub mod picker;

use vstd::prelude::*;
use crate::paths::{StorePath, CompView, split_where, components, join_spec, parent_spec, file_name_spec, ext_of, stem_of, last_dot, names_plain, lemma_components_of_name, lemma_last_dot_range};
use crate::storage::{Storage, StorageError};
use crate::loadout::{GameId, copy_game, same_game, first_saves, paths_of};
use crate::loadout::selection::{picker_lt, picker_less, lemma_picker_transitive, lemma_picker_irreflexive};
use crate::text::{chars_of, string_from_chars, push_all, is_ws, is_whitespace, contains_seq, contains_str, decimal, decimal_spec, trim_chars, trim_spec};

verus! {

/// Why a save-file operation refused or failed.
#[derive(Debug, PartialEq, Eq)]
pub enum SaveError {
    EmptyName,
    InvalidName,
    NoParent,
    Exists,
    Io(StorageError),
}

/// The verdict on a user-typed stem: empty, or able to leave its folder.
pub open spec fn stem_check(stem: Seq<char>) -> Result<(), SaveError> {
    if stem.len() == 0 {
        Err(SaveError::EmptyName)
    } else if stem.contains('/') || stem.contains('\\') || contains_seq(stem, seq!['.', '.']) {
        Err(SaveError::InvalidName)
    } else {
        Ok(())
    }
}

/// Refuse a user-typed file stem that is empty or could escape the save's
/// own folder.
pub fn validate_stem(stem: &str) -> (r: Result<(), SaveError>)
    ensures
        r == stem_check(stem@),
{
    let cs = chars_of(stem);
    if cs.len() == 0 {
        return Err(SaveError::EmptyName);
    }
    let mut i: usize = 0;
    while i < cs.len()
        invariant
            i <= cs@.len(),
            cs@ == stem@,
            forall|k: int| 0 <= k < i ==> cs@[k] != '/' && cs@[k] != '\\',
        decreases cs@.len() - i,
    {
        if cs[i] == '/' || cs[i] == '\\' {
            assert(stem@.contains(cs@[i as int]));
            return Err(SaveError::InvalidName);
        }
        i = i + 1;
    }
    let dots = vec!['.', '.'];
    assert(dots@ =~= seq!['.', '.']);
    if contains_str(cs.as_slice(), dots.as_slice()) {
        return Err(SaveError::InvalidName);
    }
    Ok(())
}

/// What a character becomes in a file name: the characters a file name
/// cannot carry, and control characters, become spaces.
pub open spec fn clean_char(c: char) -> char {
    if c == '<' || c == '>' || c == ':' || c == '"' || c == '/' || c == '\\' || c == '|' || c == '?'
        || c == '*' || (c as u32) < 0x20 {
        ' '
    } else {
        c
    }
}

fn clean(c: char) -> (r: char)
    ensures
        r == clean_char(c),
{
    if c == '<' || c == '>' || c == ':' || c == '"' || c == '/' || c == '\\' || c == '|' || c == '?'
        || c == '*' || (c as u32) < 0x20 {
        ' '
    } else {
        c
    }
}

/// The non-empty pieces, in order.
pub open spec fn nonempty(ps: Seq<Seq<char>>) -> Seq<Seq<char>>
    decreases ps.len(),
{
    if ps.len() == 0 {
        Seq::empty()
    } else if ps.last().len() == 0 {
        nonempty(ps.drop_last())
    } else {
        nonempty(ps.drop_last()).push(ps.last())
    }
}

/// The words of `s`: its maximal runs of non-white-space characters.
pub open spec fn words(s: Seq<char>) -> Seq<Seq<char>> {
    nonempty(split_where(s, |c: char| is_ws(c)))
}

/// Words joined by single spaces.
pub open spec fn join_words(ws: Seq<Seq<char>>) -> Seq<char>
    decreases ws.len(),
{
    if ws.len() == 0 {
        Seq::empty()
    } else if ws.len() == 1 {
        ws[0]
    } else {
        join_words(ws.drop_last()) + seq![' '] + ws.last()
    }
}

/// A name made safe for a file: unfit characters become spaces, and the
/// words that are left are joined by single spaces.
pub open spec fn sanitize_spec(s: Seq<char>) -> Seq<char> {
    join_words(words(s.map_values(|c: char| clean_char(c))))
}

/// The characters of `sanitize_spec(s)`.
fn sanitize_chars(s: &Vec<char>) -> (r: Vec<char>)
    ensures
        r@ == sanitize_spec(s@),
{
    let ghost cleaned = s@.map_values(|c: char| clean_char(c));
    let n = s.len();
    let mut out: Vec<char> = Vec::new();
    let mut cur: Vec<char> = Vec::new();
    let ghost mut done: Seq<Seq<char>> = Seq::empty();
    let mut has_word = false;
    let mut i: usize = 0;
    proof {
        assert(cleaned.take(0) =~= Seq::<char>::empty());
        assert(split_where(cleaned.take(0), |c: char| is_ws(c)) =~= seq![Seq::<char>::empty()]);
    }
    while i < n
        invariant
            i <= n,
            n == s@.len(),
            cleaned == s@.map_values(|c: char| clean_char(c)),
            split_where(cleaned.take(i as int), |c: char| is_ws(c)).len() >= 1,
            cur@ == split_where(cleaned.take(i as int), |c: char| is_ws(c)).last(),
            done == nonempty(split_where(cleaned.take(i as int), |c: char| is_ws(c)).drop_last()),
            out@ == join_words(done),
            has_word == (done.len() > 0),
        decreases n - i,
    {
        let c = clean(s[i]);
        let ghost t = cleaned.take(i as int);
        let ghost t1 = cleaned.take(i + 1);
        let ghost p = split_where(t, |c: char| is_ws(c));
        proof {
            assert(t1.drop_last() =~= t);
            assert(t1.last() == c);
            crate::paths::lemma_split_nonempty(t, |c: char| is_ws(c));
        }
        if is_whitespace(c) {
            if cur.len() > 0 {
                if has_word {
                    out.push(' ');
                }
                push_all(&mut out, cur.as_slice());
                proof {
                    let d1 = done.push(cur@);
                    assert(d1.drop_last() =~= done);
                    if done.len() == 0 {
                        assert(join_words(d1) == d1[0]);
                        assert(out@ =~= join_words(d1));
                    } else {
                        assert(out@ =~= join_words(d1));
                    }
                    done = d1;
                }
                has_word = true;
            }
            cur = Vec::new();
            proof {
                assert(split_where(t1, |c: char| is_ws(c)) == p.push(Seq::<char>::empty()));
                assert(split_where(t1, |c: char| is_ws(c)).drop_last() =~= p);
                assert(p.drop_last().push(p.last()) =~= p);
                assert(cur@ =~= split_where(t1, |c: char| is_ws(c)).last());
            }
        } else {
            cur.push(c);
            proof {
                assert(split_where(t1, |c: char| is_ws(c)) == p.update(p.len() - 1, p.last().push(c)));
                assert(split_where(t1, |c: char| is_ws(c)).drop_last() =~= p.drop_last());
                assert(cur@ =~= split_where(t1, |c: char| is_ws(c)).last());
            }
        }
        i = i + 1;
    }
    proof {
        assert(cleaned.take(n as int) =~= cleaned);
        let p = split_where(cleaned, |c: char| is_ws(c));
        crate::paths::lemma_split_nonempty(cleaned, |c: char| is_ws(c));
        assert(p.drop_last().push(p.last()) =~= p);
    }
    if cur.len() > 0 {
        if has_word {
            out.push(' ');
        }
        push_all(&mut out, cur.as_slice());
        proof {
            let d1 = done.push(cur@);
            assert(d1.drop_last() =~= done);
            if done.len() == 0 {
                assert(join_words(d1) == d1[0]);
                assert(out@ =~= join_words(d1));
            } else {
                assert(out@ =~= join_words(d1));
            }
        }
    }
    out
}

/// Replace characters a file name can't carry (and control characters)
/// with spaces, then collapse runs of white space.
pub fn sanitize_filename(s: &str) -> (r: String)
    ensures
        r@ == sanitize_spec(s@),
{
    let cs = chars_of(s);
    string_from_chars(sanitize_chars(&cs))
}

/// The default name for a save created from a template,
/// "<game> - <template>" (or just "<game>" before a template is picked),
/// made safe to use as a file name.
pub fn suggest_name(game_name: &str, template_label: Option<&str>) -> (r: String)
    ensures
        r@ == match template_label {
            Some(label) => sanitize_spec(game_name@ + seq![' ', '-', ' '] + label@),
            None => sanitize_spec(game_name@),
        },
{
    match template_label {
        Some(label) => {
            let mut cs = chars_of(game_name);
            cs.push(' ');
            cs.push('-');
            cs.push(' ');
            let lc = chars_of(label);
            push_all(&mut cs, lc.as_slice());
            assert(cs@ =~= game_name@ + seq![' ', '-', ' '] + label@);
            string_from_chars(sanitize_chars(&cs))
        },
        None => sanitize_filename(game_name),
    }
}

/// `.sav`, the save files' extension with its dot.
pub open spec fn dot_sav() -> Seq<char> {
    seq!['.', 's', 'a', 'v']
}

/// The `n`th candidate name: `base` itself first, then `base 2`, `base 3`, ...
pub open spec fn numbered(base: Seq<char>, n: nat) -> Seq<char> {
    if n <= 1 {
        base
    } else {
        base + seq![' '] + decimal_spec(n)
    }
}

/// Whether `<name>.sav` already exists in `dir`.
pub open spec fn sav_taken(files: Map<Seq<CompView>, Seq<u8>>, dir: Seq<CompView>, name: Seq<char>) -> bool {
    files.contains_key(join_spec(dir, components(name + dot_sav())))
}

/// Whether the `k`th candidate is the one chosen from `1..=limit`: every
/// earlier one is taken, and it is free unless it is the last.
pub open spec fn first_free(taken: spec_fn(nat) -> bool, k: nat, limit: nat) -> bool {
    &&& 1 <= k <= limit
    &&& (k < limit ==> !taken(k))
    &&& forall|j: nat| 1 <= j < k ==> #[trigger] taken(j)
}

fn numbered_chars(base: &Vec<char>, n: u64) -> (r: Vec<char>)
    ensures
        r@ == numbered(base@, n as nat),
{
    let mut out: Vec<char> = Vec::new();
    push_all(&mut out, base.as_slice());
    if n > 1 {
        out.push(' ');
        let d = decimal(n);
        push_all(&mut out, d.as_slice());
    }
    assert(out@ =~= numbered(base@, n as nat));
    out
}

fn with_sav(name: &Vec<char>) -> (r: Vec<char>)
    ensures
        r@ == name@ + dot_sav(),
{
    let mut out: Vec<char> = Vec::new();
    push_all(&mut out, name.as_slice());
    out.push('.');
    out.push('s');
    out.push('a');
    out.push('v');
    assert(out@ =~= name@ + dot_sav());
    out
}

/// Appends ` 2`, ` 3`, ... to `base` until `<name>.sav` doesn't already
/// exist in `saves_dir`, giving up at ` 99`.
pub fn free_name<S: Storage>(storage: &S, saves_dir: &StorePath, base: &str) -> (r: String)
    ensures
        exists|k: nat|
            first_free(|j: nat| sav_taken(storage.files(), saves_dir@, numbered(base@, j)), k, 99)
                && r@ == numbered(base@, k),
{
    let ghost taken = |j: nat| sav_taken(storage.files(), saves_dir@, numbered(base@, j));
    let bc = chars_of(base);
    let mut k: u64 = 1;
    loop
        invariant
            1 <= k <= 99,
            bc@ == base@,
            taken == (|j: nat| sav_taken(storage.files(), saves_dir@, numbered(base@, j))),
            forall|j: nat| 1 <= j < k ==> #[trigger] taken(j),
        decreases 99 - k,
    {
        let draft = numbered_chars(&bc, k);
        if k == 99 {
            assert(first_free(taken, k as nat, 99));
            return string_from_chars(draft);
        }
        let file = string_from_chars(with_sav(&draft));
        let path = saves_dir.join_str(file.as_str());
        if !storage.is_file(&path) {
            assert(!taken(k as nat));
            assert(first_free(taken, k as nat, 99));
            return string_from_chars(draft);
        }
        assert(taken(k as nat));
        k = k + 1;
    }
}

/// `new_stem` in `parent`, carrying `src`'s extension over.
pub open spec fn sibling_spec(parent: Seq<CompView>, src: Seq<CompView>, new_stem: Seq<char>) -> Seq<CompView> {
    match file_name_spec(src) {
        Some(name) => match ext_of(name) {
            Some(ext) => join_spec(parent, components(new_stem + seq!['.'] + ext)),
            None => join_spec(parent, components(new_stem)),
        },
        None => join_spec(parent, components(new_stem)),
    }
}

/// `new_stem` in `parent`, carrying `src`'s extension over.
pub fn sibling(parent: &StorePath, src: &StorePath, new_stem: &str) -> (r: StorePath)
    ensures
        r@ == sibling_spec(parent@, src@, new_stem@),
{
    match src.extension() {
        Some(ext) => {
            let mut name = chars_of(new_stem);
            name.push('.');
            let ec = chars_of(ext.as_str());
            push_all(&mut name, ec.as_slice());
            assert(name@ =~= new_stem@ + seq!['.'] + ext@);
            let text = string_from_chars(name);
            parent.join_str(text.as_str())
        },
        None => parent.join_str(new_stem),
    }
}

/// The `n`th duplicate stem: `<stem> (copy)`, then `<stem> (copy 2)`, ...
pub open spec fn copy_name(stem: Seq<char>, n: nat) -> Seq<char> {
    if n <= 1 {
        stem + seq![' ', '(', 'c', 'o', 'p', 'y', ')']
    } else {
        stem + seq![' ', '(', 'c', 'o', 'p', 'y', ' '] + decimal_spec(n) + seq![')']
    }
}

/// The stem a duplicate of `src` starts from: its file stem, or nothing.
pub open spec fn src_stem(src: Seq<CompView>) -> Seq<char> {
    match file_name_spec(src) {
        Some(name) => stem_of(name),
        None => Seq::empty(),
    }
}

/// Whether the duplicate named `name` would land on an existing file.
pub open spec fn copy_taken(files: Map<Seq<CompView>, Seq<u8>>, src: Seq<CompView>, name: Seq<char>) -> bool {
    match parent_spec(src) {
        Some(p) => files.contains_key(sibling_spec(p, src, name)),
        None => false,
    }
}

fn copy_name_chars(stem: &Vec<char>, n: u64) -> (r: Vec<char>)
    ensures
        r@ == copy_name(stem@, n as nat),
{
    let mut out: Vec<char> = Vec::new();
    push_all(&mut out, stem.as_slice());
    out.push(' ');
    out.push('(');
    out.push('c');
    out.push('o');
    out.push('p');
    out.push('y');
    if n > 1 {
        out.push(' ');
        let d = decimal(n);
        push_all(&mut out, d.as_slice());
    }
    out.push(')');
    assert(out@ =~= copy_name(stem@, n as nat));
    out
}

/// The first free `<stem> (copy)` / `<stem> (copy N)` stem for `src`, so
/// that accepting it as it stands never collides; `<stem> (copy)` when
/// the first 999 are all taken.
pub fn suggest_duplicate_stem<S: Storage>(storage: &S, src: &StorePath) -> (r: String)
    ensures
        (exists|k: nat|
            first_free(|j: nat| copy_taken(storage.files(), src@, copy_name(src_stem(src@), j)), k, 1000)
                && k < 1000 && r@ == copy_name(src_stem(src@), k)) || ((forall|j: nat|
            1 <= j < 1000 ==> #[trigger] copy_taken(storage.files(), src@, copy_name(src_stem(src@), j)))
            && r@ == copy_name(src_stem(src@), 1)),
{
    let ghost taken = |j: nat| copy_taken(storage.files(), src@, copy_name(src_stem(src@), j));
    let stem: Vec<char> = match src.file_stem() {
        Some(s) => chars_of(s.as_str()),
        None => Vec::new(),
    };
    assert(stem@ =~= src_stem(src@));
    let parent = src.parent();
    let mut k: u64 = 1;
    while k < 1000
        invariant
            1 <= k <= 1000,
            stem@ == src_stem(src@),
            match parent {
                Some(p) => parent_spec(src@) == Some(p@),
                None => parent_spec(src@) is None,
            },
            taken == (|j: nat| copy_taken(storage.files(), src@, copy_name(src_stem(src@), j))),
            forall|j: nat| 1 <= j < k ==> #[trigger] taken(j),
        decreases 1000 - k,
    {
        let candidate = copy_name_chars(&stem, k);
        let text = string_from_chars(candidate);
        let is_taken = match &parent {
            Some(p) => storage.is_file(&sibling(p, src, text.as_str())),
            None => false,
        };
        if !is_taken {
            assert(!taken(k as nat));
            assert(first_free(taken, k as nat, 1000));
            return text;
        }
        assert(taken(k as nat));
        k = k + 1;
    }
    string_from_chars(copy_name_chars(&stem, 1))
}

/// Where a duplicate or rename of `src` to `new_stem` lands, if `src` has
/// a parent.
pub open spec fn target_spec(src: Seq<CompView>, new_stem: Seq<char>) -> Option<Seq<CompView>> {
    match parent_spec(src) {
        Some(p) => Some(sibling_spec(p, src, new_stem)),
        None => None,
    }
}

/// Copy `src` to a sibling file named `new_stem`, extension preserved.
/// Refuses an invalid name and an existing destination.
pub fn duplicate<S: Storage>(storage: &mut S, src: &StorePath, new_stem: &str) -> (r: Result<StorePath, SaveError>)
    ensures
        stem_check(new_stem@) is Err ==> r == Err::<StorePath, SaveError>(stem_check(new_stem@)->Err_0),
        stem_check(new_stem@) is Ok && target_spec(src@, new_stem@) is None ==> r == Err::<
            StorePath,
            SaveError,
        >(SaveError::NoParent),
        stem_check(new_stem@) is Ok && target_spec(src@, new_stem@) is Some && (target_spec(
            src@,
            new_stem@,
        )->0 == src@ || old(storage).files().contains_key(target_spec(src@, new_stem@)->0)) ==> r
            == Err::<StorePath, SaveError>(SaveError::Exists),
        r is Err && !(r->Err_0 is Io) ==> final(storage).files() == old(storage).files(),
        r is Err && r->Err_0 is Io ==> stem_check(new_stem@) is Ok && target_spec(src@, new_stem@) is Some
            && target_spec(src@, new_stem@)->0 != src@ && !old(storage).files().contains_key(
            target_spec(src@, new_stem@)->0,
        ),
        r is Ok ==> stem_check(new_stem@) is Ok && target_spec(src@, new_stem@) == Some(r->Ok_0@)
            && old(storage).files().contains_key(src@) && final(storage).files() == old(
            storage,
        ).files().insert(r->Ok_0@, old(storage).files()[src@]),
{
    match validate_stem(new_stem) {
        Ok(()) => {},
        Err(e) => {
            return Err(e);
        },
    }
    let parent = match src.parent() {
        Some(p) => p,
        None => {
            return Err(SaveError::NoParent);
        },
    };
    let dst = sibling(&parent, src, new_stem);
    if dst.same(src) || storage.is_file(&dst) {
        return Err(SaveError::Exists);
    }
    let data = match storage.read(src) {
        Ok(d) => d,
        Err(e) => {
            return Err(SaveError::Io(e));
        },
    };
    match storage.write(&dst, data.as_slice()) {
        Ok(()) => {},
        Err(e) => {
            return Err(SaveError::Io(e));
        },
    }
    Ok(dst)
}

/// Rename `src` to use `new_stem`, extension preserved. Renaming to the
/// same name is a no-op; any other existing destination is refused.
pub fn rename<S: Storage>(storage: &mut S, src: &StorePath, new_stem: &str) -> (r: Result<StorePath, SaveError>)
    ensures
        stem_check(new_stem@) is Err ==> r == Err::<StorePath, SaveError>(stem_check(new_stem@)->Err_0),
        stem_check(new_stem@) is Ok && target_spec(src@, new_stem@) is None ==> r == Err::<
            StorePath,
            SaveError,
        >(SaveError::NoParent),
        stem_check(new_stem@) is Ok && target_spec(src@, new_stem@) == Some(src@) ==> r is Ok
            && r->Ok_0@ == src@ && final(storage).files() == old(storage).files(),
        stem_check(new_stem@) is Ok && target_spec(src@, new_stem@) is Some && target_spec(
            src@,
            new_stem@,
        )->0 != src@ && old(storage).files().contains_key(target_spec(src@, new_stem@)->0) ==> r
            == Err::<StorePath, SaveError>(SaveError::Exists),
        r is Err && !(r->Err_0 is Io) ==> final(storage).files() == old(storage).files(),
        r is Err && r->Err_0 is Io ==> stem_check(new_stem@) is Ok && target_spec(src@, new_stem@) is Some
            && target_spec(src@, new_stem@)->0 != src@ && !old(storage).files().contains_key(
            target_spec(src@, new_stem@)->0,
        ),
        r is Ok ==> stem_check(new_stem@) is Ok && target_spec(src@, new_stem@) == Some(r->Ok_0@) && (
        r->Ok_0@ != src@ ==> old(storage).files().contains_key(src@) && final(storage).files() == old(
            storage,
        ).files().remove(src@).insert(r->Ok_0@, old(storage).files()[src@])),
{
    match validate_stem(new_stem) {
        Ok(()) => {},
        Err(e) => {
            return Err(e);
        },
    }
    let parent = match src.parent() {
        Some(p) => p,
        None => {
            return Err(SaveError::NoParent);
        },
    };
    let dst = sibling(&parent, src, new_stem);
    if dst.same(src) {
        return Ok(dst);
    }
    if storage.is_file(&dst) {
        return Err(SaveError::Exists);
    }
    match storage.rename(src, &dst) {
        Ok(()) => Ok(dst),
        Err(e) => Err(SaveError::Io(e)),
    }
}

/// Delete a save file.
pub fn delete<S: Storage>(storage: &mut S, path: &StorePath) -> (r: Result<(), SaveError>)
    ensures
        r is Ok ==> final(storage).files() == old(storage).files().remove(path@),
        r is Err ==> r->Err_0 is Io,
{
    match storage.remove_file(path) {
        Ok(()) => Ok(()),
        Err(e) => Err(SaveError::Io(e)),
    }
}

/// Whether a name already ends in `.sav`.
pub open spec fn ends_with_sav(name: Seq<char>) -> bool {
    name.len() >= 4 && name.skip(name.len() - 4) == dot_sav()
}

/// The file a save named `name` is written to: the name itself when it
/// already ends in `.sav`, the name with `.sav` added otherwise.
pub open spec fn sav_file(name: Seq<char>) -> Seq<char> {
    if ends_with_sav(name) {
        name
    } else {
        name + dot_sav()
    }
}

/// Write a template's memory image to `saves_dir/<name>.sav`. The name
/// is taken as typed, with surrounding white space trimmed; an existing
/// file is refused. `sram` is the template's image with its checksum
/// already rebuilt.
pub fn create<S: Storage>(storage: &mut S, saves_dir: &StorePath, name: &str, sram: &[u8]) -> (r: Result<
    StorePath,
    SaveError,
>)
    ensures
        stem_check(trim_spec(name@)) is Err ==> r == Err::<StorePath, SaveError>(
            stem_check(trim_spec(name@))->Err_0,
        ),
        stem_check(trim_spec(name@)) is Ok && old(storage).files().contains_key(
            join_spec(saves_dir@, components(sav_file(trim_spec(name@)))),
        ) ==> r == Err::<StorePath, SaveError>(SaveError::Exists),
        r is Err && !(r->Err_0 is Io) ==> final(storage).files() == old(storage).files(),
        r is Err && r->Err_0 is Io ==> stem_check(trim_spec(name@)) is Ok && !old(
            storage,
        ).files().contains_key(join_spec(saves_dir@, components(sav_file(trim_spec(name@))))),
        r is Ok ==> stem_check(trim_spec(name@)) is Ok && r->Ok_0@ == join_spec(
            saves_dir@,
            components(sav_file(trim_spec(name@))),
        ) && final(storage).files() == old(storage).files().insert(r->Ok_0@, sram@),
{
    let cs = chars_of(name);
    let trimmed = trim_chars(&cs);
    let tname = string_from_chars(trimmed);
    match validate_stem(tname.as_str()) {
        Ok(()) => {},
        Err(e) => {
            return Err(e);
        },
    }
    let tc = chars_of(tname.as_str());
    let n = tc.len();
    let file: Vec<char> = if n >= 4 && tc[n - 4] == '.' && tc[n - 3] == 's' && tc[n - 2] == 'a' && tc[n
        - 1] == 'v' {
        assert(tc@.skip(n - 4) =~= dot_sav());
        tc
    } else {
        proof {
            if n >= 4 {
                assert(tc@.skip(n - 4)[0] == tc@[n - 4]);
                assert(tc@.skip(n - 4)[1] == tc@[n - 3]);
                assert(tc@.skip(n - 4)[2] == tc@[n - 2]);
                assert(tc@.skip(n - 4)[3] == tc@[n - 1]);
            }
        }
        with_sav(&tc)
    };
    assert(file@ == sav_file(trim_spec(name@)));
    let ftext = string_from_chars(file);
    let dst = saves_dir.join_str(ftext.as_str());
    if storage.is_file(&dst) {
        return Err(SaveError::Exists);
    }
    match storage.create_dir_all(saves_dir) {
        Ok(()) => {},
        Err(e) => {
            return Err(SaveError::Io(e));
        },
    }
    match storage.write(&dst, sram) {
        Ok(()) => {},
        Err(e) => {
            return Err(SaveError::Io(e));
        },
    }
    Ok(dst)
}

/// A character a file name cannot carry: the reserved punctuation and the
/// control characters.
pub open spec fn unfit(c: char) -> bool {
    c == '<' || c == '>' || c == ':' || c == '"' || c == '/' || c == '\\' || c == '|' || c == '?' || c
        == '*' || (c as u32) < 0x20
}

/// A word fit for a file name: not empty, no white space, nothing unfit.
pub open spec fn good_word(w: Seq<char>) -> bool {
    w.len() > 0 && forall|i: int| 0 <= i < w.len() ==> !is_ws(#[trigger] w[i]) && !unfit(w[i])
}

/// Text whose characters are all fit, with white space only as single
/// spaces between words.
pub open spec fn clean_text(r: Seq<char>) -> bool {
    &&& forall|k: int| 0 <= k < r.len() ==> !unfit(#[trigger] r[k])
    &&& r.len() > 0 ==> !is_ws(r[0]) && !is_ws(r.last())
    &&& forall|k: int|
        0 <= k < r.len() && is_ws(#[trigger] r[k]) ==> r[k] == ' ' && k + 1 < r.len() && !is_ws(r[k + 1])
}

proof fn lemma_split_chars(s: Seq<char>, sep: spec_fn(char) -> bool, fit: spec_fn(char) -> bool)
    requires
        forall|i: int| 0 <= i < s.len() ==> fit(#[trigger] s[i]),
    ensures
        forall|k: int, j: int|
            0 <= k < split_where(s, sep).len() && 0 <= j < split_where(s, sep)[k].len() ==> fit(
                #[trigger] split_where(s, sep)[k][j],
            ) && !sep(split_where(s, sep)[k][j]),
    decreases s.len(),
{
    if s.len() > 0 {
        assert forall|i: int| 0 <= i < s.drop_last().len() implies fit(#[trigger] s.drop_last()[i]) by {
            assert(s.drop_last()[i] == s[i]);
        }
        lemma_split_chars(s.drop_last(), sep, fit);
        crate::paths::lemma_split_nonempty(s.drop_last(), sep);
        let p = split_where(s.drop_last(), sep);
        assert(fit(s[s.len() - 1]));
        if !sep(s.last()) {
            let q = p.update(p.len() - 1, p.last().push(s.last()));
            assert forall|k: int, j: int| 0 <= k < q.len() && 0 <= j < q[k].len() implies fit(#[trigger] q[k][j])
                && !sep(q[k][j]) by {
                if k == p.len() - 1 && j == q[k].len() - 1 {
                    assert(q[k][j] == s.last());
                } else if k == p.len() - 1 {
                    assert(q[k][j] == p[k][j]);
                }
            }
        }
    }
}

proof fn lemma_nonempty_good(ps: Seq<Seq<char>>)
    requires
        forall|k: int, j: int| 0 <= k < ps.len() && 0 <= j < ps[k].len() ==> !is_ws(#[trigger] ps[k][j]) && !unfit(ps[k][j]),
    ensures
        forall|k: int| 0 <= k < nonempty(ps).len() ==> good_word(#[trigger] nonempty(ps)[k]),
    decreases ps.len(),
{
    if ps.len() > 0 {
        lemma_nonempty_good(ps.drop_last());
        let r = nonempty(ps.drop_last());
        if ps.last().len() > 0 {
            assert(good_word(ps.last())) by {
                assert forall|i: int| 0 <= i < ps.last().len() implies !is_ws(#[trigger] ps.last()[i]) && !unfit(ps.last()[i]) by {
                    assert(ps.last()[i] == ps[ps.len() - 1][i]);
                }
            }
            assert forall|k: int| 0 <= k < r.push(ps.last()).len() implies good_word(#[trigger] r.push(ps.last())[k]) by {
                if k < r.len() {
                    assert(r.push(ps.last())[k] == r[k]);
                }
            }
        }
    }
}

proof fn lemma_join_clean(ws: Seq<Seq<char>>)
    requires
        forall|k: int| 0 <= k < ws.len() ==> good_word(#[trigger] ws[k]),
    ensures
        clean_text(join_words(ws)),
        ws.len() > 0 ==> join_words(ws).len() > 0,
    decreases ws.len(),
{
    if ws.len() == 1 {
        assert(good_word(ws[0]));
    } else if ws.len() > 1 {
        let a = ws.drop_last();
        assert forall|k: int| 0 <= k < a.len() implies good_word(#[trigger] a[k]) by {
            assert(a[k] == ws[k]);
        }
        lemma_join_clean(a);
        let j = join_words(a);
        let w = ws.last();
        assert(good_word(w)) by {
            assert(ws[ws.len() - 1] == w);
        }
        let r = j + seq![' '] + w;
        assert(r == join_words(ws));
        assert forall|k: int| 0 <= k < r.len() implies !unfit(#[trigger] r[k]) by {
            if k < j.len() {
                assert(r[k] == j[k]);
            } else if k > j.len() {
                assert(r[k] == w[k - j.len() - 1]);
            }
        }
        assert(!is_ws(r.last())) by {
            assert(r.last() == w[w.len() - 1]);
        }
        assert(!is_ws(r[0])) by {
            assert(r[0] == j[0]);
        }
        assert forall|k: int| 0 <= k < r.len() && is_ws(#[trigger] r[k]) implies r[k] == ' ' && k + 1 < r.len()
            && !is_ws(r[k + 1]) by {
            if k < j.len() {
                assert(r[k] == j[k]);
                if k + 1 < j.len() {
                    assert(r[k + 1] == j[k + 1]);
                } else {
                    assert(!is_ws(j.last()));
                    assert(j[k] == j.last());
                }
            } else if k == j.len() {
                assert(r[k + 1] == w[0]);
            } else {
                assert(r[k] == w[k - j.len() - 1]);
            }
        }
    }
}

/// A sanitized name carries no character a file name cannot, and its only
/// white space is single spaces between words.
pub proof fn law_sanitized_names_are_clean(s: Seq<char>)
    ensures
        clean_text(sanitize_spec(s)),
{
    let cleaned = s.map_values(|c: char| clean_char(c));
    let fit = |c: char| !unfit(c);
    assert forall|i: int| 0 <= i < cleaned.len() implies fit(#[trigger] cleaned[i]) by {
        assert(cleaned[i] == clean_char(s[i]));
    }
    lemma_split_chars(cleaned, |c: char| is_ws(c), fit);
    let ps = split_where(cleaned, |c: char| is_ws(c));
    assert forall|k: int, j: int| 0 <= k < ps.len() && 0 <= j < ps[k].len() implies !is_ws(#[trigger] ps[k][j])
        && !unfit(ps[k][j]) by {
        assert(fit(ps[k][j]));
    }
    lemma_nonempty_good(ps);
    lemma_join_clean(nonempty(ps));
}

/// A stem that passes [`validate_stem`] keeps a duplicate or a rename in
/// the save's own folder: the target is that folder plus one name. (The
/// stem `.` is the exception: it names the folder itself, or, beside a
/// save whose extension is empty, `..`.)
pub proof fn law_valid_stem_stays_in_folder(src: Seq<CompView>, stem: Seq<char>)
    requires
        names_plain(src),
        parent_spec(src) is Some,
        stem_check(stem) is Ok,
        stem != seq!['.'],
    ensures
        exists|name: Seq<char>|
            target_spec(src, stem) == Some(parent_spec(src)->0.push(CompView::Normal(name))),
{
    let parent = parent_spec(src)->0;
    assert(stem != seq!['.', '.']) by {
        if stem == seq!['.', '.'] {
            let i: int = 0;
            assert(stem.subrange(i, i + seq!['.', '.'].len()) =~= seq!['.', '.']);
            assert(contains_seq(stem, seq!['.', '.']));
        }
    }
    let text = match file_name_spec(src) {
        Some(n) => match ext_of(n) {
            Some(ext) => stem + seq!['.'] + ext,
            None => stem,
        },
        None => stem,
    };
    match file_name_spec(src) {
        Some(n) => match ext_of(n) {
            Some(ext) => {
                assert(src[src.len() - 1] is Normal);
                assert(!n.contains('/'));
                lemma_last_dot_range(n);
                assert(!text.contains('/')) by {
                    if text.contains('/') {
                        let i = choose|i: int| 0 <= i < text.len() && text[i] == '/';
                        if i < stem.len() {
                            assert(stem[i] == '/');
                            assert(stem.contains('/'));
                        } else if i > stem.len() {
                            assert(ext[i - stem.len() - 1] == n[last_dot(n) + 1 + i - stem.len() - 1]);
                            assert(n.contains('/'));
                        }
                    }
                }
                assert(text != seq!['.']) by {
                    if text == seq!['.'] {
                        assert(text.len() == 1);
                    }
                }
                assert(text != seq!['.', '.']) by {
                    if text == seq!['.', '.'] {
                        assert(stem.len() == 1);
                        assert(stem[0] == text[0]);
                        assert(stem =~= seq!['.']);
                    }
                }
                lemma_components_of_name(text);
            },
            None => {
                lemma_components_of_name(stem);
            },
        },
        None => {
            lemma_components_of_name(stem);
        },
    }
    assert(target_spec(src, stem) == Some(parent.push(CompView::Normal(text))));
}

/// Accepting a suggested duplicate stem as it stands never collides: when
/// one of the candidates was free, the copy lands on no existing file.
pub proof fn law_suggested_duplicate_is_free(files: Map<Seq<CompView>, Seq<u8>>, src: Seq<CompView>, k: nat)
    requires
        parent_spec(src) is Some,
        first_free(|j: nat| copy_taken(files, src, copy_name(src_stem(src), j)), k, 1000),
        k < 1000,
    ensures
        !files.contains_key(target_spec(src, copy_name(src_stem(src), k))->0),
{
    let taken = |j: nat| copy_taken(files, src, copy_name(src_stem(src), j));
    assert(!taken(k));
}

/// The name [`free_name`] settles on names no existing save, unless it
/// gave up after every candidate was taken.
pub proof fn law_free_name_is_free(files: Map<Seq<CompView>, Seq<u8>>, dir: Seq<CompView>, base: Seq<char>, k: nat)
    requires
        first_free(|j: nat| sav_taken(files, dir, numbered(base, j)), k, 99),
        k < 99,
    ensures
        !sav_taken(files, dir, numbered(base, k)),
{
    let taken = |j: nat| sav_taken(files, dir, numbered(base, j));
    assert(!taken(k));
}

/// The saves the scan filed under `g`, in the order they were found:
/// every scanned file whose bytes `g`'s parser accepted.
pub open spec fn found_for(found: Seq<(StorePath, GameId)>, g: (Seq<char>, u8)) -> Seq<Seq<CompView>>
    decreases found.len(),
{
    if found.len() == 0 {
        Seq::empty()
    } else {
        let r = found_for(found.drop_last(), g);
        if found.last().1@ == g {
            r.push(found.last().0@)
        } else {
            r
        }
    }
}

/// Listed the way the save picker shows them: by extensionless name,
/// the whole path breaking ties.
pub open spec fn picker_sorted(s: Seq<Seq<CompView>>) -> bool {
    forall|i: int, j: int| 0 <= i < j < s.len() ==> !picker_lt(#[trigger] s[j], #[trigger] s[i])
}

proof fn lemma_found_absent(found: Seq<(StorePath, GameId)>, g: (Seq<char>, u8))
    requires
        forall|i: int| 0 <= i < found.len() ==> (#[trigger] found[i]).1@ != g,
    ensures
        found_for(found, g) == Seq::<Seq<CompView>>::empty(),
    decreases found.len(),
{
    if found.len() > 0 {
        assert(found.last() == found[found.len() - 1]);
        let d = found.drop_last();
        assert forall|i: int| 0 <= i < d.len() implies (#[trigger] d[i]).1@ != g by {
            assert(d[i] == found[i]);
        }
        lemma_found_absent(d, g);
    }
}

proof fn lemma_first_saves_at(s: Seq<(GameId, Vec<StorePath>)>, t: int)
    requires
        0 <= t < s.len(),
        forall|i: int, j: int| 0 <= i < j < s.len() ==> (#[trigger] s[i]).0@ != (#[trigger] s[j]).0@,
    ensures
        first_saves(s, s[t].0@) == paths_of(s[t].1@),
    decreases s.len(),
{
    if t > 0 {
        let d = s.drop_first();
        assert(s[0].0@ != s[t].0@);
        assert forall|i: int, j: int| 0 <= i < j < d.len() implies (#[trigger] d[i]).0@ != (#[trigger] d[j]).0@ by {
            assert(d[i] == s[i + 1] && d[j] == s[j + 1]);
        }
        assert(d[t - 1] == s[t]);
        lemma_first_saves_at(d, t - 1);
    }
}

proof fn lemma_first_saves_absent(s: Seq<(GameId, Vec<StorePath>)>, g: (Seq<char>, u8))
    requires
        forall|i: int| 0 <= i < s.len() ==> (#[trigger] s[i]).0@ != g,
    ensures
        first_saves(s, g) == Seq::<Seq<CompView>>::empty(),
    decreases s.len(),
{
    if s.len() > 0 {
        let d = s.drop_first();
        assert(s[0].0@ != g);
        assert forall|i: int| 0 <= i < d.len() implies (#[trigger] d[i]).0@ != g by {
            assert(d[i] == s[i + 1]);
        }
        lemma_first_saves_absent(d, g);
    }
}

/// Insert `p` into a list kept in picker order, after its equals.
fn insert_sorted(list: &mut Vec<StorePath>, p: StorePath)
    requires
        picker_sorted(paths_of(old(list)@)),
    ensures
        picker_sorted(paths_of(final(list)@)),
        paths_of(final(list)@).to_multiset() == paths_of(old(list)@).to_multiset().insert(p@),
        final(list)@.len() == old(list)@.len() + 1,
{
    let ghost s = paths_of(list@);
    let mut j: usize = 0;
    let mut done = false;
    while !done && j < list.len()
        invariant
            j <= list@.len(),
            s == paths_of(list@),
            forall|t: int| 0 <= t < j ==> !picker_lt(p@, #[trigger] s[t]),
            done ==> j < s.len() && picker_lt(p@, s[j as int]),
        decreases list@.len() + 1 - j - (if done { 1int } else { 0int }),
    {
        if picker_less(&p, &list[j]) {
            done = true;
        } else {
            j = j + 1;
        }
    }
    let ghost pv = p@;
    list.insert(j, p);
    proof {
        let n = s.insert(j as int, pv);
        assert(paths_of(list@) =~= n);
        s.insert_ensures(j as int, pv);
        vstd::seq_lib::to_multiset_insert(s, j as int, pv);
        assert forall|a: int, b: int| 0 <= a < b < n.len() implies !picker_lt(#[trigger] n[b], #[trigger] n[a]) by {
            if b < j {
                assert(n[a] == s[a] && n[b] == s[b]);
            } else if b == j {
                assert(n[a] == s[a]);
            } else if a == j {
                // `p` comes before s[j] (when the search stopped there), and
                // s[j] does not come after the later s[b - 1].
                assert(n[b] == s[b - 1]);
                if picker_lt(s[b - 1], pv) {
                    assert(j < s.len());
                    assert(done);
                    assert(picker_lt(pv, s[j as int]));
                    lemma_picker_transitive(s[b - 1], pv, s[j as int]);
                    if b - 1 == j {
                        lemma_picker_irreflexive(s[j as int]);
                    }
                }
            } else if a < j {
                assert(n[a] == s[a] && n[b] == s[b - 1]);
            } else {
                assert(n[a] == s[a - 1] && n[b] == s[b - 1]);
            }
        }
    }
}

/// The saves filed under `g`, in picker order.
fn saves_filed_under(found: &[(StorePath, GameId)], g: &GameId) -> (r: Vec<StorePath>)
    ensures
        picker_sorted(paths_of(r@)),
        paths_of(r@).to_multiset() == found_for(found@, g@).to_multiset(),
{
    let mut list: Vec<StorePath> = Vec::new();
    let mut i: usize = 0;
    assert(paths_of(list@) =~= Seq::<Seq<CompView>>::empty());
    assert(found_for(found@.take(0), g@) == Seq::<Seq<CompView>>::empty());
    while i < found.len()
        invariant
            i <= found@.len(),
            picker_sorted(paths_of(list@)),
            paths_of(list@).to_multiset() == found_for(found@.take(i as int), g@).to_multiset(),
        decreases found@.len() - i,
    {
        let ghost t = found@.take(i + 1);
        assert(t.drop_last() =~= found@.take(i as int));
        assert(t.last() == found@[i as int]);
        if same_game(&found[i].1, g) {
            let p = found[i].0.copy();
            let ghost pv = p@;
            insert_sorted(&mut list, p);
            proof {
                vstd::seq_lib::to_multiset_build(found_for(found@.take(i as int), g@), pv);
            }
        }
        i = i + 1;
    }
    assert(found@.take(i as int) =~= found@);
    list
}

pub open spec fn has_game(games: Seq<GameId>, g: (Seq<char>, u8)) -> bool {
    exists|a: int| 0 <= a < games.len() && (#[trigger] games[a])@ == g
}

pub open spec fn found_has(found: Seq<(StorePath, GameId)>, g: (Seq<char>, u8)) -> bool {
    exists|k: int| 0 <= k < found.len() && (#[trigger] found[k]).1@ == g
}

fn position_of(games: &Vec<GameId>, g: &GameId) -> (r: Option<usize>)
    ensures
        match r {
            Some(a) => a < games@.len() && games@[a as int]@ == g@,
            None => !has_game(games@, g@),
        },
{
    let mut k: usize = 0;
    while k < games.len()
        invariant
            k <= games@.len(),
            forall|a: int| 0 <= a < k ==> (#[trigger] games@[a])@ != g@,
        decreases games@.len() - k,
    {
        if same_game(&games[k], g) {
            return Some(k);
        }
        k = k + 1;
    }
    None
}

/// Each game some save was filed under, once, in the order first found.
fn games_found(found: &[(StorePath, GameId)]) -> (games: Vec<GameId>)
    ensures
        forall|a: int, b: int| 0 <= a < b < games@.len() ==> (#[trigger] games@[a])@ != (#[trigger] games@[b])@,
        forall|k: int| 0 <= k < found@.len() ==> has_game(games@, (#[trigger] found@[k]).1@),
        forall|a: int| 0 <= a < games@.len() ==> found_has(found@, #[trigger] games@[a]@),
{
    let mut games: Vec<GameId> = Vec::new();
    let mut i: usize = 0;
    while i < found.len()
        invariant
            i <= found@.len(),
            forall|a: int, b: int| 0 <= a < b < games@.len() ==> (#[trigger] games@[a])@ != (#[trigger] games@[b])@,
            forall|k: int| 0 <= k < i ==> has_game(games@, (#[trigger] found@[k]).1@),
            forall|a: int| 0 <= a < games@.len() ==> found_has(found@, #[trigger] games@[a]@),
        decreases found@.len() - i,
    {
        if position_of(&games, &found[i].1).is_none() {
            let ghost before = games@;
            games.push(copy_game(&found[i].1));
            proof {
                assert(games@[before.len() as int]@ == found@[i as int].1@);
                assert forall|k: int| 0 <= k < i + 1 implies has_game(games@, (#[trigger] found@[k]).1@) by {
                    if k < i {
                        assert(has_game(before, found@[k].1@));
                        let a = choose|a: int| 0 <= a < before.len() && (#[trigger] before[a])@ == found@[k].1@;
                        assert(games@[a] == before[a]);
                    } else {
                        assert(games@[before.len() as int]@ == found@[k].1@);
                    }
                }
                assert forall|a: int| 0 <= a < games@.len() implies found_has(found@, #[trigger] games@[a]@) by {
                    if a < before.len() {
                        assert(games@[a] == before[a]);
                    } else {
                        assert(found@[i as int].1@ == games@[a]@);
                    }
                }
                assert forall|a: int, b: int| 0 <= a < b < games@.len() implies (#[trigger] games@[a])@ != (#[trigger] games@[b])@ by {
                    if b == before.len() {
                        assert(games@[a] == before[a]);
                    } else {
                        assert(games@[a] == before[a] && games@[b] == before[b]);
                    }
                }
            }
        }
        i = i + 1;
    }
    games
}

/// File scanned saves by game: every save the scan found under each
/// game whose parser accepted it, each game's saves in picker order so a
/// default pick of the first agrees with what the picker shows first.
/// `found` pairs a save with one game that accepted it, in scan order.
pub fn scan_saves(found: &[(StorePath, GameId)]) -> (r: Vec<(GameId, Vec<StorePath>)>)
    ensures
        forall|g: (Seq<char>, u8)| #[trigger] first_saves(r@, g).to_multiset() == found_for(found@, g).to_multiset(),
        forall|g: (Seq<char>, u8)| picker_sorted(#[trigger] first_saves(r@, g)),
        forall|i: int, j: int| 0 <= i < j < r@.len() ==> (#[trigger] r@[i]).0@ != (#[trigger] r@[j]).0@,
        forall|i: int| 0 <= i < r@.len() ==> (#[trigger] r@[i]).1@.len() > 0,
{
    let games = games_found(found);
    let mut out: Vec<(GameId, Vec<StorePath>)> = Vec::new();
    let mut k: usize = 0;
    while k < games.len()
        invariant
            k <= games@.len(),
            out@.len() == k,
            forall|a: int, b: int| 0 <= a < b < games@.len() ==> (#[trigger] games@[a])@ != (#[trigger] games@[b])@,
            forall|t: int| 0 <= t < k ==> (#[trigger] out@[t]).0@ == games@[t]@,
            forall|t: int| 0 <= t < k ==> picker_sorted(paths_of((#[trigger] out@[t]).1@)),
            forall|t: int| 0 <= t < k ==> paths_of((#[trigger] out@[t]).1@).to_multiset() == found_for(found@, games@[t]@).to_multiset(),
            forall|t: int| 0 <= t < k ==> (#[trigger] out@[t]).1@.len() > 0,
            forall|a: int| 0 <= a < games@.len() ==> found_has(found@, #[trigger] games@[a]@),
        decreases games@.len() - k,
    {
        let list = saves_filed_under(found, &games[k]);
        proof {
            assert(found_has(found@, games@[k as int]@));
            let w = choose|w: int| 0 <= w < found@.len() && (#[trigger] found@[w]).1@ == games@[k as int]@;
            lemma_found_has(found@, w);
            vstd::seq_lib::to_multiset_len(found_for(found@, games@[k as int]@));
            vstd::seq_lib::to_multiset_len(paths_of(list@));
        }
        out.push((copy_game(&games[k]), list));
        k = k + 1;
    }
    proof {
        assert forall|a: int, b: int| 0 <= a < b < out@.len() implies (#[trigger] out@[a]).0@ != (#[trigger] out@[b]).0@ by {}
        assert forall|g: (Seq<char>, u8)| (#[trigger] first_saves(out@, g)).to_multiset() == found_for(found@, g).to_multiset()
            && picker_sorted(first_saves(out@, g)) by {
            if exists|t: int| 0 <= t < out@.len() && out@[t].0@ == g {
                let t = choose|t: int| 0 <= t < out@.len() && out@[t].0@ == g;
                lemma_first_saves_at(out@, t);
            } else {
                lemma_first_saves_absent(out@, g);
                assert forall|i: int| 0 <= i < found@.len() implies (#[trigger] found@[i]).1@ != g by {
                    assert(has_game(games@, found@[i].1@));
                    let a = choose|a: int| 0 <= a < games@.len() && (#[trigger] games@[a])@ == found@[i].1@;
                    assert(out@[a].0@ == games@[a]@);
                }
                lemma_found_absent(found@, g);
                assert(first_saves(out@, g) == found_for(found@, g));
            }
        }
    }
    out
}

proof fn lemma_found_has(found: Seq<(StorePath, GameId)>, w: int)
    requires
        0 <= w < found.len(),
    ensures
        found_for(found, found[w].1@).len() > 0,
    decreases found.len(),
{
    if w < found.len() - 1 {
        assert(found.drop_last()[w] == found[w]);
        lemma_found_has(found.drop_last(), w);
    }
}

} // verus!

verus! {

proof fn lemma_split_append(s: Seq<char>, t: Seq<char>, sep: spec_fn(char) -> bool)
    requires
        forall|i: int| 0 <= i < t.len() ==> !sep(#[trigger] t[i]),
    ensures
        split_where(s + t, sep) == split_where(s, sep).update(
            split_where(s, sep).len() - 1,
            split_where(s, sep).last() + t,
        ),
        split_where(s, sep).len() > 0,
    decreases t.len(),
{
    lemma_split_len(s, sep);
    if t.len() == 0 {
        assert(s + t =~= s);
        let p = split_where(s, sep);
        assert(p.update(p.len() - 1, p.last() + t) =~= p);
    } else {
        let t0 = t.drop_last();
        lemma_split_append(s, t0, sep);
        assert((s + t).drop_last() =~= s + t0);
        assert((s + t).last() == t.last());
        let p = split_where(s, sep);
        assert(split_where(s + t, sep) =~= p.update(p.len() - 1, p.last() + t0).update(
            p.len() - 1,
            (p.last() + t0).push(t.last()),
        ));
        assert((p.last() + t0).push(t.last()) =~= p.last() + t);
        assert(split_where(s + t, sep) =~= p.update(p.len() - 1, p.last() + t));
    }
}

proof fn lemma_split_len(s: Seq<char>, sep: spec_fn(char) -> bool)
    ensures
        split_where(s, sep).len() > 0,
    decreases s.len(),
{
    if s.len() > 0 {
        lemma_split_len(s.drop_last(), sep);
    }
}

proof fn lemma_split_join(ws: Seq<Seq<char>>)
    requires
        ws.len() > 0,
        forall|k: int| 0 <= k < ws.len() ==> good_word(#[trigger] ws[k]),
    ensures
        split_where(join_words(ws), |c: char| is_ws(c)) == ws,
    decreases ws.len(),
{
    let sep = |c: char| is_ws(c);
    let w = ws.last();
    assert(good_word(ws[ws.len() - 1]));
    assert forall|i: int| 0 <= i < w.len() implies !sep(#[trigger] w[i]) by {}
    if ws.len() == 1 {
        lemma_split_append(Seq::empty(), w, sep);
        assert(Seq::<char>::empty() + w =~= w);
        assert(split_where(Seq::<char>::empty(), sep) =~= seq![Seq::<char>::empty()]);
        assert(seq![Seq::<char>::empty()].update(0, Seq::<char>::empty() + w) =~= ws);
    } else {
        let d = ws.drop_last();
        assert forall|k: int| 0 <= k < d.len() implies good_word(#[trigger] d[k]) by {
            assert(d[k] == ws[k]);
        }
        lemma_split_join(d);
        let j = join_words(d);
        let js = j + seq![' '];
        assert(js.drop_last() =~= j);
        assert(js.last() == ' ');
        assert(is_ws(' '));
        assert(split_where(js, sep) == d.push(Seq::<char>::empty()));
        lemma_split_append(js, w, sep);
        assert(join_words(ws) == js + w);
        assert(d.push(Seq::<char>::empty()).update(d.len() as int, Seq::<char>::empty() + w) =~= ws);
        assert(Seq::<char>::empty() + w =~= w);
    }
}

proof fn lemma_nonempty_words(ws: Seq<Seq<char>>)
    requires
        forall|k: int| 0 <= k < ws.len() ==> good_word(#[trigger] ws[k]),
    ensures
        nonempty(ws) == ws,
    decreases ws.len(),
{
    if ws.len() > 0 {
        let d = ws.drop_last();
        assert forall|k: int| 0 <= k < d.len() implies good_word(#[trigger] d[k]) by {
            assert(d[k] == ws[k]);
        }
        lemma_nonempty_words(d);
        assert(good_word(ws[ws.len() - 1]));
        assert(d.push(ws.last()) =~= ws);
    }
}

/// Sanitizing is done once: a sanitized name is its own sanitized form,
/// and it carries no unfit character, no leading or trailing white space,
/// and single spaces between its words.
pub proof fn law_sanitizing_twice_changes_nothing(s: Seq<char>)
    ensures
        sanitize_spec(sanitize_spec(s)) == sanitize_spec(s),
        clean_text(sanitize_spec(s)),
{
    law_sanitized_names_are_clean(s);
    let cleaned = s.map_values(|c: char| clean_char(c));
    let fit = |c: char| !unfit(c);
    assert forall|i: int| 0 <= i < cleaned.len() implies fit(#[trigger] cleaned[i]) by {
        assert(cleaned[i] == clean_char(s[i]));
    }
    lemma_split_chars(cleaned, |c: char| is_ws(c), fit);
    let ps = split_where(cleaned, |c: char| is_ws(c));
    assert forall|k: int, j: int| 0 <= k < ps.len() && 0 <= j < ps[k].len() implies !is_ws(#[trigger] ps[k][j])
        && !unfit(ps[k][j]) by {
        assert(fit(ps[k][j]));
    }
    lemma_nonempty_good(ps);
    let ws = nonempty(ps);
    let r = join_words(ws);
    assert(r == sanitize_spec(s));
    let rm = r.map_values(|c: char| clean_char(c));
    assert(rm =~= r) by {
        assert forall|i: int| 0 <= i < r.len() implies #[trigger] rm[i] == r[i] by {
            assert(!unfit(r[i]));
        }
    }
    if ws.len() > 0 {
        lemma_split_join(ws);
        lemma_nonempty_words(ws);
    } else {
        assert(r =~= Seq::<char>::empty());
        assert(split_where(r, |c: char| is_ws(c)) =~= seq![Seq::<char>::empty()]);
        let one = seq![Seq::<char>::empty()];
        assert(one.drop_last() =~= Seq::<Seq<char>>::empty());
        assert(one.last().len() == 0);
        assert(nonempty(one) == nonempty(one.drop_last()));
        assert(nonempty(one) =~= Seq::<Seq<char>>::empty());
    }
}

} // verus!
