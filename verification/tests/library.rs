use tango::http::{classify_status, expected_total, Error as HttpError, Fetch, Request, StatusVerdict, Transfer};
use tango::patch;
use tango::paths::StorePath;
use tango::replays::{format_rel_path, scan_replays, ReplayHeader};
use tango::rom;
use tango::save::{
    create, delete, duplicate, free_name, rename, sanitize_filename, suggest_duplicate_stem, suggest_name,
    validate_stem, SaveError,
};
use tango::stats::stats_path;
use tango::scanner::Scanner;
use tango::storage::{read_opt, write_atomic, Entry, Listing, Memory, Storage, StorageError};
use tango::tree::{snapshot_files, TreeError, TreeLimits};

fn p(s: &str) -> StorePath {
    StorePath::parse(s)
}

#[test]
fn names_are_sanitized_validated_and_disambiguated() {
    assert_eq!(sanitize_filename(" a:b/c\u{1}  d "), "a b c d");
    assert_eq!(suggest_name("BN6: Gregar", Some("Heat/Guts")), "BN6 Gregar - Heat Guts");
    assert_eq!(suggest_name("BN6", None), "BN6");
    assert!(matches!(validate_stem(""), Err(SaveError::EmptyName)));
    for bad in ["a/b", "a\\b", ".."] {
        assert!(matches!(validate_stem(bad), Err(SaveError::InvalidName)));
    }

    let mut files = Memory::default();
    let dir = p("/saves");
    assert_eq!(free_name(&files, &dir, "x"), "x");
    files.write(&dir.join_str("x.sav"), b"1").unwrap();
    files.write(&dir.join_str("x 2.sav"), b"1").unwrap();
    assert_eq!(free_name(&files, &dir, "x"), "x 3");
    assert_eq!(suggest_duplicate_stem(&files, &dir.join_str("x.sav")), "x (copy)");
    files.write(&dir.join_str("x (copy).sav"), b"1").unwrap();
    assert_eq!(suggest_duplicate_stem(&files, &dir.join_str("x.sav")), "x (copy 2)");
}

#[test]
fn duplicate_rename_and_delete_go_through_storage() {
    let mut files = Memory::default();
    let src = p("/saves/a.sav");
    files.write(&src, b"save").unwrap();

    let copy = duplicate(&mut files, &src, "b").unwrap();
    assert!(copy.same(&p("/saves/b.sav")));
    assert_eq!(files.read(&copy).unwrap(), b"save");
    assert!(matches!(duplicate(&mut files, &src, "b"), Err(SaveError::Exists)));
    assert!(matches!(duplicate(&mut files, &src, "a"), Err(SaveError::Exists)));

    assert!(rename(&mut files, &src, "a").unwrap().same(&src));
    assert!(matches!(rename(&mut files, &src, "b"), Err(SaveError::Exists)));
    let renamed = rename(&mut files, &src, "c").unwrap();
    assert!(!files.is_file(&src));
    assert_eq!(files.read(&renamed).unwrap(), b"save");

    delete(&mut files, &renamed).unwrap();
    assert!(!files.is_file(&renamed));
}

#[test]
fn sanitizing_keeps_unicode_and_collapses_every_kind_of_space() {
    assert_eq!(sanitize_filename("\u{3000}ロックマン\t<エグゼ>\u{a0}6 "), "ロックマン エグゼ 6");
    assert_eq!(sanitize_filename("   "), "");
    assert_eq!(sanitize_filename("a|b?c*d\"e"), "a b c d e");
    assert_eq!(suggest_name("", Some("")), "-");
}

#[test]
fn free_name_gives_up_at_ninety_nine() {
    let mut files = Memory::default();
    let dir = p("/saves");
    files.write(&dir.join_str("y.sav"), b"1").unwrap();
    for n in 2..99 {
        files.write(&dir.join_str(&format!("y {n}.sav")), b"1").unwrap();
    }
    assert_eq!(free_name(&files, &dir, "y"), "y 99");
}

#[test]
fn a_save_without_a_parent_cannot_be_copied() {
    let mut files = Memory::default();
    let root = p("/");
    assert!(matches!(duplicate(&mut files, &root, "b"), Err(SaveError::NoParent)));
    assert!(matches!(rename(&mut files, &root, "b"), Err(SaveError::NoParent)));
    assert!(matches!(duplicate(&mut files, &p("/saves/a.sav"), "x/y"), Err(SaveError::InvalidName)));
    let missing = duplicate(&mut files, &p("/saves/a.sav"), "b");
    assert!(matches!(missing, Err(SaveError::Io(StorageError::NotFound))));
}

#[test]
fn duplicates_keep_the_extension_and_copies_number_on() {
    let mut files = Memory::default();
    files.write(&p("/s/game.sav"), b"g").unwrap();
    files.write(&p("/s/game (copy).sav"), b"g").unwrap();
    files.write(&p("/s/game (copy 2).sav"), b"g").unwrap();
    assert_eq!(suggest_duplicate_stem(&files, &p("/s/game.sav")), "game (copy 3)");
    let copy = duplicate(&mut files, &p("/s/game.sav"), "other").unwrap();
    assert_eq!(copy.to_string(), "/s/other.sav");
    files.write(&p("/s/noext"), b"n").unwrap();
    let copy = duplicate(&mut files, &p("/s/noext"), "plain").unwrap();
    assert_eq!(copy.to_string(), "/s/plain");
}

#[test]
fn create_writes_the_template_once() {
    let mut files = Memory::default();
    let dir = p("/saves");
    let made = create(&mut files, &dir, "  new  ", b"sram").unwrap();
    assert_eq!(made.to_string(), "/saves/new.sav");
    assert_eq!(files.read(&made).unwrap(), b"sram");
    assert!(matches!(create(&mut files, &dir, "new.sav", b"other"), Err(SaveError::Exists)));
    assert!(matches!(create(&mut files, &dir, "   ", b"x"), Err(SaveError::EmptyName)));
    assert!(matches!(create(&mut files, &dir, "../up", b"x"), Err(SaveError::InvalidName)));
    assert_eq!(files.len(), 1);
}

fn limits() -> TreeLimits {
    TreeLimits {
        bytes: 1024,
        entries: 32,
        depth: 8,
    }
}

#[test]
fn virtual_snapshot_bounds_and_path_isolation() {
    let files = vec![
        (p("root/a.txt"), b"inside".to_vec()),
        (p("root/sub/素材 file.txt"), b"nested".to_vec()),
        (p("root-sibling/secret"), b"outside".to_vec()),
    ];
    let root = p("root");
    let snapshot = snapshot_files(&root, &files, limits()).unwrap();
    assert_eq!(snapshot.len(), 2);
    assert_eq!(snapshot.get("sub/素材 file.txt").unwrap(), b"nested");
    assert!(snapshot_files(&root, &files, TreeLimits { bytes: 5, ..limits() }).is_err());
    assert!(snapshot_files(&root, &files, TreeLimits { entries: 1, ..limits() }).is_err());
    assert!(snapshot_files(&root, &files, TreeLimits { depth: 1, ..limits() }).is_err());
    assert!(snapshot_files(&root, &[(p("root/../escape"), b"x".to_vec())], limits()).is_err());
}

#[test]
fn snapshot_failures_name_their_cause() {
    let root = p("root");
    let files = vec![(p("root/a"), b"12345".to_vec())];
    assert_eq!(
        snapshot_files(&root, &files, TreeLimits { bytes: 4, ..limits() }).err(),
        Some(TreeError::TooManyBytes)
    );
    assert_eq!(
        snapshot_files(&root, &files, TreeLimits { entries: 0, ..limits() }).err(),
        Some(TreeError::Limits)
    );
    let dup = vec![(p("root/a"), b"1".to_vec()), (p("root//a"), b"2".to_vec())];
    assert_eq!(snapshot_files(&root, &dup, limits()).err(), Some(TreeError::Duplicate));
    let colon = vec![(p("root/c:d"), b"1".to_vec())];
    assert_eq!(snapshot_files(&root, &colon, limits()).err(), Some(TreeError::InvalidPath));
    let long = vec![(p(&format!("root/{}", "x".repeat(241))), b"1".to_vec())];
    assert_eq!(snapshot_files(&root, &long, limits()).err(), Some(TreeError::Limits));
    let exact = vec![(p("root/a/b"), b"1".to_vec())];
    let tree = snapshot_files(&root, &exact, TreeLimits { depth: 2, ..limits() }).unwrap();
    assert!(tree.contains("a/b"));
    assert!(!tree.contains("a"));
}

#[test]
fn atomic_writes_leave_no_temporary() {
    let mut store = Memory::default();
    let path = p("/cache/replay-stats/x.stats");
    write_atomic(&mut store, &path, b"data").unwrap();
    assert_eq!(store.len(), 1);
    assert_eq!(read_opt(&store, &path).unwrap(), Some(b"data".to_vec()));
    assert_eq!(read_opt(&store, &p("/cache/missing")).unwrap(), None);
    assert!(write_atomic(&mut store, &p("/"), b"x").is_err());
    assert!(matches!(store.rename(&p("/nope"), &path), Err(StorageError::NotFound)));
    assert_eq!(store.read(&path).unwrap(), b"data");
}

#[test]
fn stats_live_beside_a_mirror_of_the_replays_tree() {
    let (cache, root) = (p("/cache"), p("/replays"));
    let nested = stats_path(&cache, &root, &p("/replays/nested/match.tangoreplay"));
    assert_eq!(nested.to_string(), "/cache/replay-stats/nested/match.tangoreplay.stats");
    let outside = stats_path(&cache, &root, &p("/elsewhere/match.tangoreplay"));
    assert_eq!(outside.to_string(), "/cache/replay-stats/match.tangoreplay.stats");
    let itself = stats_path(&cache, &root, &root);
    assert_eq!(itself.to_string(), "/cache/replay-stats/.stats");
}

#[test]
fn replay_paths_read_relative_to_the_root() {
    let root = p("/replays");
    assert_eq!(format_rel_path(&root, &p("/replays/a/b")), "/a/b/");
    assert_eq!(format_rel_path(&root, &root), "/");
    assert_eq!(format_rel_path(&root, &p("/other/x")), "//other/x/");
}

#[test]
fn paths_compare_by_components() {
    assert!(p("/a//b/./c/").same(&p("/a/b/c")));
    assert!(!p("/a/b").same(&p("a/b")));
    assert_eq!(p("./x/../y").to_string(), "./x/../y");
    assert_eq!(p("a").join(&p("/b")).to_string(), "/b");
    assert_eq!(p("a").join(&p("./b")).to_string(), "a/b");
    assert_eq!(p("/saves/x.tar.gz").file_stem().unwrap(), "x.tar");
    assert_eq!(p("/saves/x.tar.gz").extension().unwrap(), "gz");
    assert_eq!(p("/saves/.hidden").file_stem().unwrap(), ".hidden");
    assert_eq!(p("/saves/.hidden").extension(), None);
    assert!(p("/").parent().is_none());
    assert_eq!(p("/a").parent().unwrap().to_string(), "/");
    assert_eq!(p("/a/b.sav").with_file_name("c.sav").to_string(), "/a/c.sav");
    assert!(p("/a/b").strip_prefix(&p("/a/c")).is_none());
    assert!(p("/a/b").starts_with(&p("/a")));
}

#[test]
fn scan_roots_name_every_directory_read() {
    let roots = rom::scan_roots(&p("/roms"), &[p("/steam/vol1.dat")]);
    assert_eq!(roots.len(), 2);
    assert!(roots[0].same(&p("/roms")));
    assert!(roots[1].same(&p("/steam/vol1.dat")));
    let patches = patch::scan_roots(&p("/patches"));
    assert_eq!(patches.len(), 1);
    assert!(patches[0].same(&p("/patches")));
    assert_eq!(patch::Outcome::Installed, patch::Outcome::Installed);
}

#[test]
fn a_transfer_stops_at_its_cap() {
    let request = Request::new("https://example.invalid/index.json");
    assert_eq!(request.url, "https://example.invalid/index.json");
    assert!(request.max_len.is_none() && request.if_none_match.is_none() && request.on_progress.is_none());

    assert_eq!(classify_status(304), StatusVerdict::NotModified);
    assert_eq!(classify_status(404), StatusVerdict::Failed(404));
    assert_eq!(classify_status(200), StatusVerdict::Proceed);
    assert_eq!(expected_total(None, Some(10)), 10);
    assert_eq!(expected_total(Some(3), Some(10)), 3);
    assert_eq!(expected_total(None, None), 0);

    let mut t = Transfer::new(Some(5), 5);
    assert!(t.accept(b"abc").is_ok());
    assert_eq!(t.progress(), (3, 5));
    assert_eq!(t.accept(b"def"), Err(HttpError::TooLarge { limit: 5 }));
    assert!(t.accept(b"de").is_ok());
    match t.finish(Some("tag".to_string())) {
        Fetch::Body { etag, body } => {
            assert_eq!(etag.as_deref(), Some("tag"));
            assert_eq!(body, b"abcde");
        }
        other => panic!("unexpected {other:?}"),
    }
}

use tango::config::{default_patch_repo, settle_settings, Config, SettingsLoad, DEFAULT_MATCHMAKING_ENDPOINT, DEFAULT_PATCH_REPO};

#[test]
fn config_paths_derive_from_the_data_root() {
    let mut config = Config::with_data_path(p("/tango"));
    assert_eq!(config.roms_path().to_string(), "/tango/roms");
    assert_eq!(config.saves_path().to_string(), "/tango/saves");
    assert_eq!(config.patches_path().to_string(), "/tango/patches");
    assert_eq!(config.replays_path().to_string(), "/tango/replays");
    assert_eq!(config.cache_path().to_string(), "/tango/cache");
    config.cache_dir = Some(p("/var/cache/tango"));
    assert_eq!(config.cache_path().to_string(), "/var/cache/tango");
    assert_eq!(config.matchmaking_endpoint, DEFAULT_MATCHMAKING_ENDPOINT);
    assert_eq!(config.patch_repo_url(), DEFAULT_PATCH_REPO);
    config.patch_repo = "https://example.invalid/patches".to_string();
    assert_eq!(config.patch_repo_url(), "https://example.invalid/patches");
    config.patch_repo = String::new();
    assert_eq!(config.patch_repo_url(), default_patch_repo());
    assert_eq!(Config::default().data_path.to_string(), "./tango-data");
}

#[test]
fn data_relative_paths_round_trip() {
    let config = Config::with_data_path(p("/tango"));
    let save = p("/tango/saves/bn6/a.sav");
    let rel = config.data_relative_string(&save).unwrap();
    assert_eq!(rel, "saves/bn6/a.sav");
    assert!(config.data_relative_to_absolute(&rel).same(&save));
    assert!(config.data_relative_string(&p("/elsewhere/a.sav")).is_none());
    assert!(config.data_relative_to_absolute("saves//x/").same(&p("/tango/saves/x")));
}

#[test]
fn a_settings_file_that_does_not_parse_is_parked() {
    let mut store = Memory::default();
    let path = p("/config.json");
    store.write(&path, b"{ not json").unwrap();
    let read = read_opt(&store, &path);
    assert_eq!(settle_settings(&mut store, &path, &read, false, b"{\"d\":1}"), SettingsLoad::DefaultsPersisted);
    assert_eq!(store.read(&path).unwrap(), b"{\"d\":1}");
    assert_eq!(store.read(&p("/config.json.bad")).unwrap(), b"{ not json");
    store.remove_file(&path).unwrap();
    let read = read_opt(&store, &path);
    assert_eq!(settle_settings(&mut store, &path, &read, false, b"{}"), SettingsLoad::DefaultsPersisted);
    assert_eq!(store.read(&path).unwrap(), b"{}");
    let before = store.len();
    assert_eq!(
        settle_settings(&mut store, &path, &Err(StorageError::Other("denied".into())), false, b"x"),
        SettingsLoad::DefaultsOnly
    );
    assert_eq!(settle_settings(&mut store, &path, &Ok(Some(b"{}".to_vec())), true, b"x"), SettingsLoad::Parsed);
    assert_eq!(store.len(), before);
    assert_eq!(store.read(&path).unwrap(), b"{}");
    tango::config::save_serialized(&mut store, &path, b"{}").unwrap();
    assert_eq!(store.read(&path).unwrap(), b"{}");
}

use std::cmp::Ordering;
use tango::save::picker::picker_order;
use tango::save::scan_saves;

fn gid(variant: u8) -> tango::loadout::GameId {
    tango::loadout::GameId {
        family: "bn6".to_string(),
        variant,
    }
}

#[test]
fn the_save_picker_lists_variant_first_then_folders_then_stems() {
    let root = StorePath::parse("/saves");
    let order = |a: (u8, &str), b: (u8, &str)| {
        picker_order(
            &root,
            (&gid(a.0), &StorePath::parse(a.1)),
            (&gid(b.0), &StorePath::parse(b.1)),
        )
    };
    assert_eq!(order((1, "/saves/a.sav"), (0, "/saves/z.sav")), Ordering::Greater);
    assert_eq!(order((0, "/saves/folder/x.sav"), (0, "/saves/a.sav")), Ordering::Less);
    assert_eq!(order((0, "/saves/a.sav"), (0, "/saves/folder/x.sav")), Ordering::Greater);
    assert_eq!(order((0, "/saves/Blue.sav"), (0, "/saves/Blue Moon.sav")), Ordering::Less);
    assert_eq!(order((0, "/saves/a.sav"), (0, "/saves/a.bak")), Ordering::Greater);
    assert_eq!(order((0, "/saves/b/x.sav"), (0, "/saves/a/y.sav")), Ordering::Greater);
    assert_eq!(order((0, "/saves/a/x.sav"), (0, "/saves/a/x.sav")), Ordering::Equal);
    assert_eq!(order((0, "/saves/a"), (0, "/saves/a/x.sav")), Ordering::Less);
    assert_eq!(order((0, "/elsewhere/a.sav"), (0, "/saves/a.sav")), Ordering::Less);
}

#[test]
fn scanned_saves_are_filed_per_game_in_picker_order() {
    let found = vec![
        (StorePath::parse("/saves/b.sav"), gid(0)),
        (StorePath::parse("/saves/shared.sav"), gid(0)),
        (StorePath::parse("/saves/shared.sav"), gid(1)),
        (StorePath::parse("/saves/a.sav"), gid(0)),
        (StorePath::parse("/x/c.sav"), gid(1)),
    ];
    let filed = scan_saves(&found);
    assert_eq!(filed.len(), 2);
    assert_eq!(filed[0].0, gid(0));
    assert_eq!(
        filed[0].1,
        vec![
            StorePath::parse("/saves/a.sav"),
            StorePath::parse("/saves/b.sav"),
            StorePath::parse("/saves/shared.sav")
        ]
    );
    assert_eq!(filed[1].0, gid(1));
    assert_eq!(
        filed[1].1,
        vec![StorePath::parse("/x/c.sav"), StorePath::parse("/saves/shared.sav")]
    );
    assert!(scan_saves(&[]).is_empty());
}

fn entry(path: &str, len: u64, modified: Option<u64>) -> Entry {
    Entry {
        path: StorePath::parse(path),
        len,
        modified,
    }
}

#[test]
fn listings_of_the_same_files_agree_whatever_the_walk_order() {
    let a = Listing::new(vec![
        entry("/saves/b.sav", 2, Some(5)),
        entry("/saves/a.sav", 9, None),
        entry("/saves/a.sav", 1, Some(3)),
        entry("/saves/a.sav", 1, None),
    ]);
    let b = Listing::new(vec![
        entry("/saves/a.sav", 1, None),
        entry("/saves/a.sav", 9, None),
        entry("/saves/b.sav", 2, Some(5)),
        entry("/saves/a.sav", 1, Some(3)),
    ]);
    assert!(a.same(&b));
    assert!(a == b);
    assert_eq!(
        a.entries(),
        &[
            entry("/saves/a.sav", 1, None),
            entry("/saves/a.sav", 1, Some(3)),
            entry("/saves/a.sav", 9, None),
            entry("/saves/b.sav", 2, Some(5)),
        ]
    );
    assert!(!a.is_empty());
    assert!(Listing::new(Vec::new()).is_empty());
    assert!(!a.same(&Listing::new(vec![entry("/saves/a.sav", 1, None)])));
}

#[test]
fn rescans_skip_unchanged_listings_and_scans_in_flight() {
    let listing = Listing::new(vec![entry("/roms/a.gba", 4, Some(1))]);
    let mut scanner: Scanner<Vec<u8>> = Scanner::new();
    assert!(scanner.read().is_empty());
    assert!(scanner.begin_rescan_if_changed(&listing));
    // A scan already in flight wins.
    assert!(!scanner.begin_rescan());
    assert!(!scanner.begin_rescan_if_changed(&listing));
    scanner.finish_rescan_if_changed(Some(vec![1, 2]), listing.clone());
    assert_eq!(scanner.read(), &vec![1, 2]);
    // Nothing changed on disk: skipped.
    assert!(!scanner.begin_rescan_if_changed(&Listing::new(vec![entry("/roms/a.gba", 4, Some(1))])));
    // Something did: scanned, and a failed scan keeps the old items.
    let touched = Listing::new(vec![entry("/roms/a.gba", 4, Some(2))]);
    assert!(scanner.begin_rescan_if_changed(&touched));
    scanner.finish_rescan_if_changed(None, touched.clone());
    assert_eq!(scanner.read(), &vec![1, 2]);
    assert!(scanner.begin_rescan_if_changed(&touched));
    scanner.finish_rescan_if_changed(Some(vec![3]), touched.clone());
    assert!(!scanner.begin_rescan_if_changed(&touched));
    // An ungated rescan always runs when nothing is in flight.
    assert!(scanner.begin_rescan());
    scanner.finish_rescan(Some(vec![4]));
    assert_eq!(scanner.read(), &vec![4]);
    assert!(!scanner.begin_rescan_if_changed(&touched));
}

fn header(path: &str, ts: u64, code: &str) -> ReplayHeader {
    ReplayHeader {
        path: StorePath::parse(path),
        local_player_index: 0,
        ts,
        link_code: code.to_string(),
    }
}

#[test]
fn the_replay_index_lists_newest_first_and_hides_the_unplayable() {
    let index = scan_replays(vec![
        (header("/replays/old.tangoreplay", 10, "a"), true),
        (header("/replays/gone.tangoreplay", 99, "z"), false),
        (header("/replays/b.tangoreplay", 20, "b"), true),
        (header("/replays/a.tangoreplay", 20, "a"), true),
    ]);
    let paths: Vec<StorePath> = index.iter().map(|h| h.path.clone()).collect();
    assert_eq!(
        paths,
        vec![
            StorePath::parse("/replays/a.tangoreplay"),
            StorePath::parse("/replays/b.tangoreplay"),
            StorePath::parse("/replays/old.tangoreplay"),
        ]
    );
    assert!(scan_replays(Vec::new()).is_empty());
}

struct StopAfter(std::sync::Mutex<Vec<(u64, u64)>>, u64);

impl tango::http::ProgressCallback for StopAfter {
    fn call(&self, downloaded: u64, total: u64) -> bool {
        self.0.lock().unwrap().push((downloaded, total));
        downloaded < self.1
    }
}

#[test]
fn progress_is_reported_after_each_chunk_and_a_no_cancels() {
    let cb = StopAfter(std::sync::Mutex::new(Vec::new()), 4);
    let mut t = Transfer::new(Some(10), 10);
    assert!(t.report(Some(&cb)).is_none());
    assert!(t.receive(Ok(b"ab".to_vec()), Some(&cb)).is_none());
    assert!(matches!(t.receive(Ok(b"cd".to_vec()), Some(&cb)), Some(Ok(Fetch::Cancelled))));
    assert_eq!(*cb.0.lock().unwrap(), vec![(0, 10), (2, 10), (4, 10)]);
    assert_eq!(
        t.receive(Err(HttpError::Timeout), None).map(|r| r.err()),
        Some(Some(HttpError::Timeout))
    );
    assert!(matches!(t.receive(Ok(vec![0; 7]), None), Some(Err(HttpError::TooLarge { limit: 10 }))));
    assert!(t.receive(Ok(b"e".to_vec()), None).is_none());
}

#[test]
fn a_later_image_of_a_game_replaces_an_earlier() {
    let g = |v: u8| tango::loadout::GameId { family: "bn6".to_string(), variant: v };
    let roms = tango::rom::file_roms(vec![(g(0), vec![1]), (g(1), vec![2]), (g(0), vec![3])]);
    assert_eq!(roms.len(), 2);
    assert!(roms.contains(&(g(0), vec![3])));
    assert!(roms.contains(&(g(1), vec![2])));
}

#[test]
fn sanitizing_a_sanitized_name_changes_nothing() {
    let once = tango::save::sanitize_filename("  a<b   c:\td  ");
    assert_eq!(once, "a b c d");
    assert_eq!(tango::save::sanitize_filename(&once), once);
}

fn game(f: &str, v: u8) -> tango::loadout::GameId {
    tango::loadout::GameId { family: f.to_string(), variant: v }
}

#[test]
fn a_selected_patch_that_does_not_apply_never_falls_back_to_the_clean_rom() {
    let roms = rom::file_roms(vec![(game("bn6", 0), b"clean".to_vec()), (game("bn6", 1), b"other".to_vec())]);
    assert_eq!(rom::clean_rom(&roms, &game("bn6", 0)).unwrap(), b"clean".to_vec());
    assert!(matches!(rom::clean_rom(&roms, &game("bn5", 0)),
        Err(rom::LoadError::MissingRom { ref family, variant: 0 }) if family == "bn5"));
    let version = semver::Version::new(1, 0, 0);
    assert_eq!(rom::patched_rom("fix", &version, Ok(b"patched".to_vec())).unwrap(), b"patched".to_vec());
    assert!(matches!(rom::patched_rom("missing", &version, Err("not installed".to_string())),
        Err(rom::LoadError::Patch { ref name, ref message, .. }) if name == "missing" && message == "not installed"));
}

#[test]
fn a_package_is_fetched_from_its_index_path_capped_at_its_size() {
    assert_eq!(patch::download_url("https://x.test/patches//", "a/b.tangopatch"), "https://x.test/patches/a/b.tangopatch");
    assert_eq!(patch::download_url("https://x.test", "p.tangopatch"), "https://x.test/p.tangopatch");
    let url = patch::download_url("https://x.test/", "p.tangopatch");
    let request = patch::download_request(&url, 42, None);
    assert_eq!(request.url, "https://x.test/p.tangopatch");
    assert_eq!(request.max_len, Some(42));
    assert!(request.if_none_match.is_none());
    assert!(request.on_progress.is_none());
}

#[test]
fn a_bad_patch_name_is_refused_before_any_request() {
    assert!(matches!(patch::download_target(Err("has a slash".to_string()), "https://x.test", "p"),
        Err(patch::DownloadError::BadName(ref m)) if m == "has a slash"));
    assert_eq!(patch::download_target(Ok(()), "https://x.test/", "p.tangopatch").unwrap(), "https://x.test/p.tangopatch");
}
