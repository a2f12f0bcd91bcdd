use tango::config::{last_patch_for, last_save_for, Config};
use tango::loadout::selection::{Error, Selection};
use tango::loadout::{compatibility_facts, GameId, LibraryIndex, PatchVersionInfo, PatchVersions, RegisteredGame};
use tango::lobby::protocol::{GameInfo, PatchInfo, Settings};
use tango::paths::StorePath;
use tango::storage::{Memory, Storage, StorageError};

fn p(s: &str) -> StorePath {
    StorePath::parse(s)
}

fn v100() -> semver::Version {
    semver::Version::new(1, 0, 0)
}

fn game_in(family: &str, variant: u8) -> GameId {
    GameId {
        family: family.to_string(),
        variant,
    }
}

fn game(variant: u8) -> GameId {
    game_in("test", variant)
}

/// Scanned saves grouped by game, each game's saves in scan order.
fn by_game(saves: &[(GameId, &str)]) -> Vec<(GameId, Vec<StorePath>)> {
    let mut out: Vec<(GameId, Vec<StorePath>)> = Vec::new();
    for (g, path) in saves {
        match out.iter_mut().find(|e| e.0 == *g) {
            Some(e) => e.1.push(p(path)),
            None => out.push((g.clone(), vec![p(path)])),
        }
    }
    out
}

fn registry(family: &str) -> Vec<RegisteredGame> {
    vec![
        RegisteredGame {
            game: game_in(family, 0),
            sim_version: 7,
        },
        RegisteredGame {
            game: game_in(family, 1),
            sim_version: 7,
        },
    ]
}

/// A library owning both test variants, with `saves` scanned and one
/// installed patch "p" 1.0.0 that supports `patch_games`.
fn catalog(saves: &[(u8, &str)], patch_games: &[u8]) -> LibraryIndex {
    let saves: Vec<(GameId, &str)> = saves.iter().map(|(v, s)| (game(*v), *s)).collect();
    LibraryIndex {
        registry: registry("test"),
        roms: vec![game(0), game(1)],
        saves: by_game(&saves),
        patches: vec![PatchVersions {
            name: "p".to_string(),
            versions: vec![PatchVersionInfo {
                version: v100(),
                installed: true,
                games: patch_games.iter().map(|v| game(*v)).collect(),
            }],
        }],
    }
}

fn pp() -> Option<(String, semver::Version)> {
    Some(("p".to_string(), v100()))
}

fn overlay(selection: &Selection) -> Option<(String, semver::Version)> {
    selection.patch().map(|(name, version)| (name.to_string(), version.clone()))
}

fn the_patch_overlay_follows_the_save() {
    let catalog = catalog(&[(0, "/saves/a.sav"), (0, "/saves/b.sav"), (1, "/saves/c.sav")], &[0]);
    let mut config = Config::with_data_path(p("/"));
    let mut selection = Selection::default();

    selection.pick_save(game(0), p("/saves/a.sav"), &catalog, &config);
    assert_eq!(selection.family(), Some("test"));
    assert_eq!(overlay(&selection), None);
    selection.pick_patch(Some("p".into()), &catalog, &config);
    assert_eq!(overlay(&selection), pp());
    assert_eq!(selection.save(), Some(&p("/saves/a.sav")));
    selection.persist(&mut config);
    assert_eq!(last_save_for(&config, "test").as_deref(), Some("saves/a.sav"));
    assert_eq!(
        last_patch_for(&config, "saves/a.sav"),
        Some(Some(("p".to_owned(), semver::Version::new(1, 0, 0))))
    );

    // A save with no memory inherits a patch that can run it...
    selection.pick_save(game(0), p("/saves/b.sav"), &catalog, &config);
    assert_eq!(overlay(&selection), pp());
    // ...and remembers being explicitly unpatched.
    selection.pick_patch(None, &catalog, &config);
    selection.persist(&mut config);
    selection.pick_save(game(0), p("/saves/a.sav"), &catalog, &config);
    assert_eq!(overlay(&selection), pp());
    selection.pick_save(game(0), p("/saves/b.sav"), &catalog, &config);
    assert_eq!(overlay(&selection), None);

    // A variant the patch can't run drops it.
    selection.pick_save(game(0), p("/saves/a.sav"), &catalog, &config);
    selection.pick_save(game(1), p("/saves/c.sav"), &catalog, &config);
    assert_eq!(overlay(&selection), None);
    assert_eq!(selection.game(), Some(&game(1)));
}

fn an_explicitly_picked_patch_wins_over_the_save() {
    let catalog = catalog(&[(0, "/saves/a.sav"), (1, "/saves/c.sav")], &[0]);
    let config = Config::with_data_path(p("/"));
    let mut selection = Selection::default();
    selection.pick_save(game(1), p("/saves/c.sav"), &catalog, &config);

    selection.pick_patch(Some("p".into()), &catalog, &config);
    assert_eq!(overlay(&selection), pp());
    assert_eq!(selection.game(), None);
    assert_eq!(selection.save(), None);
    assert_eq!(selection.family(), Some("test"));
    assert!(selection.patch_ready(&catalog));
    assert!(selection.patch_supports(&catalog, &game(0)));
    assert!(!selection.patch_supports(&catalog, &game(1)));

    // A created save adopts the patch it was created under, and one the
    // patch can't run drops it.
    selection.adopt_created_save(game(0), p("/saves/new.sav"), &catalog);
    assert_eq!(overlay(&selection), pp());
    selection.adopt_created_save(game(1), p("/saves/new2.sav"), &catalog);
    assert_eq!(overlay(&selection), None);
    assert_eq!(selection.save(), Some(&p("/saves/new2.sav")));
}

fn reconcile_drops_what_a_rescan_retired() {
    let mut catalog = catalog(&[(0, "/saves/a.sav"), (0, "/saves/b.sav")], &[0]);
    let mut config = Config::with_data_path(p("/"));
    let mut selection = Selection::default();
    selection.pick_save(game(0), p("/saves/b.sav"), &catalog, &config);
    selection.pick_patch(Some("p".into()), &catalog, &config);
    selection.persist(&mut config);
    selection.pick_save(game(0), p("/saves/a.sav"), &catalog, &config);
    selection.pick_patch(None, &catalog, &config);

    // The picked save is gone: fall back to the remembered one, with
    // its patch memory.
    catalog.saves = by_game(&[(game(0), "/saves/b.sav")]);
    selection.reconcile(&catalog, &config);
    assert_eq!(selection.save(), Some(&p("/saves/b.sav")));
    assert_eq!(overlay(&selection), pp());

    // An uninstalled patch is dropped.
    catalog.patches = Vec::new();
    selection.reconcile(&catalog, &config);
    assert_eq!(overlay(&selection), None);
    assert_eq!(selection.save(), Some(&p("/saves/b.sav")));

    // A game whose ROM is gone clears everything.
    catalog.roms = Vec::new();
    selection.reconcile(&catalog, &config);
    assert!(selection == Selection::default());
}

fn a_persisted_selection_restores_once_scanned() {
    let (gregar, falzar) = (game_in("bn6", 0), game_in("bn6", 1));
    let mut catalog = LibraryIndex {
        registry: registry("bn6"),
        roms: vec![gregar.clone(), falzar.clone()],
        saves: by_game(&[
            (gregar.clone(), "/saves/e.sav"),
            (falzar.clone(), "/saves/f.sav"),
            (gregar.clone(), "/saves/g.sav"),
        ]),
        patches: Vec::new(),
    };
    let unscanned = LibraryIndex {
        registry: registry("bn6"),
        roms: Vec::new(),
        saves: Vec::new(),
        patches: Vec::new(),
    };
    let mut config = Config::with_data_path(p("/"));
    let mut selection = Selection::default();
    selection.pick_save(falzar.clone(), p("/saves/f.sav"), &catalog, &config);
    selection.persist(&mut config);

    // Before the first scan only the family comes back.
    let mut restored = Selection::default();
    restored.restore(&config, &unscanned);
    assert_eq!(restored.family(), Some("bn6"));
    assert_eq!(restored.game(), None);
    restored.restore(&config, &catalog);
    assert!(restored == selection);

    // A family pick lands on the remembered save, else the first one.
    let mut picked = Selection::default();
    picked.pick_family("bn6", &catalog, &config);
    assert_eq!(picked.save(), Some(&p("/saves/f.sav")));
    assert_eq!(picked.game(), Some(&falzar));
    config.last_save_per_family.clear();
    picked.pick_family("bn6", &catalog, &config);
    assert_eq!(picked.save(), Some(&p("/saves/e.sav")));
    assert_eq!(picked.game(), Some(&gregar));

    // Deleting the save lands on the family's next one.
    catalog.saves = by_game(&[(falzar.clone(), "/saves/f.sav"), (gregar.clone(), "/saves/g.sav")]);
    picked.clear_save();
    picked.pick_first_family_save(&catalog, &config);
    assert_eq!(picked.save(), Some(&p("/saves/f.sav")));
    assert_eq!(picked.game(), Some(&falzar));
}

#[test]
fn a_restore_skips_what_the_library_no_longer_has() {
    let full = catalog(&[(0, "/saves/a.sav")], &[0]);
    let mut config = Config::with_data_path(p("/"));
    let mut selection = Selection::default();
    selection.pick_save(game(0), p("/saves/a.sav"), &full, &config);
    selection.pick_patch(Some("p".into()), &full, &config);
    selection.persist(&mut config);

    // The patch no longer supports the game: the save comes back bare.
    let mut narrowed = catalog(&[(0, "/saves/a.sav")], &[1]);
    let mut restored = Selection::default();
    restored.restore(&config, &narrowed);
    assert_eq!(restored.save(), Some(&p("/saves/a.sav")));
    assert_eq!(overlay(&restored), None);

    // The save is gone: only the family and game come back.
    narrowed.saves = Vec::new();
    let mut restored = Selection::default();
    restored.restore(&config, &narrowed);
    assert_eq!(restored.game(), Some(&game(0)));
    assert_eq!(restored.save(), None);

    // A recorded family this build doesn't know falls back to the game's.
    config.last_family = Some("gone".to_string());
    let mut restored = Selection::default();
    restored.restore(&config, &narrowed);
    assert_eq!(restored.family(), Some("test"));
}

#[test]
fn a_family_pick_skips_saves_of_unowned_games_and_orders_by_stem() {
    let mut catalog = catalog(&[(0, "/saves/zeta.sav"), (1, "/other/alpha.sav"), (1, "/saves/beta.sav")], &[0]);
    let config = Config::with_data_path(p("/"));
    let mut picked = Selection::default();
    picked.pick_family("test", &catalog, &config);
    assert_eq!(picked.save(), Some(&p("/other/alpha.sav")));
    assert_eq!(picked.game(), Some(&game(1)));

    catalog.roms = vec![game(0)];
    picked.pick_family("test", &catalog, &config);
    assert_eq!(picked.save(), Some(&p("/saves/zeta.sav")));
    assert_eq!(picked.game(), Some(&game(0)));

    catalog.roms = Vec::new();
    picked.pick_family("test", &catalog, &config);
    assert_eq!(picked.save(), None);
    assert_eq!(picked.game(), None);
    assert_eq!(picked.family(), Some("test"));
}

#[test]
fn a_game_pick_lands_on_its_first_save_and_a_version_pick_sticks() {
    let catalog = catalog(&[(1, "/saves/c.sav"), (1, "/saves/d.sav")], &[1]);
    let config = Config::with_data_path(p("/"));
    let mut selection = Selection::default();
    selection.pick_game(game(1), &catalog, &config);
    assert_eq!(selection.save(), Some(&p("/saves/c.sav")));
    assert!(selection.is_playable());
    selection.pick_patch(Some("p".into()), &catalog, &config);
    selection.pick_patch_version(semver::Version::new(0, 9, 0));
    assert_eq!(selection.patch_version(), Some(&semver::Version::new(0, 9, 0)));
    assert_eq!(selection.patch_name(), Some("p"));
    // A version the catalog doesn't have is never ready.
    assert!(!selection.patch_ready(&catalog));
    assert_eq!(selection.patch_supported_games(&catalog), None);
    selection.follow_save_file(p("/saves/d.sav"));
    assert_eq!(selection.save(), Some(&p("/saves/d.sav")));
    selection.clear_save();
    assert!(!selection.is_playable());
}

#[test]
fn a_peer_selection_comes_from_its_game_info() {
    let catalog = catalog(&[(0, "/saves/a.sav")], &[0]);
    let config = Config::with_data_path(p("/"));
    let info = GameInfo {
        family_and_variant: ("test".to_string(), 0),
        patch: Some(PatchInfo {
            name: "p".to_string(),
            version: v100(),
        }),
        sim_version: 7,
    };
    let peer = Selection::from_game_info(&info, &catalog).unwrap();
    assert_eq!(peer.game(), Some(&game(0)));
    assert_eq!(peer.save(), None);
    assert_eq!(overlay(&peer), pp());
    assert_eq!(peer.game_info(&catalog), Some(info));

    let unknown = GameInfo {
        family_and_variant: ("other".to_string(), 3),
        patch: None,
        sim_version: 7,
    };
    assert_eq!(
        Selection::from_game_info(&unknown, &catalog),
        Err(Error::UnknownGame("other".to_string(), 3))
    );
    let skewed = GameInfo {
        family_and_variant: ("test".to_string(), 1),
        patch: None,
        sim_version: 8,
    };
    assert_eq!(
        Selection::from_game_info(&skewed, &catalog),
        Err(Error::SimulationVersion("test".to_string()))
    );

    let mut mine = Selection::default();
    assert_eq!(mine.game_info(&catalog), None);
    mine.pick_save(game(0), p("/saves/a.sav"), &catalog, &config);
    let advertised = mine.game_info(&catalog).unwrap();
    assert_eq!(advertised.family_and_variant, ("test".to_string(), 0));
    assert_eq!(advertised.patch, None);
    assert_eq!(advertised.sim_version, 7);
    assert_eq!(mine.patch_supported_games(&catalog), None);
}

#[test]
fn launch_bytes_take_the_snapshot_else_the_stored_save() {
    let catalog = catalog(&[(0, "/save.sav")], &[0]);
    let config = Config::with_data_path(p("/"));
    let mut files = Memory::default();
    files.write(&p("/save.sav"), &[1, 1]).unwrap();

    assert_eq!(Selection::default().launch_bytes(Some(&[1u8, 1][..]), &files), Err(Error::MissingGame));
    let mut selection = Selection::default();
    selection.pick_save(game(0), p("/save.sav"), &catalog, &config);
    assert_eq!(selection.launch_bytes(Some(&[9u8, 0][..]), &files), Ok((game(0), vec![9, 0])));
    assert_eq!(selection.launch_bytes(None, &files), Ok((game(0), vec![1, 1])));
    selection.follow_save_file(p("/missing.sav"));
    assert_eq!(
        selection.launch_bytes(None, &files),
        Err(Error::Io(StorageError::NotFound))
    );
    selection.clear_save();
    assert_eq!(selection.launch_bytes(None, &files), Err(Error::MissingSave));
    assert_eq!(files.read(&p("/save.sav")).unwrap(), vec![1, 1]);
}

#[test]
fn the_overlay_filters_by_the_games_its_version_supports() {
    let catalog = catalog(&[(0, "/saves/a.sav")], &[0]);
    let config = Config::with_data_path(p("/"));
    let mut selection = Selection::default();
    assert!(selection.patch_supports(&catalog, &game(1)));
    assert_eq!(selection.patch_supported_games(&catalog), None);
    selection.pick_save(game(0), p("/saves/a.sav"), &catalog, &config);
    selection.pick_patch(Some("p".into()), &catalog, &config);
    assert_eq!(selection.patch_supported_games(&catalog), Some(vec![game(0)]));
    // A patch with no version at all is named but never ready.
    selection.pick_patch(Some("missing".into()), &catalog, &config);
    assert_eq!(selection.patch_name(), Some("missing"));
    assert_eq!(selection.patch_version(), None);
    assert_eq!(selection.game(), None);
    assert!(!selection.patch_ready(&catalog));
}

#[test]
fn loadout_the_patch_overlay_follows_the_save() {
    the_patch_overlay_follows_the_save();
}

#[test]
fn tests_the_patch_overlay_follows_the_save() {
    the_patch_overlay_follows_the_save();
}

#[test]
fn loadout_an_explicitly_picked_patch_wins_over_the_save() {
    an_explicitly_picked_patch_wins_over_the_save();
}

#[test]
fn tests_an_explicitly_picked_patch_wins_over_the_save() {
    an_explicitly_picked_patch_wins_over_the_save();
}

#[test]
fn loadout_reconcile_drops_what_a_rescan_retired() {
    reconcile_drops_what_a_rescan_retired();
}

#[test]
fn tests_reconcile_drops_what_a_rescan_retired() {
    reconcile_drops_what_a_rescan_retired();
}

#[test]
fn loadout_a_persisted_selection_restores_once_scanned() {
    a_persisted_selection_restores_once_scanned();
}

#[test]
fn tests_a_persisted_selection_restores_once_scanned() {
    a_persisted_selection_restores_once_scanned();
}

fn side(variant: u8, patch: Option<(&str, semver::Version)>) -> Settings {
    Settings {
        nickname: String::new(),
        match_type: (0, 0),
        blind_setup: false,
        game_info: Some(GameInfo {
            family_and_variant: ("test".to_string(), variant),
            patch: patch.map(|(name, version)| PatchInfo {
                name: name.to_string(),
                version,
            }),
            sim_version: 7,
        }),
    }
}

#[test]
fn compatibility_facts_come_from_the_library() {
    let mut catalog = catalog(&[], &[0]);
    let facts = compatibility_facts(&side(0, None), &side(1, None), &catalog, true);
    assert!(facts.remote_rom_available);
    assert!(facts.matching_tags);
    assert_eq!(facts.missing_patch, None);

    catalog.roms = vec![game(0)];
    let facts = compatibility_facts(&side(0, None), &side(1, None), &catalog, false);
    assert!(!facts.remote_rom_available);
    assert!(!facts.matching_tags);

    // Ours is checked first; an installed patch is not missing.
    let facts = compatibility_facts(
        &side(0, Some(("p", semver::Version::new(2, 0, 0)))),
        &side(0, Some(("q", v100()))),
        &catalog,
        false,
    );
    assert_eq!(facts.missing_patch, Some(("p".to_string(), semver::Version::new(2, 0, 0))));
    let facts = compatibility_facts(&side(0, Some(("p", v100()))), &side(0, Some(("q", v100()))), &catalog, false);
    assert!(facts.remote_rom_available);
    assert_eq!(facts.missing_patch, Some(("q".to_string(), v100())));
    let mut unknown = side(0, None);
    unknown.game_info.as_mut().unwrap().family_and_variant.0 = "other".to_string();
    assert!(!compatibility_facts(&side(0, None), &unknown, &catalog, true).remote_rom_available);
}
