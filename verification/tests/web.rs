use tango::config::Config;
use tango::loadout::selection::{Error as SelectionError, Selection};
use tango::loadout::{GameId, LibraryIndex, PatchVersionInfo, PatchVersions, RegisteredGame};
use tango::storage::{Memory, Storage};
use tango::web::library::{
    delete_game, import_rom, import_save, imported_rom_at, imported_save_at, patches_for, remember_match_type,
    remember_selection, write_save,
};
use tango::web::loadout::{self, OpenLibrary, ResolveError};
use tango::lobby::compat;
use tango::lobby::state::{Error as LobbyError, LinkIdent, MatchmakingParams, Phase, State as LobbyState};
use tango::web::input::{is_for_the_game, Held, Pad, Stick};
use tango::web::link;
use tango::lobby::protocol::{GameInfo, PatchInfo};
use tango::paths::StorePath;
use tango::web::{
    flatten_verdict, game_name_of, phase_view, screen_after, BrowserReplayStore, PhaseView, ReplayEntry, Screen, SessionKind,
    Verdict,
};

#[test]
fn unknown_games_read_as_their_raw_pair() {
    assert_eq!(game_name_of("bn6", 1, None), "bn6 v1");
    assert_eq!(game_name_of("exe45", 200, None), "exe45 v200");
    assert_eq!(game_name_of("bn6", 0, Some("Gregar".to_string())), "Gregar");
}

#[test]
fn verdicts_flatten_for_display() {
    assert_eq!(flatten_verdict(compat::Verdict::Compatible), Verdict::Compatible);
    let missing = compat::Verdict::MissingPatch {
        name: "patch".to_string(),
        version: semver::Version::new(1, 0, 0),
    };
    assert_eq!(flatten_verdict(missing), Verdict::Fetching { name: "patch".to_string() });
    assert_eq!(flatten_verdict(compat::Verdict::DifferentMatchTypes), Verdict::DifferentMatchTypes);
}

#[test]
fn phases_show_their_link_code() {
    assert_eq!(phase_view(&Phase::Idle), (PhaseView::Idle, String::new()));
    let code = LinkIdent::Matchmaking("abc-def".to_string());
    assert_eq!(
        phase_view(&Phase::Connecting {
            ident: code.clone(),
            waiting_for_opponent: true
        }),
        (PhaseView::Connecting { waiting_for_opponent: true }, "abc-def".to_string())
    );
    assert_eq!(phase_view(&Phase::Lobby { ident: code }).0, PhaseView::Lobby);
    assert_eq!(PhaseView::default(), PhaseView::Idle);
}

#[test]
fn recordings_are_keyed_under_the_replays_root() {
    let store = BrowserReplayStore;
    let key = store.key(&StorePath::parse("/replays"), "20240101-match", "tangoreplay");
    assert_eq!(key.to_string(), "/replays/20240101-match.tangoreplay");
    assert!(!store.worth_saving(8, 8));
    assert!(store.worth_saving(9, 8));
    let entry = ReplayEntry {
        path: key,
        name: "20240101-match".to_string(),
        sides: ("me".to_string(), "them".to_string()),
        game: "bn6 v0".to_string(),
        ts: 1,
        bytes: 100,
    };
    assert_eq!(entry.sides.0, "me");
}

fn browser_library() -> OpenLibrary<Memory> {
    let game = GameId {
        family: "bn6".to_string(),
        variant: 0,
    };
    let mut files = Memory::default();
    files.write(&StorePath::parse("/saves/a.sav"), &[7, 7]).unwrap();
    OpenLibrary {
        files,
        config: Config::with_data_path(StorePath::parse("/")),
        index: LibraryIndex {
            registry: vec![RegisteredGame {
                game: game.clone(),
                sim_version: 1,
            }],
            roms: vec![game.clone()],
            saves: vec![(game, vec![StorePath::parse("/saves/a.sav")])],
            patches: Vec::new(),
        },
    }
}

#[test]
fn browser_picks_wait_for_the_library_to_open() {
    let game = GameId {
        family: "bn6".to_string(),
        variant: 0,
    };
    let mut loadout = Selection::default();
    loadout::pick_game::<Memory>(&mut loadout, game.clone(), None);
    loadout::restore::<Memory>(&mut loadout, None);
    assert!(loadout == Selection::default());
    assert_eq!(loadout::save_bytes::<Memory>(&loadout, None), None);
    assert_eq!(loadout::resolve::<Memory>(&loadout, None), Err(ResolveError::LibraryNotOpen));

    let library = browser_library();
    assert_eq!(
        loadout::resolve(&loadout, Some(&library)),
        Err(ResolveError::Selection(SelectionError::MissingGame))
    );
    loadout::pick_game(&mut loadout, game.clone(), Some(&library));
    assert_eq!(loadout.save(), Some(&StorePath::parse("/saves/a.sav")));
    assert_eq!(loadout::save_bytes(&loadout, Some(&library)), Some(vec![7, 7]));
    assert_eq!(loadout::resolve(&loadout, Some(&library)), Ok((game.clone(), vec![7, 7])));

    loadout::pick_patch(&mut loadout, Some(("p".to_string(), semver::Version::new(2, 0, 0))), Some(&library));
    assert_eq!(loadout.patch_name(), Some("p"));
    assert_eq!(loadout.patch_version(), Some(&semver::Version::new(2, 0, 0)));
    assert_eq!(loadout.game(), None);
    loadout::reconcile(&mut loadout, Some(&library));
    assert!(loadout == Selection::default());
    loadout::pick_game(&mut loadout, game.clone(), Some(&library));

    let mut restored = Selection::default();
    let mut config = library.config;
    loadout.persist(&mut config);
    let library = OpenLibrary { config, ..browser_library() };
    loadout::restore(&mut restored, Some(&library));
    assert!(restored == loadout);

    loadout::adopt_created_save(&mut restored, game.clone(), StorePath::parse("/saves/b.sav"), Some(&library));
    assert_eq!(restored.save(), Some(&StorePath::parse("/saves/b.sav")));
    assert_eq!(loadout::save_bytes(&restored, Some(&library)), None);
    loadout::pick_save(&mut restored, game, StorePath::parse("/saves/a.sav"), Some(&library));
    assert_eq!(loadout::save_bytes(&restored, Some(&library)), Some(vec![7, 7]));
}

#[test]
fn imports_are_filed_under_the_detected_game() {
    let mut library = browser_library();
    let game = GameId {
        family: "bn6".to_string(),
        variant: 1,
    };
    assert_eq!(
        imported_save_at(&library.config, &game, "My Save.sav"),
        StorePath::parse("/saves/bn6-1-My Save.sav")
    );
    assert_eq!(
        imported_save_at(&library.config, &game, ""),
        StorePath::parse("/saves/bn6-1-save.sav")
    );
    assert_eq!(
        imported_rom_at(&library.config, &game, "gba"),
        StorePath::parse("/roms/bn6-1.gba")
    );

    assert!(!import_save(&mut library, None, "x.sav", &[1]));
    assert!(import_save(&mut library, Some(game.clone()), "picked.dat", &[4, 2]));
    assert_eq!(
        library.files.read(&StorePath::parse("/saves/bn6-1-picked.sav")).unwrap(),
        vec![4, 2]
    );
    assert_eq!(import_rom(&mut library, None, "gba"), None);
    assert_eq!(
        import_rom(&mut library, Some((game.clone(), vec![9; 4])), "nds"),
        Some(game)
    );
    assert_eq!(library.files.read(&StorePath::parse("/roms/bn6-1.nds")).unwrap(), vec![9; 4]);
}

#[test]
fn remembering_an_unchanged_selection_writes_nothing() {
    let library = browser_library();
    let mut config = library.config;
    let library = browser_library();
    let mut loadout = Selection::default();
    assert!(!remember_selection(&mut config, &loadout));
    loadout::pick_save(
        &mut loadout,
        GameId {
            family: "bn6".to_string(),
            variant: 0,
        },
        StorePath::parse("/saves/a.sav"),
        Some(&library),
    );
    assert!(remember_selection(&mut config, &loadout));
    assert!(!remember_selection(&mut config, &loadout));
    assert_eq!(config.last_family.as_deref(), Some("bn6"));
    loadout::pick_patch(&mut loadout, Some(("p".to_string(), semver::Version::new(1, 0, 0))), Some(&library));
    loadout.follow_save_file(StorePath::parse("/saves/a.sav"));
    assert!(remember_selection(&mut config, &loadout));
}

#[test]
fn a_match_type_is_remembered_per_family_once() {
    let mut config = browser_library().config;
    assert!(remember_match_type(&mut config, "bn6", (1, 0)));
    assert!(!remember_match_type(&mut config, "bn6", (1, 0)));
    assert!(remember_match_type(&mut config, "bn6", (2, 1)));
    assert!(remember_match_type(&mut config, "bn3", (1, 0)));
    assert_eq!(
        config.last_match_type_per_family,
        vec![("bn6".to_string(), (2, 1)), ("bn3".to_string(), (1, 0))]
    );
}

#[test]
fn link_failures_read_in_the_players_words() {
    assert_eq!(link::describe(&LobbyError::PeerDisconnected), "Opponent disconnected.");
    assert_eq!(
        link::describe(&LobbyError::SignalingRejected("full".to_string())),
        "The matchmaking server refused the connection: full"
    );
    assert_eq!(link::describe(&LobbyError::Negotiate("bad".to_string())), "Handshake failed: bad");
    assert_eq!(
        link::describe(&LobbyError::NegotiateVersionTooNew),
        "Their Tango is newer \u{2014} update this one."
    );
    // The rarer failures read as the error itself.
    assert_eq!(link::describe(&LobbyError::CommitmentMismatch), LobbyError::CommitmentMismatch.message());
}

#[test]
fn an_idle_link_snapshots_as_idle() {
    let state = LobbyState::new();
    let s = link::snapshot(&state, false, None, None);
    assert_eq!(s.phase, PhaseView::Idle);
    assert_eq!(s.link_code, "");
    assert!(!s.local_ready && !s.remote_ready && !s.match_ready && !s.starting);
    assert_eq!(s.opponent, None);
    assert_eq!(s.latency_ms, None);
    assert_eq!(s.relayed, None);
    assert_eq!(s.error, None);
}

#[test]
fn a_dialing_link_shows_its_code_then_its_failure() {
    let mut state = LobbyState::new();
    state.begin_matchmaking(&MatchmakingParams {
        link_code: "abc".to_string(),
        endpoint: "wss://example".to_string(),
        use_relay: None,
    });
    let s = link::snapshot(&state, true, Some(Verdict::Compatible), Some("BN6".to_string()));
    assert_eq!(s.phase, PhaseView::Connecting { waiting_for_opponent: false });
    assert_eq!(s.link_code, "abc");
    assert!(s.starting);
    assert_eq!(s.verdict, Some(Verdict::Compatible));
    assert_eq!(s.opponent_game, Some("BN6".to_string()));
    state.fail_keeping_lobby(LobbyError::PeerDisconnected);
    let s = link::snapshot(&state, false, None, None);
    assert_eq!(s.phase, PhaseView::Failed);
    assert_eq!(s.link_code, "");
    assert_eq!(s.error, Some("Opponent disconnected.".to_string()));
}

#[test]
fn an_opponents_game_reads_with_its_patch() {
    let info = GameInfo {
        family_and_variant: ("bn6".to_string(), 1),
        patch: Some(PatchInfo { name: "exe6x".to_string(), version: semver::Version::new(1, 2, 3) }),
        sim_version: 0,
    };
    assert_eq!(link::describe_game_info(&info, Some("Falzar".to_string())), "Falzar \u{b7} exe6x 1.2.3");
    let bare = GameInfo { family_and_variant: ("bn9".to_string(), 2), patch: None, sim_version: 0 };
    assert_eq!(link::describe_game_info(&bare, None), "bn9 v2");
}

#[test]
fn every_source_folds_into_one_word() {
    let mut held = Held::new();
    assert_eq!(held.joyflags(), 0);
    held.touch_set(0b1, 0b1);
    held.key_down(0b10, false);
    held.pad_button(7, 0b100, true);
    assert_eq!(held.joyflags(), 0b111);
    // A repeat is no new press; a release is always honoured.
    held.key_up(0b10);
    held.key_down(0b10, true);
    assert_eq!(held.joyflags(), 0b101);
    held.blur();
    assert_eq!(held.joyflags(), 0b100);
    held.gamepads_clear();
    assert_eq!(held.joyflags(), 0);
}

#[test]
fn the_dpad_is_rewritten_as_one_field() {
    let mut held = Held::new();
    let dpad = 0b1111_0000;
    held.touch_set(dpad, 0b0010_0000);
    held.touch_set(dpad, 0b0110_0000);
    held.touch_set(0b1, 0b1);
    assert_eq!(held.joyflags(), 0b0110_0001);
    held.touch_set(dpad, 0);
    assert_eq!(held.joyflags(), 0b1);
    held.stylus_set(Some((10, 20)));
    assert_eq!(held.stylus(), Some((10, 20)));
    held.touch_clear();
    assert_eq!(held.stylus(), None);
    assert_eq!(held.joyflags(), 0);
}

#[test]
fn centring_a_stick_keeps_a_held_dpad_direction() {
    let (left, right) = (0b10_0000, 0b1_0000);
    let mut held = Held::new();
    held.pad_connected(1);
    held.pad_button(1, left, true);
    held.pad_axis(1, left, right, Stick::Negative);
    assert_eq!(held.joyflags(), left);
    held.pad_axis(1, left, right, Stick::Centre);
    assert_eq!(held.joyflags(), left);
    held.pad_axis(1, left, right, Stick::Positive);
    assert_eq!(held.joyflags(), left | right);
    assert_eq!(held.pad(1), Pad { buttons: left, axes: right });
    // A pad that goes away stops holding anything.
    held.pad_disconnected(1);
    assert_eq!(held.joyflags(), 0);
    assert_eq!(held.pad(1), Pad { buttons: 0, axes: 0 });
}

#[test]
fn keys_are_the_games_only_when_nobody_is_typing() {
    assert!(is_for_the_game(true, false, false, false, None));
    assert!(is_for_the_game(true, false, false, false, Some("CANVAS")));
    assert!(!is_for_the_game(false, false, false, false, None));
    assert!(!is_for_the_game(true, true, false, false, None));
    assert!(!is_for_the_game(true, false, true, false, None));
    assert!(!is_for_the_game(true, false, false, true, None));
    assert!(!is_for_the_game(true, false, false, false, Some("INPUT")));
    assert!(!is_for_the_game(true, false, false, false, Some("TEXTAREA")));
    assert!(!is_for_the_game(true, false, false, false, Some("SELECT")));
}

fn version_info(version: &str, installed: bool, games: Vec<GameId>) -> PatchVersionInfo {
    PatchVersionInfo { version: semver::Version::parse(version).unwrap(), installed, games }
}

#[test]
fn the_patch_picker_offers_the_newest_version_for_the_game() {
    let bn6 = GameId { family: "bn6".to_string(), variant: 0 };
    let bn5 = GameId { family: "bn5".to_string(), variant: 0 };
    let mut library = browser_library();
    library.index.patches = vec![
        PatchVersions {
            name: "zeta".to_string(),
            versions: vec![version_info("1.0.0", true, vec![bn6.clone()]), version_info("2.0.0", false, vec![bn6.clone()])],
        },
        PatchVersions {
            name: "alpha".to_string(),
            versions: vec![version_info("1.0.0", true, vec![bn6.clone()]), version_info("1.1.0", false, vec![bn5.clone()])],
        },
        PatchVersions { name: "other".to_string(), versions: vec![version_info("1.0.0", true, vec![bn5.clone()])] },
    ];
    let offers = patches_for(&library.index, &bn6, &["zeta".to_string()]);
    assert_eq!(
        offers,
        vec![
            ("zeta".to_string(), semver::Version::new(2, 0, 0), false),
            ("alpha".to_string(), semver::Version::new(1, 0, 0), true),
        ]
    );
}

#[test]
fn deleting_a_game_takes_its_rom_and_saves_only() {
    let game = GameId { family: "bn6".to_string(), variant: 0 };
    let mut library = browser_library();
    let rom = imported_rom_at(&library.config, &game, "gba");
    library.files.write(&rom, b"rom").unwrap();
    library.files.write(&StorePath::parse("/saves/other.sav"), b"keep").unwrap();
    delete_game(&mut library, &game, "gba");
    assert!(!library.files.is_file(&rom));
    assert!(!library.files.is_file(&StorePath::parse("/saves/a.sav")));
    assert!(library.files.is_file(&StorePath::parse("/saves/other.sav")));
}

#[test]
fn a_written_save_is_in_the_store() {
    let mut library = browser_library();
    assert!(write_save(&mut library, &StorePath::parse("/saves/a.sav"), &[1, 2, 3]));
    assert_eq!(library.files.read(&StorePath::parse("/saves/a.sav")).unwrap(), vec![1, 2, 3]);
}

#[test]
fn a_finished_session_goes_back_where_it_started() {
    assert_eq!(screen_after(Some(SessionKind::Pvp)), Screen::Link);
    assert_eq!(screen_after(Some(SessionKind::Replay)), Screen::Replays);
    assert_eq!(screen_after(Some(SessionKind::SinglePlayer)), Screen::Library);
    assert_eq!(screen_after(None), Screen::Library);
}
