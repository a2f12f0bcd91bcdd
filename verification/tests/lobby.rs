use tango::lobby::compat::{check, Facts, Verdict};
use tango::lobby::handoff::HandoffTicket;
use tango::lobby::protocol::{GameInfo, NegotiatedState, PatchInfo, Settings};
use tango::lobby::exchange::{compress_state, decompress_reveal, fresh_state};
use tango::lobby::pump::{on_packet, reveal_pieces, PeerRead, PumpStep};
use tango::lobby::state::{
    Command, Connected, DirectRole, Error, Event, Inbound, Incoming, LinkIdent, LobbyState,
    MatchmakingParams, Phase, State, Status,
};

fn settings(match_type: (u8, u8)) -> Settings {
    Settings {
        nickname: String::new(),
        match_type,
        blind_setup: false,
        game_info: Some(GameInfo {
            family_and_variant: ("example".into(), 0),
            patch: None,
            sim_version: 1,
        }),
    }
}

fn facts() -> Facts {
    Facts {
        remote_rom_available: true,
        matching_tags: true,
        missing_patch: None,
    }
}

/// A lobby-phase state whose wire sends land in its outbox.
fn lobby() -> State {
    let mut state = State::new();
    state.phase = Phase::Lobby {
        ident: LinkIdent::Matchmaking("code".into()),
    };
    state.commands_open = true;
    state.progress_open = true;
    state
}

fn local(lobby: &LobbyState) -> Settings {
    settings(lobby.match_type)
}

fn commit(state: &mut State, save: Vec<u8>) -> Option<Event> {
    let compressed = save.clone();
    state.commit(
        NegotiatedState {
            nonce: [7; 16],
            ts: 1,
            save_data: save,
        },
        compressed,
        [9; 16],
    )
}

#[test]
fn settings_resend_is_deduped() {
    let mut state = lobby();
    state.reconcile(local(&state.lobby), facts());
    state.reconcile(local(&state.lobby), facts());
    let sent = state.take_commands();
    assert_eq!(sent.len(), 1);
    assert!(matches!(sent[0], Command::Settings(_)));

    state.pick_match_type(Some("example"), (1, 0));
    state.reconcile(local(&state.lobby), facts());
    assert!(matches!(state.take_commands().as_slice(), [Command::Settings(_)]));
}

#[test]
fn incompatible_peer_change_uncommits() {
    let mut state = lobby();
    state.apply(Incoming(Inbound::RemoteSettings(settings((0, 0)))));
    assert_eq!(state.reconcile(local(&state.lobby), facts()), None);
    commit(&mut state, vec![1, 2, 3]);
    assert!(state.local_ready());

    // Still compatible: the commit stands.
    state.reconcile(local(&state.lobby), facts());
    assert!(state.local_ready());
    state.take_commands();

    // The peer switches match type out from under our commit.
    state.apply(Incoming(Inbound::RemoteSettings(settings((1, 0)))));
    state.reconcile(local(&state.lobby), facts());
    assert!(!state.local_ready());
    assert!(matches!(state.take_commands().as_slice(), [Command::Uncommit]));
}

#[test]
fn missing_patch_is_returned_for_fetching() {
    let mut state = lobby();
    state.apply(Incoming(Inbound::RemoteSettings(settings((0, 0)))));
    let missing = ("patch".to_owned(), semver::Version::new(1, 0, 0));
    let fetch = state.reconcile(
        local(&state.lobby),
        Facts {
            missing_patch: Some(missing.clone()),
            ..facts()
        },
    );
    assert_eq!(fetch, Some(missing));
}

#[test]
fn default_match_type_prefers_memory_then_triple() {
    let mut state = State::new();
    state.apply_default_match_type("a", &[1, 1], None);
    assert_eq!(state.lobby.match_type, (1, 0));
    // A pick within the family sticks.
    state.pick_match_type(Some("a"), (0, 0));
    state.apply_default_match_type("a", &[1, 1], None);
    assert_eq!(state.lobby.match_type, (0, 0));
    // A family change re-defaults: memory first, if still offered.
    state.apply_default_match_type("b", &[1, 1], Some((0, 0)));
    assert_eq!(state.lobby.match_type, (0, 0));
    state.apply_default_match_type("c", &[1], Some((1, 0)));
    assert_eq!(state.lobby.match_type, (0, 0));
}

fn compat_settings() -> Settings {
    Settings {
        nickname: String::new(),
        match_type: (0, 0),
        blind_setup: false,
        game_info: Some(GameInfo {
            family_and_variant: ("example".into(), 0),
            patch: None,
            sim_version: 3,
        }),
    }
}

#[test]
fn compatibility_uses_resolved_facts_without_a_registry_or_roms() {
    let local = compat_settings();
    let mut remote = compat_settings();
    assert_eq!(check(&local, &remote, facts()), Verdict::Compatible);
    assert_eq!(
        check(
            &local,
            &remote,
            Facts {
                remote_rom_available: false,
                ..facts()
            }
        ),
        Verdict::MissingRom
    );
    let missing = Some(("patch".into(), semver::Version::new(1, 0, 0)));
    assert_eq!(
        check(
            &local,
            &remote,
            Facts {
                matching_tags: false,
                missing_patch: missing.clone(),
                ..facts()
            }
        ),
        Verdict::DifferentVersions
    );
    assert!(matches!(
        check(
            &local,
            &remote,
            Facts {
                missing_patch: missing,
                ..facts()
            }
        ),
        Verdict::MissingPatch { .. }
    ));
    remote.game_info.as_mut().unwrap().sim_version = 2;
    assert_eq!(check(&local, &remote, facts()), Verdict::SimVersionTooOld);
    remote.game_info.as_mut().unwrap().sim_version = 4;
    assert_eq!(check(&local, &remote, facts()), Verdict::SimVersionTooNew);
    remote.game_info.as_mut().unwrap().sim_version = 3;
    remote.match_type = (1, 0);
    assert_eq!(check(&local, &remote, facts()), Verdict::DifferentMatchTypes);
    remote.game_info = None;
    assert_eq!(check(&local, &remote, facts()), Verdict::MissingGame);
}

#[test]
fn fetchable_names_only_a_missing_patch() {
    let v = Verdict::MissingPatch {
        name: "p".into(),
        version: semver::Version::new(2, 1, 0),
    };
    let (name, version) = v.fetchable().unwrap();
    assert_eq!(name, "p");
    assert_eq!(*version, semver::Version::new(2, 1, 0));
    assert!(Verdict::Compatible.fetchable().is_none());
}

#[test]
fn a_patch_counts_as_part_of_the_game() {
    let local = compat_settings();
    let mut remote = compat_settings();
    remote.game_info.as_mut().unwrap().patch = Some(PatchInfo {
        name: "p".into(),
        version: semver::Version::new(1, 0, 0),
    });
    assert!(tango::lobby::state::settings_materially_differ(&local, &remote));
    remote.game_info.as_mut().unwrap().patch = None;
    remote.nickname = "someone".into();
    assert!(!tango::lobby::state::settings_materially_differ(&local, &remote));
}

/// Walk both ladders to MatchReady, take the handoff, and settle it.
#[test]
fn full_handshake_reaches_match_ready_and_hands_off() {
    let mut state = lobby();
    state.conn = Some(tango::lobby::state::ConnectionInfo {
        is_offerer: true,
        reconnect: None,
    });
    state.send_local_settings(settings((0, 0)));
    state.apply(Incoming(Inbound::RemoteSettings(settings((0, 0)))));
    assert_eq!(commit(&mut state, vec![1, 2, 3]), None);
    assert!(state.ready_view().local_ready);
    assert!(!state.ready_view().remote_ready);

    // Their commit kicks our reveal out.
    assert_eq!(state.apply(Incoming(Inbound::RemoteCommit([4; 16]))), None);
    let sent = state.take_commands();
    assert!(matches!(sent.last(), Some(Command::Reveal(bytes)) if bytes == &vec![1, 2, 3]));

    // Their reveal: a stray before the announced length is dropped.
    assert_eq!(state.apply(Incoming(Inbound::RemoteChunk(vec![0]))), None);
    assert_eq!(state.apply(Incoming(Inbound::RemoteChunkStart(4))), None);
    assert_eq!(state.apply(Incoming(Inbound::RemoteChunk(vec![5, 6]))), None);
    assert_eq!(
        state.apply(Incoming(Inbound::RemoteChunk(vec![7, 8]))),
        Some(Event::RevealComplete)
    );
    assert_eq!(state.pending_reveal(), Some(&vec![5, 6, 7, 8]));

    // A reveal that hashes to their commitment and decodes.
    assert_eq!(state.finish_handshake([4; 16], Ok(())), None);
    assert!(state.ready_view().match_ready);
    assert!(matches!(state.take_commands().as_slice(), [Command::StartMatch]));
    assert_eq!(
        state.apply(Incoming(Inbound::RemoteStartMatch)),
        Some(Event::MatchReady)
    );

    let (ticket, pre_match) = state.take_pre_match().unwrap();
    assert_eq!(ticket, HandoffTicket(state.session_id()));
    assert_eq!(pre_match.remote_reveal, vec![5, 6, 7, 8]);
    assert_eq!(pre_match.local_state.save_data, vec![1, 2, 3]);
    assert_eq!(pre_match.link_code, "code");
    assert!(pre_match.is_offerer);
    assert!(state.handoff_pending());
    assert!(state.take_pre_match().is_none());

    assert_eq!(state.complete_handoff(ticket, Ok::<u32, String>(17)), Some(17));
    assert!(matches!(state.phase, Phase::Idle));
    assert!(!state.handoff_pending());
}

#[test]
fn a_stale_build_is_dropped_and_a_failed_one_is_sticky() {
    let mut state = lobby();
    let stale = HandoffTicket(state.session_id());
    state.disconnect();
    assert!(!state.is_current(stale));
    assert_eq!(state.complete_handoff(stale, Ok::<u32, String>(1)), None);
    assert!(matches!(state.phase, Phase::Idle));

    let mut state = lobby();
    let ticket = HandoffTicket(state.session_id());
    assert_eq!(
        state.complete_handoff(ticket, Err::<u32, String>("boom".into())),
        None
    );
    assert!(matches!(
        &state.phase,
        Phase::Failed { error: Error::SessionBuild(msg) } if msg == "boom"
    ));
    assert!(!state.is_current(ticket));
}

#[test]
fn a_reveal_that_misses_its_commitment_fails() {
    let mut state = lobby();
    commit(&mut state, vec![1]);
    state.apply(Incoming(Inbound::RemoteCommit([4; 16])));
    state.apply(Incoming(Inbound::RemoteChunkStart(1)));
    assert_eq!(
        state.apply(Incoming(Inbound::RemoteChunk(vec![2]))),
        Some(Event::RevealComplete)
    );
    assert_eq!(state.finish_handshake([5; 16], Ok(())), None);
    let failures = state.take_failures();
    assert!(matches!(failures.as_slice(), [Error::CommitmentMismatch]));
    state.apply(Incoming(Inbound::Failed(Error::CommitmentMismatch)));
    assert!(matches!(state.phase, Phase::Failed { error: Error::CommitmentMismatch }));
    assert!(!state.local_ready());
}

#[test]
fn reveal_framing_errors_are_reported() {
    let mut state = lobby();
    state.apply(Incoming(Inbound::RemoteCommit([4; 16])));
    state.apply(Incoming(Inbound::RemoteChunkStart(2)));
    state.apply(Incoming(Inbound::RemoteChunkStart(2)));
    assert!(matches!(state.take_failures().as_slice(), [Error::DuplicateChunkStart]));
    state.apply(Incoming(Inbound::RemoteChunk(vec![1, 2, 3])));
    assert!(matches!(
        state.take_failures().as_slice(),
        [Error::RevealOverrun { got: 3, want: 2 }]
    ));
}

#[test]
fn uncommit_and_blind_setup_step_the_ladders_back() {
    let mut state = lobby();
    commit(&mut state, vec![1]);
    state.take_commands();
    state.uncommit();
    assert!(!state.local_ready());
    assert!(matches!(state.take_commands().as_slice(), [Command::Uncommit]));
    // Nothing to take back a second time.
    state.uncommit();
    assert!(state.take_commands().is_empty());

    state.apply(Incoming(Inbound::RemoteCommit([4; 16])));
    assert!(state.ready_view().remote_ready);
    state.set_blind_setup(true);
    assert!(!state.ready_view().remote_ready);
    state.set_blind_setup(true);
    assert!(state.lobby.blind_setup);
}

#[test]
fn a_visibility_downgrade_from_the_peer_drops_our_commit() {
    let mut state = lobby();
    state.apply(Incoming(Inbound::RemoteSettings(settings((0, 0)))));
    commit(&mut state, vec![1]);
    let mut blinded = settings((0, 0));
    blinded.blind_setup = true;
    state.apply(Incoming(Inbound::RemoteSettings(blinded)));
    assert!(!state.local_ready());
}

#[test]
fn the_bring_up_walks_the_phases() {
    let mut state = State::new();
    let params = MatchmakingParams {
        link_code: "abc".into(),
        endpoint: "wss://example.invalid".into(),
        use_relay: None,
    };
    let id = state.begin_matchmaking(&params);
    assert_eq!(id, 1);
    assert!(matches!(
        &state.phase,
        Phase::Connecting { ident: LinkIdent::Matchmaking(c), waiting_for_opponent: false } if c == "abc"
    ));
    state.apply(Incoming(Inbound::Status(Status::WaitingForOpponent)));
    assert!(matches!(state.phase, Phase::Connecting { waiting_for_opponent: true, .. }));
    state.apply(Incoming(Inbound::Status(Status::Negotiating)));
    assert!(matches!(state.phase, Phase::Negotiating { .. }));
    state.apply(Incoming(Inbound::Connected(Connected {
        relayed: Some(true),
        is_offerer: false,
        reconnect: None,
    })));
    assert!(matches!(state.phase, Phase::Lobby { .. }));
    assert_eq!(
        state.lobby.connection_kind,
        Some(tango::lobby::state::ConnectionKind::Relayed)
    );
    for ms in 1..=7 {
        state.apply(Incoming(Inbound::Ping(ms)));
    }
    assert_eq!(state.lobby.pings, vec![3, 4, 5, 6, 7]);
    state.apply(Incoming(Inbound::PeerDisconnected));
    assert!(matches!(state.phase, Phase::Failed { error: Error::PeerDisconnected }));
    assert_eq!(state.session_id(), 2);

    let id = state.begin_direct(&DirectRole::Host { port: 24680 });
    assert_eq!(id, 3);
    assert!(matches!(state.phase, Phase::Connecting { waiting_for_opponent: true, .. }));
}

/// What the host's direct-command parser makes of the inputs below
/// (24680 is its default local port).
fn direct_command(input: &str) -> Option<DirectRole> {
    match input {
        "/host" => Some(DirectRole::Host { port: 24680 }),
        "/host 1234" => Some(DirectRole::Host { port: 1234 }),
        "/connect 10.0.0.2" => Some(DirectRole::Connect { addr: "10.0.0.2:24680".to_string() }),
        "/connect [::1]" => Some(DirectRole::Connect { addr: "[::1]:24680".to_string() }),
        "/connect 10.0.0.2:99" => Some(DirectRole::Connect { addr: "10.0.0.2:99".to_string() }),
        _ => None,
    }
}

fn parse(input: &str) -> Option<LinkIdent> {
    LinkIdent::parse(input, direct_command(input))
}

#[test]
fn link_ident_parses_codes_and_direct_commands() {
    assert!(parse("").is_none());
    assert!(matches!(parse("abc-def"), Some(LinkIdent::Matchmaking(code)) if code == "abc-def"));
    assert!(matches!(parse("/host"), Some(LinkIdent::Direct(DirectRole::Host { port })) if port == 24680));
    assert!(matches!(parse("/host 1234"), Some(LinkIdent::Direct(DirectRole::Host { port: 1234 }))));
    assert!(parse("/host nope").is_none());
    assert!(matches!(
        parse("/connect 10.0.0.2"),
        Some(LinkIdent::Direct(DirectRole::Connect { addr })) if addr == "10.0.0.2:24680"
    ));
    assert!(matches!(
        parse("/connect [::1]"),
        Some(LinkIdent::Direct(DirectRole::Connect { addr })) if addr == "[::1]:24680"
    ));
    assert!(matches!(
        parse("/connect 10.0.0.2:99"),
        Some(LinkIdent::Direct(DirectRole::Connect { addr })) if addr == "10.0.0.2:99"
    ));
    assert!(parse("/connect").is_none());
    assert!(parse("/dance").is_none());
    // A code is never read as a direct command, whatever the host would say.
    assert!(matches!(
        LinkIdent::parse("abc", Some(DirectRole::Host { port: 1 })),
        Some(LinkIdent::Matchmaking(code)) if code == "abc"
    ));
    assert_eq!(LinkIdent::Matchmaking("x".into()).matchmaking_code(), Some("x"));
    assert_eq!(LinkIdent::Direct(DirectRole::Host { port: 1 }).matchmaking_code(), None);
}

#[test]
fn the_pump_answers_pings_measures_pongs_and_forwards_the_rest() {
    assert_eq!(on_packet(PeerRead::Ping(7), 100), PumpStep::Answer(7));
    assert_eq!(on_packet(PeerRead::Pong(90), 100), PumpStep::Report(Inbound::Ping(10)));
    // The 16-bit clock wraps between the ping and its pong.
    assert_eq!(on_packet(PeerRead::Pong(65530), 4), PumpStep::Report(Inbound::Ping(10)));
    assert_eq!(
        on_packet(PeerRead::Commit([3; 16]), 0),
        PumpStep::Report(Inbound::RemoteCommit([3; 16]))
    );
    assert_eq!(on_packet(PeerRead::Uncommit, 0), PumpStep::Report(Inbound::RemoteUncommit));
    assert_eq!(on_packet(PeerRead::ChunkStart(9), 0), PumpStep::Report(Inbound::RemoteChunkStart(9)));
    assert_eq!(
        on_packet(PeerRead::Chunk(vec![1, 2]), 0),
        PumpStep::Report(Inbound::RemoteChunk(vec![1, 2]))
    );
    assert_eq!(on_packet(PeerRead::StartMatch, 0), PumpStep::Report(Inbound::RemoteStartMatch));
    assert_eq!(
        on_packet(PeerRead::Settings(settings((1, 0))), 0),
        PumpStep::Report(Inbound::RemoteSettings(settings((1, 0))))
    );
    assert_eq!(on_packet(PeerRead::Other, 0), PumpStep::Ignore);
    assert_eq!(on_packet(PeerRead::Closed, 0), PumpStep::Stop(Inbound::PeerDisconnected));
    assert_eq!(
        on_packet(PeerRead::Broken("reset".to_string()), 0),
        PumpStep::Stop(Inbound::Failed(Error::Transport {
            operation: "recv".to_string(),
            message: "reset".to_string()
        }))
    );
}

#[test]
fn a_reveal_goes_out_in_pieces_that_reassemble() {
    let bytes: Vec<u8> = (0..10).collect();
    let pieces = reveal_pieces(&bytes, 4);
    assert_eq!(pieces, vec![vec![0, 1, 2, 3], vec![4, 5, 6, 7], vec![8, 9]]);
    assert_eq!(reveal_pieces(&bytes, 5), vec![vec![0, 1, 2, 3, 4], vec![5, 6, 7, 8, 9]]);
    assert_eq!(reveal_pieces(&bytes, 32), vec![bytes.clone()]);
    assert!(reveal_pieces(&[], 4).is_empty());
}

#[test]
fn the_reveal_is_the_compressed_state_and_decompresses_back() {
    let state = fresh_state(vec![5; 64], 1234);
    assert_eq!(state.ts, 1234);
    assert_eq!(state.save_data, vec![5; 64]);
    let serialized: Vec<u8> = (0..200u32).map(|i| (i % 7) as u8).collect();
    let compressed = compress_state(&serialized).unwrap();
    assert_ne!(compressed, serialized);
    assert_eq!(decompress_reveal(&compressed).unwrap(), serialized);
    match decompress_reveal(&[1, 2, 3, 4]) {
        Err(Error::DecodePeerState { stage, .. }) => assert_eq!(stage, "zstd"),
        other => panic!("garbage decompressed: {other:?}"),
    }
}
