use tango::lobby::client::{
    decode_event, decode_welcome, is_transient, next_backoff, on_join_read, on_pump_end, on_read, on_reconnect,
    ClientEvent, ClientIdentity, DriveStep, Failure, Frame, JoinStep, PumpEnd, PumpStep, RawEntry, Read, RetryStep,
    ServerMessage, WsFailure, MAX_RECONNECT_BACKOFF_MS, MIN_RECONNECT_BACKOFF_MS, on_command, on_delivered, on_send,
    resynced, CommandStep, Outgoing, PumpState,
};

type Msg = ServerMessage<u32, u8>;

fn code() -> Vec<u8> {
    vec![0, 1, 2, 3, 4, 5, 6, 7, 8, 9]
}

#[test]
fn transport_hiccups_are_transient() {
    assert!(is_transient(Failure::Io));
    assert!(is_transient(Failure::Websocket(WsFailure::ConnectionClosed)));
    assert!(is_transient(Failure::Websocket(WsFailure::Tls)));
    assert!(!is_transient(Failure::Websocket(WsFailure::Other)));
    assert!(!is_transient(Failure::Decode));
    assert!(!is_transient(Failure::Tls));
}

#[test]
fn server_messages_decode_to_events() {
    let ev = decode_event(Msg::RosterLeave { friend_code: code() });
    assert!(matches!(ev, Some(ClientEvent::RosterLeave(fc)) if fc.as_bytes() == &code()[..]));
    assert!(decode_event(Msg::RosterLeave { friend_code: vec![1, 2] }).is_none());
    assert!(decode_event(Msg::ChallengeIncoming { peer: code(), proposal: None, commitment: vec![] }).is_none());
    let ev = decode_event(Msg::ChallengeIncoming { peer: code(), proposal: Some(7), commitment: vec![9] });
    assert!(matches!(ev, Some(ClientEvent::ChallengeIncoming { proposal: 7, .. })));
    assert!(decode_event(Msg::Pong).is_none());
    assert!(decode_event(Msg::RosterUpsert { entry: None }).is_none());
}

#[test]
fn a_welcome_keeps_only_decodable_roster_entries() {
    let msg = Msg::Welcome {
        your_friend_code: code(),
        roster: vec![
            RawEntry { friend_code: code(), now_playing: Some(1) },
            RawEntry { friend_code: vec![0], now_playing: None },
            RawEntry { friend_code: code(), now_playing: None },
        ],
        protocol_version: 3,
    };
    let w = decode_welcome(msg).unwrap();
    assert_eq!(w.roster.len(), 2);
    assert_eq!(w.roster[0].now_playing, Some(1));
    assert_eq!(w.protocol_version, 3);
    assert!(decode_welcome(Msg::Pong).is_none());
}

#[test]
fn reads_end_a_connection_the_right_way() {
    assert!(matches!(on_read::<u32, u8>(Read::TimedOut), PumpStep::End(PumpEnd::Transient(Failure::Io))));
    assert!(matches!(on_read::<u32, u8>(Read::Failed(Failure::Decode)), PumpStep::End(PumpEnd::Fatal(Failure::Decode))));
    assert!(matches!(on_read::<u32, u8>(Read::Frame(Frame::Close)), PumpStep::End(PumpEnd::Transient(_))));
    assert!(matches!(on_read(Read::Frame(Frame::Message(Ok(Some(Msg::Displaced))))), PumpStep::Displaced));
    assert!(matches!(on_read(Read::Frame(Frame::Message(Ok(Some(Msg::Pong))))), PumpStep::Continue));
    assert!(matches!(
        on_read(Read::Frame(Frame::Message(Ok(Some(Msg::RtcOffer { peer: code(), sdp: "x".into() }))))),
        PumpStep::Deliver(ClientEvent::RtcOffer { .. })
    ));
    assert!(matches!(on_read::<u32, u8>(Read::Frame(Frame::Ping)), PumpStep::Continue));
}

#[test]
fn the_join_waits_for_its_welcome() {
    assert!(matches!(on_join_read::<u32, u8>(Read::Frame(Frame::Pong)), JoinStep::Again));
    assert!(matches!(on_join_read(Read::Frame(Frame::Message(Ok(Some(Msg::Pong))))), JoinStep::Failed(Failure::UnexpectedMessage)));
    assert!(matches!(on_join_read::<u32, u8>(Read::Frame(Frame::Other)), JoinStep::Failed(Failure::InvalidMessage)));
    let welcome = Msg::Welcome { your_friend_code: code(), roster: vec![], protocol_version: 1 };
    assert!(matches!(on_join_read(Read::Frame(Frame::Message(Ok(Some(welcome))))), JoinStep::Joined(_)));
}

#[test]
fn reconnect_waits_double_up_to_the_cap() {
    assert_eq!(on_pump_end(PumpEnd::Closed), DriveStep::Stop);
    assert_eq!(on_pump_end(PumpEnd::Fatal(Failure::Decode)), DriveStep::Stop);
    assert_eq!(on_pump_end(PumpEnd::Transient(Failure::Io)), DriveStep::Reconnect { backoff_ms: 500 });
    let mut wait = MIN_RECONNECT_BACKOFF_MS;
    let mut seen = vec![];
    for _ in 0..6 {
        match on_reconnect(Err(Failure::Io), wait) {
            RetryStep::Retry { wait_ms, next_ms } => {
                seen.push(wait_ms);
                wait = next_ms;
            }
            other => panic!("unexpected {other:?}"),
        }
    }
    assert_eq!(seen, vec![500, 1000, 2000, 4000, 8000, 8000]);
    assert_eq!(next_backoff(MAX_RECONNECT_BACKOFF_MS), MAX_RECONNECT_BACKOFF_MS);
    assert_eq!(on_reconnect(Ok(()), 500), RetryStep::Resume);
    assert_eq!(on_reconnect(Err(Failure::Decode), 500), RetryStep::Stop);
    let id = ClientIdentity { cert_der: vec![1], key_der: vec![2] };
    assert_eq!(id.clone().cert_der, vec![1]);
}

#[test]
fn the_pump_forwards_commands_and_keeps_the_last_status() {
    let mut state = PumpState { last_status: 0u32 };
    assert_eq!(on_command::<u32, &str>(&mut state, Some(Outgoing::SetStatus(7))), CommandStep::SendStatus);
    assert_eq!(state.last_status, 7);
    assert_eq!(on_command(&mut state, Some(Outgoing::Message("challenge"))), CommandStep::Send("challenge"));
    assert_eq!(state.last_status, 7);
    assert_eq!(on_command::<u32, &str>(&mut state, None), CommandStep::Close);
    assert_eq!(on_send(Err(Failure::Io)), Some(PumpEnd::Transient(Failure::Io)));
    assert_eq!(on_send(Ok(())), None);
    assert_eq!(on_delivered(false), Some(PumpEnd::Closed));
    assert_eq!(on_delivered(true), None);
}

#[test]
fn a_rejoin_reports_the_welcomes_snapshot() {
    let raw = Msg::Welcome {
        your_friend_code: code(),
        roster: vec![RawEntry { friend_code: code(), now_playing: Some(3) }],
        protocol_version: 2,
    };
    let welcome = decode_welcome(raw).unwrap();
    let code_of_welcome = welcome.your_friend_code;
    match resynced::<u32, u8>(welcome) {
        ClientEvent::Resynced { your_friend_code, roster } => {
            assert_eq!(your_friend_code, code_of_welcome);
            assert_eq!(roster.len(), 1);
            assert_eq!(roster[0].now_playing, Some(3));
        }
        _ => panic!("not a resync"),
    }
}
