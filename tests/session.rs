use game_sync::{state_json, Command, DecodeError, GameServer, Inbound, Phase, Reaction, WsSession};
use std::collections::BTreeMap;

fn forwarded(r: Reaction) -> Command {
    match r {
        Reaction::Forward(c) => c,
        _ => panic!("expected a command"),
    }
}

#[test]
fn join_then_update() {
    let mut s = WsSession::new(4);
    assert_eq!(s.phase(), Phase::Unjoined);
    assert_eq!(forwarded(s.handle_text_message("PLAYER:7")), Command::Join { player_id: 7, session: 4 });
    assert_eq!(s.phase(), Phase::Active);
    assert_eq!(s.player_id(), 7);
    assert_eq!(forwarded(s.handle_text_message("UPDATE:3,-4")), Command::Update { player_id: 7, x: 3, y: -4 });
}

#[test]
fn update_before_join_uses_id_zero() {
    let mut s = WsSession::new(1);
    assert_eq!(forwarded(s.handle_text_message("UPDATE:3,4")), Command::Update { player_id: 0, x: 3, y: 4 });
    assert_eq!(s.phase(), Phase::Unjoined);
}

#[test]
fn malformed_frames_keep_the_connection() {
    let mut s = WsSession::new(1);
    assert!(matches!(s.handle_text_message("PLAYER:x"), Reaction::Malformed(DecodeError::BadJoin)));
    assert!(matches!(s.handle_text_message("UPDATE:1"), Reaction::Malformed(DecodeError::BadUpdate)));
    assert_eq!(s.phase(), Phase::Unjoined);
    assert_eq!(forwarded(s.handle_text_message("PLAYER:2")), Command::Join { player_id: 2, session: 1 });
}

#[test]
fn unknown_text_is_echoed() {
    let mut s = WsSession::new(1);
    match s.handle_text_message("hi there") {
        Reaction::Reply(t) => assert_eq!(t, "Echo: hi there"),
        _ => panic!("expected an echo"),
    }
}

#[test]
fn transport_frames() {
    let mut s = WsSession::new(1);
    match s.handle(Inbound::Ping(vec![1, 2, 3])) {
        Reaction::Pong(p) => assert_eq!(p, vec![1, 2, 3]),
        _ => panic!("expected a pong"),
    }
    assert!(matches!(s.handle(Inbound::Binary(vec![0])), Reaction::BinaryRejected));
    assert!(matches!(s.handle(Inbound::Pong), Reaction::Nothing));
    assert!(matches!(s.handle(Inbound::Nop), Reaction::Nothing));
    assert!(matches!(s.handle(Inbound::Continuation), Reaction::Nothing));
    assert!(matches!(s.handle(Inbound::Text("PLAYER:5".to_string())), Reaction::Forward(_)));
    assert!(matches!(s.handle(Inbound::Close), Reaction::Stop));
    assert_eq!(s.phase(), Phase::Active);
}

#[test]
fn stop_leaves_only_when_joined() {
    let mut unjoined = WsSession::new(1);
    assert_eq!(unjoined.stopped(), None);
    assert_eq!(unjoined.phase(), Phase::Closed);

    let mut joined = WsSession::new(2);
    joined.handle_text_message("PLAYER:9");
    assert_eq!(joined.stopped(), Some(Command::Leave { player_id: 9 }));
    assert_eq!(joined.stopped(), None);
    assert!(matches!(joined.handle_text_message("UPDATE:1,1"), Reaction::Nothing));
}

#[test]
fn two_clients_see_the_same_state() {
    let mut server = GameServer::new();
    let mut a = WsSession::new(1);
    let mut b = WsSession::new(2);
    server.handle(forwarded(a.handle_text_message("PLAYER:10"))).unwrap();
    server.handle(forwarded(b.handle_text_message("PLAYER:20"))).unwrap();
    let out = server.handle(forwarded(a.handle_text_message("UPDATE:1,1"))).unwrap();
    let mut targets = out.targets.clone();
    targets.sort();
    assert_eq!(targets, vec![1, 2]);
    let got: BTreeMap<usize, (i32, i32)> = serde_json::from_str(&state_json(&out.frame).unwrap()).unwrap();
    let mut expected = BTreeMap::new();
    expected.insert(10usize, (1, 1));
    expected.insert(20usize, (0, 0));
    assert_eq!(got, expected);
}

#[test]
fn disconnect_is_announced_to_the_rest() {
    let mut server = GameServer::new();
    let mut a = WsSession::new(1);
    let mut b = WsSession::new(2);
    server.handle(forwarded(a.handle_text_message("PLAYER:1"))).unwrap();
    server.handle(forwarded(b.handle_text_message("PLAYER:2"))).unwrap();
    let leave = a.stopped().unwrap();
    let out = server.handle(leave).unwrap();
    assert_eq!(out.targets, vec![2]);
    assert_eq!(out.frame, "STATE:{\"players\":{\"2\":[0,0]}}");
}
