use game_sync::{state_json, Broadcast, Command, GameServer, Registry};
use std::collections::BTreeMap;

fn players(b: &Broadcast) -> BTreeMap<usize, (i32, i32)> {
    serde_json::from_str(&state_json(&b.frame).unwrap()).unwrap()
}

fn sorted(mut v: Vec<u64>) -> Vec<u64> {
    v.sort();
    v
}

#[test]
fn join_twice_keeps_one_entry() {
    let mut server = GameServer::new();
    server.handle(Command::Join { player_id: 7, session: 1 }).unwrap();
    let b = server.handle(Command::Join { player_id: 7, session: 2 }).unwrap();
    assert_eq!(server.state().len(), 1);
    assert_eq!(server.state().position(7), Some((0, 0)));
    assert_eq!(server.sessions().session_of(7), Some(2));
    assert_eq!(b.targets, vec![2]);
    assert_eq!(players(&b).len(), 1);
}

#[test]
fn update_before_join_keeps_position() {
    let mut server = GameServer::new();
    let b = server.handle(Command::Update { player_id: 3, x: 3, y: 4 }).unwrap();
    assert_eq!(server.state().position(3), Some((3, 4)));
    assert!(b.targets.is_empty());
    server.handle(Command::Join { player_id: 3, session: 5 }).unwrap();
    assert_eq!(server.state().position(3), Some((3, 4)));
    assert_eq!(server.sessions().session_of(3), Some(5));
}

#[test]
fn leave_removes_from_world_and_broadcast() {
    let mut server = GameServer::new();
    server.handle(Command::Join { player_id: 1, session: 11 }).unwrap();
    server.handle(Command::Join { player_id: 2, session: 12 }).unwrap();
    let b = server.handle(Command::Leave { player_id: 1 }).unwrap();
    assert_eq!(b.targets, vec![12]);
    let mut expected = BTreeMap::new();
    expected.insert(2usize, (0, 0));
    assert_eq!(players(&b), expected);
    assert_eq!(server.state().position(1), None);
    assert_eq!(server.sessions().session_of(1), None);
}

#[test]
fn leave_of_unknown_id_is_harmless() {
    let mut server = GameServer::new();
    server.handle(Command::Join { player_id: 4, session: 1 }).unwrap();
    let b = server.handle(Command::Leave { player_id: 99 }).unwrap();
    assert_eq!(server.state().len(), 1);
    assert_eq!(b.targets, vec![1]);
}

#[test]
fn commands_take_effect_in_order() {
    let mut server = GameServer::new();
    let out = server.run(vec![
        Command::Join { player_id: 1, session: 1 },
        Command::Update { player_id: 1, x: 5, y: 5 },
        Command::Update { player_id: 1, x: 9, y: 9 },
    ]);
    assert_eq!(out.len(), 3);
    assert_eq!(server.state().position(1), Some((9, 9)));
    let seen: Vec<(i32, i32)> = out.iter().map(|b| players(b.as_ref().unwrap())[&1]).collect();
    assert_eq!(seen, vec![(0, 0), (5, 5), (9, 9)]);
}

#[test]
fn broadcast_reaches_every_session() {
    let mut server = GameServer::new();
    for id in 0..5usize {
        server.handle(Command::Join { player_id: id, session: 100 + id as u64 }).unwrap();
    }
    let b = server.handle(Command::Update { player_id: 2, x: -1, y: 8 }).unwrap();
    assert_eq!(sorted(b.targets.clone()), vec![100, 101, 102, 103, 104]);
    assert_eq!(players(&b)[&2], (-1, 8));
    assert_eq!(players(&b).len(), 5);
    let again = server.broadcast("hello".to_string());
    assert_eq!(again.frame, "hello");
    assert_eq!(sorted(again.targets), vec![100, 101, 102, 103, 104]);
}

#[test]
fn registry_binds_and_unbinds() {
    let mut reg = Registry::new();
    assert!(reg.targets().is_empty());
    reg.register(1, 10);
    reg.register(2, 20);
    reg.register(1, 30);
    assert_eq!(reg.session_of(1), Some(30));
    assert_eq!(sorted(reg.targets()), vec![20, 30]);
    reg.unregister(1);
    reg.unregister(1);
    assert_eq!(reg.session_of(1), None);
    assert_eq!(reg.targets(), vec![20]);
}

#[test]
fn snapshot_of_empty_server() {
    let server = GameServer::new();
    let b = server.snapshot().unwrap();
    assert_eq!(b.frame, "STATE:{\"players\":{}}");
    assert!(b.targets.is_empty());
}
