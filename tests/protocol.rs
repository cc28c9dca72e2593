use game_sync::{decode, echo, encode_state, frame_state, state_json, ClientMessage, Command, DecodeError, GameState};
use std::collections::BTreeMap;

fn join_id(frame: &str) -> Result<usize, DecodeError> {
    match decode(frame) {
        Ok(ClientMessage::Join { player_id }) => Ok(player_id),
        Ok(_) => panic!("not a join: {frame}"),
        Err(e) => Err(e),
    }
}

fn update_xy(frame: &str) -> Result<(i32, i32), DecodeError> {
    match decode(frame) {
        Ok(ClientMessage::Update { x, y }) => Ok((x, y)),
        Ok(_) => panic!("not an update: {frame}"),
        Err(e) => Err(e),
    }
}

#[test]
fn join_frames() {
    assert_eq!(join_id("PLAYER:7"), Ok(7));
    assert_eq!(join_id("PLAYER:0"), Ok(0));
    assert_eq!(join_id("PLAYER:+12"), Ok(12));
    assert_eq!(join_id("PLAYER:0042"), Ok(42));
    assert_eq!(join_id(&format!("PLAYER:{}", usize::MAX)), Ok(usize::MAX));
}

#[test]
fn bad_join_frames() {
    assert_eq!(join_id("PLAYER:"), Err(DecodeError::BadJoin));
    assert_eq!(join_id("PLAYER:-1"), Err(DecodeError::BadJoin));
    assert_eq!(join_id("PLAYER:+"), Err(DecodeError::BadJoin));
    assert_eq!(join_id("PLAYER:abc"), Err(DecodeError::BadJoin));
    assert_eq!(join_id("PLAYER: 7"), Err(DecodeError::BadJoin));
    assert_eq!(join_id("PLAYER:7é"), Err(DecodeError::BadJoin));
    assert_eq!(join_id("PLAYER:99999999999999999999999"), Err(DecodeError::BadJoin));
}

#[test]
fn update_frames() {
    assert_eq!(update_xy("UPDATE:3,4"), Ok((3, 4)));
    assert_eq!(update_xy("UPDATE:-5,+6"), Ok((-5, 6)));
    assert_eq!(update_xy("UPDATE:-2147483648,2147483647"), Ok((i32::MIN, i32::MAX)));
}

#[test]
fn bad_update_frames() {
    assert_eq!(update_xy("UPDATE:1"), Err(DecodeError::BadUpdate));
    assert_eq!(update_xy("UPDATE:1,2,3"), Err(DecodeError::BadUpdate));
    assert_eq!(update_xy("UPDATE:,2"), Err(DecodeError::BadUpdate));
    assert_eq!(update_xy("UPDATE:1,x"), Err(DecodeError::BadUpdate));
    assert_eq!(update_xy("UPDATE:2147483648,0"), Err(DecodeError::BadUpdate));
    assert_eq!(update_xy("UPDATE:0,-2147483649"), Err(DecodeError::BadUpdate));
    assert_eq!(update_xy("UPDATE:1,ü"), Err(DecodeError::BadUpdate));
    assert_eq!(update_xy("UPDATE:"), Err(DecodeError::BadUpdate));
}

#[test]
fn other_text_is_unrecognized() {
    for frame in ["hello", "", "player:1", "PLAYER", "STATE:{}", "héllo"] {
        match decode(frame) {
            Ok(ClientMessage::Unrecognized { raw }) => assert_eq!(raw, frame),
            _ => panic!("expected unrecognized for {frame:?}"),
        }
    }
}

#[test]
fn echo_prefixes_text() {
    assert_eq!(echo("hello"), "Echo: hello");
    assert_eq!(echo(""), "Echo: ");
}

#[test]
fn state_frame_is_exact() {
    let mut state = GameState::new();
    state.apply(Command::Join { player_id: 20, session: 2 });
    state.apply(Command::Update { player_id: 10, x: 1, y: -1 });
    let frame = encode_state(&state).unwrap();
    assert_eq!(frame, "STATE:{\"players\":{\"10\":[1,-1],\"20\":[0,0]}}");
}

#[test]
fn empty_world_frame() {
    let frame = encode_state(&GameState::new()).unwrap();
    assert_eq!(frame, "STATE:{\"players\":{}}");
}

#[test]
fn framing_round_trip() {
    let frame = frame_state("{\"1\":[2,3]}");
    assert_eq!(frame, "STATE:{\"players\":{\"1\":[2,3]}}");
    assert_eq!(state_json(&frame), Some("{\"1\":[2,3]}".to_string()));
    assert_eq!(state_json("STATE:{}"), None);
    assert_eq!(state_json("Echo: STATE:{\"players\":{}}"), None);
}

#[test]
fn codec_round_trip_keeps_every_entry() {
    let mut state = GameState::new();
    state.apply(Command::Update { player_id: 0, x: i32::MIN, y: i32::MAX });
    state.apply(Command::Update { player_id: usize::MAX, x: -7, y: 0 });
    state.apply(Command::Join { player_id: 3, session: 9 });
    let frame = encode_state(&state).unwrap();
    let json = state_json(&frame).unwrap();
    let back: BTreeMap<usize, (i32, i32)> = serde_json::from_str(&json).unwrap();
    let mut expected = BTreeMap::new();
    expected.insert(0usize, (i32::MIN, i32::MAX));
    expected.insert(usize::MAX, (-7, 0));
    expected.insert(3usize, (0, 0));
    assert_eq!(back, expected);
    assert_eq!(back.len(), state.len());
}
