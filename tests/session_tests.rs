use voxel_broker::message::JoinResult;
use voxel_broker::protocol::{Message, Peer};
use voxel_broker::session::{chunk_of, PayloadError, SessionState, WsSession};
use voxel_broker::types::{Coords2, Coords3, Quaternion};

fn peer(name: &[u8], x: u32) -> Peer {
    Peer { name: name.to_vec(), px: x, py: 0, pz: 0, qx: 0, qy: 0, qz: 0, qw: 1 }
}

fn active(world: &str, id: u64) -> WsSession {
    let mut s = WsSession::new(world.to_string(), 3);
    s.join_world();
    assert!(s.on_join_result(JoinResult { id }, world.to_string()).is_none());
    s
}

#[test]
fn new_session_is_connecting() {
    let s = WsSession::new("alpha".to_string(), 3);
    assert_eq!(s.state, SessionState::Connecting);
    assert_eq!(s.id, None);
    assert_eq!(s.name, None);
    assert_eq!(s.render_radius, 3);
}

#[test]
fn first_join_sends_no_leave() {
    let mut s = WsSession::new("alpha".to_string(), 3);
    let (leave, join) = s.join_world();
    assert!(leave.is_none());
    assert_eq!(join.world_name, "alpha");
    assert_eq!(join.render_radius, 3);
    assert_eq!(s.state, SessionState::Joining);
}

#[test]
fn join_result_activates() {
    let s = active("alpha", 7);
    assert_eq!(s.state, SessionState::Active);
    assert_eq!(s.id, Some(7));
}

#[test]
fn join_result_after_close_is_left_again() {
    let mut s = WsSession::new("alpha".to_string(), 3);
    s.join_world();
    assert!(s.on_close().is_none());
    let l = s.on_join_result(JoinResult { id: 4 }, "alpha".to_string()).unwrap();
    assert_eq!((l.world_name.as_str(), l.client_id), ("alpha", 4));
    assert_eq!(s.state, SessionState::Closing);
    assert_eq!(s.id, None);
}

#[test]
fn close_leaves_once() {
    let mut s = active("alpha", 2);
    let l = s.on_close().unwrap();
    assert_eq!((l.world_name.as_str(), l.client_id), ("alpha", 2));
    assert_eq!(s.state, SessionState::Closing);
    assert!(s.on_close().is_none());
}

#[test]
fn first_peer_names_the_client() {
    let mut s = active("alpha", 1);
    let u = s.on_request(&Message::Peer(vec![peer(b"Ada", 5)])).unwrap().unwrap();
    assert_eq!(u.name, Some(b"Ada".to_vec()));
    assert_eq!(u.position, Some(Coords3(5, 0, 0)));
    assert_eq!(u.rotation, Some(Quaternion(0, 0, 0, 1)));
    assert_eq!(u.chunk, None);
    let u2 = s.on_request(&Message::Peer(vec![peer(b"Eve", 6)])).unwrap().unwrap();
    assert_eq!(u2.name, Some(b"Ada".to_vec()));
    assert_eq!(s.name, Some(b"Ada".to_vec()));
    assert_eq!(s.position, Some(Coords3(6, 0, 0)));
}

#[test]
fn empty_peer_frame_is_a_payload_error() {
    let mut s = active("alpha", 1);
    assert_eq!(s.on_request(&Message::Peer(vec![])).err(), Some(PayloadError::EmptyPeerFrame));
    assert_eq!(s.position, None);
}

#[test]
fn other_tags_change_nothing() {
    let mut s = active("alpha", 1);
    for m in [
        Message::Init,
        Message::Config(b"{}".to_vec()),
        Message::Update(vec![1]),
        Message::TextMessage(b"hey".to_vec()),
    ] {
        assert!(s.on_request(&m).unwrap().is_none());
    }
    assert_eq!(s.chunk, None);
    assert_eq!(s.name, None);
}

#[test]
fn frames_before_join_are_ignored() {
    let mut s = WsSession::new("alpha".to_string(), 3);
    let r = s.on_request(&Message::Request(b"{\"x\":1,\"z\":1}".to_vec()));
    assert!(r.unwrap().is_none());
    assert_eq!(s.chunk, None);
}

#[test]
fn chunk_request_errors() {
    let mut s = active("alpha", 1);
    for doc in [
        &b"{\"x\": 4}"[..],
        b"{\"z\": 4}",
        b"{\"x\": 1.5, \"z\": 2}",
        b"not json",
        b"{\"x\": 4294967296, \"z\": 0}",
    ] {
        let r = s.on_request(&Message::Request(doc.to_vec()));
        assert_eq!(r.err(), Some(PayloadError::BadChunkRequest));
    }
    assert_eq!(s.chunk, None);
}

#[test]
fn chunk_update_carries_only_the_chunk() {
    let mut s = active("alpha", 9);
    let u = s.on_chunk_coords(Some(-3), Some(8)).unwrap().unwrap();
    assert_eq!(u.client_id, 9);
    assert_eq!(u.world_name, "alpha");
    assert_eq!(u.chunk, Some(Coords2(-3, 8)));
    assert!(u.name.is_none() && u.position.is_none() && u.rotation.is_none());
}

#[test]
fn chunk_of_bounds() {
    assert_eq!(chunk_of(Some(4), Some(-2)), Some(Coords2(4, -2)));
    assert_eq!(chunk_of(Some(i32::MAX as i64), Some(i32::MIN as i64)), Some(Coords2(i32::MAX, i32::MIN)));
    assert_eq!(chunk_of(Some(i32::MAX as i64 + 1), Some(0)), None);
    assert_eq!(chunk_of(None, Some(0)), None);
    assert_eq!(chunk_of(Some(0), None), None);
}
