use voxel_broker::broker::WorldBroker;
use voxel_broker::message::{JoinWorld, LeaveWorld, PlayerUpdate, SendMessage};
use voxel_broker::protocol::{Message, Peer};
use voxel_broker::session::WsSession;
use voxel_broker::types::{Coords2, Coords3, Quaternion};

fn join(b: &mut WorldBroker, world: &str) -> u64 {
    b.join_world(JoinWorld { world_name: world.to_string(), client_name: None, render_radius: 4 })
        .unwrap()
        .id
}

fn leave(b: &mut WorldBroker, world: &str, id: u64) {
    b.leave_world(&LeaveWorld { world_name: world.to_string(), client_id: id });
}

fn chunk_update(world: &str, id: u64, x: i32, z: i32) -> PlayerUpdate {
    PlayerUpdate {
        world_name: world.to_string(),
        client_id: id,
        name: None,
        position: None,
        rotation: None,
        chunk: Some(Coords2(x, z)),
    }
}

#[test]
fn first_join_gets_id_one() {
    let mut b = WorldBroker::new();
    assert_eq!(join(&mut b, "alpha"), 1);
    assert_eq!(b.member_ids(&"alpha".to_string()), vec![1]);
    assert_eq!(b.list_worlds(), vec!["alpha".to_string()]);
}

#[test]
fn peer_update_reaches_the_other_member_only() {
    let mut b = WorldBroker::new();
    let mut s1 = WsSession::new("alpha".to_string(), 4);
    let (leave1, join1) = s1.join_world();
    assert!(leave1.is_none());
    let r1 = b.join_world(join1).unwrap();
    assert_eq!(s1.on_join_result(r1, "alpha".to_string()).is_none(), true);
    let id2 = join(&mut b, "alpha");
    assert_eq!((r1.id, id2), (1, 2));

    let ada = Peer {
        name: b"Ada".to_vec(),
        px: 1.0f32.to_bits(),
        py: 2.0f32.to_bits(),
        pz: 3.0f32.to_bits(),
        qx: 0f32.to_bits(),
        qy: 0f32.to_bits(),
        qz: 0f32.to_bits(),
        qw: 1.0f32.to_bits(),
    };
    let update = s1.on_request(&Message::Peer(vec![ada.clone()])).unwrap().unwrap();
    let (targets, frame) = b.apply_update(&update).unwrap();
    assert_eq!(targets, vec![2]);
    assert_eq!(frame, Message::Peer(vec![ada]));
    let m = b.member(&"alpha".to_string(), 1).unwrap();
    assert_eq!(m.name, Some(b"Ada".to_vec()));
    assert_eq!(m.position, Some(Coords3(1.0f32.to_bits(), 2.0f32.to_bits(), 3.0f32.to_bits())));
    assert_eq!(m.rotation, Some(Quaternion(0, 0, 0, 1.0f32.to_bits())));
}

#[test]
fn chunk_request_sets_observed_chunk() {
    let mut b = WorldBroker::new();
    let mut s = WsSession::new("alpha".to_string(), 4);
    let (_, j) = s.join_world();
    let r = b.join_world(j).unwrap();
    s.on_join_result(r, "alpha".to_string());

    let doc = b"{\"x\": 4, \"z\": -2}".to_vec();
    let update = s.on_request(&Message::Request(doc)).unwrap().unwrap();
    assert_eq!(update.chunk, Some(Coords2(4, -2)));
    assert_eq!(s.chunk, Some(Coords2(4, -2)));
    b.apply_update(&update).unwrap();
    assert_eq!(b.member(&"alpha".to_string(), r.id).unwrap().chunk, Some(Coords2(4, -2)));

    let bad = b"{\"x\": \"bad\"}".to_vec();
    assert!(s.on_request(&Message::Request(bad)).is_err());
    assert_eq!(s.chunk, Some(Coords2(4, -2)));
    assert_eq!(b.member(&"alpha".to_string(), r.id).unwrap().chunk, Some(Coords2(4, -2)));
}

#[test]
fn last_leave_drops_world() {
    let mut b = WorldBroker::new();
    join(&mut b, "alpha");
    let id = join(&mut b, "beta");
    assert_eq!(b.list_worlds(), vec!["alpha".to_string(), "beta".to_string()]);
    leave(&mut b, "beta", id);
    assert_eq!(b.list_worlds(), vec!["alpha".to_string()]);
}

#[test]
fn two_joins_get_distinct_increasing_ids() {
    let mut b = WorldBroker::new();
    let a = join(&mut b, "gamma");
    let c = join(&mut b, "gamma");
    assert!(a < c);
    assert_eq!(b.member_ids(&"gamma".to_string()), vec![a, c]);
}

#[test]
fn leave_twice_is_leave_once() {
    let mut b = WorldBroker::new();
    let a = join(&mut b, "alpha");
    let c = join(&mut b, "alpha");
    leave(&mut b, "alpha", a);
    let once = b.member_ids(&"alpha".to_string());
    leave(&mut b, "alpha", a);
    assert_eq!(b.member_ids(&"alpha".to_string()), once);
    assert_eq!(once, vec![c]);
}

#[test]
fn leave_of_unknown_member_is_ignored() {
    let mut b = WorldBroker::new();
    let a = join(&mut b, "alpha");
    leave(&mut b, "beta", a);
    leave(&mut b, "alpha", 99);
    assert_eq!(b.member_ids(&"alpha".to_string()), vec![a]);
}

#[test]
fn chunk_update_keeps_other_fields() {
    let mut b = WorldBroker::new();
    let a = join(&mut b, "alpha");
    let full = PlayerUpdate {
        world_name: "alpha".to_string(),
        client_id: a,
        name: Some(b"Bo".to_vec()),
        position: Some(Coords3(1, 2, 3)),
        rotation: Some(Quaternion(4, 5, 6, 7)),
        chunk: None,
    };
    b.apply_update(&full).unwrap();
    b.apply_update(&chunk_update("alpha", a, 5, 6)).unwrap();
    let m = b.member(&"alpha".to_string(), a).unwrap();
    assert_eq!(m.name, Some(b"Bo".to_vec()));
    assert_eq!(m.position, Some(Coords3(1, 2, 3)));
    assert_eq!(m.rotation, Some(Quaternion(4, 5, 6, 7)));
    assert_eq!(m.chunk, Some(Coords2(5, 6)));
}

#[test]
fn broadcast_excludes_sender_and_other_worlds() {
    let mut b = WorldBroker::new();
    let a = join(&mut b, "alpha");
    let other = join(&mut b, "beta");
    let c = join(&mut b, "alpha");
    let d = join(&mut b, "alpha");
    let (targets, _) = b.apply_update(&chunk_update("alpha", c, 0, 0)).unwrap();
    assert_eq!(targets, vec![a, d]);
    assert!(!targets.contains(&c));
    assert!(!targets.contains(&other));
}

#[test]
fn update_for_unknown_member_is_ignored() {
    let mut b = WorldBroker::new();
    let a = join(&mut b, "alpha");
    assert!(b.apply_update(&chunk_update("beta", a, 1, 1)).is_none());
    assert!(b.apply_update(&chunk_update("alpha", a + 1, 1, 1)).is_none());
    assert_eq!(b.member(&"alpha".to_string(), a).unwrap().chunk, None);
}

#[test]
fn update_snapshot_fills_absent_fields_with_zeros() {
    let mut b = WorldBroker::new();
    let a = join(&mut b, "alpha");
    join(&mut b, "alpha");
    let (_, frame) = b.apply_update(&chunk_update("alpha", a, 1, 1)).unwrap();
    let zero = Peer { name: vec![], px: 0, py: 0, pz: 0, qx: 0, qy: 0, qz: 0, qw: 0 };
    assert_eq!(frame, Message::Peer(vec![zero]));
}

#[test]
fn chat_goes_to_the_other_members() {
    let mut b = WorldBroker::new();
    let a = join(&mut b, "alpha");
    let c = join(&mut b, "alpha");
    join(&mut b, "beta");
    let req = SendMessage {
        world_name: "alpha".to_string(),
        client_id: a,
        content: Message::TextMessage(b"hi".to_vec()),
    };
    assert_eq!(b.relay_chat(&req), vec![c]);
}

#[test]
fn rejoin_keeps_member_in_one_world() {
    let mut b = WorldBroker::new();
    let mut s = WsSession::new("alpha".to_string(), 2);
    let (_, j) = s.join_world();
    let r = b.join_world(j).unwrap();
    s.on_join_result(r, "alpha".to_string());
    let (l, j) = s.join_world();
    let l = l.unwrap();
    assert_eq!((l.world_name.as_str(), l.client_id), ("alpha", r.id));
    b.leave_world(&l);
    let r2 = b.join_world(j).unwrap();
    s.on_join_result(r2, "alpha".to_string());
    assert_eq!(b.member_ids(&"alpha".to_string()), vec![r2.id]);
    assert_eq!(b.list_worlds(), vec!["alpha".to_string()]);
}

#[test]
fn member_moved_between_worlds_is_in_one() {
    let mut b = WorldBroker::new();
    let a = join(&mut b, "alpha");
    leave(&mut b, "alpha", a);
    let c = b
        .join_world(JoinWorld { world_name: "beta".to_string(), client_name: Some(b"Cy".to_vec()), render_radius: 1 })
        .unwrap()
        .id;
    assert_eq!(b.member_ids(&"alpha".to_string()), Vec::<u64>::new());
    assert_eq!(b.member_ids(&"beta".to_string()), vec![c]);
    assert_eq!(b.member(&"beta".to_string(), c).unwrap().name, Some(b"Cy".to_vec()));
    assert_eq!(b.list_worlds(), vec!["beta".to_string()]);
}
