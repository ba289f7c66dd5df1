//! The per-connection session: its state and the decisions it takes on
//! each event. The runtime around it performs the requests it returns
//! (broker calls, socket writes) and hands back what came of them.
use crate::message::{clone_name, opt_bytes, JoinResult, JoinWorld, LeaveWorld, PlayerUpdate};
use crate::protocol::{Message, MessageView, Peer, PeerView};
use crate::types::{Coords2, Coords3, Quaternion};
use vstd::prelude::*;

verus! {

/// Where a session stands in its life.
#[derive(Debug, Clone, Copy, PartialEq, Eq, Structural)]
pub enum SessionState {
    /// No id yet; nothing sent.
    Connecting,
    /// A join is in flight.
    Joining,
    /// Member of a world, with an id.
    Active,
    /// Stopping; terminal.
    Closing,
}

/// A frame whose tag-specific fields are missing or malformed. The frame is
/// dropped and the connection stays open.
#[derive(Debug, Clone, Copy, PartialEq, Eq, Structural)]
pub enum PayloadError {
    /// A chunk request without integer `x` and `z` that fit in an `i32`.
    BadChunkRequest,
    /// A `Peer` frame with no snapshot.
    EmptyPeerFrame,
}

/// The state of one client connection.
#[derive(Debug)]
pub struct WsSession {
    /// Assigned by the broker on join.
    pub id: Option<u64>,
    pub world_name: String,
    /// Set from the first peer snapshot that the client sends.
    pub name: Option<Vec<u8>>,
    pub render_radius: i16,
    pub position: Option<Coords3<u32>>,
    pub rotation: Option<Quaternion>,
    pub chunk: Option<Coords2<i32>>,
    pub state: SessionState,
}

/// The integer at member `key` of the JSON document `doc`, as
/// `serde_json` reads it.
pub uninterp spec fn json_int_member(doc: Seq<u8>, key: Seq<char>) -> Option<i64>;

/// Relies on `serde_json::from_slice`, `Value::get` and `Value::as_i64`:
/// the integer at member `key` of the document, or `None` when the bytes
/// are no JSON document, the member is missing or it is no `i64`.
#[verifier::external_body]
fn json_int_field(doc: &Vec<u8>, key: &str) -> (r: Option<i64>)
    ensures
        r == json_int_member(doc@, key@),
{
    match serde_json::from_slice::<serde_json::Value>(doc) {
        Ok(v) => match v.get(key) {
            Some(f) => f.as_i64(),
            None => None,
        },
        Err(_) => None,
    }
}

/// The chunk named by two coordinates, when both are present and fit.
pub open spec fn chunk_spec(x: Option<i64>, z: Option<i64>) -> Option<Coords2<i32>> {
    match (x, z) {
        (Some(x), Some(z)) => if i32::MIN <= x <= i32::MAX && i32::MIN <= z <= i32::MAX {
            Some(Coords2(x as i32, z as i32))
        } else {
            None
        },
        _ => None,
    }
}

/// The chunk named by two coordinates, when both are present and fit.
pub fn chunk_of(x: Option<i64>, z: Option<i64>) -> (r: Option<Coords2<i32>>)
    ensures
        r == chunk_spec(x, z),
{
    match (x, z) {
        (Some(x), Some(z)) => {
            if i32::MIN as i64 <= x && x <= i32::MAX as i64 && i32::MIN as i64 <= z && z
                <= i32::MAX as i64 {
                Some(Coords2(x as i32, z as i32))
            } else {
                None
            }
        },
        _ => None,
    }
}

/// The session after a chunk request for `c`, and the update it sends.
pub open spec fn chunk_effect(
    old: WsSession,
    new: WsSession,
    r: Result<Option<PlayerUpdate>, PayloadError>,
    x: Option<i64>,
    z: Option<i64>,
) -> bool {
    match chunk_spec(x, z) {
        Some(c) => new == WsSession { chunk: Some(c), ..old } && match r {
            Ok(Some(u)) => u.world_name == old.world_name && Some(u.client_id) == old.id
                && u.name is None && u.position is None && u.rotation is None && u.chunk == Some(
                c,
            ),
            _ => false,
        },
        None => new == old && r == Err::<Option<PlayerUpdate>, PayloadError>(
            PayloadError::BadChunkRequest,
        ),
    }
}

/// The session after a peer snapshot `p`, and the update it sends: the
/// name is taken only while none is set.
pub open spec fn peer_effect(
    old: WsSession,
    new: WsSession,
    r: Result<Option<PlayerUpdate>, PayloadError>,
    p: PeerView,
) -> bool {
    let name = if old.name is None {
        Some(p.name)
    } else {
        opt_bytes(old.name)
    };
    &&& opt_bytes(new.name) == name
    &&& new.position == Some(Coords3(p.px, p.py, p.pz))
    &&& new.rotation == Some(Quaternion(p.qx, p.qy, p.qz, p.qw))
    &&& new.id == old.id
    &&& new.world_name == old.world_name
    &&& new.render_radius == old.render_radius
    &&& new.chunk == old.chunk
    &&& new.state == old.state
    &&& match r {
        Ok(Some(u)) => u.world_name == old.world_name && Some(u.client_id) == old.id && opt_bytes(
            u.name,
        ) == name && u.position == new.position && u.rotation == new.rotation && u.chunk is None,
        _ => false,
    }
}

impl WsSession {
    /// Active with an assigned id.
    pub open spec fn active(&self) -> bool {
        self.state == SessionState::Active && self.id is Some
    }

    /// A session for a new connection that wants to be in `world_name`.
    pub fn new(world_name: String, render_radius: i16) -> (r: Self)
        ensures
            r == (WsSession {
                id: None,
                world_name,
                name: None,
                render_radius,
                position: None,
                rotation: None,
                chunk: None,
                state: SessionState::Connecting,
            }),
    {
        WsSession {
            id: None,
            world_name,
            name: None,
            render_radius,
            position: None,
            rotation: None,
            chunk: None,
            state: SessionState::Connecting,
        }
    }

    /// Starts the join handshake: a leave for the world held so far (when
    /// an id was assigned), then a join for `world_name`.
    pub fn join_world(&mut self) -> (r: (Option<LeaveWorld>, JoinWorld))
        requires
            old(self).state != SessionState::Closing,
        ensures
            *final(self) == (WsSession { id: None, state: SessionState::Joining, ..*old(self) }),
            match old(self).id {
                Some(id) => match r.0 {
                    Some(l) => l.world_name == old(self).world_name && l.client_id == id,
                    None => false,
                },
                None => r.0 is None,
            },
            r.1.world_name == old(self).world_name,
            opt_bytes(r.1.client_name) == opt_bytes(old(self).name),
            r.1.render_radius == old(self).render_radius,
    {
        let leave = match self.id {
            Some(id) => Some(LeaveWorld { world_name: self.world_name.clone(), client_id: id }),
            None => None,
        };
        let join = JoinWorld {
            world_name: self.world_name.clone(),
            client_name: clone_name(&self.name),
            render_radius: self.render_radius,
        };
        self.id = None;
        self.state = SessionState::Joining;
        (leave, join)
    }

    /// Takes the broker's answer to a join. While joining, the session
    /// becomes active with the id; otherwise the id is not kept and a leave
    /// for it is returned.
    pub fn on_join_result(&mut self, result: JoinResult, world_name: String) -> (r: Option<
        LeaveWorld,
    >)
        ensures
            old(self).state == SessionState::Joining ==> r is None && *final(self) == (WsSession {
                id: Some(result.id),
                world_name: world_name,
                state: SessionState::Active,
                ..*old(self)
            }),
            old(self).state != SessionState::Joining ==> *final(self) == *old(self) && match r {
                Some(l) => l.world_name == world_name && l.client_id == result.id,
                None => false,
            },
    {
        if self.state == SessionState::Joining {
            self.id = Some(result.id);
            self.world_name = world_name;
            self.state = SessionState::Active;
            None
        } else {
            Some(LeaveWorld { world_name, client_id: result.id })
        }
    }

    /// The connection closed: the session turns to closing and leaves its
    /// world if it had joined one.
    pub fn on_close(&mut self) -> (r: Option<LeaveWorld>)
        ensures
            *final(self) == (WsSession { state: SessionState::Closing, ..*old(self) }),
            old(self).state != SessionState::Closing && old(self).id is Some ==> match r {
                Some(l) => l.world_name == old(self).world_name && Some(l.client_id) == old(
                    self,
                ).id,
                None => false,
            },
            old(self).state == SessionState::Closing || old(self).id is None ==> r is None,
    {
        let leave = if self.state != SessionState::Closing {
            match self.id {
                Some(id) => Some(LeaveWorld { world_name: self.world_name.clone(), client_id: id }),
                None => None,
            }
        } else {
            None
        };
        self.state = SessionState::Closing;
        leave
    }

    /// Records the chunk named by the coordinates that a chunk request
    /// carried and gives the update for the broker, which holds only that
    /// chunk. Missing or unfit coordinates fail this request alone.
    pub fn on_chunk_coords(&mut self, x: Option<i64>, z: Option<i64>) -> (r: Result<
        Option<PlayerUpdate>,
        PayloadError,
    >)
        ensures
            old(self).active() ==> chunk_effect(*old(self), *final(self), r, x, z),
            !old(self).active() ==> *final(self) == *old(self) && r == Ok::<
                Option<PlayerUpdate>,
                PayloadError,
            >(None),
    {
        let id = match self.id {
            Some(id) => id,
            None => {
                return Ok(None);
            },
        };
        if self.state != SessionState::Active {
            return Ok(None);
        }
        match chunk_of(x, z) {
            Some(c) => {
                self.chunk = Some(c);
                Ok(
                    Some(
                        PlayerUpdate {
                            world_name: self.world_name.clone(),
                            client_id: id,
                            name: None,
                            position: None,
                            rotation: None,
                            chunk: Some(c),
                        },
                    ),
                )
            },
            None => Err(PayloadError::BadChunkRequest),
        }
    }

    /// A chunk request: reads `x` and `z` from the JSON document.
    pub fn on_chunk_request(&mut self, doc: &Vec<u8>) -> (r: Result<
        Option<PlayerUpdate>,
        PayloadError,
    >)
        ensures
            old(self).active() ==> chunk_effect(
                *old(self),
                *final(self),
                r,
                json_int_member(doc@, "x"@),
                json_int_member(doc@, "z"@),
            ),
            !old(self).active() ==> *final(self) == *old(self) && r == Ok::<
                Option<PlayerUpdate>,
                PayloadError,
            >(None),
    {
        let x = json_int_field(doc, "x");
        let z = json_int_field(doc, "z");
        self.on_chunk_coords(x, z)
    }

    /// A `Peer` frame: the first snapshot gives position and rotation, and
    /// the name while none is set.
    pub fn on_peer(&mut self, peers: &Vec<Peer>) -> (r: Result<Option<PlayerUpdate>, PayloadError>)
        ensures
            !old(self).active() ==> *final(self) == *old(self) && r == Ok::<
                Option<PlayerUpdate>,
                PayloadError,
            >(None),
            old(self).active() && peers@.len() == 0 ==> *final(self) == *old(self) && r == Err::<
                Option<PlayerUpdate>,
                PayloadError,
            >(PayloadError::EmptyPeerFrame),
            old(self).active() && peers@.len() > 0 ==> peer_effect(
                *old(self),
                *final(self),
                r,
                peers@[0]@,
            ),
    {
        let id = match self.id {
            Some(id) => id,
            None => {
                return Ok(None);
            },
        };
        if self.state != SessionState::Active {
            return Ok(None);
        }
        if peers.len() == 0 {
            return Err(PayloadError::EmptyPeerFrame);
        }
        let p = &peers[0];
        if self.name.is_none() {
            self.name = Some(p.name.clone());
        }
        let position = Coords3(p.px, p.py, p.pz);
        let rotation = Quaternion(p.qx, p.qy, p.qz, p.qw);
        self.position = Some(position);
        self.rotation = Some(rotation);
        Ok(
            Some(
                PlayerUpdate {
                    world_name: self.world_name.clone(),
                    client_id: id,
                    name: clone_name(&self.name),
                    position: Some(position),
                    rotation: Some(rotation),
                    chunk: None,
                },
            ),
        )
    }

    /// Dispatches a decoded frame by its tag. `Request` and `Peer` frames
    /// give an update for the broker; the other tags change nothing.
    pub fn on_request(&mut self, m: &Message) -> (r: Result<Option<PlayerUpdate>, PayloadError>)
        ensures
            !old(self).active() ==> *final(self) == *old(self) && r == Ok::<
                Option<PlayerUpdate>,
                PayloadError,
            >(None),
            old(self).active() ==> match m@ {
                MessageView::Request(doc) => chunk_effect(
                    *old(self),
                    *final(self),
                    r,
                    json_int_member(doc, "x"@),
                    json_int_member(doc, "z"@),
                ),
                MessageView::Peer(ps) => if ps.len() == 0 {
                    *final(self) == *old(self) && r == Err::<Option<PlayerUpdate>, PayloadError>(
                        PayloadError::EmptyPeerFrame,
                    )
                } else {
                    peer_effect(*old(self), *final(self), r, ps[0])
                },
                _ => *final(self) == *old(self) && r == Ok::<Option<PlayerUpdate>, PayloadError>(
                    None,
                ),
            },
    {
        match m {
            Message::Request(doc) => self.on_chunk_request(doc),
            Message::Peer(ps) => self.on_peer(ps),
            Message::Init => Ok(None),
            Message::Config(_) => Ok(None),
            Message::Update(_) => Ok(None),
            Message::TextMessage(_) => Ok(None),
        }
    }
}

} // verus!
