//! The world registry: the one owner of world membership and the point from
//! which state and chat broadcasts fan out.
//!
//! Worlds are not stored apart from their members: a world exists exactly
//! while it has a member, so an emptied world is dropped at once. Ids come
//! from a counter that starts at 1 and is never reused.
use crate::message::{clone_name, opt_bytes, JoinResult, JoinWorld, LeaveWorld, PlayerUpdate, SendMessage};
use crate::protocol::{Message, MessageView, Peer, PeerView};
use crate::types::{Coords2, Coords3, Quaternion};
use vstd::prelude::*;

verus! {

/// One member of a world and the latest state known of it.
#[derive(Debug, Clone)]
pub struct Member {
    pub world: String,
    pub id: u64,
    pub name: Option<Vec<u8>>,
    pub position: Option<Coords3<u32>>,
    pub rotation: Option<Quaternion>,
    pub chunk: Option<Coords2<i32>>,
    pub render_radius: i16,
}

pub struct MemberView {
    pub world: Seq<char>,
    pub id: u64,
    pub name: Option<Seq<u8>>,
    pub position: Option<Coords3<u32>>,
    pub rotation: Option<Quaternion>,
    pub chunk: Option<Coords2<i32>>,
    pub render_radius: i16,
}

impl View for Member {
    type V = MemberView;

    open spec fn view(&self) -> MemberView {
        MemberView {
            world: self.world@,
            id: self.id,
            name: opt_bytes(self.name),
            position: self.position,
            rotation: self.rotation,
            chunk: self.chunk,
            render_radius: self.render_radius,
        }
    }
}

/// The registry of all worlds and their members.
pub struct WorldBroker {
    members: Vec<Member>,
    next_id: u64,
}

/// `m` is the member `id` of world `w`.
pub open spec fn is_member(m: MemberView, w: Seq<char>, id: u64) -> bool {
    m.world == w && m.id == id
}

/// Some member of world `w` in `s` has the id `x`.
pub open spec fn has_member(s: Seq<MemberView>, w: Seq<char>, x: u64) -> bool {
    exists|i: int| 0 <= i < s.len() && #[trigger] s[i].world == w && s[i].id == x
}

/// `s` without the member `id` of world `w`.
pub open spec fn without(s: Seq<MemberView>, w: Seq<char>, id: u64) -> Seq<MemberView>
    decreases s.len(),
{
    if s.len() == 0 {
        s
    } else {
        let r = without(s.drop_last(), w, id);
        if is_member(s.last(), w, id) {
            r
        } else {
            r.push(s.last())
        }
    }
}

/// Where the member `id` of world `w` stands in `s`, or -1.
pub open spec fn index_of(s: Seq<MemberView>, w: Seq<char>, id: u64) -> int
    decreases s.len(),
{
    if s.len() == 0 {
        -1
    } else if is_member(s.last(), w, id) {
        s.len() - 1
    } else {
        index_of(s.drop_last(), w, id)
    }
}

/// The ids of the members of world `w` other than `id`, in order.
pub open spec fn others(s: Seq<MemberView>, w: Seq<char>, id: u64) -> Seq<u64>
    decreases s.len(),
{
    if s.len() == 0 {
        Seq::empty()
    } else {
        let r = others(s.drop_last(), w, id);
        if s.last().world == w && s.last().id != id {
            r.push(s.last().id)
        } else {
            r
        }
    }
}

/// The names of the worlds that have members, each once, in order of first
/// appearance.
pub open spec fn world_names(s: Seq<MemberView>) -> Seq<Seq<char>>
    decreases s.len(),
{
    if s.len() == 0 {
        Seq::empty()
    } else {
        let r = world_names(s.drop_last());
        if r.contains(s.last().world) {
            r
        } else {
            r.push(s.last().world)
        }
    }
}

pub open spec fn pick<T>(new: Option<T>, old: T) -> T {
    match new {
        Some(v) => v,
        None => old,
    }
}

pub open spec fn keep_or<T>(new: Option<T>, old: Option<T>) -> Option<T> {
    match new {
        Some(v) => Some(v),
        None => old,
    }
}

/// `m` with the fields that `u` holds.
pub open spec fn merge(m: MemberView, u: PlayerUpdate) -> MemberView {
    MemberView {
        name: keep_or(opt_bytes(u.name), m.name),
        position: keep_or(u.position, m.position),
        rotation: keep_or(u.rotation, m.rotation),
        chunk: keep_or(u.chunk, m.chunk),
        ..m
    }
}

/// The snapshot that is broadcast for `m`; absent fields are sent as zeros.
pub open spec fn snapshot(m: MemberView) -> PeerView {
    let p = pick(m.position, Coords3(0u32, 0u32, 0u32));
    let q = pick(m.rotation, Quaternion(0u32, 0u32, 0u32, 0u32));
    PeerView {
        name: pick(m.name, Seq::empty()),
        px: p.0,
        py: p.1,
        pz: p.2,
        qx: q.0,
        qy: q.1,
        qz: q.2,
        qw: q.3,
    }
}

/// Ids increase along `s` and lie strictly between `lo` and `hi`.
pub open spec fn ids_ordered(s: Seq<MemberView>, lo: int, hi: int) -> bool {
    &&& forall|i: int, j: int| 0 <= i < j < s.len() ==> s[i].id < s[j].id
    &&& forall|i: int| 0 <= i < s.len() ==> lo < #[trigger] s[i].id < hi
}

proof fn lemma_without_ordered(s: Seq<MemberView>, w: Seq<char>, id: u64, lo: int, hi: int)
    requires
        ids_ordered(s, lo, hi),
    ensures
        ids_ordered(without(s, w, id), lo, hi),
        without(s, w, id).len() <= s.len(),
    decreases s.len(),
{
    if s.len() > 0 {
        let t = s.drop_last();
        assert(ids_ordered(t, lo, s.last().id as int));
        lemma_without_ordered(t, w, id, lo, s.last().id as int);
        lemma_without_ordered(t, w, id, lo, hi);
    }
}

proof fn lemma_without_twice(s: Seq<MemberView>, w: Seq<char>, id: u64)
    ensures
        without(without(s, w, id), w, id) == without(s, w, id),
    decreases s.len(),
{
    if s.len() > 0 {
        let t = s.drop_last();
        lemma_without_twice(t, w, id);
        let r = without(t, w, id);
        if !is_member(s.last(), w, id) {
            assert(r.push(s.last()).drop_last() =~= r);
        }
    }
}

/// Leaving twice has the effect of leaving once: the second leave finds
/// nothing to remove.
pub proof fn lemma_leave_idempotent(s: Seq<MemberView>, w: Seq<char>, id: u64)
    ensures
        without(without(s, w, id), w, id) == without(s, w, id),
{
    lemma_without_twice(s, w, id);
}

proof fn lemma_others_excludes(s: Seq<MemberView>, w: Seq<char>, id: u64)
    ensures
        !others(s, w, id).contains(id),
        forall|k: int|
            0 <= k < others(s, w, id).len() ==> has_member(s, w, #[trigger] others(s, w, id)[k]),
    decreases s.len(),
{
    if s.len() > 0 {
        let t = s.drop_last();
        lemma_others_excludes(t, w, id);
        let r = others(t, w, id);
        let o = others(s, w, id);
        assert forall|k: int| 0 <= k < o.len() implies has_member(s, w, #[trigger] o[k]) by {
            if k < r.len() {
                assert(o[k] == r[k]);
                assert(has_member(t, w, r[k]));
                let i = choose|i: int| 0 <= i < t.len() && #[trigger] t[i].world == w && t[i].id == r[k];
                assert(s[i] == t[i]);
            } else {
                assert(s[s.len() - 1] == s.last());
            }
        }
    }
}

/// A broadcast caused by member `id` of world `w` goes to none but the
/// other members of `w`: never back to `id`, and only to ids of members of
/// `w`.
pub proof fn lemma_broadcast_excludes_sender(s: Seq<MemberView>, w: Seq<char>, id: u64)
    ensures
        !others(s, w, id).contains(id),
        forall|k: int|
            0 <= k < others(s, w, id).len() ==> has_member(s, w, #[trigger] others(s, w, id)[k]),
{
    lemma_others_excludes(s, w, id);
}

/// An update that carries only a chunk leaves name, position and rotation
/// of the member as they were.
pub proof fn lemma_chunk_update_keeps_rest(m: MemberView, u: PlayerUpdate)
    requires
        u.name is None,
        u.position is None,
        u.rotation is None,
    ensures
        merge(m, u).name == m.name,
        merge(m, u).position == m.position,
        merge(m, u).rotation == m.rotation,
        merge(m, u).chunk == keep_or(u.chunk, m.chunk),
{
}

impl View for WorldBroker {
    type V = Seq<MemberView>;

    closed spec fn view(&self) -> Seq<MemberView> {
        self.members@.map_values(|m: Member| m@)
    }
}

impl WorldBroker {
    /// The id that the next join receives.
    pub closed spec fn next_id(&self) -> u64 {
        self.next_id
    }

    /// Ids are positive, below the next id, and increase along the members.
    pub open spec fn wf(&self) -> bool {
        &&& self.next_id() >= 1
        &&& ids_ordered(self@, 0, self.next_id() as int)
    }

    /// A registry with no worlds.
    pub fn new() -> (r: Self)
        ensures
            r.wf(),
            r@ == Seq::<MemberView>::empty(),
            r.next_id() == 1,
    {
        let r = WorldBroker { members: Vec::new(), next_id: 1 };
        assert(r@ =~= Seq::<MemberView>::empty());
        r
    }
}

proof fn lemma_index_of(s: Seq<MemberView>, w: Seq<char>, id: u64)
    ensures
        -1 <= index_of(s, w, id) < s.len(),
        index_of(s, w, id) >= 0 ==> is_member(s[index_of(s, w, id)], w, id),
    decreases s.len(),
{
    if s.len() > 0 {
        lemma_index_of(s.drop_last(), w, id);
    }
}

/// The member that a join adds.
pub open spec fn joined(req: JoinWorld, id: u64) -> MemberView {
    MemberView {
        world: req.world_name@,
        id: id,
        name: opt_bytes(req.client_name),
        position: None,
        rotation: None,
        chunk: None,
        render_radius: req.render_radius,
    }
}

fn contains_name(v: &Vec<String>, w: &String) -> (r: bool)
    ensures
        r == v@.map_values(|s: String| s@).contains(w@),
{
    let ghost vs = v@.map_values(|s: String| s@);
    let mut i: usize = 0;
    while i < v.len()
        invariant
            i <= v.len(),
            vs == v@.map_values(|s: String| s@),
            forall|j: int| 0 <= j < i ==> vs[j] != w@,
        decreases v.len() - i,
    {
        if v[i] == *w {
            assert(vs[i as int] == w@);
            return true;
        }
        i = i + 1;
    }
    assert(!vs.contains(w@));
    false
}

fn snapshot_of(m: &Member) -> (p: Peer)
    ensures
        p@ == snapshot(m@),
{
    let name = match &m.name {
        Some(n) => n.clone(),
        None => Vec::new(),
    };
    let pos = match m.position {
        Some(c) => c,
        None => Coords3(0u32, 0u32, 0u32),
    };
    let rot = match m.rotation {
        Some(q) => q,
        None => Quaternion(0u32, 0u32, 0u32, 0u32),
    };
    let p = Peer { name, px: pos.0, py: pos.1, pz: pos.2, qx: rot.0, qy: rot.1, qz: rot.2, qw: rot.3 };
    assert(p@.name =~= snapshot(m@).name);
    p
}

impl WorldBroker {
    /// Adds a member to world `req.world_name` (the world comes into being
    /// with its first member) and returns the fresh id. `None` only once the
    /// id counter is spent.
    pub fn join_world(&mut self, req: JoinWorld) -> (r: Option<JoinResult>)
        requires
            old(self).wf(),
        ensures
            final(self).wf(),
            old(self).next_id() == u64::MAX ==> r is None && final(self)@ == old(self)@
                && final(self).next_id() == old(self).next_id(),
            old(self).next_id() < u64::MAX ==> r == Some(JoinResult { id: old(self).next_id() })
                && final(self).next_id() == old(self).next_id() + 1 && final(self)@ == old(
                self,
            )@.push(joined(req, old(self).next_id())),
    {
        if self.next_id == u64::MAX {
            return None;
        }
        let id = self.next_id;
        let ghost v = joined(req, id);
        let m = Member {
            world: req.world_name,
            id,
            name: req.client_name,
            position: None,
            rotation: None,
            chunk: None,
            render_radius: req.render_radius,
        };
        assert(m@ == v);
        self.members.push(m);
        self.next_id = id + 1;
        assert(self@ =~= old(self)@.push(v));
        assert(forall|j: int| 0 <= j < old(self)@.len() ==> self@[j] == old(self)@[j]);
        assert(self@[old(self)@.len() as int] == v);
        assert forall|a: int, b: int| 0 <= a < b < self@.len() implies self@[a].id
            < self@[b].id by {
            assert(self@[a] == old(self)@[a]);
            if b < old(self)@.len() {
                assert(self@[b] == old(self)@[b]);
            }
        }
        assert(ids_ordered(self@, 0, self.next_id as int));
        Some(JoinResult { id })
    }

    /// Removes member `req.client_id` from world `req.world_name`; nothing
    /// happens when it is not there.
    pub fn leave_world(&mut self, req: &LeaveWorld)
        requires
            old(self).wf(),
        ensures
            final(self).wf(),
            final(self).next_id() == old(self).next_id(),
            final(self)@ == without(old(self)@, req.world_name@, req.client_id),
    {
        let ghost orig = self@;
        let ghost w = req.world_name@;
        let ghost id = req.client_id;
        let ghost mut k: int = 0;
        let mut i: usize = 0;
        while i < self.members.len()
            invariant
                self.next_id == old(self).next_id,
                orig == old(self)@,
                w == req.world_name@,
                id == req.client_id,
                0 <= k <= orig.len(),
                i <= self.members.len(),
                self@ == without(orig.take(k), w, id) + orig.skip(k),
                i == without(orig.take(k), w, id).len(),
            decreases self.members.len() - i,
        {
            let ghost before = without(orig.take(k), w, id);
            let ghost cur = self@;
            proof {
                assert(cur[i as int] == orig[k]);
                assert(orig.take(k + 1).drop_last() =~= orig.take(k));
                assert(orig.take(k + 1).last() == orig[k]);
            }
            let ghost cur_m = self.members@;
            let hit = self.members[i].id == req.client_id && self.members[i].world == req.world_name;
            if hit {
                self.members.remove(i);
                proof {
                    assert(self.members@ == cur_m.remove(i as int));
                    assert(k < orig.len());
                    assert(self@.len() == cur.len() - 1);
                    assert(self@.len() == (before + orig.skip(k + 1)).len());
                    assert forall|j: int| 0 <= j < self@.len() implies #[trigger] self@[j] == (before
                        + orig.skip(k + 1))[j] by {
                        if j < i {
                            assert(self.members@[j] == cur_m[j]);
                            assert(self@[j] == cur[j]);
                        } else {
                            assert(self.members@[j] == cur_m[j + 1]);
                            assert(cur[j + 1] == cur_m[j + 1]@);
                            assert(cur == before + orig.skip(k));
                            assert(before.len() == i);
                            assert(self@.len() == cur.len() - 1);
                            assert(j + 1 < cur.len());
                            assert(j + 1 >= before.len());
                            assert(cur[j + 1] == orig.skip(k)[j + 1 - i]);
                            assert(cur[j + 1] == orig[k + j + 1 - i]);
                            assert(self@[j] == cur[j + 1]);
                        }
                    }
                    assert(self@ =~= before + orig.skip(k + 1));
                }
            } else {
                i = i + 1;
                proof {
                    assert(self@ =~= before.push(orig[k]) + orig.skip(k + 1));
                }
            }
            proof {
                k = k + 1;
            }
        }
        proof {
            assert(orig.take(k) =~= orig);
            assert(self@ =~= without(orig, w, id));
            lemma_without_ordered(orig, w, id, 0, self.next_id as int);
        }
    }

    fn find(&self, w: &String, id: u64) -> (r: Option<usize>)
        ensures
            match r {
                Some(i) => i as int == index_of(self@, w@, id),
                None => index_of(self@, w@, id) == -1,
            },
    {
        let mut n: usize = self.members.len();
        assert(self@.take(n as int) =~= self@);
        while n > 0
            invariant
                n <= self.members.len(),
                index_of(self@, w@, id) == index_of(self@.take(n as int), w@, id),
            decreases n,
        {
            proof {
                assert(self@.take(n as int).drop_last() =~= self@.take(n - 1));
                assert(self@.take(n as int).last() == self@[n - 1]);
            }
            if self.members[n - 1].id == id && self.members[n - 1].world == *w {
                return Some(n - 1);
            }
            n = n - 1;
        }
        None
    }

    fn targets(&self, w: &String, id: u64) -> (r: Vec<u64>)
        ensures
            r@ == others(self@, w@, id),
    {
        let mut out: Vec<u64> = Vec::new();
        let mut k: usize = 0;
        while k < self.members.len()
            invariant
                k <= self.members.len(),
                out@ == others(self@.take(k as int), w@, id),
            decreases self.members.len() - k,
        {
            proof {
                assert(self@.take(k + 1).drop_last() =~= self@.take(k as int));
                assert(self@.take(k + 1).last() == self@[k as int]);
            }
            if self.members[k].id != id && self.members[k].world == *w {
                out.push(self.members[k].id);
            }
            k = k + 1;
        }
        assert(self@.take(k as int) =~= self@);
        out
    }

    /// Merges the fields present in `u` into the state of member
    /// `u.client_id` of world `u.world_name`, and gives the `Peer` frame of
    /// its new state with the ids of the other members of that world to
    /// send it to. An unknown member is ignored.
    pub fn apply_update(&mut self, u: &PlayerUpdate) -> (r: Option<(Vec<u64>, Message)>)
        requires
            old(self).wf(),
        ensures
            final(self).wf(),
            final(self).next_id() == old(self).next_id(),
            ({
                let i = index_of(old(self)@, u.world_name@, u.client_id);
                &&& i == -1 ==> r is None && final(self)@ == old(self)@
                &&& i >= 0 ==> final(self)@ == old(self)@.update(i, merge(old(self)@[i], *u))
                    && match r {
                    Some((t, m)) => t@ == others(final(self)@, u.world_name@, u.client_id)
                        && m@ == MessageView::Peer(seq![snapshot(final(self)@[i])]),
                    None => false,
                }
            }),
    {
        proof {
            lemma_index_of(self@, u.world_name@, u.client_id);
        }
        let i = match self.find(&u.world_name, u.client_id) {
            None => {
                return None;
            },
            Some(i) => i,
        };
        let ghost orig = self@;
        let old_m = &self.members[i];
        let merged = Member {
            world: old_m.world.clone(),
            id: old_m.id,
            name: match &u.name {
                Some(n) => Some(n.clone()),
                None => clone_name(&old_m.name),
            },
            position: match u.position {
                Some(p) => Some(p),
                None => old_m.position,
            },
            rotation: match u.rotation {
                Some(q) => Some(q),
                None => old_m.rotation,
            },
            chunk: match u.chunk {
                Some(c) => Some(c),
                None => old_m.chunk,
            },
            render_radius: old_m.render_radius,
        };
        assert(merged@ == merge(orig[i as int], *u));
        let peer = snapshot_of(&merged);
        self.members.set(i, merged);
        proof {
            assert(self@ =~= orig.update(i as int, merge(orig[i as int], *u)));
            assert(forall|j: int| 0 <= j < orig.len() ==> self@[j].id == orig[j].id);
        }
        let t = self.targets(&u.world_name, u.client_id);
        let mut ps: Vec<Peer> = Vec::new();
        ps.push(peer);
        let m = Message::Peer(ps);
        assert(m@ == MessageView::Peer(seq![snapshot(self@[i as int])])) by {
            assert(ps@.map_values(|p: Peer| p@) =~= seq![snapshot(self@[i as int])]);
        }
        Some((t, m))
    }

    /// The ids of the other members of `req.world_name`, to which the chat
    /// content goes as it is.
    pub fn relay_chat(&self, req: &SendMessage) -> (r: Vec<u64>)
        ensures
            r@ == others(self@, req.world_name@, req.client_id),
    {
        self.targets(&req.world_name, req.client_id)
    }

    /// The ids of all members of world `w`, in order of joining.
    pub fn member_ids(&self, w: &String) -> (r: Vec<u64>)
        requires
            self.wf(),
        ensures
            r@ == others(self@, w@, 0),
    {
        self.targets(w, 0)
    }

    /// The state held for member `id` of world `w`.
    pub fn member(&self, w: &String, id: u64) -> (r: Option<&Member>)
        ensures
            match r {
                Some(m) => index_of(self@, w@, id) >= 0 && m@ == self@[index_of(self@, w@, id)],
                None => index_of(self@, w@, id) == -1,
            },
    {
        proof {
            lemma_index_of(self@, w@, id);
        }
        match self.find(w, id) {
            Some(i) => Some(&self.members[i]),
            None => None,
        }
    }

    /// The names of the worlds that have members, each once, in order of
    /// first appearance.
    pub fn list_worlds(&self) -> (r: Vec<String>)
        ensures
            r@.map_values(|s: String| s@) == world_names(self@),
    {
        let mut out: Vec<String> = Vec::new();
        let mut k: usize = 0;
        while k < self.members.len()
            invariant
                k <= self.members.len(),
                out@.map_values(|s: String| s@) == world_names(self@.take(k as int)),
            decreases self.members.len() - k,
        {
            proof {
                assert(self@.take(k + 1).drop_last() =~= self@.take(k as int));
                assert(self@.take(k + 1).last() == self@[k as int]);
            }
            let ghost before = out@.map_values(|s: String| s@);
            if !contains_name(&out, &self.members[k].world) {
                out.push(self.members[k].world.clone());
                assert(out@.map_values(|s: String| s@) =~= before.push(self@[k as int].world));
            }
            k = k + 1;
        }
        assert(self@.take(k as int) =~= self@);
        out
    }
}

/// Some member of `s` is in world `w`.
pub open spec fn populated(s: Seq<MemberView>, w: Seq<char>) -> bool {
    exists|i: int| 0 <= i < s.len() && #[trigger] s[i].world == w
}

/// A world is listed exactly while it has a member: once its last member
/// leaves, it is no longer reported.
pub proof fn lemma_listed_iff_populated(s: Seq<MemberView>, w: Seq<char>)
    ensures
        world_names(s).contains(w) <==> populated(s, w),
    decreases s.len(),
{
    if s.len() > 0 {
        let t = s.drop_last();
        lemma_listed_iff_populated(t, w);
        let r = world_names(t);
        if populated(t, w) {
            let i = choose|i: int| 0 <= i < t.len() && #[trigger] t[i].world == w;
            assert(s[i] == t[i]);
        }
        if populated(s, w) && !populated(t, w) {
            let i = choose|i: int| 0 <= i < s.len() && #[trigger] s[i].world == w;
            if i < t.len() {
                assert(t[i] == s[i]);
            }
            assert(s.last().world == w);
        }
        if !r.contains(s.last().world) {
            assert(r.push(s.last().world)[r.len() as int] == s.last().world);
            if r.push(s.last().world).contains(w) {
                let k = choose|k: int| 0 <= k < r.len() + 1 && r.push(s.last().world)[k] == w;
                if k < r.len() {
                    assert(r[k] == w);
                }
            }
            if r.contains(w) {
                let k = choose|k: int| 0 <= k < r.len() && r[k] == w;
                assert(r.push(s.last().world)[k] == w);
            }
        }
        if s.last().world == w {
            assert(s[s.len() - 1].world == w);
        }
    }
}

/// A session id is a member of at most one world: ids do not repeat.
pub proof fn lemma_one_world_per_id(b: WorldBroker, i: int, j: int)
    requires
        b.wf(),
        0 <= i < b@.len(),
        0 <= j < b@.len(),
        b@[i].id == b@[j].id,
    ensures
        i == j,
        b@[i].world == b@[j].world,
{
}

} // verus!
