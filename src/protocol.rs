//! The wire protocol: one tagged message per binary frame.
//!
//! Frame layout: one tag byte, then the payload of that tag.
//! - `Init` (tag 0): no payload.
//! - `Config` (1), `Request` (2), `Update` (3), `TextMessage` (5): the rest
//!   of the frame is the payload's bytes.
//! - `Peer` (4): a little-endian `u32` count of snapshots, then each snapshot
//!   as a little-endian `u32` name length, the name's bytes and seven
//!   little-endian `u32` words (position x, y, z and rotation x, y, z, w).
use vstd::prelude::*;

verus! {

/// The state of one client as relayed to its peers. Position and rotation
/// components are the IEEE-754 bit patterns of single-precision floats.
#[derive(Debug, Clone, PartialEq, Eq)]
pub struct Peer {
    pub name: Vec<u8>,
    pub px: u32,
    pub py: u32,
    pub pz: u32,
    pub qx: u32,
    pub qy: u32,
    pub qz: u32,
    pub qw: u32,
}

/// A decoded frame: exactly one payload shape per tag.
#[derive(Debug, Clone, PartialEq, Eq)]
pub enum Message {
    Init,
    Config(Vec<u8>),
    /// A JSON document with the query's fields, such as chunk coordinates.
    Request(Vec<u8>),
    Update(Vec<u8>),
    Peer(Vec<Peer>),
    /// Chat content, opaque to this library.
    TextMessage(Vec<u8>),
}

/// Why a frame could not be decoded.
#[derive(Debug, Clone, Copy, PartialEq, Eq, Structural)]
pub enum DecodeError {
    /// Empty or truncated frame, unknown tag, or bytes left over.
    Malformed,
}

pub struct PeerView {
    pub name: Seq<u8>,
    pub px: u32,
    pub py: u32,
    pub pz: u32,
    pub qx: u32,
    pub qy: u32,
    pub qz: u32,
    pub qw: u32,
}

pub enum MessageView {
    Init,
    Config(Seq<u8>),
    Request(Seq<u8>),
    Update(Seq<u8>),
    Peer(Seq<PeerView>),
    TextMessage(Seq<u8>),
}

impl View for Peer {
    type V = PeerView;

    open spec fn view(&self) -> PeerView {
        PeerView {
            name: self.name@,
            px: self.px,
            py: self.py,
            pz: self.pz,
            qx: self.qx,
            qy: self.qy,
            qz: self.qz,
            qw: self.qw,
        }
    }
}

impl View for Message {
    type V = MessageView;

    open spec fn view(&self) -> MessageView {
        match self {
            Message::Init => MessageView::Init,
            Message::Config(b) => MessageView::Config(b@),
            Message::Request(b) => MessageView::Request(b@),
            Message::Update(b) => MessageView::Update(b@),
            Message::Peer(ps) => MessageView::Peer(ps@.map_values(|p: Peer| p@)),
            Message::TextMessage(b) => MessageView::TextMessage(b@),
        }
    }
}

pub const TAG_INIT: u8 = 0;
pub const TAG_CONFIG: u8 = 1;
pub const TAG_REQUEST: u8 = 2;
pub const TAG_UPDATE: u8 = 3;
pub const TAG_PEER: u8 = 4;
pub const TAG_TEXT: u8 = 5;

/// Little-endian bytes of `x`.
pub open spec fn le32(x: u32) -> Seq<u8> {
    seq![(x & 0xff) as u8, ((x >> 8u32) & 0xff) as u8, ((x >> 16u32) & 0xff) as u8, ((x >> 24u32) & 0xff) as u8]
}

/// The `u32` whose little-endian bytes start `s`.
pub open spec fn parse_le32(s: Seq<u8>) -> u32
    recommends
        s.len() >= 4,
{
    (s[0] as u32) | ((s[1] as u32) << 8u32) | ((s[2] as u32) << 16u32) | ((s[3] as u32) << 24u32)
}

/// Bytes of the seven words of a snapshot.
pub open spec fn words_bytes(p: PeerView) -> Seq<u8> {
    le32(p.px) + le32(p.py) + le32(p.pz) + le32(p.qx) + le32(p.qy) + le32(p.qz) + le32(p.qw)
}

pub open spec fn peer_bytes(p: PeerView) -> Seq<u8> {
    le32(p.name.len() as u32) + p.name + words_bytes(p)
}

pub open spec fn peers_bytes(ps: Seq<PeerView>) -> Seq<u8>
    decreases ps.len(),
{
    if ps.len() == 0 {
        Seq::empty()
    } else {
        peer_bytes(ps[0]) + peers_bytes(ps.drop_first())
    }
}

/// The frame that encodes `m`.
pub open spec fn encode_spec(m: MessageView) -> Seq<u8> {
    match m {
        MessageView::Init => seq![TAG_INIT],
        MessageView::Config(b) => seq![TAG_CONFIG] + b,
        MessageView::Request(b) => seq![TAG_REQUEST] + b,
        MessageView::Update(b) => seq![TAG_UPDATE] + b,
        MessageView::Peer(ps) => seq![TAG_PEER] + le32(ps.len() as u32) + peers_bytes(ps),
        MessageView::TextMessage(b) => seq![TAG_TEXT] + b,
    }
}

/// Every length that the frame writes as a `u32` fits in one.
pub open spec fn encodable(m: MessageView) -> bool {
    match m {
        MessageView::Peer(ps) => ps.len() <= u32::MAX && forall|i: int|
            0 <= i < ps.len() ==> #[trigger] ps[i].name.len() <= u32::MAX,
        _ => true,
    }
}

/// The snapshot at the start of `s` and the number of bytes it takes.
#[verifier::opaque]
pub open spec fn parse_peer(s: Seq<u8>) -> Option<(PeerView, int)> {
    if s.len() < 4 {
        None
    } else {
        let n = parse_le32(s) as int;
        if s.len() < 4 + n + 28 {
            None
        } else {
            let w = s.subrange(4 + n, 4 + n + 28);
            Some(
                (
                    PeerView {
                        name: s.subrange(4, 4 + n),
                        px: parse_le32(w),
                        py: parse_le32(w.subrange(4, 28)),
                        pz: parse_le32(w.subrange(8, 28)),
                        qx: parse_le32(w.subrange(12, 28)),
                        qy: parse_le32(w.subrange(16, 28)),
                        qz: parse_le32(w.subrange(20, 28)),
                        qw: parse_le32(w.subrange(24, 28)),
                    },
                    4 + n + 28,
                ),
            )
        }
    }
}

/// Exactly `count` snapshots that take all of `s`.
pub open spec fn parse_peers(s: Seq<u8>, count: nat) -> Option<Seq<PeerView>>
    decreases count,
{
    if count == 0 {
        if s.len() == 0 {
            Some(Seq::empty())
        } else {
            None
        }
    } else {
        match parse_peer(s) {
            None => None,
            Some((p, k)) => match parse_peers(s.subrange(k, s.len() as int), (count - 1) as nat) {
                None => None,
                Some(rest) => Some(seq![p] + rest),
            },
        }
    }
}

/// The message that the frame `b` holds, if it is well formed.
pub open spec fn decode_spec(b: Seq<u8>) -> Option<MessageView> {
    if b.len() == 0 {
        None
    } else {
        let body = b.drop_first();
        if b[0] == TAG_INIT {
            if body.len() == 0 {
                Some(MessageView::Init)
            } else {
                None
            }
        } else if b[0] == TAG_CONFIG {
            Some(MessageView::Config(body))
        } else if b[0] == TAG_REQUEST {
            Some(MessageView::Request(body))
        } else if b[0] == TAG_UPDATE {
            Some(MessageView::Update(body))
        } else if b[0] == TAG_PEER {
            if body.len() < 4 {
                None
            } else {
                match parse_peers(body.subrange(4, body.len() as int), parse_le32(body) as nat) {
                    Some(ps) => Some(MessageView::Peer(ps)),
                    None => None,
                }
            }
        } else if b[0] == TAG_TEXT {
            Some(MessageView::TextMessage(body))
        } else {
            None
        }
    }
}

proof fn lemma_le32(x: u32)
    ensures
        le32(x).len() == 4,
        forall|rest: Seq<u8>| #[trigger] parse_le32(le32(x) + rest) == x,
{
    let b0 = (x & 0xff) as u8;
    let b1 = ((x >> 8u32) & 0xff) as u8;
    let b2 = ((x >> 16u32) & 0xff) as u8;
    let b3 = ((x >> 24u32) & 0xff) as u8;
    assert((b0 as u32) | ((b1 as u32) << 8u32) | ((b2 as u32) << 16u32) | ((b3 as u32) << 24u32)
        == x) by (bit_vector)
        requires
            b0 == (x & 0xff) as u8,
            b1 == ((x >> 8u32) & 0xff) as u8,
            b2 == ((x >> 16u32) & 0xff) as u8,
            b3 == ((x >> 24u32) & 0xff) as u8,
    ;
    assert forall|rest: Seq<u8>| #[trigger] parse_le32(le32(x) + rest) == x by {
        let s = le32(x) + rest;
        assert(s[0] == b0 && s[1] == b1 && s[2] == b2 && s[3] == b3);
    }
}

proof fn lemma_parse_peer(p: PeerView, rest: Seq<u8>)
    requires
        p.name.len() <= u32::MAX,
    ensures
        parse_peer(peer_bytes(p) + rest) == Some((p, peer_bytes(p).len() as int)),
        peer_bytes(p).len() == 4 + p.name.len() + 28,
{
    reveal(parse_peer);
    let n = p.name.len() as u32;
    lemma_le32(n);
    lemma_le32(p.px);
    lemma_le32(p.py);
    lemma_le32(p.pz);
    lemma_le32(p.qx);
    lemma_le32(p.qy);
    lemma_le32(p.qz);
    lemma_le32(p.qw);
    let s = peer_bytes(p) + rest;
    assert(s =~= le32(n) + (p.name + words_bytes(p) + rest));
    assert(parse_le32(s) == n);
    let k = 4 + p.name.len() as int;
    assert(s.subrange(4, k) =~= p.name);
    let w = s.subrange(k, k + 28);
    assert(w =~= words_bytes(p));
    assert(w =~= le32(p.px) + w.subrange(4, 28));
    assert(w.subrange(4, 28) =~= le32(p.py) + w.subrange(8, 28));
    assert(w.subrange(8, 28) =~= le32(p.pz) + w.subrange(12, 28));
    assert(w.subrange(12, 28) =~= le32(p.qx) + w.subrange(16, 28));
    assert(w.subrange(16, 28) =~= le32(p.qy) + w.subrange(20, 28));
    assert(w.subrange(20, 28) =~= le32(p.qz) + w.subrange(24, 28));
    assert(w.subrange(24, 28) =~= le32(p.qw) + Seq::<u8>::empty());
}

proof fn lemma_parse_peers(ps: Seq<PeerView>)
    requires
        forall|i: int| 0 <= i < ps.len() ==> #[trigger] ps[i].name.len() <= u32::MAX,
    ensures
        parse_peers(peers_bytes(ps), ps.len()) == Some(ps),
    decreases ps.len(),
{
    if ps.len() > 0 {
        let tail = ps.drop_first();
        assert forall|i: int| 0 <= i < tail.len() implies #[trigger] tail[i].name.len()
            <= u32::MAX by {
            assert(tail[i] == ps[i + 1]);
        }
        lemma_parse_peers(tail);
        lemma_parse_peer(ps[0], peers_bytes(tail));
        let s = peers_bytes(ps);
        let k = peer_bytes(ps[0]).len() as int;
        assert(s.subrange(k, s.len() as int) =~= peers_bytes(tail));
        assert(seq![ps[0]] + tail =~= ps);
    }
}

/// Decoding the encoding of a message gives the message back.
pub proof fn lemma_round_trip(m: MessageView)
    requires
        encodable(m),
    ensures
        decode_spec(encode_spec(m)) == Some(m),
{
    let b = encode_spec(m);
    match m {
        MessageView::Init => {},
        MessageView::Config(p) => {
            assert(b.drop_first() =~= p);
        },
        MessageView::Request(p) => {
            assert(b.drop_first() =~= p);
        },
        MessageView::Update(p) => {
            assert(b.drop_first() =~= p);
        },
        MessageView::TextMessage(p) => {
            assert(b.drop_first() =~= p);
        },
        MessageView::Peer(ps) => {
            lemma_le32(ps.len() as u32);
            let body = b.drop_first();
            assert(body =~= le32(ps.len() as u32) + peers_bytes(ps));
            assert(body.subrange(4, body.len() as int) =~= peers_bytes(ps));
            lemma_parse_peers(ps);
        },
    }
}

proof fn lemma_le32_inverse(s: Seq<u8>)
    requires
        s.len() >= 4,
    ensures
        le32(parse_le32(s)) == s.take(4),
{
    let b0 = s[0];
    let b1 = s[1];
    let b2 = s[2];
    let b3 = s[3];
    let x = parse_le32(s);
    assert(x == (b0 as u32) | ((b1 as u32) << 8u32) | ((b2 as u32) << 16u32) | ((b3 as u32)
        << 24u32));
    assert((x & 0xff) as u8 == b0 && ((x >> 8u32) & 0xff) as u8 == b1 && ((x >> 16u32) & 0xff) as u8
        == b2 && ((x >> 24u32) & 0xff) as u8 == b3) by (bit_vector)
        requires
            x == (b0 as u32) | ((b1 as u32) << 8u32) | ((b2 as u32) << 16u32) | ((b3 as u32)
                << 24u32),
    ;
    assert(le32(x) =~= s.take(4));
}

proof fn lemma_parse_peer_inverse(s: Seq<u8>)
    requires
        parse_peer(s) is Some,
    ensures
        ({
            let (p, k) = parse_peer(s).unwrap();
            &&& 0 < k <= s.len()
            &&& p.name.len() <= u32::MAX
            &&& peer_bytes(p) == s.take(k)
        }),
{
    reveal(parse_peer);
    let (p, k) = parse_peer(s).unwrap();
    let n = parse_le32(s) as int;
    let w = s.subrange(4 + n, 4 + n + 28);
    lemma_le32_inverse(s);
    lemma_le32_inverse(w);
    lemma_le32_inverse(w.subrange(4, 28));
    lemma_le32_inverse(w.subrange(8, 28));
    lemma_le32_inverse(w.subrange(12, 28));
    lemma_le32_inverse(w.subrange(16, 28));
    lemma_le32_inverse(w.subrange(20, 28));
    lemma_le32_inverse(w.subrange(24, 28));
    assert(p.name.len() as u32 == parse_le32(s));
    assert(words_bytes(p) =~= w);
    assert(peer_bytes(p) =~= s.take(k));
}

proof fn lemma_parse_peers_inverse(s: Seq<u8>, count: nat)
    requires
        parse_peers(s, count) is Some,
    ensures
        ({
            let ps = parse_peers(s, count).unwrap();
            &&& ps.len() == count
            &&& forall|i: int| 0 <= i < ps.len() ==> #[trigger] ps[i].name.len() <= u32::MAX
            &&& peers_bytes(ps) == s
        }),
    decreases count,
{
    if count > 0 {
        let (p, k) = parse_peer(s).unwrap();
        let rest_bytes = s.subrange(k, s.len() as int);
        lemma_parse_peer_inverse(s);
        lemma_parse_peers_inverse(rest_bytes, (count - 1) as nat);
        let rest = parse_peers(rest_bytes, (count - 1) as nat).unwrap();
        let ps = parse_peers(s, count).unwrap();
        assert(ps == seq![p] + rest);
        assert(ps.drop_first() =~= rest);
        assert forall|i: int| 0 <= i < ps.len() implies #[trigger] ps[i].name.len() <= u32::MAX by {
            if i > 0 {
                assert(ps[i] == rest[i - 1]);
            }
        }
        assert(s =~= s.take(k) + rest_bytes);
    } else {
        assert(s =~= Seq::<u8>::empty());
    }
}

/// Every frame that decodes is the encoding of what it decodes to: the
/// codec is a bijection between messages and well-formed frames.
pub proof fn lemma_decoded_reencodes(b: Seq<u8>)
    requires
        decode_spec(b) is Some,
    ensures
        encodable(decode_spec(b).unwrap()),
        encode_spec(decode_spec(b).unwrap()) == b,
{
    let m = decode_spec(b).unwrap();
    let body = b.drop_first();
    assert(b =~= seq![b[0]] + body);
    if b[0] == TAG_PEER {
        let rest = body.subrange(4, body.len() as int);
        lemma_le32_inverse(body);
        lemma_parse_peers_inverse(rest, parse_le32(body) as nat);
        assert(body =~= body.take(4) + rest);
    }
    if b[0] == TAG_INIT {
        assert(b =~= seq![TAG_INIT]);
    }
}

proof fn lemma_peers_bytes_push(ps: Seq<PeerView>, p: PeerView)
    ensures
        peers_bytes(ps.push(p)) == peers_bytes(ps) + peer_bytes(p),
    decreases ps.len(),
{
    if ps.len() == 0 {
        assert(ps.push(p).drop_first() =~= Seq::<PeerView>::empty());
        assert(peers_bytes(ps.push(p).drop_first()) == Seq::<u8>::empty());
        assert(peers_bytes(ps.push(p)) =~= peer_bytes(p));
    } else {
        assert(ps.push(p).drop_first() =~= ps.drop_first().push(p));
        lemma_peers_bytes_push(ps.drop_first(), p);
        assert(peers_bytes(ps.push(p)) =~= peers_bytes(ps) + peer_bytes(p));
    }
}

fn push_le32(out: &mut Vec<u8>, x: u32)
    ensures
        final(out)@ == old(out)@ + le32(x),
{
    out.push((x & 0xff) as u8);
    out.push(((x >> 8u32) & 0xff) as u8);
    out.push(((x >> 16u32) & 0xff) as u8);
    out.push(((x >> 24u32) & 0xff) as u8);
    assert(final(out)@ =~= old(out)@ + le32(x));
}

fn push_bytes(out: &mut Vec<u8>, b: &Vec<u8>)
    ensures
        final(out)@ == old(out)@ + b@,
{
    let ghost start = out@;
    let mut i: usize = 0;
    while i < b.len()
        invariant
            i <= b.len(),
            out@ == start + b@.take(i as int),
        decreases b.len() - i,
    {
        out.push(b[i]);
        i = i + 1;
        assert(out@ =~= start + b@.take(i as int));
    }
    assert(b@.take(i as int) =~= b@);
}

fn read_le32(b: &Vec<u8>, pos: usize) -> (r: u32)
    requires
        pos + 4 <= b.len(),
    ensures
        r == parse_le32(b@.subrange(pos as int, b.len() as int)),
{
    (b[pos] as u32) | ((b[pos + 1] as u32) << 8u32) | ((b[pos + 2] as u32) << 16u32) | ((b[pos
        + 3] as u32) << 24u32)
}

fn copy_range(b: &Vec<u8>, start: usize, end: usize) -> (r: Vec<u8>)
    requires
        start <= end <= b.len(),
    ensures
        r@ == b@.subrange(start as int, end as int),
{
    let mut r: Vec<u8> = Vec::new();
    let mut i: usize = start;
    while i < end
        invariant
            start <= i <= end <= b.len(),
            r@ == b@.subrange(start as int, i as int),
        decreases end - i,
    {
        r.push(b[i]);
        i = i + 1;
        assert(r@ =~= b@.subrange(start as int, i as int));
    }
    r
}

/// Appends the bytes of one snapshot.
fn push_peer(out: &mut Vec<u8>, p: &Peer)
    requires
        p.name@.len() <= u32::MAX,
    ensures
        final(out)@ == old(out)@ + peer_bytes(p@),
{
    push_le32(out, p.name.len() as u32);
    push_bytes(out, &p.name);
    push_le32(out, p.px);
    push_le32(out, p.py);
    push_le32(out, p.pz);
    push_le32(out, p.qx);
    push_le32(out, p.qy);
    push_le32(out, p.qz);
    push_le32(out, p.qw);
    assert(final(out)@ =~= old(out)@ + peer_bytes(p@));
}

/// Encodes `m` as one frame.
pub fn encode_message(m: &Message) -> (r: Vec<u8>)
    requires
        encodable(m@),
    ensures
        r@ == encode_spec(m@),
{
    let mut out: Vec<u8> = Vec::new();
    match m {
        Message::Init => {
            out.push(TAG_INIT);
        },
        Message::Config(b) => {
            out.push(TAG_CONFIG);
            push_bytes(&mut out, b);
        },
        Message::Request(b) => {
            out.push(TAG_REQUEST);
            push_bytes(&mut out, b);
        },
        Message::Update(b) => {
            out.push(TAG_UPDATE);
            push_bytes(&mut out, b);
        },
        Message::TextMessage(b) => {
            out.push(TAG_TEXT);
            push_bytes(&mut out, b);
        },
        Message::Peer(ps) => {
            let ghost vs = ps@.map_values(|p: Peer| p@);
            out.push(TAG_PEER);
            push_le32(&mut out, ps.len() as u32);
            let ghost head = out@;
            let mut i: usize = 0;
            while i < ps.len()
                invariant
                    i <= ps.len(),
                    vs == ps@.map_values(|p: Peer| p@),
                    encodable(MessageView::Peer(vs)),
                    out@ == head + peers_bytes(vs.take(i as int)),
                decreases ps.len() - i,
            {
                assert(vs[i as int] == ps@[i as int]@);
                assert(vs[i as int].name.len() <= u32::MAX);
                push_peer(&mut out, &ps[i]);
                proof {
                    assert(vs.take(i + 1) =~= vs.take(i as int).push(vs[i as int]));
                    lemma_peers_bytes_push(vs.take(i as int), vs[i as int]);
                }
                i = i + 1;
            }
            assert(vs.take(i as int) =~= vs);
        },
    }
    assert(out@ =~= encode_spec(m@));
    out
}

proof fn lemma_le32_same(x: Seq<u8>, y: Seq<u8>)
    requires
        x.len() >= 4,
        y.len() >= 4,
        x[0] == y[0],
        x[1] == y[1],
        x[2] == y[2],
        x[3] == y[3],
    ensures
        parse_le32(x) == parse_le32(y),
{
}

proof fn lemma_peer_fields(b: Seq<u8>, pos: int, n: int)
    requires
        0 <= pos,
        0 <= n,
        pos + 4 + n + 28 <= b.len(),
    ensures
        ({
            let s = b.subrange(pos, b.len() as int);
            let w = s.subrange(4 + n, 4 + n + 28);
            let e = pos + 4 + n;
            &&& parse_le32(w) == parse_le32(b.subrange(e, b.len() as int))
            &&& parse_le32(w.subrange(4, 28)) == parse_le32(b.subrange(e + 4, b.len() as int))
            &&& parse_le32(w.subrange(8, 28)) == parse_le32(b.subrange(e + 8, b.len() as int))
            &&& parse_le32(w.subrange(12, 28)) == parse_le32(b.subrange(e + 12, b.len() as int))
            &&& parse_le32(w.subrange(16, 28)) == parse_le32(b.subrange(e + 16, b.len() as int))
            &&& parse_le32(w.subrange(20, 28)) == parse_le32(b.subrange(e + 20, b.len() as int))
            &&& parse_le32(w.subrange(24, 28)) == parse_le32(b.subrange(e + 24, b.len() as int))
        }),
{
    let s = b.subrange(pos, b.len() as int);
    let w = s.subrange(4 + n, 4 + n + 28);
    let e = pos + 4 + n;
    lemma_le32_same(w, b.subrange(e, b.len() as int));
    lemma_le32_same(w.subrange(4, 28), b.subrange(e + 4, b.len() as int));
    lemma_le32_same(w.subrange(8, 28), b.subrange(e + 8, b.len() as int));
    lemma_le32_same(w.subrange(12, 28), b.subrange(e + 12, b.len() as int));
    lemma_le32_same(w.subrange(16, 28), b.subrange(e + 16, b.len() as int));
    lemma_le32_same(w.subrange(20, 28), b.subrange(e + 20, b.len() as int));
    lemma_le32_same(w.subrange(24, 28), b.subrange(e + 24, b.len() as int));
}

/// Reads one snapshot that starts at `pos`, and the position after it.
fn decode_peer(b: &Vec<u8>, pos: usize) -> (r: Option<(Peer, usize)>)
    requires
        pos <= b.len(),
    ensures
        match r {
            Some((p, next)) => pos <= next <= b.len() && parse_peer(
                b@.subrange(pos as int, b.len() as int),
            ) == Some((p@, next - pos)),
            None => parse_peer(b@.subrange(pos as int, b.len() as int)) is None,
        },
{
    let ghost s = b@.subrange(pos as int, b.len() as int);
    proof {
        reveal(parse_peer);
    }
    if b.len() - pos < 4 {
        return None;
    }
    let n = read_le32(b, pos);
    if b.len() - pos - 4 < n as usize || b.len() - pos - 4 - (n as usize) < 28 {
        return None;
    }
    let start = pos + 4;
    let end = start + n as usize;
    let name = copy_range(b, start, end);
    let px = read_le32(b, end);
    let py = read_le32(b, end + 4);
    let pz = read_le32(b, end + 8);
    let qx = read_le32(b, end + 12);
    let qy = read_le32(b, end + 16);
    let qz = read_le32(b, end + 20);
    let qw = read_le32(b, end + 24);
    let p = Peer { name, px, py, pz, qx, qy, qz, qw };
    proof {
        reveal(parse_peer);
        lemma_peer_fields(b@, pos as int, n as int);
        assert(s.subrange(4, 4 + n as int) =~= name@);
    }
    Some((p, end + 28))
}

/// Reads exactly `count` snapshots that take all bytes from `start` on.
fn decode_peers(b: &Vec<u8>, start: usize, count: u32) -> (r: Option<Vec<Peer>>)
    requires
        start <= b.len(),
    ensures
        match r {
            Some(ps) => parse_peers(b@.subrange(start as int, b.len() as int), count as nat) == Some(
                ps@.map_values(|p: Peer| p@),
            ),
            None => parse_peers(b@.subrange(start as int, b.len() as int), count as nat) is None,
        },
{
    let ghost whole = parse_peers(b@.subrange(start as int, b.len() as int), count as nat);
    let mut out: Vec<Peer> = Vec::new();
    let mut pos: usize = start;
    let mut i: u32 = 0;
    while i < count
        invariant
            i <= count,
            start <= pos <= b.len(),
            whole == parse_peers(b@.subrange(start as int, b.len() as int), count as nat),
            whole == match parse_peers(b@.subrange(pos as int, b.len() as int), (count - i) as nat) {
                Some(rest) => Some(out@.map_values(|p: Peer| p@) + rest),
                None => None,
            },
        decreases count - i,
    {
        let ghost s = b@.subrange(pos as int, b.len() as int);
        let ghost before = out@.map_values(|p: Peer| p@);
        match decode_peer(b, pos) {
            None => {
                return None;
            },
            Some((p, next)) => {
                let ghost pv = p@;
                out.push(p);
                proof {
                    assert(s.subrange(next - pos, s.len() as int) =~= b@.subrange(
                        next as int,
                        b.len() as int,
                    ));
                    assert(out@.map_values(|p: Peer| p@) =~= before.push(pv));
                    match parse_peers(b@.subrange(next as int, b.len() as int), (count - i - 1) as nat) {
                        Some(rest) => {
                            assert(before + (seq![pv] + rest) =~= before.push(pv) + rest);
                        },
                        None => {},
                    }
                }
                pos = next;
                i = i + 1;
            },
        }
    }
    if pos == b.len() {
        proof {
            assert(out@.map_values(|p: Peer| p@) + Seq::<PeerView>::empty() =~= out@.map_values(
                |p: Peer| p@,
            ));
        }
        Some(out)
    } else {
        None
    }
}

/// Decodes one frame. It fails exactly on frames that no message encodes to
/// under this layout's rules: empty, unknown tag, truncated or with bytes
/// left over.
pub fn decode_message(b: &Vec<u8>) -> (r: Result<Message, DecodeError>)
    ensures
        match r {
            Ok(m) => decode_spec(b@) == Some(m@),
            Err(_) => decode_spec(b@) is None,
        },
{
    if b.len() == 0 {
        return Err(DecodeError::Malformed);
    }
    let tag = b[0];
    let ghost body = b@.drop_first();
    if tag == TAG_INIT {
        if b.len() == 1 {
            Ok(Message::Init)
        } else {
            Err(DecodeError::Malformed)
        }
    } else if tag == TAG_CONFIG {
        let p = copy_range(b, 1, b.len());
        assert(p@ =~= body);
        Ok(Message::Config(p))
    } else if tag == TAG_REQUEST {
        let p = copy_range(b, 1, b.len());
        assert(p@ =~= body);
        Ok(Message::Request(p))
    } else if tag == TAG_UPDATE {
        let p = copy_range(b, 1, b.len());
        assert(p@ =~= body);
        Ok(Message::Update(p))
    } else if tag == TAG_TEXT {
        let p = copy_range(b, 1, b.len());
        assert(p@ =~= body);
        Ok(Message::TextMessage(p))
    } else if tag == TAG_PEER {
        if b.len() < 5 {
            return Err(DecodeError::Malformed);
        }
        let count = read_le32(b, 1);
        proof {
            assert(b@.subrange(1, b.len() as int) =~= body);
            assert(body.subrange(4, body.len() as int) =~= b@.subrange(5, b.len() as int));
        }
        match decode_peers(b, 5, count) {
            Some(ps) => Ok(Message::Peer(ps)),
            None => Err(DecodeError::Malformed),
        }
    } else {
        Err(DecodeError::Malformed)
    }
}

} // verus!
