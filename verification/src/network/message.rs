//! Messages and their framing: a four-byte big-endian length, then the
//! payload with little-endian integers and length-prefixed strings and blobs.

use vstd::prelude::*;
use vstd::bytes::*;
use vstd::slice::*;
use vstd::utf8::*;

verus! {

pub const TAG_INTRODUCTION: u8 = 1;
pub const TAG_DIRECTORY: u8 = 2;
pub const TAG_KILL: u8 = 3;
pub const TAG_GET: u8 = 4;
pub const TAG_VALUE: u8 = 5;
pub const TAG_BLOB: u8 = 6;

/// The sender id that stands for the coordinator.
pub const COORDINATOR_ID: u64 = 0;

/// The largest payload that a codec accepts unless told otherwise.
pub const DEFAULT_MAX_FRAME_LEN: u32 = 268435456;

/// What a message carries, by kind.
#[derive(Debug, Clone, PartialEq, Eq)]
pub enum Body {
    Introduction { address: String, network_name: String },
    Directory { dir: Vec<(u64, String)> },
    Kill,
    Get { key_name: String, home: u64 },
    Value { key_name: String, home: u64, bytes: Vec<u8> },
    Blob { bytes: Vec<u8> },
}

/// One message of the peer protocol.
#[derive(Debug, Clone, PartialEq, Eq)]
pub struct Message {
    pub msg_id: u64,
    pub sender: u64,
    pub target: u64,
    pub body: Body,
}

/// The mathematical value of a [`Body`].
pub enum BodyView {
    Introduction { address: Seq<char>, network_name: Seq<char> },
    Directory { dir: Seq<(u64, Seq<char>)> },
    Kill,
    Get { key_name: Seq<char>, home: u64 },
    Value { key_name: Seq<char>, home: u64, bytes: Seq<u8> },
    Blob { bytes: Seq<u8> },
}

/// The mathematical value of a [`Message`].
pub struct MessageView {
    pub msg_id: u64,
    pub sender: u64,
    pub target: u64,
    pub body: BodyView,
}

/// A directory listing with each address as its characters.
pub open spec fn dir_view(dir: Seq<(u64, String)>) -> Seq<(u64, Seq<char>)> {
    Seq::new(dir.len(), |i: int| (dir[i].0, dir[i].1@))
}

impl View for Body {
    type V = BodyView;

    open spec fn view(&self) -> BodyView {
        match *self {
            Body::Introduction { address, network_name } => BodyView::Introduction {
                address: address@,
                network_name: network_name@,
            },
            Body::Directory { dir } => BodyView::Directory { dir: dir_view(dir@) },
            Body::Kill => BodyView::Kill,
            Body::Get { key_name, home } => BodyView::Get { key_name: key_name@, home },
            Body::Value { key_name, home, bytes } => BodyView::Value {
                key_name: key_name@,
                home,
                bytes: bytes@,
            },
            Body::Blob { bytes } => BodyView::Blob { bytes: bytes@ },
        }
    }
}

impl View for Message {
    type V = MessageView;

    open spec fn view(&self) -> MessageView {
        MessageView {
            msg_id: self.msg_id,
            sender: self.sender,
            target: self.target,
            body: self.body@,
        }
    }
}

fn copy_dir(dir: &Vec<(u64, String)>) -> (res: Vec<(u64, String)>)
    ensures
        dir_view(res@) == dir_view(dir@),
{
    let mut res: Vec<(u64, String)> = Vec::new();
    let mut i: usize = 0;
    while i < dir.len()
        invariant
            i <= dir@.len(),
            res@.len() == i,
            forall|j: int| 0 <= j < i ==> res@[j].0 == dir@[j].0 && res@[j].1@ == dir@[j].1@,
        decreases dir@.len() - i,
    {
        res.push((dir[i].0, dir[i].1.clone()));
        i += 1;
    }
    assert(dir_view(res@) =~= dir_view(dir@));
    res
}

impl Body {
    /// A copy of this body.
    pub fn duplicate(&self) -> (res: Body)
        ensures
            res@ == self@,
    {
        match self {
            Body::Introduction { address, network_name } => Body::Introduction {
                address: address.clone(),
                network_name: network_name.clone(),
            },
            Body::Directory { dir } => Body::Directory { dir: copy_dir(dir) },
            Body::Kill => Body::Kill,
            Body::Get { key_name, home } => Body::Get { key_name: key_name.clone(), home: *home },
            Body::Value { key_name, home, bytes } => Body::Value {
                key_name: key_name.clone(),
                home: *home,
                bytes: slice_to_vec(bytes.as_slice()),
            },
            Body::Blob { bytes } => Body::Blob { bytes: slice_to_vec(bytes.as_slice()) },
        }
    }
}

impl Message {
    pub fn new(msg_id: u64, sender: u64, target: u64, body: Body) -> (m: Message)
        ensures
            m == (Message { msg_id, sender, target, body }),
    {
        Message { msg_id, sender, target, body }
    }
}

// ---------------------------------------------------------------------
// The wire format, as sequences of bytes.

pub open spec fn enc_u64(x: u64) -> Seq<u8> {
    spec_u64_to_le_bytes(x)
}

pub open spec fn enc_u32(x: u32) -> Seq<u8> {
    spec_u32_to_le_bytes(x)
}

/// The frame's length prefix: the four bytes of `x`, highest first.
pub open spec fn enc_len(x: u32) -> Seq<u8> {
    let le = spec_u32_to_le_bytes(x);
    seq![le[3], le[2], le[1], le[0]]
}

/// The number that a length prefix stands for.
pub open spec fn dec_len(b: Seq<u8>) -> u32 {
    spec_u32_from_le_bytes(seq![b[3], b[2], b[1], b[0]])
}

/// A blob: its length as a `u32`, then its bytes.
pub open spec fn enc_blob(b: Seq<u8>) -> Seq<u8> {
    enc_u32(b.len() as u32) + b
}

/// A string: the blob of its UTF-8 encoding.
pub open spec fn enc_str(s: Seq<char>) -> Seq<u8> {
    enc_blob(encode_utf8(s))
}

pub open spec fn enc_entry(e: (u64, Seq<char>)) -> Seq<u8> {
    enc_u64(e.0) + enc_str(e.1)
}

/// The entries of a directory listing, one after the other.
pub open spec fn enc_entries(d: Seq<(u64, Seq<char>)>) -> Seq<u8>
    decreases d.len(),
{
    if d.len() == 0 {
        Seq::empty()
    } else {
        enc_entries(d.drop_last()) + enc_entry(d.last())
    }
}

pub open spec fn enc_body(b: BodyView) -> Seq<u8> {
    match b {
        BodyView::Introduction { address, network_name } => seq![TAG_INTRODUCTION] + enc_str(
            address,
        ) + enc_str(network_name),
        BodyView::Directory { dir } => seq![TAG_DIRECTORY] + enc_u32(dir.len() as u32)
            + enc_entries(dir),
        BodyView::Kill => seq![TAG_KILL],
        BodyView::Get { key_name, home } => seq![TAG_GET] + enc_str(key_name) + enc_u64(home),
        BodyView::Value { key_name, home, bytes } => seq![TAG_VALUE] + enc_str(key_name) + enc_u64(
            home,
        ) + enc_blob(bytes),
        BodyView::Blob { bytes } => seq![TAG_BLOB] + enc_blob(bytes),
    }
}

/// Everything of a frame but its length prefix.
pub open spec fn enc_payload(m: MessageView) -> Seq<u8> {
    enc_u64(m.msg_id) + enc_u64(m.sender) + enc_u64(m.target) + enc_body(m.body)
}

/// A whole frame: the payload's length, then the payload.
pub open spec fn enc_frame(m: MessageView) -> Seq<u8> {
    enc_len(enc_payload(m).len() as u32) + enc_payload(m)
}

pub open spec fn str_fits(s: Seq<char>) -> bool {
    encode_utf8(s).len() <= u32::MAX
}

pub open spec fn entries_fit(d: Seq<(u64, Seq<char>)>) -> bool {
    forall|i: int| 0 <= i < d.len() ==> str_fits(#[trigger] d[i].1)
}

/// Every length of the body can be written as a `u32`.
pub open spec fn body_fits(b: BodyView) -> bool {
    match b {
        BodyView::Introduction { address, network_name } => str_fits(address) && str_fits(
            network_name,
        ),
        BodyView::Directory { dir } => dir.len() <= u32::MAX && entries_fit(dir),
        BodyView::Kill => true,
        BodyView::Get { key_name, home } => str_fits(key_name),
        BodyView::Value { key_name, home, bytes } => str_fits(key_name) && bytes.len() <= u32::MAX,
        BodyView::Blob { bytes } => bytes.len() <= u32::MAX,
    }
}

impl MessageView {
    /// A message that a codec with the limit `max` can frame.
    pub open spec fn well_formed(self, max: u32) -> bool {
        body_fits(self.body) && enc_payload(self).len() <= max
    }
}

// ---------------------------------------------------------------------
// Reading the wire format back: each step takes a position and gives
// the value with the position behind it.

pub open spec fn parse_u8(b: Seq<u8>, pos: int) -> Option<(u8, int)> {
    if 0 <= pos < b.len() {
        Some((b[pos], pos + 1))
    } else {
        None
    }
}

pub open spec fn parse_u32(b: Seq<u8>, pos: int) -> Option<(u32, int)> {
    if 0 <= pos && pos + 4 <= b.len() {
        Some((spec_u32_from_le_bytes(b.subrange(pos, pos + 4)), pos + 4))
    } else {
        None
    }
}

pub open spec fn parse_u64(b: Seq<u8>, pos: int) -> Option<(u64, int)> {
    if 0 <= pos && pos + 8 <= b.len() {
        Some((spec_u64_from_le_bytes(b.subrange(pos, pos + 8)), pos + 8))
    } else {
        None
    }
}

pub open spec fn parse_blob(b: Seq<u8>, pos: int) -> Option<(Seq<u8>, int)> {
    match parse_u32(b, pos) {
        Some((n, p)) => if p + n <= b.len() {
            Some((b.subrange(p, p + n), p + n))
        } else {
            None
        },
        None => None,
    }
}

pub open spec fn parse_str(b: Seq<u8>, pos: int) -> Option<(Seq<char>, int)> {
    match parse_blob(b, pos) {
        Some((raw, p)) => if valid_utf8(raw) {
            Some((decode_utf8(raw), p))
        } else {
            None
        },
        None => None,
    }
}

pub open spec fn parse_entry(b: Seq<u8>, pos: int) -> Option<((u64, Seq<char>), int)> {
    match parse_u64(b, pos) {
        Some((id, p)) => match parse_str(b, p) {
            Some((address, q)) => Some(((id, address), q)),
            None => None,
        },
        None => None,
    }
}

/// The first `n` entries of a listing that starts at `pos`.
pub open spec fn parse_entries(b: Seq<u8>, pos: int, n: nat) -> Option<
    (Seq<(u64, Seq<char>)>, int),
>
    decreases n,
{
    if n == 0 {
        Some((Seq::empty(), pos))
    } else {
        match parse_entries(b, pos, (n - 1) as nat) {
            Some((d, p)) => match parse_entry(b, p) {
                Some((e, q)) => Some((d.push(e), q)),
                None => None,
            },
            None => None,
        }
    }
}

pub open spec fn parse_body(b: Seq<u8>, pos: int) -> Option<(BodyView, int)> {
    match parse_u8(b, pos) {
        Some((tag, p)) => if tag == TAG_INTRODUCTION {
            match parse_str(b, p) {
                Some((address, q)) => match parse_str(b, q) {
                    Some((network_name, r)) => Some(
                        (BodyView::Introduction { address, network_name }, r),
                    ),
                    None => None,
                },
                None => None,
            }
        } else if tag == TAG_DIRECTORY {
            match parse_u32(b, p) {
                Some((n, q)) => match parse_entries(b, q, n as nat) {
                    Some((dir, r)) => Some((BodyView::Directory { dir }, r)),
                    None => None,
                },
                None => None,
            }
        } else if tag == TAG_KILL {
            Some((BodyView::Kill, p))
        } else if tag == TAG_GET {
            match parse_str(b, p) {
                Some((key_name, q)) => match parse_u64(b, q) {
                    Some((home, r)) => Some((BodyView::Get { key_name, home }, r)),
                    None => None,
                },
                None => None,
            }
        } else if tag == TAG_VALUE {
            match parse_str(b, p) {
                Some((key_name, q)) => match parse_u64(b, q) {
                    Some((home, r)) => match parse_blob(b, r) {
                        Some((bytes, s)) => Some((BodyView::Value { key_name, home, bytes }, s)),
                        None => None,
                    },
                    None => None,
                },
                None => None,
            }
        } else if tag == TAG_BLOB {
            match parse_blob(b, p) {
                Some((bytes, q)) => Some((BodyView::Blob { bytes }, q)),
                None => None,
            }
        } else {
            None
        },
        None => None,
    }
}

/// The message that a payload holds, if it holds exactly one.
pub open spec fn parse_payload(b: Seq<u8>) -> Option<MessageView> {
    match parse_u64(b, 0) {
        Some((msg_id, p)) => match parse_u64(b, p) {
            Some((sender, q)) => match parse_u64(b, q) {
                Some((target, r)) => match parse_body(b, r) {
                    Some((body, s)) => if s == b.len() {
                        Some(MessageView { msg_id, sender, target, body })
                    } else {
                        None
                    },
                    None => None,
                },
                None => None,
            },
            None => None,
        },
        None => None,
    }
}

/// What the start of a byte stream holds.
pub enum FrameParse {
    /// Not yet a whole frame: more bytes are needed.
    Incomplete,
    /// The link must be closed: the length is over the limit, or the
    /// payload is truncated, overlong or of an unknown kind.
    Malformed,
    /// A message, and the number of bytes that its frame took.
    Complete(MessageView, int),
}

pub open spec fn parse_frame(b: Seq<u8>, max: u32) -> FrameParse {
    if b.len() < 4 {
        FrameParse::Incomplete
    } else {
        let n = dec_len(b.subrange(0, 4));
        if n > max {
            FrameParse::Malformed
        } else if b.len() < 4 + n {
            FrameParse::Incomplete
        } else {
            match parse_payload(b.subrange(4, 4 + n)) {
                Some(m) => FrameParse::Complete(m, 4 + n),
                None => FrameParse::Malformed,
            }
        }
    }
}

// ---------------------------------------------------------------------
// Reading back what was written.

/// The bytes `e` stand in `b` from `pos` on.
pub open spec fn is_at(b: Seq<u8>, pos: int, e: Seq<u8>) -> bool {
    0 <= pos && pos + e.len() <= b.len() && b.subrange(pos, pos + e.len()) == e
}

proof fn is_at_split(b: Seq<u8>, pos: int, x: Seq<u8>, y: Seq<u8>)
    requires
        is_at(b, pos, x + y),
    ensures
        is_at(b, pos, x),
        is_at(b, pos + x.len(), y),
{
    let w = b.subrange(pos, pos + (x + y).len());
    assert forall|i: int| 0 <= i < x.len() implies b[pos + i] == x[i] by {
        assert(w[i] == (x + y)[i]);
    }
    assert forall|i: int| 0 <= i < y.len() implies b[pos + x.len() + i] == y[i] by {
        assert(w[x.len() + i] == (x + y)[x.len() + i]);
    }
    assert(b.subrange(pos, pos + x.len()) =~= x);
    assert(b.subrange(pos + x.len(), pos + x.len() + y.len()) =~= y);
}

proof fn read_back_u64(b: Seq<u8>, pos: int, x: u64)
    requires
        is_at(b, pos, enc_u64(x)),
    ensures
        enc_u64(x).len() == 8,
        parse_u64(b, pos) == Some((x, pos + 8)),
{
    lemma_auto_spec_u64_to_from_le_bytes();
}

proof fn read_back_u32(b: Seq<u8>, pos: int, x: u32)
    requires
        is_at(b, pos, enc_u32(x)),
    ensures
        enc_u32(x).len() == 4,
        parse_u32(b, pos) == Some((x, pos + 4)),
{
    lemma_auto_spec_u32_to_from_le_bytes();
}

proof fn read_back_blob(b: Seq<u8>, pos: int, v: Seq<u8>)
    requires
        v.len() <= u32::MAX,
        is_at(b, pos, enc_blob(v)),
    ensures
        enc_blob(v).len() == 4 + v.len(),
        parse_blob(b, pos) == Some((v, pos + 4 + v.len())),
{
    lemma_auto_spec_u32_to_from_le_bytes();
    is_at_split(b, pos, enc_u32(v.len() as u32), v);
    read_back_u32(b, pos, v.len() as u32);
}

proof fn read_back_str(b: Seq<u8>, pos: int, s: Seq<char>)
    requires
        str_fits(s),
        is_at(b, pos, enc_str(s)),
    ensures
        parse_str(b, pos) == Some((s, pos + enc_str(s).len())),
{
    read_back_blob(b, pos, encode_utf8(s));
    encode_utf8_valid_utf8(s);
    encode_utf8_decode_utf8(s);
}

proof fn read_back_entry(b: Seq<u8>, pos: int, e: (u64, Seq<char>))
    requires
        str_fits(e.1),
        is_at(b, pos, enc_entry(e)),
    ensures
        parse_entry(b, pos) == Some((e, pos + enc_entry(e).len())),
{
    is_at_split(b, pos, enc_u64(e.0), enc_str(e.1));
    read_back_u64(b, pos, e.0);
    read_back_str(b, pos + 8, e.1);
}

proof fn read_back_entries(b: Seq<u8>, pos: int, d: Seq<(u64, Seq<char>)>)
    requires
        entries_fit(d),
        is_at(b, pos, enc_entries(d)),
    ensures
        parse_entries(b, pos, d.len()) == Some((d, pos + enc_entries(d).len())),
    decreases d.len(),
{
    if d.len() > 0 {
        let front = d.drop_last();
        assert forall|i: int| 0 <= i < front.len() implies str_fits(#[trigger] front[i].1) by {
            assert(front[i] == d[i]);
        }
        is_at_split(b, pos, enc_entries(front), enc_entry(d.last()));
        read_back_entries(b, pos, front);
        assert(str_fits(d[d.len() - 1].1));
        read_back_entry(b, pos + enc_entries(front).len(), d.last());
        assert(front.push(d.last()) =~= d);
    }
}

proof fn read_back_body(b: Seq<u8>, pos: int, body: BodyView)
    requires
        body_fits(body),
        is_at(b, pos, enc_body(body)),
    ensures
        parse_body(b, pos) == Some((body, pos + enc_body(body).len())),
{
    match body {
        BodyView::Introduction { address, network_name } => {
            let t = seq![TAG_INTRODUCTION];
            is_at_split(b, pos, t + enc_str(address), enc_str(network_name));
            is_at_split(b, pos, t, enc_str(address));
            assert(b.subrange(pos, pos + 1)[0] == t[0]);
            read_back_str(b, pos + 1, address);
            read_back_str(b, pos + 1 + enc_str(address).len(), network_name);
        },
        BodyView::Directory { dir } => {
            let t = seq![TAG_DIRECTORY];
            is_at_split(b, pos, t + enc_u32(dir.len() as u32), enc_entries(dir));
            is_at_split(b, pos, t, enc_u32(dir.len() as u32));
            assert(b.subrange(pos, pos + 1)[0] == t[0]);
            read_back_u32(b, pos + 1, dir.len() as u32);
            read_back_entries(b, pos + 5, dir);
        },
        BodyView::Kill => {
            let t = seq![TAG_KILL];
            assert(b.subrange(pos, pos + 1)[0] == t[0]);
        },
        BodyView::Get { key_name, home } => {
            let t = seq![TAG_GET];
            is_at_split(b, pos, t + enc_str(key_name), enc_u64(home));
            is_at_split(b, pos, t, enc_str(key_name));
            assert(b.subrange(pos, pos + 1)[0] == t[0]);
            read_back_str(b, pos + 1, key_name);
            read_back_u64(b, pos + 1 + enc_str(key_name).len(), home);
        },
        BodyView::Value { key_name, home, bytes } => {
            let t = seq![TAG_VALUE];
            is_at_split(b, pos, t + enc_str(key_name) + enc_u64(home), enc_blob(bytes));
            is_at_split(b, pos, t + enc_str(key_name), enc_u64(home));
            is_at_split(b, pos, t, enc_str(key_name));
            assert(b.subrange(pos, pos + 1)[0] == t[0]);
            read_back_str(b, pos + 1, key_name);
            read_back_u64(b, pos + 1 + enc_str(key_name).len(), home);
            read_back_blob(b, pos + 1 + enc_str(key_name).len() + 8, bytes);
        },
        BodyView::Blob { bytes } => {
            let t = seq![TAG_BLOB];
            is_at_split(b, pos, t, enc_blob(bytes));
            assert(b.subrange(pos, pos + 1)[0] == t[0]);
            read_back_blob(b, pos + 1, bytes);
        },
    }
}

/// A payload that was written from a message reads back as that message.
pub proof fn payload_round_trip(m: MessageView)
    requires
        body_fits(m.body),
    ensures
        parse_payload(enc_payload(m)) == Some(m),
{
    let b = enc_payload(m);
    assert(b.subrange(0, b.len() as int) =~= b);
    is_at_split(b, 0, enc_u64(m.msg_id) + enc_u64(m.sender) + enc_u64(m.target), enc_body(m.body));
    is_at_split(b, 0, enc_u64(m.msg_id) + enc_u64(m.sender), enc_u64(m.target));
    is_at_split(b, 0, enc_u64(m.msg_id), enc_u64(m.sender));
    read_back_u64(b, 0, m.msg_id);
    read_back_u64(b, 8, m.sender);
    read_back_u64(b, 16, m.target);
    read_back_body(b, 24, m.body);
}

/// Decoding inverts encoding: the frame of a well-formed message, whatever
/// follows it in the stream, reads back as that message and takes exactly
/// the frame's bytes.
pub proof fn decode_inverts_encode(m: MessageView, max: u32, rest: Seq<u8>)
    requires
        m.well_formed(max),
    ensures
        parse_frame(enc_frame(m) + rest, max) == FrameParse::Complete(m, enc_frame(m).len() as int),
        enc_frame(m).len() == 4 + enc_payload(m).len(),
{
    let payload = enc_payload(m);
    let n = payload.len() as u32;
    let b = enc_frame(m) + rest;
    lemma_auto_spec_u32_to_from_le_bytes();
    let le = spec_u32_to_le_bytes(n);
    let head = b.subrange(0, 4);
    assert(head =~= enc_len(n));
    assert(seq![head[3], head[2], head[1], head[0]] =~= le);
    assert(dec_len(head) == n);
    assert(b.subrange(4, 4 + n) =~= payload);
    payload_round_trip(m);
}

// ---------------------------------------------------------------------
// What was read is what was written.

proof fn written_u64(b: Seq<u8>, pos: int)
    requires
        parse_u64(b, pos) is Some,
    ensures
        b.subrange(pos, pos + 8) == enc_u64(parse_u64(b, pos)->Some_0.0),
{
    lemma_auto_spec_u64_to_from_le_bytes();
}

proof fn written_u32(b: Seq<u8>, pos: int)
    requires
        parse_u32(b, pos) is Some,
    ensures
        b.subrange(pos, pos + 4) == enc_u32(parse_u32(b, pos)->Some_0.0),
{
    lemma_auto_spec_u32_to_from_le_bytes();
}

proof fn written_blob(b: Seq<u8>, pos: int)
    requires
        parse_blob(b, pos) is Some,
    ensures
        ({
            let (v, p) = parse_blob(b, pos)->Some_0;
            pos <= p <= b.len() && v.len() <= u32::MAX && b.subrange(pos, p) == enc_blob(v)
        }),
{
    let (v, p) = parse_blob(b, pos)->Some_0;
    written_u32(b, pos);
    assert(b.subrange(pos, p) =~= b.subrange(pos, pos + 4) + b.subrange(pos + 4, p));
}

proof fn written_str(b: Seq<u8>, pos: int)
    requires
        parse_str(b, pos) is Some,
    ensures
        ({
            let (v, p) = parse_str(b, pos)->Some_0;
            pos <= p <= b.len() && str_fits(v) && b.subrange(pos, p) == enc_str(v)
        }),
{
    written_blob(b, pos);
    decode_utf8_encode_utf8(parse_blob(b, pos)->Some_0.0);
}

proof fn written_entry(b: Seq<u8>, pos: int)
    requires
        parse_entry(b, pos) is Some,
    ensures
        ({
            let (e, p) = parse_entry(b, pos)->Some_0;
            pos <= p <= b.len() && str_fits(e.1) && b.subrange(pos, p) == enc_entry(e)
        }),
{
    let (e, p) = parse_entry(b, pos)->Some_0;
    written_u64(b, pos);
    written_str(b, pos + 8);
    assert(b.subrange(pos, p) =~= b.subrange(pos, pos + 8) + b.subrange(pos + 8, p));
}

proof fn written_entries(b: Seq<u8>, pos: int, n: nat)
    requires
        0 <= pos <= b.len(),
        parse_entries(b, pos, n) is Some,
    ensures
        ({
            let (d, p) = parse_entries(b, pos, n)->Some_0;
            &&& pos <= p <= b.len()
            &&& d.len() == n
            &&& entries_fit(d)
            &&& b.subrange(pos, p) == enc_entries(d)
        }),
    decreases n,
{
    let (d, p) = parse_entries(b, pos, n)->Some_0;
    if n == 0 {
        assert(b.subrange(pos, p) =~= enc_entries(d));
    } else {
        let (front, q) = parse_entries(b, pos, (n - 1) as nat)->Some_0;
        written_entries(b, pos, (n - 1) as nat);
        written_entry(b, q);
        let e = parse_entry(b, q)->Some_0.0;
        assert(d.drop_last() =~= front);
        assert(d.last() == e);
        assert(b.subrange(pos, p) =~= b.subrange(pos, q) + b.subrange(q, p));
        assert forall|i: int| 0 <= i < d.len() implies str_fits(#[trigger] d[i].1) by {
            if i < front.len() {
                assert(d[i] == front[i]);
            }
        }
    }
}

proof fn written_body(b: Seq<u8>, pos: int)
    requires
        parse_body(b, pos) is Some,
    ensures
        ({
            let (body, p) = parse_body(b, pos)->Some_0;
            pos <= p <= b.len() && body_fits(body) && b.subrange(pos, p) == enc_body(body)
        }),
{
    let (body, p) = parse_body(b, pos)->Some_0;
    let tag = b[pos];
    assert(b.subrange(pos, pos + 1) =~= seq![tag]);
    if tag == TAG_INTRODUCTION {
        written_str(b, pos + 1);
        let q = parse_str(b, pos + 1)->Some_0.1;
        written_str(b, q);
        assert(b.subrange(pos, p) =~= b.subrange(pos, pos + 1) + b.subrange(pos + 1, q)
            + b.subrange(q, p));
    } else if tag == TAG_DIRECTORY {
        written_u32(b, pos + 1);
        let n = parse_u32(b, pos + 1)->Some_0.0;
        written_entries(b, pos + 5, n as nat);
        assert(b.subrange(pos, p) =~= b.subrange(pos, pos + 1) + b.subrange(pos + 1, pos + 5)
            + b.subrange(pos + 5, p));
    } else if tag == TAG_KILL {
    } else if tag == TAG_GET {
        written_str(b, pos + 1);
        let q = parse_str(b, pos + 1)->Some_0.1;
        written_u64(b, q);
        assert(b.subrange(pos, p) =~= b.subrange(pos, pos + 1) + b.subrange(pos + 1, q)
            + b.subrange(q, p));
    } else if tag == TAG_VALUE {
        written_str(b, pos + 1);
        let q = parse_str(b, pos + 1)->Some_0.1;
        written_u64(b, q);
        written_blob(b, q + 8);
        assert(b.subrange(pos, p) =~= b.subrange(pos, pos + 1) + b.subrange(pos + 1, q)
            + b.subrange(q, q + 8) + b.subrange(q + 8, p));
    } else {
        written_blob(b, pos + 1);
        assert(b.subrange(pos, p) =~= b.subrange(pos, pos + 1) + b.subrange(pos + 1, p));
    }
}

/// A payload that reads as a message is the payload written from it.
pub proof fn payload_is_encoding(b: Seq<u8>)
    requires
        parse_payload(b) is Some,
    ensures
        body_fits(parse_payload(b)->Some_0.body),
        b == enc_payload(parse_payload(b)->Some_0),
{
    written_u64(b, 0);
    written_u64(b, 8);
    written_u64(b, 16);
    written_body(b, 24);
    assert(b =~= b.subrange(0, 8) + b.subrange(8, 16) + b.subrange(16, 24) + b.subrange(
        24,
        b.len() as int,
    ));
}

/// Decoding yields nothing that was not encoded: where the start of a
/// stream reads as a message, the bytes that were taken are the frame of
/// that message, and the message is well formed.
pub proof fn decoded_frame_is_encoding(b: Seq<u8>, max: u32)
    requires
        parse_frame(b, max) is Complete,
    ensures
        ({
            let m = parse_frame(b, max)->Complete_0;
            let n = parse_frame(b, max)->Complete_1;
            &&& 4 <= n <= b.len()
            &&& m.well_formed(max)
            &&& b.subrange(0, n) == enc_frame(m)
        }),
{
    let m = parse_frame(b, max)->Complete_0;
    let n = parse_frame(b, max)->Complete_1;
    let head = b.subrange(0, 4);
    let len = dec_len(head);
    lemma_auto_spec_u32_to_from_le_bytes();
    payload_is_encoding(b.subrange(4, 4 + len));
    assert(enc_len(len) =~= head);
    assert(b.subrange(0, n) =~= head + b.subrange(4, 4 + len));
}

} // verus!
