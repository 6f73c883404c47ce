//! The codec that turns messages into frames and frames into messages.

use vstd::prelude::*;
use vstd::bytes::*;
use vstd::slice::*;
use vstd::utf8::*;
use crate::error::LiquidError;
use crate::network::message::{
    body_fits, dir_view, enc_blob, enc_body, enc_entries, enc_frame, enc_payload, enc_str,
    enc_u32, enc_u64, entries_fit, parse_blob, parse_body, parse_entries, parse_frame,
    parse_payload, parse_str, parse_u32, parse_u64, parse_u8, str_fits, Body, FrameParse,
    Message, DEFAULT_MAX_FRAME_LEN, TAG_BLOB, TAG_DIRECTORY, TAG_GET, TAG_INTRODUCTION, TAG_KILL,
    TAG_VALUE,
};

verus! {

/// Turns bytes into a `String` with std's `String::from_utf8`: there is a
/// string exactly when the bytes are valid UTF-8, and it is the text that
/// they encode.
#[verifier::external_body]
fn string_from_utf8(bytes: Vec<u8>) -> (res: Option<String>)
    ensures
        res is Some <==> valid_utf8(bytes@),
        res is Some ==> res.unwrap()@ == decode_utf8(bytes@),
{
    String::from_utf8(bytes).ok()
}

fn put_slice(out: &mut Vec<u8>, src: &[u8])
    ensures
        final(out)@ == old(out)@ + src@,
{
    let mut i: usize = 0;
    while i < src.len()
        invariant
            0 <= i <= src@.len(),
            out@ == old(out)@ + src@.take(i as int),
        decreases src@.len() - i,
    {
        out.push(src[i]);
        i += 1;
        assert(src@.take(i as int) == src@.take(i - 1).push(src@[i - 1]));
    }
    assert(src@.take(i as int) == src@);
}

fn put_u64(out: &mut Vec<u8>, x: u64)
    ensures
        final(out)@ == old(out)@ + enc_u64(x),
{
    let b = u64_to_le_bytes(x);
    put_slice(out, b.as_slice());
}

fn put_u32(out: &mut Vec<u8>, x: u32)
    ensures
        final(out)@ == old(out)@ + enc_u32(x),
{
    let b = u32_to_le_bytes(x);
    put_slice(out, b.as_slice());
}

fn put_blob(out: &mut Vec<u8>, src: &[u8]) -> (ok: bool)
    ensures
        ok <==> src@.len() <= u32::MAX,
        ok ==> final(out)@ == old(out)@ + enc_blob(src@),
        !ok ==> final(out)@ == old(out)@,
{
    if src.len() > 0xffff_ffff {
        return false;
    }
    put_u32(out, src.len() as u32);
    put_slice(out, src);
    assert(out@ =~= old(out)@ + enc_blob(src@));
    true
}

fn put_str(out: &mut Vec<u8>, s: &String) -> (ok: bool)
    ensures
        ok <==> str_fits(s@),
        ok ==> final(out)@ == old(out)@ + enc_str(s@),
        !ok ==> final(out)@ == old(out)@,
{
    put_blob(out, s.as_str().as_bytes())
}

fn put_entries(out: &mut Vec<u8>, dir: &Vec<(u64, String)>) -> (ok: bool)
    ensures
        ok <==> entries_fit(dir_view(dir@)),
        ok ==> final(out)@ == old(out)@ + enc_entries(dir_view(dir@)),
{
    let ghost d = dir_view(dir@);
    let mut i: usize = 0;
    while i < dir.len()
        invariant
            0 <= i <= dir@.len(),
            d == dir_view(dir@),
            entries_fit(d.take(i as int)),
            out@ == old(out)@ + enc_entries(d.take(i as int)),
        decreases dir@.len() - i,
    {
        let ghost before = out@;
        put_u64(out, dir[i].0);
        let ok = put_str(out, &dir[i].1);
        if !ok {
            assert(!str_fits(d[i as int].1));
            return false;
        }
        proof {
            let t = d.take(i + 1);
            assert(t.drop_last() == d.take(i as int));
            assert(t.last() == d[i as int]);
            assert(out@ =~= old(out)@ + enc_entries(t));
            assert forall|j: int| 0 <= j < t.len() implies str_fits(#[trigger] t[j].1) by {
                if j < i {
                    assert(t[j] == d.take(i as int)[j]);
                }
            }
        }
        i += 1;
    }
    assert(d.take(i as int) == d);
    true
}

fn put_body(out: &mut Vec<u8>, body: &Body) -> (ok: bool)
    ensures
        ok <==> body_fits(body@),
        ok ==> final(out)@ == old(out)@ + enc_body(body@),
{
    match body {
        Body::Introduction { address, network_name } => {
            out.push(TAG_INTRODUCTION);
            let ok = put_str(out, address) && put_str(out, network_name);
            assert(ok ==> out@ =~= old(out)@ + enc_body(body@));
            ok
        },
        Body::Directory { dir } => {
            if dir.len() > 0xffff_ffff {
                return false;
            }
            out.push(TAG_DIRECTORY);
            put_u32(out, dir.len() as u32);
            let ok = put_entries(out, dir);
            assert(ok ==> out@ =~= old(out)@ + enc_body(body@));
            ok
        },
        Body::Kill => {
            out.push(TAG_KILL);
            assert(out@ =~= old(out)@ + enc_body(body@));
            true
        },
        Body::Get { key_name, home } => {
            out.push(TAG_GET);
            let ok = put_str(out, key_name);
            put_u64(out, *home);
            assert(ok ==> out@ =~= old(out)@ + enc_body(body@));
            ok
        },
        Body::Value { key_name, home, bytes } => {
            out.push(TAG_VALUE);
            let ok = put_str(out, key_name);
            put_u64(out, *home);
            let ok2 = put_blob(out, bytes.as_slice());
            assert(ok && ok2 ==> out@ =~= old(out)@ + enc_body(body@));
            ok && ok2
        },
        Body::Blob { bytes } => {
            out.push(TAG_BLOB);
            let ok = put_blob(out, bytes.as_slice());
            assert(ok ==> out@ =~= old(out)@ + enc_body(body@));
            ok
        },
    }
}

fn read_u8(buf: &[u8], pos: usize) -> (res: Option<(u8, usize)>)
    ensures
        match res {
            Some((v, p)) => parse_u8(buf@, pos as int) == Some((v, p as int)) && p <= buf@.len(),
            None => parse_u8(buf@, pos as int) is None,
        },
{
    if pos < buf.len() {
        Some((buf[pos], pos + 1))
    } else {
        None
    }
}

fn read_u32(buf: &[u8], pos: usize) -> (res: Option<(u32, usize)>)
    ensures
        match res {
            Some((v, p)) => parse_u32(buf@, pos as int) == Some((v, p as int)) && p <= buf@.len(),
            None => parse_u32(buf@, pos as int) is None,
        },
{
    if buf.len() < 4 || pos > buf.len() - 4 {
        None
    } else {
        let v = u32_from_le_bytes(slice_subrange(buf, pos, pos + 4));
        Some((v, pos + 4))
    }
}

fn read_u64(buf: &[u8], pos: usize) -> (res: Option<(u64, usize)>)
    ensures
        match res {
            Some((v, p)) => parse_u64(buf@, pos as int) == Some((v, p as int)) && p <= buf@.len(),
            None => parse_u64(buf@, pos as int) is None,
        },
{
    if buf.len() < 8 || pos > buf.len() - 8 {
        None
    } else {
        let v = u64_from_le_bytes(slice_subrange(buf, pos, pos + 8));
        Some((v, pos + 8))
    }
}

fn read_blob(buf: &[u8], pos: usize) -> (res: Option<(Vec<u8>, usize)>)
    ensures
        match res {
            Some((v, p)) => parse_blob(buf@, pos as int) == Some((v@, p as int)) && p
                <= buf@.len(),
            None => parse_blob(buf@, pos as int) is None,
        },
{
    match read_u32(buf, pos) {
        Some((n, p)) => {
            if (n as u64) > (buf.len() - p) as u64 {
                None
            } else {
                let end: usize = p + n as usize;
                let v = slice_to_vec(slice_subrange(buf, p, end));
                Some((v, end))
            }
        },
        None => None,
    }
}

fn read_str(buf: &[u8], pos: usize) -> (res: Option<(String, usize)>)
    ensures
        match res {
            Some((v, p)) => parse_str(buf@, pos as int) == Some((v@, p as int)) && p <= buf@.len(),
            None => parse_str(buf@, pos as int) is None,
        },
{
    match read_blob(buf, pos) {
        Some((raw, p)) => match string_from_utf8(raw) {
            Some(s) => Some((s, p)),
            None => None,
        },
        None => None,
    }
}

/// Once the listing fails at some count, it fails at every larger one.
proof fn parse_entries_stays_none(b: Seq<u8>, pos: int, k: nat, n: nat)
    requires
        k <= n,
        parse_entries(b, pos, k) is None,
    ensures
        parse_entries(b, pos, n) is None,
    decreases n,
{
    if n > k {
        parse_entries_stays_none(b, pos, k, (n - 1) as nat);
    }
}

fn read_entries(buf: &[u8], pos: usize, n: u32) -> (res: Option<(Vec<(u64, String)>, usize)>)
    requires
        pos <= buf@.len(),
    ensures
        match res {
            Some((v, p)) => parse_entries(buf@, pos as int, n as nat) == Some(
                (dir_view(v@), p as int),
            ) && p <= buf@.len(),
            None => parse_entries(buf@, pos as int, n as nat) is None,
        },
{
    let mut dir: Vec<(u64, String)> = Vec::new();
    let mut p: usize = pos;
    let mut i: u32 = 0;
    assert(dir_view(dir@) =~= Seq::empty());
    while i < n
        invariant
            0 <= i <= n,
            p <= buf@.len(),
            parse_entries(buf@, pos as int, i as nat) == Some((dir_view(dir@), p as int)),
        decreases n - i,
    {
        let ghost before = dir_view(dir@);
        let id = match read_u64(buf, p) {
            Some((id, q)) => {
                p = q;
                id
            },
            None => {
                proof {
                    parse_entries_stays_none(buf@, pos as int, (i + 1) as nat, n as nat);
                }
                return None;
            },
        };
        let address = match read_str(buf, p) {
            Some((address, q)) => {
                p = q;
                address
            },
            None => {
                proof {
                    parse_entries_stays_none(buf@, pos as int, (i + 1) as nat, n as nat);
                }
                return None;
            },
        };
        dir.push((id, address));
        i += 1;
        assert(dir_view(dir@) =~= before.push((id, address@)));
    }
    Some((dir, p))
}

fn read_body(buf: &[u8], pos: usize) -> (res: Option<(Body, usize)>)
    ensures
        match res {
            Some((v, p)) => parse_body(buf@, pos as int) == Some((v@, p as int)) && p
                <= buf@.len(),
            None => parse_body(buf@, pos as int) is None,
        },
{
    let (tag, p) = match read_u8(buf, pos) {
        Some(r) => r,
        None => {
            return None;
        },
    };
    if tag == TAG_INTRODUCTION {
        match read_str(buf, p) {
            Some((address, q)) => match read_str(buf, q) {
                Some((network_name, r)) => Some((Body::Introduction { address, network_name }, r)),
                None => None,
            },
            None => None,
        }
    } else if tag == TAG_DIRECTORY {
        match read_u32(buf, p) {
            Some((n, q)) => match read_entries(buf, q, n) {
                Some((dir, r)) => Some((Body::Directory { dir }, r)),
                None => None,
            },
            None => None,
        }
    } else if tag == TAG_KILL {
        Some((Body::Kill, p))
    } else if tag == TAG_GET {
        match read_str(buf, p) {
            Some((key_name, q)) => match read_u64(buf, q) {
                Some((home, r)) => Some((Body::Get { key_name, home }, r)),
                None => None,
            },
            None => None,
        }
    } else if tag == TAG_VALUE {
        match read_str(buf, p) {
            Some((key_name, q)) => match read_u64(buf, q) {
                Some((home, r)) => match read_blob(buf, r) {
                    Some((bytes, s)) => Some((Body::Value { key_name, home, bytes }, s)),
                    None => None,
                },
                None => None,
            },
            None => None,
        }
    } else if tag == TAG_BLOB {
        match read_blob(buf, p) {
            Some((bytes, q)) => Some((Body::Blob { bytes }, q)),
            None => None,
        }
    } else {
        None
    }
}

fn read_payload(buf: &[u8]) -> (res: Option<Message>)
    ensures
        match res {
            Some(m) => parse_payload(buf@) == Some(m@),
            None => parse_payload(buf@) is None,
        },
{
    match read_u64(buf, 0) {
        Some((msg_id, p)) => match read_u64(buf, p) {
            Some((sender, q)) => match read_u64(buf, q) {
                Some((target, r)) => match read_body(buf, r) {
                    Some((body, s)) => if s == buf.len() {
                        Some(Message { msg_id, sender, target, body })
                    } else {
                        None
                    },
                    None => None,
                },
                None => None,
            },
            None => None,
        },
        None => None,
    }
}

/// Frames messages for one link, up to a configured payload length.
#[derive(Debug, Clone, Copy)]
pub struct MessageCodec {
    pub max_frame_len: u32,
}

impl MessageCodec {
    /// A codec with the default limit.
    pub fn new() -> (codec: MessageCodec)
        ensures
            codec.max_frame_len == DEFAULT_MAX_FRAME_LEN,
    {
        MessageCodec { max_frame_len: DEFAULT_MAX_FRAME_LEN }
    }

    /// A codec that accepts payloads of up to `max_frame_len` bytes.
    pub fn with_max_frame_len(max_frame_len: u32) -> (codec: MessageCodec)
        ensures
            codec.max_frame_len == max_frame_len,
    {
        MessageCodec { max_frame_len }
    }

    /// Frames `message`. A message that is not well formed for this codec
    /// (a length that no `u32` holds, a payload over the limit) is refused.
    pub fn encode(&self, message: &Message) -> (res: Result<Vec<u8>, LiquidError>)
        ensures
            match res {
                Ok(frame) => message@.well_formed(self.max_frame_len) && frame@ == enc_frame(
                    message@,
                ),
                Err(e) => e == LiquidError::ProtocolViolation && !message@.well_formed(
                    self.max_frame_len,
                ),
            },
    {
        let mut payload: Vec<u8> = Vec::new();
        put_u64(&mut payload, message.msg_id);
        put_u64(&mut payload, message.sender);
        put_u64(&mut payload, message.target);
        let ok = put_body(&mut payload, &message.body);
        if !ok {
            return Err(LiquidError::ProtocolViolation);
        }
        assert(payload@ =~= enc_payload(message@));
        if payload.len() > self.max_frame_len as usize {
            return Err(LiquidError::ProtocolViolation);
        }
        let le = u32_to_le_bytes(payload.len() as u32);
        proof {
            lemma_auto_spec_u32_to_from_le_bytes();
        }
        let mut frame: Vec<u8> = Vec::new();
        frame.push(le[3]);
        frame.push(le[2]);
        frame.push(le[1]);
        frame.push(le[0]);
        put_slice(&mut frame, payload.as_slice());
        assert(frame@ =~= enc_frame(message@));
        Ok(frame)
    }

    /// Reads the frame at the start of `buf`: `Ok(None)` while the frame is
    /// not yet whole, the message with the number of bytes that it took, or
    /// the error on which the link is closed.
    pub fn decode(&self, buf: &[u8]) -> (res: Result<Option<(Message, usize)>, LiquidError>)
        ensures
            match parse_frame(buf@, self.max_frame_len) {
                FrameParse::Incomplete => res == Ok::<Option<(Message, usize)>, LiquidError>(None),
                FrameParse::Malformed => res == Err::<Option<(Message, usize)>, LiquidError>(
                    LiquidError::ProtocolViolation,
                ),
                FrameParse::Complete(m, n) => match res {
                    Ok(Some((message, used))) => message@ == m && used == n,
                    _ => false,
                },
            },
    {
        if buf.len() < 4 {
            return Ok(None);
        }
        let mut be: Vec<u8> = Vec::new();
        be.push(buf[3]);
        be.push(buf[2]);
        be.push(buf[1]);
        be.push(buf[0]);
        let n = u32_from_le_bytes(be.as_slice());
        assert(be@ =~= seq![buf@.subrange(0, 4)[3], buf@.subrange(0, 4)[2], buf@.subrange(0, 4)[1], buf@.subrange(0, 4)[0]]);
        if n > self.max_frame_len {
            return Err(LiquidError::ProtocolViolation);
        }
        if ((buf.len() - 4) as u64) < n as u64 {
            return Ok(None);
        }
        let end: usize = 4 + n as usize;
        match read_payload(slice_subrange(buf, 4, end)) {
            Some(message) => Ok(Some((message, end))),
            None => Err(LiquidError::ProtocolViolation),
        }
    }
}

} // verus!
