//! The two framings of a message on a stream: a varint length prefix, or
//! the bare message up to the end of the stream. Either way the bytes read
//! are capped.
use crate::varint::{leb128, lemma_read_varint, lemma_read_varint_bounds, put_varint, read_varint, read_varint_spec, varint};
use vstd::prelude::*;
use vstd::slice::slice_subrange;

verus! {

/// Why bytes could not be turned into a message, or a message into bytes.
#[derive(Clone, Copy, Debug, PartialEq, Eq, Structural)]
pub enum CodecError {
    /// More bytes than the protocol allows.
    SizeLimit,
    /// Bytes that do not hold a message of the schema.
    Decode,
}

/// A body behind its length as a varint.
pub open spec fn frame(body: Seq<u8>) -> Seq<u8> {
    varint(body.len()) + body
}

/// The body of a length-prefixed frame read from a stream, which may go on
/// after the frame; no more than `cap` bytes may be read.
pub open spec fn unframe(s: Seq<u8>, cap: nat) -> Result<Seq<u8>, CodecError> {
    if s.len() > cap {
        Err(CodecError::SizeLimit)
    } else {
        match read_varint_spec(s) {
            None => Err(CodecError::Decode),
            Some((l, n)) => if l <= s.len() - n {
                Ok(s.subrange(n as int, n + l))
            } else {
                Err(CodecError::Decode)
            },
        }
    }
}

/// Bytes to be sent or taken whole, no more than `cap` of them.
pub open spec fn capped(s: Seq<u8>, cap: nat) -> Result<Seq<u8>, CodecError> {
    if s.len() > cap {
        Err(CodecError::SizeLimit)
    } else {
        Ok(s)
    }
}

/// Puts the length of `body` in front of it.
pub fn frame_body(body: Vec<u8>) -> (r: Vec<u8>)
    ensures
        r@ == frame(body@),
{
    let mut buf: Vec<u8> = Vec::new();
    put_varint(body.len() as u64, &mut buf);
    let mut b = body;
    buf.append(&mut b);
    assert(buf@ =~= frame(body@));
    buf
}

/// The body of the frame at the front of `s`.
pub fn unframe_body(s: &[u8], cap: usize) -> (r: Result<&[u8], CodecError>)
    ensures
        match unframe(s@, cap as nat) {
            Ok(b) => r matches Ok(x) && x@ == b,
            Err(e) => r == Err::<&[u8], CodecError>(e),
        },
{
    if s.len() > cap {
        return Err(CodecError::SizeLimit);
    }
    proof {
        lemma_read_varint_bounds(s@);
    }
    match read_varint(s) {
        None => Err(CodecError::Decode),
        Some((l, left)) => {
            if l <= left as u64 {
                let start = s.len() - left;
                Ok(slice_subrange(s, start, start + l as usize))
            } else {
                Err(CodecError::Decode)
            }
        },
    }
}

/// Lets `s` through if it holds no more than `cap` bytes.
pub fn check_cap(s: Vec<u8>, cap: usize) -> (r: Result<Vec<u8>, CodecError>)
    ensures
        match capped(s@, cap as nat) {
            Ok(b) => r matches Ok(x) && x@ == b,
            Err(e) => r matches Err(x) && x == e,
        },
{
    if s.len() > cap {
        Err(CodecError::SizeLimit)
    } else {
        Ok(s)
    }
}

/// A frame reads back as its body, whatever follows it on the stream, as
/// long as what is read stays within the cap.
pub proof fn lemma_unframe_frame(body: Seq<u8>, rest: Seq<u8>, cap: nat)
    requires
        body.len() <= u64::MAX,
        frame(body).len() + rest.len() <= cap,
    ensures
        unframe(frame(body) + rest, cap) == Ok::<Seq<u8>, CodecError>(body),
{
    let l = body.len() as u64;
    let s = frame(body) + rest;
    assert(s =~= varint(l as nat) + (body + rest));
    lemma_read_varint(l, body + rest);
    let n = varint(l as nat).len();
    assert(s.subrange(n as int, n + l) =~= body);
}

proof fn lemma_leb128_prefix(s: Seq<u8>, t: Seq<u8>, k: nat)
    ensures
        leb128(s, k) matches Some((v, n)) ==> leb128(s + t, k) == Some((v, n)),
    decreases 10 - k,
{
    if k < 10 && s.len() > 0 {
        assert((s + t)[0] == s[0]);
        if s[0] >= 128 {
            lemma_leb128_prefix(s.drop_first(), t, k + 1);
            assert((s + t).drop_first() =~= s.drop_first() + t);
        }
    }
}

/// Reading a frame cut short fails: a stream that ends inside a frame never
/// yields a shorter message.
pub proof fn lemma_unframe_truncated(body: Seq<u8>, k: nat, cap: nat)
    requires
        body.len() <= u64::MAX,
        k < frame(body).len(),
    ensures
        unframe(frame(body).take(k as int), cap) is Err,
{
    let l = body.len() as u64;
    let f = frame(body);
    let p = f.take(k as int);
    lemma_read_varint(l, body);
    lemma_read_varint_bounds(p);
    if let Some((v, n)) = read_varint_spec(p) {
        if p.len() <= cap {
            lemma_leb128_prefix(p, f.skip(k as int), 0);
            assert(p + f.skip(k as int) =~= f);
            assert(v == l);
        }
    }
}

} // verus!
