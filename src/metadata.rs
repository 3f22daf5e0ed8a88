//! The metadata protocol: on connecting, two nodes tell each other their
//! cluster and shards. Its messages go bare on the stream, without a length
//! prefix.
use crate::framing::{capped, check_cap, CodecError};
use crate::varint::{lemma_read_varint, lemma_read_varint_bounds, put_varint, read_varint, read_varint_spec, varint};
use crate::wire::{
    fold_fields, len_field, lemma_fold_len_field, lemma_fold_opt_uint_field,
    lemma_parse_field_bounds, opt_uint_field, put_len_field, put_opt_uint_field, raw_slice,
    raw_value, raw_within, read_field, RawValue, WireValue,
};
use vstd::prelude::*;
use vstd::slice::slice_subrange;

verus! {

/// What a node says of itself: its cluster, and the shards it serves.
pub struct MetadataModel {
    pub cluster_id: Option<u32>,
    pub shards: Seq<u32>,
}

/// The low 32 bits of a varint, as protobuf reads a `uint32`.
pub open spec fn low32(v: u64) -> u32 {
    (v % 0x1_0000_0000) as u32
}

/// The varints of a packed field, read one after the other after `acc`.
pub open spec fn packed_from(s: Seq<u8>, acc: Seq<u32>) -> Option<Seq<u32>>
    decreases s.len(),
{
    if s.len() == 0 {
        Some(acc)
    } else {
        match read_varint_spec(s) {
            Some((v, n)) => if 0 < n <= s.len() {
                packed_from(s.skip(n as int), acc.push(low32(v)))
            } else {
                None
            },
            None => None,
        }
    }
}

/// Shards may come packed in one field or one to a field.
pub open spec fn metadata_step(m: MetadataModel, num: u64, w: WireValue) -> Option<MetadataModel> {
    if num == 1 {
        match w {
            WireValue::Varint(v) => Some(MetadataModel { cluster_id: Some(low32(v)), ..m }),
            _ => None,
        }
    } else if num == 2 {
        match w {
            WireValue::Varint(v) => Some(MetadataModel { shards: m.shards.push(low32(v)), ..m }),
            WireValue::Len(b) => match packed_from(b, m.shards) {
                Some(x) => Some(MetadataModel { shards: x, ..m }),
                None => None,
            },
            _ => None,
        }
    } else {
        Some(m)
    }
}

pub open spec fn metadata_steps() -> spec_fn(MetadataModel, u64, WireValue) -> Option<
    MetadataModel,
> {
    |m: MetadataModel, num: u64, w: WireValue| metadata_step(m, num, w)
}

/// The metadata that the bytes `s` encode, if they encode any.
pub open spec fn decode_metadata(s: Seq<u8>) -> Option<MetadataModel> {
    fold_fields(s, MetadataModel { cluster_id: None, shards: Seq::empty() }, metadata_steps())
}

/// The shards as varints, one after the other.
pub open spec fn shard_codes(xs: Seq<u32>) -> Seq<u8>
    decreases xs.len(),
{
    if xs.len() == 0 {
        Seq::empty()
    } else {
        shard_codes(xs.drop_last()) + varint(xs.last() as nat)
    }
}

/// Cluster (1), then the shards packed (2).
pub open spec fn encode_metadata(m: MetadataModel) -> Seq<u8> {
    opt_uint_field(
        1,
        match m.cluster_id {
            Some(c) => Some(c as u64),
            None => None,
        },
    ) + if m.shards.len() == 0 {
        Seq::empty()
    } else {
        len_field(2, shard_codes(m.shards))
    }
}

proof fn lemma_packed_from_codes(xs: Seq<u32>, rest: Seq<u8>, acc: Seq<u32>)
    ensures
        packed_from(shard_codes(xs) + rest, acc) == packed_from(rest, acc + xs),
    decreases xs.len(),
{
    if xs.len() == 0 {
        assert(shard_codes(xs) + rest =~= rest);
        assert(acc + xs =~= acc);
    } else {
        let x = xs.last();
        let last = varint(x as nat);
        assert(shard_codes(xs) + rest =~= shard_codes(xs.drop_last()) + (last + rest));
        lemma_packed_from_codes(xs.drop_last(), last + rest, acc);
        lemma_read_varint(x as u64, rest);
        crate::varint::lemma_varint_len(x as u64);
        assert((last + rest).skip(last.len() as int) =~= rest);
        assert((acc + xs.drop_last()).push(low32(x as u64)) =~= acc + xs);
    }
}

/// Metadata reads back from its encoding.
pub proof fn lemma_metadata_round_trip(m: MetadataModel)
    requires
        encode_metadata(m).len() <= u64::MAX,
    ensures
        decode_metadata(encode_metadata(m)) == Some(m),
{
    let st = metadata_steps();
    let c = match m.cluster_id {
        Some(c) => Some(c as u64),
        None => None,
    };
    let e: Seq<u8> = Seq::empty();
    let m0 = MetadataModel { cluster_id: None, shards: Seq::empty() };
    let m1 = MetadataModel { cluster_id: m.cluster_id, ..m0 };
    if m.shards.len() == 0 {
        assert(encode_metadata(m) =~= opt_uint_field(1, c) + e);
        lemma_fold_opt_uint_field(1, c, e, m0, st);
        assert(m.shards =~= m0.shards);
    } else {
        let f2 = len_field(2, shard_codes(m.shards));
        assert(encode_metadata(m) =~= opt_uint_field(1, c) + (f2 + e));
        lemma_fold_opt_uint_field(1, c, f2 + e, m0, st);
        lemma_fold_len_field(2, shard_codes(m.shards), e, m1, st);
        lemma_packed_from_codes(m.shards, e, m0.shards);
        assert(shard_codes(m.shards) + e =~= shard_codes(m.shards));
        assert(m0.shards + m.shards =~= m.shards);
    }
}

fn encode_fields(cluster_id: Option<u32>, shards: &Vec<u32>) -> (r: Vec<u8>)
    ensures
        r@ == encode_metadata(MetadataModel { cluster_id, shards: shards@ }),
{
    let mut buf: Vec<u8> = Vec::new();
    let c = match cluster_id {
        Some(x) => Some(x as u64),
        None => None,
    };
    put_opt_uint_field(&mut buf, 1, c);
    if shards.len() > 0 {
        let mut codes: Vec<u8> = Vec::new();
        let mut i: usize = 0;
        while i < shards.len()
            invariant
                i <= shards@.len(),
                codes@ == shard_codes(shards@.take(i as int)),
            decreases shards@.len() - i,
        {
            assert(shards@.take(i + 1).drop_last() =~= shards@.take(i as int));
            put_varint(shards[i] as u64, &mut codes);
            i = i + 1;
        }
        assert(shards@.take(i as int) =~= shards@);
        put_len_field(&mut buf, 2, codes.as_slice());
    }
    assert(buf@ =~= encode_metadata(MetadataModel { cluster_id, shards: shards@ }));
    buf
}

fn read_packed(b: &[u8], acc: Vec<u32>) -> (r: Option<Vec<u32>>)
    ensures
        match packed_from(b@, acc@) {
            Some(x) => r matches Some(v) && v@ == x,
            None => r is None,
        },
{
    let mut out = acc;
    let mut pos: usize = 0;
    assert(b@.skip(0) =~= b@);
    while pos < b.len()
        invariant
            pos <= b@.len(),
            packed_from(b@, acc@) == packed_from(b@.skip(pos as int), out@),
        decreases b@.len() - pos,
    {
        let s = slice_subrange(b, pos, b.len());
        assert(s@ =~= b@.skip(pos as int));
        proof {
            lemma_read_varint_bounds(s@);
        }
        match read_varint(s) {
            None => return None,
            Some((v, left)) => {
                let end = b.len() - left;
                assert(b@.skip(pos as int).skip((end - pos) as int) =~= b@.skip(end as int));
                out.push((v % 0x1_0000_0000) as u32);
                pos = end;
            },
        }
    }
    Some(out)
}

fn apply(m: (Option<u32>, Vec<u32>), num: u64, raw: &RawValue, b: &[u8]) -> (r: Option<
    (Option<u32>, Vec<u32>),
>)
    requires
        raw_within(b@, *raw),
    ensures
        match metadata_step(MetadataModel { cluster_id: m.0, shards: m.1@ }, num, raw_value(b@, *raw)) {
            Some(x) => r matches Some(y) && y.0 == x.cluster_id && y.1@ == x.shards,
            None => r is None,
        },
{
    let (cluster_id, shards) = m;
    if num == 1 {
        match raw {
            RawValue::Varint(v) => Some((Some((*v % 0x1_0000_0000) as u32), shards)),
            _ => None,
        }
    } else if num == 2 {
        match raw {
            RawValue::Varint(v) => {
                let mut s = shards;
                s.push((*v % 0x1_0000_0000) as u32);
                Some((cluster_id, s))
            },
            RawValue::Len(_, _) => match raw_slice(b, raw) {
                Some(p) => match read_packed(p, shards) {
                    Some(s) => Some((cluster_id, s)),
                    None => None,
                },
                None => None,
            },
            RawValue::Fixed => None,
        }
    } else {
        Some((cluster_id, shards))
    }
}

fn decode_fields(b: &[u8]) -> (r: Option<(Option<u32>, Vec<u32>)>)
    ensures
        match decode_metadata(b@) {
            Some(x) => r matches Some(y) && y.0 == x.cluster_id && y.1@ == x.shards,
            None => r is None,
        },
{
    let mut m: (Option<u32>, Vec<u32>) = (None, Vec::new());
    let mut pos: usize = 0;
    assert(b@.skip(0) =~= b@);
    assert(m.1@ =~= Seq::<u32>::empty());
    while pos < b.len()
        invariant
            pos <= b@.len(),
            decode_metadata(b@) == fold_fields(
                b@.skip(pos as int),
                MetadataModel { cluster_id: m.0, shards: m.1@ },
                metadata_steps(),
            ),
        decreases b@.len() - pos,
    {
        proof {
            lemma_parse_field_bounds(b@.skip(pos as int));
        }
        match read_field(b, pos) {
            None => return None,
            Some((num, raw, end)) => {
                assert(b@.skip(pos as int).skip((end - pos) as int) =~= b@.skip(end as int));
                match apply(m, num, &raw, b) {
                    None => return None,
                    Some(m2) => m = m2,
                }
                pos = end;
            },
        }
    }
    Some(m)
}

/// The handshake that a node opens with.
#[derive(Clone, Debug, PartialEq, Eq, Default)]
pub struct WakuMetadataRequest {
    pub cluster_id: Option<u32>,
    pub shards: Vec<u32>,
}

/// The metadata that a node answers with.
#[derive(Clone, Debug, PartialEq, Eq, Default)]
pub struct WakuMetadataResponse {
    pub cluster_id: Option<u32>,
    pub shards: Vec<u32>,
}

impl View for WakuMetadataRequest {
    type V = MetadataModel;

    open spec fn view(&self) -> MetadataModel {
        MetadataModel { cluster_id: self.cluster_id, shards: self.shards@ }
    }
}

impl View for WakuMetadataResponse {
    type V = MetadataModel;

    open spec fn view(&self) -> MetadataModel {
        MetadataModel { cluster_id: self.cluster_id, shards: self.shards@ }
    }
}

/// The identifier under which peers speak this protocol.
pub const PROTOCOL_NAME: &'static str = "/vac/waku/metadata/1.0.0";

/// The most bytes of a request that a reader takes from the stream.
pub const REQUEST_SIZE_MAXIMUM: usize = 1024 * 1024;

/// The most bytes of a response that a reader takes from the stream.
pub const RESPONSE_SIZE_MAXIMUM: usize = 10 * 1024 * 1024;

/// What reading metadata from the stream bytes `s`, with at most `cap` of
/// them, gives: the bytes are the message, with nothing around them.
pub open spec fn read_metadata(s: Seq<u8>, cap: nat) -> Result<MetadataModel, CodecError> {
    if s.len() > cap {
        Err(CodecError::SizeLimit)
    } else {
        match decode_metadata(s) {
            Some(m) => Ok(m),
            None => Err(CodecError::Decode),
        }
    }
}

/// What writing the metadata `m`, with at most `cap` bytes, puts on the
/// stream.
pub open spec fn write_metadata(m: MetadataModel, cap: nat) -> Result<Seq<u8>, CodecError> {
    capped(encode_metadata(m), cap)
}

/// The codec of the protocol: bare messages, both ways.
#[derive(Clone, Copy, Debug, Default)]
pub struct Codec {}

impl Codec {
    /// Reads a request from what the stream held, up to its cap.
    pub fn read_request(&self, bytes: &[u8]) -> (r: Result<WakuMetadataRequest, CodecError>)
        ensures
            match read_metadata(bytes@, REQUEST_SIZE_MAXIMUM as nat) {
                Ok(m) => r matches Ok(x) && x@ == m,
                Err(e) => r matches Err(x) && x == e,
            },
    {
        if bytes.len() > REQUEST_SIZE_MAXIMUM {
            return Err(CodecError::SizeLimit);
        }
        match decode_fields(bytes) {
            Some((cluster_id, shards)) => Ok(WakuMetadataRequest { cluster_id, shards }),
            None => Err(CodecError::Decode),
        }
    }

    /// Reads a response from what the stream held, up to its cap.
    pub fn read_response(&self, bytes: &[u8]) -> (r: Result<WakuMetadataResponse, CodecError>)
        ensures
            match read_metadata(bytes@, RESPONSE_SIZE_MAXIMUM as nat) {
                Ok(m) => r matches Ok(x) && x@ == m,
                Err(e) => r matches Err(x) && x == e,
            },
    {
        if bytes.len() > RESPONSE_SIZE_MAXIMUM {
            return Err(CodecError::SizeLimit);
        }
        match decode_fields(bytes) {
            Some((cluster_id, shards)) => Ok(WakuMetadataResponse { cluster_id, shards }),
            None => Err(CodecError::Decode),
        }
    }

    /// The bytes of a request, or `SizeLimit` where a reader would not take
    /// them all.
    pub fn write_request(&self, req: &WakuMetadataRequest) -> (r: Result<Vec<u8>, CodecError>)
        ensures
            match write_metadata(req@, REQUEST_SIZE_MAXIMUM as nat) {
                Ok(b) => r matches Ok(x) && x@ == b,
                Err(e) => r matches Err(x) && x == e,
            },
    {
        check_cap(encode_fields(req.cluster_id, &req.shards), REQUEST_SIZE_MAXIMUM)
    }

    /// The bytes of a response, or `SizeLimit` where a reader would not take
    /// them all.
    pub fn write_response(&self, resp: &WakuMetadataResponse) -> (r: Result<Vec<u8>, CodecError>)
        ensures
            match write_metadata(resp@, RESPONSE_SIZE_MAXIMUM as nat) {
                Ok(b) => r matches Ok(x) && x@ == b,
                Err(e) => r matches Err(x) && x == e,
            },
    {
        check_cap(encode_fields(resp.cluster_id, &resp.shards), RESPONSE_SIZE_MAXIMUM)
    }
}

/// What the codec writes under a cap, it reads back under that cap as the
/// same metadata; more bytes than the cap fail with `SizeLimit`.
pub proof fn lemma_codec_round_trip(m: MetadataModel, cap: nat, s: Seq<u8>)
    requires
        cap <= u64::MAX,
    ensures
        write_metadata(m, cap) matches Ok(b) ==> read_metadata(b, cap) == Ok::<
            MetadataModel,
            CodecError,
        >(m),
        s.len() > cap ==> read_metadata(s, cap) == Err::<MetadataModel, CodecError>(
            CodecError::SizeLimit,
        ),
{
    if encode_metadata(m).len() <= cap {
        lemma_metadata_round_trip(m);
    }
}

} // verus!
