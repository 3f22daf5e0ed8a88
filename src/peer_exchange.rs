//! The peer exchange protocol: a node asks a peer for records of other peers
//! it may connect to.
use crate::framing::{
    capped, check_cap, frame, frame_body, lemma_unframe_frame, lemma_unframe_truncated, unframe,
    unframe_body, CodecError,
};
use crate::wire::{
    as_bytes, as_varint, bytes_field, fold_fields, len_field, lemma_fold_bytes_field,
    lemma_fold_len_field, lemma_fold_opt_len_field, lemma_fold_uint_field,
    lemma_parse_field_bounds, opt_len_field, put_bytes_field, put_len_field, put_opt_len_field,
    put_uint_field, raw_bytes, raw_slice, raw_varint, read_field,
    uint_field, WireValue,
};
use vstd::prelude::*;

verus! {

/// A record of a peer, opaque to this layer: its address and the signature
/// that vouches for it.
#[derive(Clone, Debug, PartialEq, Eq, Default)]
pub struct PeerInfo {
    pub enr: Vec<u8>,
}

pub open spec fn peer_info_step(m: Seq<u8>, num: u64, w: WireValue) -> Option<Seq<u8>> {
    if num == 1 {
        as_bytes(w)
    } else {
        Some(m)
    }
}

pub open spec fn peer_info_steps() -> spec_fn(Seq<u8>, u64, WireValue) -> Option<Seq<u8>> {
    |m: Seq<u8>, num: u64, w: WireValue| peer_info_step(m, num, w)
}

/// The record (1) of a peer.
pub open spec fn encode_peer_info(enr: Seq<u8>) -> Seq<u8> {
    bytes_field(1, enr)
}

pub open spec fn decode_peer_info(s: Seq<u8>) -> Option<Seq<u8>> {
    fold_fields(s, Seq::empty(), peer_info_steps())
}

pub proof fn lemma_peer_info_round_trip(enr: Seq<u8>)
    requires
        encode_peer_info(enr).len() <= u64::MAX,
    ensures
        decode_peer_info(encode_peer_info(enr)) == Some(enr),
{
    let e: Seq<u8> = Seq::empty();
    assert(encode_peer_info(enr) =~= bytes_field(1, enr) + e);
    lemma_fold_bytes_field(1, enr, e, Seq::empty(), peer_info_steps());
    if enr.len() == 0 {
        assert(enr =~= Seq::<u8>::empty());
    }
}

impl PeerInfo {
    /// The record that `b` encodes.
    pub fn decode(b: &[u8]) -> (r: Option<Self>)
        ensures
            match decode_peer_info(b@) {
                Some(m) => r matches Some(x) && x.enr@ == m,
                None => r is None,
            },
    {
        let mut enr: Vec<u8> = Vec::new();
        let mut pos: usize = 0;
        assert(b@.skip(0) =~= b@);
        assert(enr@ =~= Seq::<u8>::empty());
        while pos < b.len()
            invariant
                pos <= b@.len(),
                decode_peer_info(b@) == fold_fields(b@.skip(pos as int), enr@, peer_info_steps()),
            decreases b@.len() - pos,
        {
            proof {
                lemma_parse_field_bounds(b@.skip(pos as int));
            }
            match read_field(b, pos) {
                None => return None,
                Some((num, raw, end)) => {
                    assert(b@.skip(pos as int).skip((end - pos) as int) =~= b@.skip(end as int));
                    if num == 1 {
                        match raw_bytes(b, &raw) {
                            Some(v) => enr = v,
                            None => return None,
                        }
                    }
                    pos = end;
                },
            }
        }
        Some(PeerInfo { enr })
    }
}

/// A query for up to `num_peers` peer records.
#[derive(Clone, Copy, Debug, PartialEq, Eq, Default)]
pub struct PeerExchangeQuery {
    pub num_peers: u64,
}

/// The peer records that a peer answers with.
#[derive(Clone, Debug, PartialEq, Eq, Default)]
pub struct PeerExchangeResponse {
    pub peer_infos: Vec<PeerInfo>,
}

/// The envelope of the protocol: a query, a response, or both.
#[derive(Clone, Debug, PartialEq, Eq, Default)]
pub struct PeerExchangeRpc {
    pub query: Option<PeerExchangeQuery>,
    pub response: Option<PeerExchangeResponse>,
}

pub struct PeerExchangeRpcModel {
    pub query: Option<u64>,
    pub response: Option<Seq<Seq<u8>>>,
}

pub open spec fn records_view(v: Seq<PeerInfo>) -> Seq<Seq<u8>> {
    v.map_values(|p: PeerInfo| p.enr@)
}

impl View for PeerExchangeRpc {
    type V = PeerExchangeRpcModel;

    open spec fn view(&self) -> PeerExchangeRpcModel {
        PeerExchangeRpcModel {
            query: match self.query {
                Some(q) => Some(q.num_peers),
                None => None,
            },
            response: match self.response {
                Some(r) => Some(records_view(r.peer_infos@)),
                None => None,
            },
        }
    }
}

pub open spec fn query_step(m: u64, num: u64, w: WireValue) -> Option<u64> {
    if num == 1 {
        as_varint(w)
    } else {
        Some(m)
    }
}

pub open spec fn query_steps() -> spec_fn(u64, u64, WireValue) -> Option<u64> {
    |m: u64, num: u64, w: WireValue| query_step(m, num, w)
}

pub open spec fn response_step(m: Seq<Seq<u8>>, num: u64, w: WireValue) -> Option<Seq<Seq<u8>>> {
    if num == 1 {
        match as_bytes(w) {
            Some(b) => match decode_peer_info(b) {
                Some(p) => Some(m.push(p)),
                None => None,
            },
            None => None,
        }
    } else {
        Some(m)
    }
}

pub open spec fn response_steps() -> spec_fn(Seq<Seq<u8>>, u64, WireValue) -> Option<
    Seq<Seq<u8>>,
> {
    |m: Seq<Seq<u8>>, num: u64, w: WireValue| response_step(m, num, w)
}

pub open spec fn peer_exchange_step(m: PeerExchangeRpcModel, num: u64, w: WireValue) -> Option<
    PeerExchangeRpcModel,
> {
    if num == 1 {
        match as_bytes(w) {
            Some(b) => match fold_fields(
                b,
                match m.query {
                    Some(x) => x,
                    None => 0,
                },
                query_steps(),
            ) {
                Some(x) => Some(PeerExchangeRpcModel { query: Some(x), ..m }),
                None => None,
            },
            None => None,
        }
    } else if num == 2 {
        match as_bytes(w) {
            Some(b) => match fold_fields(
                b,
                match m.response {
                    Some(x) => x,
                    None => Seq::empty(),
                },
                response_steps(),
            ) {
                Some(x) => Some(PeerExchangeRpcModel { response: Some(x), ..m }),
                None => None,
            },
            None => None,
        }
    } else {
        Some(m)
    }
}

pub open spec fn peer_exchange_steps() -> spec_fn(PeerExchangeRpcModel, u64, WireValue) -> Option<
    PeerExchangeRpcModel,
> {
    |m: PeerExchangeRpcModel, num: u64, w: WireValue| peer_exchange_step(m, num, w)
}

/// The envelope that the bytes `s` encode, if they encode one.
pub open spec fn decode_peer_exchange(s: Seq<u8>) -> Option<PeerExchangeRpcModel> {
    fold_fields(s, PeerExchangeRpcModel { query: None, response: None }, peer_exchange_steps())
}

/// The number of peers asked for (1).
pub open spec fn encode_query(n: u64) -> Seq<u8> {
    uint_field(1, n)
}

/// Each record as a field of number 1, in order.
pub open spec fn encode_response(ps: Seq<Seq<u8>>) -> Seq<u8>
    decreases ps.len(),
{
    if ps.len() == 0 {
        Seq::empty()
    } else {
        encode_response(ps.drop_last()) + len_field(1, encode_peer_info(ps.last()))
    }
}

/// Query (1), then response (2).
pub open spec fn encode_peer_exchange(m: PeerExchangeRpcModel) -> Seq<u8> {
    opt_len_field(
        1,
        match m.query {
            Some(n) => Some(encode_query(n)),
            None => None,
        },
    ) + opt_len_field(
        2,
        match m.response {
            Some(ps) => Some(encode_response(ps)),
            None => None,
        },
    )
}

proof fn lemma_fold_response(ps: Seq<Seq<u8>>, rest: Seq<u8>, m: Seq<Seq<u8>>)
    requires
        encode_response(ps).len() <= u64::MAX,
    ensures
        fold_fields(encode_response(ps) + rest, m, response_steps()) == fold_fields(
            rest,
            m + ps,
            response_steps(),
        ),
    decreases ps.len(),
{
    if ps.len() == 0 {
        assert(encode_response(ps) + rest =~= rest);
        assert(m + ps =~= m);
    } else {
        let last = len_field(1, encode_peer_info(ps.last()));
        assert(encode_response(ps) + rest =~= encode_response(ps.drop_last()) + (last + rest));
        lemma_fold_response(ps.drop_last(), last + rest, m);
        lemma_fold_len_field(1, encode_peer_info(ps.last()), rest, m + ps.drop_last(), response_steps());
        lemma_peer_info_round_trip(ps.last());
        assert((m + ps.drop_last()).push(ps.last()) =~= m + ps);
    }
}

/// An envelope reads back from its encoding.
pub proof fn lemma_peer_exchange_round_trip(m: PeerExchangeRpcModel)
    requires
        encode_peer_exchange(m).len() <= u64::MAX,
    ensures
        decode_peer_exchange(encode_peer_exchange(m)) == Some(m),
{
    let st = peer_exchange_steps();
    let q = match m.query {
        Some(n) => Some(encode_query(n)),
        None => None,
    };
    let r = match m.response {
        Some(ps) => Some(encode_response(ps)),
        None => None,
    };
    let e: Seq<u8> = Seq::empty();
    assert(encode_peer_exchange(m) =~= opt_len_field(1, q) + (opt_len_field(2, r) + e));
    let m0 = PeerExchangeRpcModel { query: None, response: None };
    lemma_fold_opt_len_field(1, q, opt_len_field(2, r) + e, m0, st);
    if let Some(n) = m.query {
        assert(encode_query(n) =~= uint_field(1, n) + e);
        lemma_fold_uint_field(1, n, e, 0, query_steps());
    }
    let m1 = PeerExchangeRpcModel { query: m.query, ..m0 };
    lemma_fold_opt_len_field(2, r, e, m1, st);
    if let Some(ps) = m.response {
        lemma_fold_response(ps, e, Seq::empty());
        assert(encode_response(ps) + e =~= encode_response(ps));
        assert(Seq::<Seq<u8>>::empty() + ps =~= ps);
    }
}

impl PeerExchangeRpc {
    /// The encoding of the envelope.
    pub fn encode(&self) -> (r: Vec<u8>)
        ensures
            r@ == encode_peer_exchange(self@),
    {
        let mut buf: Vec<u8> = Vec::new();
        let q = match self.query {
            Some(x) => {
                let mut v: Vec<u8> = Vec::new();
                put_uint_field(&mut v, 1, x.num_peers);
                assert(v@ =~= encode_query(x.num_peers));
                Some(v)
            },
            None => None,
        };
        put_opt_len_field(&mut buf, 1, q);
        let r = match &self.response {
            Some(x) => {
                let mut v: Vec<u8> = Vec::new();
                let mut i: usize = 0;
                while i < x.peer_infos.len()
                    invariant
                        i <= x.peer_infos@.len(),
                        v@ == encode_response(records_view(x.peer_infos@).take(i as int)),
                    decreases x.peer_infos@.len() - i,
                {
                    let ghost ps = records_view(x.peer_infos@);
                    assert(ps.take(i + 1).drop_last() =~= ps.take(i as int));
                    let mut one: Vec<u8> = Vec::new();
                    put_bytes_field(&mut one, 1, x.peer_infos[i].enr.as_slice());
                    assert(one@ =~= encode_peer_info(ps[i as int]));
                    put_len_field(&mut v, 1, one.as_slice());
                    i = i + 1;
                    assert(v@ =~= encode_response(ps.take(i as int)));
                }
                assert(records_view(x.peer_infos@).take(i as int) =~= records_view(x.peer_infos@));
                Some(v)
            },
            None => None,
        };
        put_opt_len_field(&mut buf, 2, r);
        assert(buf@ =~= encode_peer_exchange(self@));
        buf
    }

    fn read_query(base: u64, b: &[u8]) -> (r: Option<u64>)
        ensures
            r == fold_fields(b@, base, query_steps()),
    {
        let mut n = base;
        let mut pos: usize = 0;
        assert(b@.skip(0) =~= b@);
        while pos < b.len()
            invariant
                pos <= b@.len(),
                fold_fields(b@, base, query_steps()) == fold_fields(
                    b@.skip(pos as int),
                    n,
                    query_steps(),
                ),
            decreases b@.len() - pos,
        {
            proof {
                lemma_parse_field_bounds(b@.skip(pos as int));
            }
            match read_field(b, pos) {
                None => return None,
                Some((num, raw, end)) => {
                    assert(b@.skip(pos as int).skip((end - pos) as int) =~= b@.skip(end as int));
                    if num == 1 {
                        match raw_varint(&raw) {
                            Some(v) => n = v,
                            None => return None,
                        }
                    }
                    pos = end;
                },
            }
        }
        Some(n)
    }

    fn read_response(base: Vec<PeerInfo>, b: &[u8]) -> (r: Option<Vec<PeerInfo>>)
        ensures
            match fold_fields(b@, records_view(base@), response_steps()) {
                Some(m) => r matches Some(x) && records_view(x@) == m,
                None => r is None,
            },
    {
        let mut ps = base;
        let mut pos: usize = 0;
        assert(b@.skip(0) =~= b@);
        while pos < b.len()
            invariant
                pos <= b@.len(),
                fold_fields(b@, records_view(base@), response_steps()) == fold_fields(
                    b@.skip(pos as int),
                    records_view(ps@),
                    response_steps(),
                ),
            decreases b@.len() - pos,
        {
            proof {
                lemma_parse_field_bounds(b@.skip(pos as int));
            }
            match read_field(b, pos) {
                None => return None,
                Some((num, raw, end)) => {
                    assert(b@.skip(pos as int).skip((end - pos) as int) =~= b@.skip(end as int));
                    if num == 1 {
                        match raw_slice(b, &raw) {
                            Some(s) => match PeerInfo::decode(s) {
                                Some(p) => {
                                    let ghost before = ps@;
                                    ps.push(p);
                                    assert(records_view(ps@) =~= records_view(before).push(
                                        p.enr@,
                                    ));
                                },
                                None => return None,
                            },
                            None => return None,
                        }
                    }
                    pos = end;
                },
            }
        }
        Some(ps)
    }

    /// The envelope that `b` encodes.
    pub fn decode(b: &[u8]) -> (r: Option<Self>)
        ensures
            match decode_peer_exchange(b@) {
                Some(m) => r matches Some(x) && x@ == m,
                None => r is None,
            },
    {
        let mut m = PeerExchangeRpc { query: None, response: None };
        let mut pos: usize = 0;
        assert(b@.skip(0) =~= b@);
        while pos < b.len()
            invariant
                pos <= b@.len(),
                decode_peer_exchange(b@) == fold_fields(
                    b@.skip(pos as int),
                    m@,
                    peer_exchange_steps(),
                ),
            decreases b@.len() - pos,
        {
            proof {
                lemma_parse_field_bounds(b@.skip(pos as int));
            }
            match read_field(b, pos) {
                None => return None,
                Some((num, raw, end)) => {
                    assert(b@.skip(pos as int).skip((end - pos) as int) =~= b@.skip(end as int));
                    if num == 1 {
                        match raw_slice(b, &raw) {
                            Some(s) => {
                                let base = match m.query {
                                    Some(q) => q.num_peers,
                                    None => 0,
                                };
                                match Self::read_query(base, s) {
                                    Some(n) => m.query = Some(PeerExchangeQuery { num_peers: n }),
                                    None => return None,
                                }
                            },
                            None => return None,
                        }
                    } else if num == 2 {
                        match raw_slice(b, &raw) {
                            Some(s) => {
                                let base = match m.response {
                                    Some(x) => x.peer_infos,
                                    None => Vec::new(),
                                };
                                assert(base@.len() == 0 ==> records_view(base@) =~= Seq::<
                                    Seq<u8>,
                                >::empty());
                                match Self::read_response(base, s) {
                                    Some(ps) => m.response = Some(
                                        PeerExchangeResponse { peer_infos: ps },
                                    ),
                                    None => return None,
                                }
                            },
                            None => return None,
                        }
                    }
                    pos = end;
                },
            }
        }
        Some(m)
    }
}

/// The identifier under which peers speak this protocol.
pub const PROTOCOL_NAME: &'static str = "/vac/waku/peer-exchange/2.0.0-alpha1";

/// The most bytes that a request may take on the stream, prefix included.
pub const REQUEST_SIZE_MAXIMUM: usize = 1024 * 1024;

/// The most bytes that a response may take on the stream, prefix included.
pub const RESPONSE_SIZE_MAXIMUM: usize = 10 * 1024 * 1024;

/// What reading an envelope from the stream bytes `s`, with at most `cap`
/// of them, gives.
pub open spec fn read_peer_exchange(s: Seq<u8>, cap: nat) -> Result<PeerExchangeRpcModel, CodecError> {
    match unframe(s, cap) {
        Err(e) => Err(e),
        Ok(b) => match decode_peer_exchange(b) {
            Some(m) => Ok(m),
            None => Err(CodecError::Decode),
        },
    }
}

/// What writing the envelope `m`, with at most `cap` bytes, puts on the
/// stream.
pub open spec fn write_peer_exchange(m: PeerExchangeRpcModel, cap: nat) -> Result<Seq<u8>, CodecError> {
    capped(frame(encode_peer_exchange(m)), cap)
}

/// The codec of the protocol: envelopes behind a varint length, both ways.
#[derive(Clone, Copy, Debug, Default)]
pub struct Codec {}

impl Codec {
    fn read(&self, bytes: &[u8], cap: usize) -> (r: Result<PeerExchangeRpc, CodecError>)
        ensures
            match read_peer_exchange(bytes@, cap as nat) {
                Ok(m) => r matches Ok(x) && x@ == m,
                Err(e) => r matches Err(x) && x == e,
            },
    {
        match unframe_body(bytes, cap) {
            Err(e) => Err(e),
            Ok(body) => match PeerExchangeRpc::decode(body) {
                Some(m) => Ok(m),
                None => Err(CodecError::Decode),
            },
        }
    }

    /// Reads a request from all that the stream held.
    pub fn read_request(&self, bytes: &[u8]) -> (r: Result<PeerExchangeRpc, CodecError>)
        ensures
            match read_peer_exchange(bytes@, REQUEST_SIZE_MAXIMUM as nat) {
                Ok(m) => r matches Ok(x) && x@ == m,
                Err(e) => r matches Err(x) && x == e,
            },
    {
        self.read(bytes, REQUEST_SIZE_MAXIMUM)
    }

    /// Reads a response from all that the stream held.
    pub fn read_response(&self, bytes: &[u8]) -> (r: Result<PeerExchangeRpc, CodecError>)
        ensures
            match read_peer_exchange(bytes@, RESPONSE_SIZE_MAXIMUM as nat) {
                Ok(m) => r matches Ok(x) && x@ == m,
                Err(e) => r matches Err(x) && x == e,
            },
    {
        self.read(bytes, RESPONSE_SIZE_MAXIMUM)
    }

    /// The bytes that carry a request, or `SizeLimit` where they would pass
    /// the cap.
    pub fn write_request(&self, req: &PeerExchangeRpc) -> (r: Result<Vec<u8>, CodecError>)
        ensures
            match write_peer_exchange(req@, REQUEST_SIZE_MAXIMUM as nat) {
                Ok(b) => r matches Ok(x) && x@ == b,
                Err(e) => r matches Err(x) && x == e,
            },
    {
        check_cap(frame_body(req.encode()), REQUEST_SIZE_MAXIMUM)
    }

    /// The bytes that carry a response, or `SizeLimit` where they would pass
    /// the cap.
    pub fn write_response(&self, resp: &PeerExchangeRpc) -> (r: Result<Vec<u8>, CodecError>)
        ensures
            match write_peer_exchange(resp@, RESPONSE_SIZE_MAXIMUM as nat) {
                Ok(b) => r matches Ok(x) && x@ == b,
                Err(e) => r matches Err(x) && x == e,
            },
    {
        check_cap(frame_body(resp.encode()), RESPONSE_SIZE_MAXIMUM)
    }
}

/// What the codec writes under a cap, it reads back under that cap as the
/// same envelope.
pub proof fn lemma_codec_round_trip(m: PeerExchangeRpcModel, cap: nat)
    requires
        cap <= u64::MAX,
    ensures
        write_peer_exchange(m, cap) matches Ok(b) ==> read_peer_exchange(b, cap) == Ok::<
            PeerExchangeRpcModel,
            CodecError,
        >(m),
{
    let body = encode_peer_exchange(m);
    if frame(body).len() <= cap {
        lemma_unframe_frame(body, Seq::empty(), cap);
        assert(frame(body) + Seq::<u8>::empty() =~= frame(body));
        lemma_peer_exchange_round_trip(m);
    }
}

/// More bytes on the stream than the cap allows fail with `SizeLimit`, and
/// the bytes of an envelope cut short fail too.
pub proof fn lemma_codec_size_cap(m: PeerExchangeRpcModel, cap: nat, s: Seq<u8>, k: nat)
    requires
        cap <= u64::MAX,
    ensures
        s.len() > cap ==> read_peer_exchange(s, cap) == Err::<PeerExchangeRpcModel, CodecError>(
            CodecError::SizeLimit,
        ),
        match write_peer_exchange(m, cap) {
            Ok(b) => k < b.len() ==> read_peer_exchange(b.take(k as int), cap) is Err,
            Err(_) => true,
        },
{
    let body = encode_peer_exchange(m);
    if frame(body).len() <= cap && k < frame(body).len() {
        lemma_unframe_truncated(body, k, cap);
    }
}

} // verus!
