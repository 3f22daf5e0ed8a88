//! The filter protocol: a node asks a peer to forward it the messages of
//! some content topics, or to stop.
use crate::framing::{
    capped, check_cap, frame, frame_body, lemma_unframe_frame, lemma_unframe_truncated, unframe,
    unframe_body, CodecError,
};
use crate::wire::{
    as_text, as_varint, fold_fields, len_field, lemma_fold_len_field, lemma_fold_opt_len_field,
    lemma_fold_text_field, lemma_fold_uint_field, lemma_parse_field_bounds, lemma_text_round_trip,
    opt_len_field, opt_string_view, opt_text_bytes, put_len_field, put_opt_text_field,
    put_text_field, put_uint_field, raw_text, raw_value, raw_varint, raw_within, read_field,
    text_field, uint_field, RawValue, WireValue,
};
use vstd::prelude::*;
use vstd::utf8::encode_utf8;

verus! {

/// What a subscribe request asks of the peer.
#[derive(Clone, Copy, Debug, PartialEq, Eq, Structural)]
pub enum FilterSubscribeType {
    SubscriberPing,
    Subscribe,
    Unsubscribe,
    UnsubscribeAll,
}

impl FilterSubscribeType {
    pub open spec fn spec_code(self) -> i32 {
        match self {
            FilterSubscribeType::SubscriberPing => 0,
            FilterSubscribeType::Subscribe => 1,
            FilterSubscribeType::Unsubscribe => 2,
            FilterSubscribeType::UnsubscribeAll => 3,
        }
    }

    /// The number that stands for the kind on the wire.
    #[verifier::when_used_as_spec(spec_code)]
    pub fn code(self) -> (r: i32)
        ensures
            r == self.spec_code(),
    {
        match self {
            FilterSubscribeType::SubscriberPing => 0,
            FilterSubscribeType::Subscribe => 1,
            FilterSubscribeType::Unsubscribe => 2,
            FilterSubscribeType::UnsubscribeAll => 3,
        }
    }
}

/// An `int32` as protobuf writes it: a negative value as its 64-bit two's
/// complement.
pub open spec fn int32_code(v: i32) -> u64 {
    if v >= 0 {
        v as u64
    } else {
        (v + 0x1_0000_0000_0000_0000) as u64
    }
}

/// An `int32` read from a varint: its low 32 bits, as two's complement.
#[verifier::opaque]
pub open spec fn int32_of(v: u64) -> i32 {
    let low = v % 0x1_0000_0000;
    if low >= 0x8000_0000 {
        (low - 0x1_0000_0000) as i32
    } else {
        low as i32
    }
}

pub proof fn lemma_int32_round_trip(v: i32)
    ensures
        int32_of(int32_code(v)) == v,
{
    reveal(int32_of);
}

pub fn int32_encode(v: i32) -> (r: u64)
    ensures
        r == int32_code(v),
{
    if v >= 0 {
        v as u64
    } else {
        let m: i64 = -(v as i64) - 1;
        u64::MAX - (m as u64)
    }
}

pub fn int32_decode(v: u64) -> (r: i32)
    ensures
        r == int32_of(v),
{
    reveal(int32_of);
    let low: u64 = v % 0x1_0000_0000;
    if low >= 0x8000_0000 {
        ((low as i64) - 0x1_0000_0000) as i32
    } else {
        low as i32
    }
}

/// A request to subscribe to, or unsubscribe from, content topics.
#[derive(Clone, Debug, PartialEq, Eq, Default)]
pub struct FilterSubscribeRequest {
    pub request_id: String,
    pub filter_subscribe_type: i32,
    pub pubsub_topic: Option<String>,
    pub content_topics: Vec<String>,
}

pub struct FilterSubscribeRequestModel {
    pub request_id: Seq<char>,
    pub filter_subscribe_type: i32,
    pub pubsub_topic: Option<Seq<char>>,
    pub content_topics: Seq<Seq<char>>,
}

pub open spec fn strings_view(v: Seq<String>) -> Seq<Seq<char>> {
    v.map_values(|s: String| s@)
}

impl View for FilterSubscribeRequest {
    type V = FilterSubscribeRequestModel;

    open spec fn view(&self) -> FilterSubscribeRequestModel {
        FilterSubscribeRequestModel {
            request_id: self.request_id@,
            filter_subscribe_type: self.filter_subscribe_type,
            pubsub_topic: opt_string_view(self.pubsub_topic),
            content_topics: strings_view(self.content_topics@),
        }
    }
}

pub open spec fn empty_filter_request() -> FilterSubscribeRequestModel {
    FilterSubscribeRequestModel {
        request_id: Seq::empty(),
        filter_subscribe_type: 0,
        pubsub_topic: None,
        content_topics: Seq::empty(),
    }
}

pub open spec fn filter_request_step(m: FilterSubscribeRequestModel, num: u64, w: WireValue) -> Option<
    FilterSubscribeRequestModel,
> {
    if num == 1 {
        match as_text(w) {
            Some(t) => Some(FilterSubscribeRequestModel { request_id: t, ..m }),
            None => None,
        }
    } else if num == 2 {
        match as_varint(w) {
            Some(v) => Some(FilterSubscribeRequestModel { filter_subscribe_type: int32_of(v), ..m }),
            None => None,
        }
    } else if num == 10 {
        match as_text(w) {
            Some(t) => Some(FilterSubscribeRequestModel { pubsub_topic: Some(t), ..m }),
            None => None,
        }
    } else if num == 11 {
        match as_text(w) {
            Some(t) => Some(
                FilterSubscribeRequestModel { content_topics: m.content_topics.push(t), ..m },
            ),
            None => None,
        }
    } else {
        Some(m)
    }
}

pub open spec fn filter_request_steps() -> spec_fn(FilterSubscribeRequestModel, u64, WireValue) -> Option<
    FilterSubscribeRequestModel,
> {
    |m: FilterSubscribeRequestModel, num: u64, w: WireValue| filter_request_step(m, num, w)
}

/// The request that the bytes `s` encode, if they encode one.
pub open spec fn decode_filter_request(s: Seq<u8>) -> Option<FilterSubscribeRequestModel> {
    fold_fields(s, empty_filter_request(), filter_request_steps())
}

/// Each content topic as a field of number 11, in order.
pub open spec fn topic_fields(ts: Seq<Seq<char>>) -> Seq<u8>
    decreases ts.len(),
{
    if ts.len() == 0 {
        Seq::empty()
    } else {
        topic_fields(ts.drop_last()) + len_field(11, encode_utf8(ts.last()))
    }
}

/// Request id (1), kind (2), pubsub topic (10), content topics (11).
pub open spec fn encode_filter_request(m: FilterSubscribeRequestModel) -> Seq<u8> {
    text_field(1, m.request_id) + uint_field(2, int32_code(m.filter_subscribe_type))
        + opt_len_field(10, opt_text_bytes(m.pubsub_topic)) + topic_fields(m.content_topics)
}

proof fn lemma_fold_topic_fields(
    ts: Seq<Seq<char>>,
    rest: Seq<u8>,
    m: FilterSubscribeRequestModel,
)
    requires
        topic_fields(ts).len() <= u64::MAX,
    ensures
        fold_fields(topic_fields(ts) + rest, m, filter_request_steps()) == fold_fields(
            rest,
            FilterSubscribeRequestModel { content_topics: m.content_topics + ts, ..m },
            filter_request_steps(),
        ),
    decreases ts.len(),
{
    if ts.len() == 0 {
        assert(topic_fields(ts) + rest =~= rest);
        assert(m.content_topics + ts =~= m.content_topics);
    } else {
        let last = len_field(11, encode_utf8(ts.last()));
        assert(topic_fields(ts) + rest =~= topic_fields(ts.drop_last()) + (last + rest));
        lemma_fold_topic_fields(ts.drop_last(), last + rest, m);
        let m1 = FilterSubscribeRequestModel {
            content_topics: m.content_topics + ts.drop_last(),
            ..m
        };
        lemma_fold_len_field(11, encode_utf8(ts.last()), rest, m1, filter_request_steps());
        lemma_text_round_trip(ts.last());
        assert(m1.content_topics.push(ts.last()) =~= m.content_topics + ts);
    }
}

/// A request reads back from its encoding.
#[verifier::rlimit(40)]
pub proof fn lemma_filter_request_round_trip(m: FilterSubscribeRequestModel)
    requires
        encode_filter_request(m).len() <= u64::MAX,
    ensures
        decode_filter_request(encode_filter_request(m)) == Some(m),
{
    let st = filter_request_steps();
    let f1 = text_field(1, m.request_id);
    let f2 = uint_field(2, int32_code(m.filter_subscribe_type));
    let f3 = opt_len_field(10, opt_text_bytes(m.pubsub_topic));
    let f4 = topic_fields(m.content_topics);
    let e: Seq<u8> = Seq::empty();
    assert(encode_filter_request(m) =~= f1 + (f2 + (f3 + (f4 + e))));
    let m0 = empty_filter_request();
    lemma_fold_text_field(1, m.request_id, f2 + (f3 + (f4 + e)), m0, st);
    lemma_text_round_trip(m.request_id);
    let m1 = FilterSubscribeRequestModel { request_id: m.request_id, ..m0 };
    if m.request_id.len() == 0 {
        assert(m.request_id =~= m0.request_id);
    }
    lemma_fold_uint_field(2, int32_code(m.filter_subscribe_type), f3 + (f4 + e), m1, st);
    lemma_int32_round_trip(m.filter_subscribe_type);
    let m2 = FilterSubscribeRequestModel { filter_subscribe_type: m.filter_subscribe_type, ..m1 };
    lemma_fold_opt_len_field(10, opt_text_bytes(m.pubsub_topic), f4 + e, m2, st);
    if let Some(t) = m.pubsub_topic {
        lemma_text_round_trip(t);
    }
    let m3 = FilterSubscribeRequestModel { pubsub_topic: m.pubsub_topic, ..m2 };
    lemma_fold_topic_fields(m.content_topics, e, m3);
    assert(m3.content_topics + m.content_topics =~= m.content_topics);
}

impl FilterSubscribeRequest {
    pub fn empty() -> (r: Self)
        ensures
            r@ == empty_filter_request(),
    {
        let r = FilterSubscribeRequest {
            request_id: String::new(),
            filter_subscribe_type: 0,
            pubsub_topic: None,
            content_topics: Vec::new(),
        };
        assert(r@.content_topics =~= Seq::<Seq<char>>::empty());
        r
    }

    pub fn encode_into(&self, buf: &mut Vec<u8>)
        ensures
            final(buf)@ == old(buf)@ + encode_filter_request(self@),
    {
        let ghost b0 = buf@;
        put_text_field(buf, 1, self.request_id.as_str());
        put_uint_field(buf, 2, int32_encode(self.filter_subscribe_type));
        put_opt_text_field(buf, 10, &self.pubsub_topic);
        let ghost b1 = buf@;
        let mut i: usize = 0;
        while i < self.content_topics.len()
            invariant
                i <= self.content_topics@.len(),
                buf@ == b1 + topic_fields(strings_view(self.content_topics@).take(i as int)),
            decreases self.content_topics@.len() - i,
        {
            let ghost ts = strings_view(self.content_topics@);
            assert(ts.take(i + 1).drop_last() =~= ts.take(i as int));
            put_len_field(buf, 11, self.content_topics[i].as_str().as_bytes());
            i = i + 1;
            assert(buf@ =~= b1 + topic_fields(ts.take(i as int)));
        }
        assert(strings_view(self.content_topics@).take(i as int) =~= strings_view(
            self.content_topics@,
        ));
        assert(buf@ =~= b0 + encode_filter_request(self@));
    }

    /// The encoding of the request.
    pub fn encode(&self) -> (r: Vec<u8>)
        ensures
            r@ == encode_filter_request(self@),
    {
        let mut buf: Vec<u8> = Vec::new();
        self.encode_into(&mut buf);
        assert(buf@ =~= encode_filter_request(self@));
        buf
    }

    fn apply(self, num: u64, raw: &RawValue, b: &[u8]) -> (r: Option<Self>)
        requires
            raw_within(b@, *raw),
        ensures
            match filter_request_step(self@, num, raw_value(b@, *raw)) {
                Some(m) => r matches Some(x) && x@ == m,
                None => r is None,
            },
    {
        let mut m = self;
        if num == 1 {
            match raw_text(b, raw) {
                Some(t) => m.request_id = t,
                None => return None,
            }
        } else if num == 2 {
            match raw_varint(raw) {
                Some(v) => m.filter_subscribe_type = int32_decode(v),
                None => return None,
            }
        } else if num == 10 {
            match raw_text(b, raw) {
                Some(t) => m.pubsub_topic = Some(t),
                None => return None,
            }
        } else if num == 11 {
            match raw_text(b, raw) {
                Some(t) => {
                    let ghost before = m.content_topics@;
                    m.content_topics.push(t);
                    assert(strings_view(m.content_topics@) =~= strings_view(before).push(t@));
                },
                None => return None,
            }
        }
        Some(m)
    }

    /// The request that `b` encodes.
    pub fn decode(b: &[u8]) -> (r: Option<Self>)
        ensures
            match decode_filter_request(b@) {
                Some(m) => r matches Some(x) && x@ == m,
                None => r is None,
            },
    {
        let mut m = FilterSubscribeRequest::empty();
        let mut pos: usize = 0;
        assert(b@.skip(0) =~= b@);
        while pos < b.len()
            invariant
                pos <= b@.len(),
                decode_filter_request(b@) == fold_fields(
                    b@.skip(pos as int),
                    m@,
                    filter_request_steps(),
                ),
            decreases b@.len() - pos,
        {
            proof {
                lemma_parse_field_bounds(b@.skip(pos as int));
            }
            match read_field(b, pos) {
                None => return None,
                Some((num, raw, end)) => {
                    assert(b@.skip(pos as int).skip((end - pos) as int) =~= b@.skip(end as int));
                    match m.apply(num, &raw, b) {
                        None => return None,
                        Some(m2) => m = m2,
                    }
                    pos = end;
                },
            }
        }
        Some(m)
    }
}

/// The answer to a subscribe request: the request id it answers, a status
/// code in the manner of HTTP, and a description.
#[derive(Clone, Debug, PartialEq, Eq, Default)]
pub struct FilterSubscribeResponse {
    pub request_id: String,
    pub status_code: u32,
    pub status_desc: Option<String>,
}

pub struct FilterSubscribeResponseModel {
    pub request_id: Seq<char>,
    pub status_code: u32,
    pub status_desc: Option<Seq<char>>,
}

impl View for FilterSubscribeResponse {
    type V = FilterSubscribeResponseModel;

    open spec fn view(&self) -> FilterSubscribeResponseModel {
        FilterSubscribeResponseModel {
            request_id: self.request_id@,
            status_code: self.status_code,
            status_desc: opt_string_view(self.status_desc),
        }
    }
}

pub open spec fn empty_filter_response() -> FilterSubscribeResponseModel {
    FilterSubscribeResponseModel { request_id: Seq::empty(), status_code: 0, status_desc: None }
}

pub open spec fn filter_response_step(m: FilterSubscribeResponseModel, num: u64, w: WireValue) -> Option<
    FilterSubscribeResponseModel,
> {
    if num == 1 {
        match as_text(w) {
            Some(t) => Some(FilterSubscribeResponseModel { request_id: t, ..m }),
            None => None,
        }
    } else if num == 10 {
        match as_varint(w) {
            Some(v) => Some(
                FilterSubscribeResponseModel { status_code: (v % 0x1_0000_0000) as u32, ..m },
            ),
            None => None,
        }
    } else if num == 11 {
        match as_text(w) {
            Some(t) => Some(FilterSubscribeResponseModel { status_desc: Some(t), ..m }),
            None => None,
        }
    } else {
        Some(m)
    }
}

pub open spec fn filter_response_steps() -> spec_fn(FilterSubscribeResponseModel, u64, WireValue) -> Option<
    FilterSubscribeResponseModel,
> {
    |m: FilterSubscribeResponseModel, num: u64, w: WireValue| filter_response_step(m, num, w)
}

/// The response that the bytes `s` encode, if they encode one.
pub open spec fn decode_filter_response(s: Seq<u8>) -> Option<FilterSubscribeResponseModel> {
    fold_fields(s, empty_filter_response(), filter_response_steps())
}

/// Request id (1), status code (10), description (11).
pub open spec fn encode_filter_response(m: FilterSubscribeResponseModel) -> Seq<u8> {
    text_field(1, m.request_id) + uint_field(10, m.status_code as u64) + opt_len_field(
        11,
        opt_text_bytes(m.status_desc),
    )
}

/// A response reads back from its encoding.
pub proof fn lemma_filter_response_round_trip(m: FilterSubscribeResponseModel)
    requires
        encode_filter_response(m).len() <= u64::MAX,
    ensures
        decode_filter_response(encode_filter_response(m)) == Some(m),
{
    let st = filter_response_steps();
    let f1 = text_field(1, m.request_id);
    let f2 = uint_field(10, m.status_code as u64);
    let f3 = opt_len_field(11, opt_text_bytes(m.status_desc));
    let e: Seq<u8> = Seq::empty();
    assert(encode_filter_response(m) =~= f1 + (f2 + (f3 + e)));
    let m0 = empty_filter_response();
    lemma_fold_text_field(1, m.request_id, f2 + (f3 + e), m0, st);
    lemma_text_round_trip(m.request_id);
    let m1 = FilterSubscribeResponseModel { request_id: m.request_id, ..m0 };
    if m.request_id.len() == 0 {
        assert(m.request_id =~= m0.request_id);
    }
    lemma_fold_uint_field(10, m.status_code as u64, f3 + e, m1, st);
    let m2 = FilterSubscribeResponseModel { status_code: m.status_code, ..m1 };
    lemma_fold_opt_len_field(11, opt_text_bytes(m.status_desc), e, m2, st);
    if let Some(t) = m.status_desc {
        lemma_text_round_trip(t);
    }
}

impl FilterSubscribeResponse {
    pub fn encode_into(&self, buf: &mut Vec<u8>)
        ensures
            final(buf)@ == old(buf)@ + encode_filter_response(self@),
    {
        let ghost b0 = buf@;
        put_text_field(buf, 1, self.request_id.as_str());
        put_uint_field(buf, 10, self.status_code as u64);
        put_opt_text_field(buf, 11, &self.status_desc);
        assert(buf@ =~= b0 + encode_filter_response(self@));
    }

    /// The encoding of the response.
    pub fn encode(&self) -> (r: Vec<u8>)
        ensures
            r@ == encode_filter_response(self@),
    {
        let mut buf: Vec<u8> = Vec::new();
        self.encode_into(&mut buf);
        assert(buf@ =~= encode_filter_response(self@));
        buf
    }

    fn apply(self, num: u64, raw: &RawValue, b: &[u8]) -> (r: Option<Self>)
        requires
            raw_within(b@, *raw),
        ensures
            match filter_response_step(self@, num, raw_value(b@, *raw)) {
                Some(m) => r matches Some(x) && x@ == m,
                None => r is None,
            },
    {
        let mut m = self;
        if num == 1 {
            match raw_text(b, raw) {
                Some(t) => m.request_id = t,
                None => return None,
            }
        } else if num == 10 {
            match raw_varint(raw) {
                Some(v) => m.status_code = (v % 0x1_0000_0000) as u32,
                None => return None,
            }
        } else if num == 11 {
            match raw_text(b, raw) {
                Some(t) => m.status_desc = Some(t),
                None => return None,
            }
        }
        Some(m)
    }

    /// The response that `b` encodes.
    pub fn decode(b: &[u8]) -> (r: Option<Self>)
        ensures
            match decode_filter_response(b@) {
                Some(m) => r matches Some(x) && x@ == m,
                None => r is None,
            },
    {
        let mut m = FilterSubscribeResponse {
            request_id: String::new(),
            status_code: 0,
            status_desc: None,
        };
        let mut pos: usize = 0;
        assert(b@.skip(0) =~= b@);
        while pos < b.len()
            invariant
                pos <= b@.len(),
                decode_filter_response(b@) == fold_fields(
                    b@.skip(pos as int),
                    m@,
                    filter_response_steps(),
                ),
            decreases b@.len() - pos,
        {
            proof {
                lemma_parse_field_bounds(b@.skip(pos as int));
            }
            match read_field(b, pos) {
                None => return None,
                Some((num, raw, end)) => {
                    assert(b@.skip(pos as int).skip((end - pos) as int) =~= b@.skip(end as int));
                    match m.apply(num, &raw, b) {
                        None => return None,
                        Some(m2) => m = m2,
                    }
                    pos = end;
                },
            }
        }
        Some(m)
    }
}

/// The identifier under which peers speak this protocol.
pub const PROTOCOL_NAME: &'static str = "/vac/waku/filter-subscribe/2.0.0-beta1";

/// The most bytes that a request may take on the stream, prefix included.
pub const REQUEST_SIZE_MAXIMUM: usize = 1024 * 1024;

/// The most bytes that a response may take on the stream, prefix included.
pub const RESPONSE_SIZE_MAXIMUM: usize = 10 * 1024 * 1024;

/// What reading a request from the stream bytes `s` gives.
pub open spec fn read_filter_request(s: Seq<u8>) -> Result<FilterSubscribeRequestModel, CodecError> {
    match unframe(s, REQUEST_SIZE_MAXIMUM as nat) {
        Err(e) => Err(e),
        Ok(b) => match decode_filter_request(b) {
            Some(m) => Ok(m),
            None => Err(CodecError::Decode),
        },
    }
}

/// What reading a response from the stream bytes `s` gives.
pub open spec fn read_filter_response(s: Seq<u8>) -> Result<FilterSubscribeResponseModel, CodecError> {
    match unframe(s, RESPONSE_SIZE_MAXIMUM as nat) {
        Err(e) => Err(e),
        Ok(b) => match decode_filter_response(b) {
            Some(m) => Ok(m),
            None => Err(CodecError::Decode),
        },
    }
}

/// What writing the request `m` puts on the stream.
pub open spec fn write_filter_request(m: FilterSubscribeRequestModel) -> Result<Seq<u8>, CodecError> {
    capped(frame(encode_filter_request(m)), REQUEST_SIZE_MAXIMUM as nat)
}

/// What writing the response `m` puts on the stream.
pub open spec fn write_filter_response(m: FilterSubscribeResponseModel) -> Result<Seq<u8>, CodecError> {
    capped(frame(encode_filter_response(m)), RESPONSE_SIZE_MAXIMUM as nat)
}

/// The codec of the protocol: messages behind a varint length, both ways.
#[derive(Clone, Copy, Debug, Default)]
pub struct Codec {}

impl Codec {
    /// Reads a request from all that the stream held.
    pub fn read_request(&self, bytes: &[u8]) -> (r: Result<FilterSubscribeRequest, CodecError>)
        ensures
            match read_filter_request(bytes@) {
                Ok(m) => r matches Ok(x) && x@ == m,
                Err(e) => r matches Err(x) && x == e,
            },
    {
        match unframe_body(bytes, REQUEST_SIZE_MAXIMUM) {
            Err(e) => Err(e),
            Ok(body) => match FilterSubscribeRequest::decode(body) {
                Some(m) => Ok(m),
                None => Err(CodecError::Decode),
            },
        }
    }

    /// Reads a response from all that the stream held.
    pub fn read_response(&self, bytes: &[u8]) -> (r: Result<FilterSubscribeResponse, CodecError>)
        ensures
            match read_filter_response(bytes@) {
                Ok(m) => r matches Ok(x) && x@ == m,
                Err(e) => r matches Err(x) && x == e,
            },
    {
        match unframe_body(bytes, RESPONSE_SIZE_MAXIMUM) {
            Err(e) => Err(e),
            Ok(body) => match FilterSubscribeResponse::decode(body) {
                Some(m) => Ok(m),
                None => Err(CodecError::Decode),
            },
        }
    }

    /// The bytes that carry a request, or `SizeLimit` where they would pass
    /// the cap.
    pub fn write_request(&self, req: &FilterSubscribeRequest) -> (r: Result<Vec<u8>, CodecError>)
        ensures
            match write_filter_request(req@) {
                Ok(b) => r matches Ok(x) && x@ == b,
                Err(e) => r matches Err(x) && x == e,
            },
    {
        check_cap(frame_body(req.encode()), REQUEST_SIZE_MAXIMUM)
    }

    /// The bytes that carry a response, or `SizeLimit` where they would pass
    /// the cap.
    pub fn write_response(&self, resp: &FilterSubscribeResponse) -> (r: Result<Vec<u8>, CodecError>)
        ensures
            match write_filter_response(resp@) {
                Ok(b) => r matches Ok(x) && x@ == b,
                Err(e) => r matches Err(x) && x == e,
            },
    {
        check_cap(frame_body(resp.encode()), RESPONSE_SIZE_MAXIMUM)
    }
}

/// What the codec writes, it reads back as the same request or response.
pub proof fn lemma_codec_round_trip(q: FilterSubscribeRequestModel, p: FilterSubscribeResponseModel)
    ensures
        write_filter_request(q) matches Ok(b) ==> read_filter_request(b) == Ok::<
            FilterSubscribeRequestModel,
            CodecError,
        >(q),
        write_filter_response(p) matches Ok(b) ==> read_filter_response(b) == Ok::<
            FilterSubscribeResponseModel,
            CodecError,
        >(p),
{
    let e: Seq<u8> = Seq::empty();
    let bq = encode_filter_request(q);
    if frame(bq).len() <= REQUEST_SIZE_MAXIMUM {
        lemma_unframe_frame(bq, e, REQUEST_SIZE_MAXIMUM as nat);
        assert(frame(bq) + e =~= frame(bq));
        lemma_filter_request_round_trip(q);
    }
    let bp = encode_filter_response(p);
    if frame(bp).len() <= RESPONSE_SIZE_MAXIMUM {
        lemma_unframe_frame(bp, e, RESPONSE_SIZE_MAXIMUM as nat);
        assert(frame(bp) + e =~= frame(bp));
        lemma_filter_response_round_trip(p);
    }
}

/// More bytes on the stream than the cap allows fail with `SizeLimit`, and
/// the bytes of a request or response cut short fail too.
pub proof fn lemma_codec_size_cap(
    q: FilterSubscribeRequestModel,
    p: FilterSubscribeResponseModel,
    s: Seq<u8>,
    k: nat,
)
    ensures
        s.len() > REQUEST_SIZE_MAXIMUM ==> read_filter_request(s) == Err::<
            FilterSubscribeRequestModel,
            CodecError,
        >(CodecError::SizeLimit),
        s.len() > RESPONSE_SIZE_MAXIMUM ==> read_filter_response(s) == Err::<
            FilterSubscribeResponseModel,
            CodecError,
        >(CodecError::SizeLimit),
        match write_filter_request(q) {
            Ok(b) => k < b.len() ==> read_filter_request(b.take(k as int)) is Err,
            Err(_) => true,
        },
        match write_filter_response(p) {
            Ok(b) => k < b.len() ==> read_filter_response(b.take(k as int)) is Err,
            Err(_) => true,
        },
{
    let bq = encode_filter_request(q);
    if frame(bq).len() <= REQUEST_SIZE_MAXIMUM && k < frame(bq).len() {
        lemma_unframe_truncated(bq, k, REQUEST_SIZE_MAXIMUM as nat);
    }
    let bp = encode_filter_response(p);
    if frame(bp).len() <= RESPONSE_SIZE_MAXIMUM && k < frame(bp).len() {
        lemma_unframe_truncated(bp, k, RESPONSE_SIZE_MAXIMUM as nat);
    }
}

} // verus!
