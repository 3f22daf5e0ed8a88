//! The light push protocol: a node hands a message to a peer, which relays it
//! into the network and answers whether it could.
use crate::message::{
    empty_waku_message, encode_waku_message, lemma_waku_message_round_trip,
    merge_waku_message, WakuMessage, WakuMessageModel,
};
use crate::wire::{
    as_bytes, as_text, as_varint, fold_fields, lemma_fold_opt_len_field, lemma_fold_text_field,
    lemma_fold_uint_field, lemma_parse_field_bounds, lemma_text_round_trip, opt_len_field,
    opt_string_view, opt_text_bytes, put_opt_len_field, put_opt_text_field, put_text_field,
    put_uint_field, raw_slice, raw_text, raw_value, raw_varint, raw_within, read_field, text_field,
    uint_field, RawValue, WireValue,
};
use crate::framing::{
    capped, check_cap, frame, frame_body, lemma_unframe_frame, lemma_unframe_truncated, unframe,
    unframe_body, CodecError,
};
use vstd::prelude::*;

verus! {

/// A request to relay `message` on the pubsub topic `pubsub_topic`.
#[derive(Clone, Debug, PartialEq, Eq, Default)]
pub struct PushRequest {
    pub pubsub_topic: String,
    pub message: Option<WakuMessage>,
}

pub struct PushRequestModel {
    pub pubsub_topic: Seq<char>,
    pub message: Option<WakuMessageModel>,
}

impl View for PushRequest {
    type V = PushRequestModel;

    open spec fn view(&self) -> PushRequestModel {
        PushRequestModel {
            pubsub_topic: self.pubsub_topic@,
            message: match self.message {
                Some(m) => Some(m@),
                None => None,
            },
        }
    }
}

pub open spec fn empty_push_request() -> PushRequestModel {
    PushRequestModel { pubsub_topic: Seq::empty(), message: None }
}

pub open spec fn push_request_step(m: PushRequestModel, num: u64, w: WireValue) -> Option<
    PushRequestModel,
> {
    if num == 1 {
        match as_text(w) {
            Some(t) => Some(PushRequestModel { pubsub_topic: t, ..m }),
            None => None,
        }
    } else if num == 2 {
        match as_bytes(w) {
            Some(b) => match merge_waku_message(
                b,
                match m.message {
                    Some(x) => x,
                    None => empty_waku_message(),
                },
            ) {
                Some(x) => Some(PushRequestModel { message: Some(x), ..m }),
                None => None,
            },
            None => None,
        }
    } else {
        Some(m)
    }
}

pub open spec fn push_request_steps() -> spec_fn(PushRequestModel, u64, WireValue) -> Option<
    PushRequestModel,
> {
    |m: PushRequestModel, num: u64, w: WireValue| push_request_step(m, num, w)
}

pub open spec fn merge_push_request(s: Seq<u8>, m: PushRequestModel) -> Option<PushRequestModel> {
    fold_fields(s, m, push_request_steps())
}

pub open spec fn decode_push_request(s: Seq<u8>) -> Option<PushRequestModel> {
    merge_push_request(s, empty_push_request())
}

/// Pubsub topic (1), then the message (2).
pub open spec fn encode_push_request(m: PushRequestModel) -> Seq<u8> {
    text_field(1, m.pubsub_topic) + opt_len_field(
        2,
        match m.message {
            Some(x) => Some(encode_waku_message(x)),
            None => None,
        },
    )
}

pub proof fn lemma_push_request_round_trip(m: PushRequestModel)
    requires
        encode_push_request(m).len() <= u64::MAX,
    ensures
        decode_push_request(encode_push_request(m)) == Some(m),
{
    let st = push_request_steps();
    let inner = match m.message {
        Some(x) => Some(encode_waku_message(x)),
        None => None,
    };
    let f1 = text_field(1, m.pubsub_topic);
    let f2 = opt_len_field(2, inner);
    let e: Seq<u8> = Seq::empty();
    assert(encode_push_request(m) =~= f1 + (f2 + e));
    let m0 = empty_push_request();
    lemma_fold_text_field(1, m.pubsub_topic, f2 + e, m0, st);
    lemma_text_round_trip(m.pubsub_topic);
    let m1 = PushRequestModel { pubsub_topic: m.pubsub_topic, ..m0 };
    if m.pubsub_topic.len() == 0 {
        assert(m.pubsub_topic =~= m0.pubsub_topic);
    }
    lemma_fold_opt_len_field(2, inner, e, m1, st);
    if let Some(x) = m.message {
        lemma_waku_message_round_trip(x);
    }
}

impl PushRequest {
    pub fn empty() -> (r: Self)
        ensures
            r@ == empty_push_request(),
    {
        PushRequest { pubsub_topic: String::new(), message: None }
    }

    pub fn encode_into(&self, buf: &mut Vec<u8>)
        ensures
            final(buf)@ == old(buf)@ + encode_push_request(self@),
    {
        let ghost b0 = buf@;
        put_text_field(buf, 1, self.pubsub_topic.as_str());
        let inner = match &self.message {
            Some(x) => Some(x.encode()),
            None => None,
        };
        put_opt_len_field(buf, 2, inner);
        assert(buf@ =~= b0 + encode_push_request(self@));
    }

    fn apply(self, num: u64, raw: &RawValue, b: &[u8]) -> (r: Option<Self>)
        requires
            raw_within(b@, *raw),
        ensures
            match push_request_step(self@, num, raw_value(b@, *raw)) {
                Some(m) => r matches Some(x) && x@ == m,
                None => r is None,
            },
    {
        let mut m = self;
        if num == 1 {
            match raw_text(b, raw) {
                Some(t) => m.pubsub_topic = t,
                None => return None,
            }
        } else if num == 2 {
            match raw_slice(b, raw) {
                Some(s) => {
                    let base = match m.message {
                        Some(x) => x,
                        None => WakuMessage::empty(),
                    };
                    match base.merge(s) {
                        Some(x) => m.message = Some(x),
                        None => return None,
                    }
                },
                None => return None,
            }
        }
        Some(m)
    }

    pub fn merge(self, b: &[u8]) -> (r: Option<Self>)
        ensures
            match merge_push_request(b@, self@) {
                Some(m) => r matches Some(x) && x@ == m,
                None => r is None,
            },
    {
        let mut m = self;
        let mut pos: usize = 0;
        assert(b@.skip(0) =~= b@);
        while pos < b.len()
            invariant
                pos <= b@.len(),
                merge_push_request(b@, self@) == merge_push_request(b@.skip(pos as int), m@),
            decreases b@.len() - pos,
        {
            proof {
                lemma_parse_field_bounds(b@.skip(pos as int));
            }
            match read_field(b, pos) {
                None => return None,
                Some((num, raw, end)) => {
                    assert(b@.skip(pos as int).skip((end - pos) as int) =~= b@.skip(end as int));
                    match m.apply(num, &raw, b) {
                        None => return None,
                        Some(m2) => m = m2,
                    }
                    pos = end;
                },
            }
        }
        Some(m)
    }
}

/// The answer to a push: whether the peer relayed the message, and why not.
#[derive(Clone, Debug, PartialEq, Eq, Default)]
pub struct PushResponse {
    pub is_success: bool,
    pub info: Option<String>,
}

pub struct PushResponseModel {
    pub is_success: bool,
    pub info: Option<Seq<char>>,
}

impl View for PushResponse {
    type V = PushResponseModel;

    open spec fn view(&self) -> PushResponseModel {
        PushResponseModel { is_success: self.is_success, info: opt_string_view(self.info) }
    }
}

pub open spec fn empty_push_response() -> PushResponseModel {
    PushResponseModel { is_success: false, info: None }
}

pub open spec fn push_response_step(m: PushResponseModel, num: u64, w: WireValue) -> Option<
    PushResponseModel,
> {
    if num == 1 {
        match as_varint(w) {
            Some(v) => Some(PushResponseModel { is_success: v != 0, ..m }),
            None => None,
        }
    } else if num == 2 {
        match as_text(w) {
            Some(t) => Some(PushResponseModel { info: Some(t), ..m }),
            None => None,
        }
    } else {
        Some(m)
    }
}

pub open spec fn push_response_steps() -> spec_fn(PushResponseModel, u64, WireValue) -> Option<
    PushResponseModel,
> {
    |m: PushResponseModel, num: u64, w: WireValue| push_response_step(m, num, w)
}

pub open spec fn merge_push_response(s: Seq<u8>, m: PushResponseModel) -> Option<
    PushResponseModel,
> {
    fold_fields(s, m, push_response_steps())
}

pub open spec fn decode_push_response(s: Seq<u8>) -> Option<PushResponseModel> {
    merge_push_response(s, empty_push_response())
}

/// Success flag (1), then the info text (2).
pub open spec fn encode_push_response(m: PushResponseModel) -> Seq<u8> {
    uint_field(
        1,
        if m.is_success {
            1
        } else {
            0
        },
    ) + opt_len_field(2, opt_text_bytes(m.info))
}

pub proof fn lemma_push_response_round_trip(m: PushResponseModel)
    requires
        encode_push_response(m).len() <= u64::MAX,
    ensures
        decode_push_response(encode_push_response(m)) == Some(m),
{
    let st = push_response_steps();
    let code: u64 = if m.is_success {
        1
    } else {
        0
    };
    let f1 = uint_field(1, code);
    let f2 = opt_len_field(2, opt_text_bytes(m.info));
    let e: Seq<u8> = Seq::empty();
    assert(encode_push_response(m) =~= f1 + (f2 + e));
    let m0 = empty_push_response();
    lemma_fold_uint_field(1, code, f2 + e, m0, st);
    let m1 = PushResponseModel { is_success: m.is_success, ..m0 };
    lemma_fold_opt_len_field(2, opt_text_bytes(m.info), e, m1, st);
    if let Some(t) = m.info {
        lemma_text_round_trip(t);
    }
}

impl PushResponse {
    pub fn empty() -> (r: Self)
        ensures
            r@ == empty_push_response(),
    {
        PushResponse { is_success: false, info: None }
    }

    pub fn encode_into(&self, buf: &mut Vec<u8>)
        ensures
            final(buf)@ == old(buf)@ + encode_push_response(self@),
    {
        let ghost b0 = buf@;
        put_uint_field(
            buf,
            1,
            if self.is_success {
                1
            } else {
                0
            },
        );
        put_opt_text_field(buf, 2, &self.info);
        assert(buf@ =~= b0 + encode_push_response(self@));
    }

    fn apply(self, num: u64, raw: &RawValue, b: &[u8]) -> (r: Option<Self>)
        requires
            raw_within(b@, *raw),
        ensures
            match push_response_step(self@, num, raw_value(b@, *raw)) {
                Some(m) => r matches Some(x) && x@ == m,
                None => r is None,
            },
    {
        let mut m = self;
        if num == 1 {
            match raw_varint(raw) {
                Some(v) => m.is_success = v != 0,
                None => return None,
            }
        } else if num == 2 {
            match raw_text(b, raw) {
                Some(t) => m.info = Some(t),
                None => return None,
            }
        }
        Some(m)
    }

    pub fn merge(self, b: &[u8]) -> (r: Option<Self>)
        ensures
            match merge_push_response(b@, self@) {
                Some(m) => r matches Some(x) && x@ == m,
                None => r is None,
            },
    {
        let mut m = self;
        let mut pos: usize = 0;
        assert(b@.skip(0) =~= b@);
        while pos < b.len()
            invariant
                pos <= b@.len(),
                merge_push_response(b@, self@) == merge_push_response(b@.skip(pos as int), m@),
            decreases b@.len() - pos,
        {
            proof {
                lemma_parse_field_bounds(b@.skip(pos as int));
            }
            match read_field(b, pos) {
                None => return None,
                Some((num, raw, end)) => {
                    assert(b@.skip(pos as int).skip((end - pos) as int) =~= b@.skip(end as int));
                    match m.apply(num, &raw, b) {
                        None => return None,
                        Some(m2) => m = m2,
                    }
                    pos = end;
                },
            }
        }
        Some(m)
    }
}

/// The envelope of the protocol: a request id, and a request or a response.
#[derive(Clone, Debug, PartialEq, Eq, Default)]
pub struct PushRpc {
    pub request_id: String,
    pub request: Option<PushRequest>,
    pub response: Option<PushResponse>,
}

pub struct PushRpcModel {
    pub request_id: Seq<char>,
    pub request: Option<PushRequestModel>,
    pub response: Option<PushResponseModel>,
}

impl View for PushRpc {
    type V = PushRpcModel;

    open spec fn view(&self) -> PushRpcModel {
        PushRpcModel {
            request_id: self.request_id@,
            request: match self.request {
                Some(x) => Some(x@),
                None => None,
            },
            response: match self.response {
                Some(x) => Some(x@),
                None => None,
            },
        }
    }
}

pub open spec fn empty_push_rpc() -> PushRpcModel {
    PushRpcModel { request_id: Seq::empty(), request: None, response: None }
}

pub open spec fn push_rpc_step(m: PushRpcModel, num: u64, w: WireValue) -> Option<PushRpcModel> {
    if num == 1 {
        match as_text(w) {
            Some(t) => Some(PushRpcModel { request_id: t, ..m }),
            None => None,
        }
    } else if num == 2 {
        match as_bytes(w) {
            Some(b) => match merge_push_request(
                b,
                match m.request {
                    Some(x) => x,
                    None => empty_push_request(),
                },
            ) {
                Some(x) => Some(PushRpcModel { request: Some(x), ..m }),
                None => None,
            },
            None => None,
        }
    } else if num == 3 {
        match as_bytes(w) {
            Some(b) => match merge_push_response(
                b,
                match m.response {
                    Some(x) => x,
                    None => empty_push_response(),
                },
            ) {
                Some(x) => Some(PushRpcModel { response: Some(x), ..m }),
                None => None,
            },
            None => None,
        }
    } else {
        Some(m)
    }
}

pub open spec fn push_rpc_steps() -> spec_fn(PushRpcModel, u64, WireValue) -> Option<
    PushRpcModel,
> {
    |m: PushRpcModel, num: u64, w: WireValue| push_rpc_step(m, num, w)
}

pub open spec fn merge_push_rpc(s: Seq<u8>, m: PushRpcModel) -> Option<PushRpcModel> {
    fold_fields(s, m, push_rpc_steps())
}

/// The envelope that the bytes `s` encode, if they encode one.
pub open spec fn decode_push_rpc(s: Seq<u8>) -> Option<PushRpcModel> {
    merge_push_rpc(s, empty_push_rpc())
}

/// Request id (1), request (2), response (3).
pub open spec fn encode_push_rpc(m: PushRpcModel) -> Seq<u8> {
    text_field(1, m.request_id) + opt_len_field(
        2,
        match m.request {
            Some(x) => Some(encode_push_request(x)),
            None => None,
        },
    ) + opt_len_field(
        3,
        match m.response {
            Some(x) => Some(encode_push_response(x)),
            None => None,
        },
    )
}

/// An envelope reads back from its encoding.
pub proof fn lemma_push_rpc_round_trip(m: PushRpcModel)
    requires
        encode_push_rpc(m).len() <= u64::MAX,
    ensures
        decode_push_rpc(encode_push_rpc(m)) == Some(m),
{
    let st = push_rpc_steps();
    let req = match m.request {
        Some(x) => Some(encode_push_request(x)),
        None => None,
    };
    let resp = match m.response {
        Some(x) => Some(encode_push_response(x)),
        None => None,
    };
    let f1 = text_field(1, m.request_id);
    let f2 = opt_len_field(2, req);
    let f3 = opt_len_field(3, resp);
    let e: Seq<u8> = Seq::empty();
    assert(encode_push_rpc(m) =~= f1 + (f2 + (f3 + e)));
    let m0 = empty_push_rpc();
    lemma_fold_text_field(1, m.request_id, f2 + (f3 + e), m0, st);
    lemma_text_round_trip(m.request_id);
    let m1 = PushRpcModel { request_id: m.request_id, ..m0 };
    if m.request_id.len() == 0 {
        assert(m.request_id =~= m0.request_id);
    }
    lemma_fold_opt_len_field(2, req, f3 + e, m1, st);
    if let Some(x) = m.request {
        lemma_push_request_round_trip(x);
    }
    let m2 = PushRpcModel { request: m.request, ..m1 };
    lemma_fold_opt_len_field(3, resp, e, m2, st);
    if let Some(x) = m.response {
        lemma_push_response_round_trip(x);
    }
}

impl PushRpc {
    pub fn encode_into(&self, buf: &mut Vec<u8>)
        ensures
            final(buf)@ == old(buf)@ + encode_push_rpc(self@),
    {
        let ghost b0 = buf@;
        put_text_field(buf, 1, self.request_id.as_str());
        let req = match &self.request {
            Some(x) => {
                let mut v: Vec<u8> = Vec::new();
                x.encode_into(&mut v);
                assert(v@ =~= encode_push_request(x@));
                Some(v)
            },
            None => None,
        };
        put_opt_len_field(buf, 2, req);
        let resp = match &self.response {
            Some(x) => {
                let mut v: Vec<u8> = Vec::new();
                x.encode_into(&mut v);
                assert(v@ =~= encode_push_response(x@));
                Some(v)
            },
            None => None,
        };
        put_opt_len_field(buf, 3, resp);
        assert(buf@ =~= b0 + encode_push_rpc(self@));
    }

    /// The encoding of the envelope.
    pub fn encode(&self) -> (r: Vec<u8>)
        ensures
            r@ == encode_push_rpc(self@),
    {
        let mut buf: Vec<u8> = Vec::new();
        self.encode_into(&mut buf);
        assert(buf@ =~= encode_push_rpc(self@));
        buf
    }

    fn apply(self, num: u64, raw: &RawValue, b: &[u8]) -> (r: Option<Self>)
        requires
            raw_within(b@, *raw),
        ensures
            match push_rpc_step(self@, num, raw_value(b@, *raw)) {
                Some(m) => r matches Some(x) && x@ == m,
                None => r is None,
            },
    {
        let mut m = self;
        if num == 1 {
            match raw_text(b, raw) {
                Some(t) => m.request_id = t,
                None => return None,
            }
        } else if num == 2 {
            match raw_slice(b, raw) {
                Some(s) => {
                    let base = match m.request {
                        Some(x) => x,
                        None => PushRequest::empty(),
                    };
                    match base.merge(s) {
                        Some(x) => m.request = Some(x),
                        None => return None,
                    }
                },
                None => return None,
            }
        } else if num == 3 {
            match raw_slice(b, raw) {
                Some(s) => {
                    let base = match m.response {
                        Some(x) => x,
                        None => PushResponse::empty(),
                    };
                    match base.merge(s) {
                        Some(x) => m.response = Some(x),
                        None => return None,
                    }
                },
                None => return None,
            }
        }
        Some(m)
    }

    pub fn merge(self, b: &[u8]) -> (r: Option<Self>)
        ensures
            match merge_push_rpc(b@, self@) {
                Some(m) => r matches Some(x) && x@ == m,
                None => r is None,
            },
    {
        let mut m = self;
        let mut pos: usize = 0;
        assert(b@.skip(0) =~= b@);
        while pos < b.len()
            invariant
                pos <= b@.len(),
                merge_push_rpc(b@, self@) == merge_push_rpc(b@.skip(pos as int), m@),
            decreases b@.len() - pos,
        {
            proof {
                lemma_parse_field_bounds(b@.skip(pos as int));
            }
            match read_field(b, pos) {
                None => return None,
                Some((num, raw, end)) => {
                    assert(b@.skip(pos as int).skip((end - pos) as int) =~= b@.skip(end as int));
                    match m.apply(num, &raw, b) {
                        None => return None,
                        Some(m2) => m = m2,
                    }
                    pos = end;
                },
            }
        }
        Some(m)
    }

    /// The envelope that `b` encodes.
    pub fn decode(b: &[u8]) -> (r: Option<Self>)
        ensures
            match decode_push_rpc(b@) {
                Some(m) => r matches Some(x) && x@ == m,
                None => r is None,
            },
    {
        let m = PushRpc { request_id: String::new(), request: None, response: None };
        m.merge(b)
    }
}

/// The identifier under which peers speak this protocol.
pub const PROTOCOL_NAME: &'static str = "/vac/waku/lightpush/2.0.0-beta1";

/// The most bytes that one envelope may take on the stream, prefix included.
pub const MAX_LIGHTPUSH_RPC_SIZE: usize = 1024 * 1024 * 1024;

/// What reading an envelope from the stream bytes `s` gives.
pub open spec fn read_push_rpc(s: Seq<u8>) -> Result<PushRpcModel, CodecError> {
    match unframe(s, MAX_LIGHTPUSH_RPC_SIZE as nat) {
        Err(e) => Err(e),
        Ok(b) => match decode_push_rpc(b) {
            Some(m) => Ok(m),
            None => Err(CodecError::Decode),
        },
    }
}

/// What writing the envelope `m` puts on the stream.
pub open spec fn write_push_rpc(m: PushRpcModel) -> Result<Seq<u8>, CodecError> {
    capped(frame(encode_push_rpc(m)), MAX_LIGHTPUSH_RPC_SIZE as nat)
}

/// The codec of the protocol: envelopes behind a varint length, both ways.
#[derive(Clone, Copy, Debug, Default)]
pub struct Codec {}

impl Codec {
    fn read(&self, bytes: &[u8]) -> (r: Result<PushRpc, CodecError>)
        ensures
            match read_push_rpc(bytes@) {
                Ok(m) => r matches Ok(x) && x@ == m,
                Err(e) => r matches Err(x) && x == e,
            },
    {
        match unframe_body(bytes, MAX_LIGHTPUSH_RPC_SIZE) {
            Err(e) => Err(e),
            Ok(body) => match PushRpc::decode(body) {
                Some(m) => Ok(m),
                None => Err(CodecError::Decode),
            },
        }
    }

    fn write(&self, m: &PushRpc) -> (r: Result<Vec<u8>, CodecError>)
        ensures
            match write_push_rpc(m@) {
                Ok(b) => r matches Ok(x) && x@ == b,
                Err(e) => r matches Err(x) && x == e,
            },
    {
        check_cap(frame_body(m.encode()), MAX_LIGHTPUSH_RPC_SIZE)
    }

    /// Reads a request from all that the stream held.
    pub fn read_request(&self, bytes: &[u8]) -> (r: Result<PushRpc, CodecError>)
        ensures
            match read_push_rpc(bytes@) {
                Ok(m) => r matches Ok(x) && x@ == m,
                Err(e) => r matches Err(x) && x == e,
            },
    {
        self.read(bytes)
    }

    /// Reads a response from all that the stream held.
    pub fn read_response(&self, bytes: &[u8]) -> (r: Result<PushRpc, CodecError>)
        ensures
            match read_push_rpc(bytes@) {
                Ok(m) => r matches Ok(x) && x@ == m,
                Err(e) => r matches Err(x) && x == e,
            },
    {
        self.read(bytes)
    }

    /// The bytes that carry a request, or `SizeLimit` where they would
    /// pass the cap.
    pub fn write_request(&self, req: &PushRpc) -> (r: Result<Vec<u8>, CodecError>)
        ensures
            match write_push_rpc(req@) {
                Ok(b) => r matches Ok(x) && x@ == b,
                Err(e) => r matches Err(x) && x == e,
            },
    {
        self.write(req)
    }

    /// The bytes that carry a response, or `SizeLimit` where they would
    /// pass the cap.
    pub fn write_response(&self, resp: &PushRpc) -> (r: Result<Vec<u8>, CodecError>)
        ensures
            match write_push_rpc(resp@) {
                Ok(b) => r matches Ok(x) && x@ == b,
                Err(e) => r matches Err(x) && x == e,
            },
    {
        self.write(resp)
    }
}

/// What the codec writes, it reads back as the same envelope.
pub proof fn lemma_codec_round_trip(m: PushRpcModel)
    ensures
        write_push_rpc(m) matches Ok(b) ==> read_push_rpc(b) == Ok::<PushRpcModel, CodecError>(m),
{
    let body = encode_push_rpc(m);
    if frame(body).len() <= MAX_LIGHTPUSH_RPC_SIZE {
        lemma_unframe_frame(body, Seq::empty(), MAX_LIGHTPUSH_RPC_SIZE as nat);
        assert(frame(body) + Seq::<u8>::empty() =~= frame(body));
        lemma_push_rpc_round_trip(m);
    }
}

/// More bytes on the stream than the cap allows fail with `SizeLimit`, and
/// the bytes of an envelope cut short fail too: a reader never takes a
/// shortened envelope for a whole one.
pub proof fn lemma_codec_size_cap(m: PushRpcModel, s: Seq<u8>, k: nat)
    ensures
        s.len() > MAX_LIGHTPUSH_RPC_SIZE ==> read_push_rpc(s) == Err::<PushRpcModel, CodecError>(
            CodecError::SizeLimit,
        ),
        match write_push_rpc(m) {
            Ok(b) => k < b.len() ==> read_push_rpc(b.take(k as int)) is Err,
            Err(_) => true,
        },
{
    let body = encode_push_rpc(m);
    if frame(body).len() <= MAX_LIGHTPUSH_RPC_SIZE && k < frame(body).len() {
        lemma_unframe_truncated(body, k, MAX_LIGHTPUSH_RPC_SIZE as nat);
    }
}

/// An envelope whose bytes would pass the cap is refused before anything is
/// written.
pub proof fn lemma_oversized_push_refused(m: PushRpcModel)
    requires
        frame(encode_push_rpc(m)).len() > MAX_LIGHTPUSH_RPC_SIZE,
    ensures
        write_push_rpc(m) == Err::<Seq<u8>, CodecError>(CodecError::SizeLimit),
{
}

} // verus!
