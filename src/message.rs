//! The Waku message that a push carries.
use crate::wire::{
    as_bytes, as_text, as_varint, bytes_field, fold_fields, lemma_fold_bytes_field,
    lemma_fold_opt_uint_field, lemma_fold_text_field, lemma_parse_field_bounds,
    lemma_text_round_trip, lemma_unzigzag_zigzag, opt_uint_field, put_bytes_field,
    put_opt_uint_field, put_text_field, raw_bytes, raw_text, raw_value, raw_varint, raw_within,
    read_field, text_field, unzigzag, zigzag, zigzag_decode, zigzag_encode, RawValue, WireValue,
};
use vstd::prelude::*;

verus! {

/// A message of the network: its payload, the content topic it is filed
/// under, an ephemeral flag and a timestamp in seconds since the epoch.
#[derive(Clone, Debug, PartialEq, Eq, Default)]
pub struct WakuMessage {
    pub payload: Vec<u8>,
    pub content_topic: String,
    pub timestamp: Option<i64>,
    pub ephemeral: Option<bool>,
}

pub struct WakuMessageModel {
    pub payload: Seq<u8>,
    pub content_topic: Seq<char>,
    pub timestamp: Option<i64>,
    pub ephemeral: Option<bool>,
}

impl View for WakuMessage {
    type V = WakuMessageModel;

    open spec fn view(&self) -> WakuMessageModel {
        WakuMessageModel {
            payload: self.payload@,
            content_topic: self.content_topic@,
            timestamp: self.timestamp,
            ephemeral: self.ephemeral,
        }
    }
}

pub open spec fn empty_waku_message() -> WakuMessageModel {
    WakuMessageModel {
        payload: Seq::empty(),
        content_topic: Seq::empty(),
        timestamp: None,
        ephemeral: None,
    }
}

/// How one field read from the wire changes a message; fields of other
/// numbers are skipped.
pub open spec fn waku_message_step(m: WakuMessageModel, num: u64, w: WireValue) -> Option<
    WakuMessageModel,
> {
    if num == 1 {
        match as_bytes(w) {
            Some(b) => Some(WakuMessageModel { payload: b, ..m }),
            None => None,
        }
    } else if num == 2 {
        match as_text(w) {
            Some(t) => Some(WakuMessageModel { content_topic: t, ..m }),
            None => None,
        }
    } else if num == 10 {
        match as_varint(w) {
            Some(v) => Some(WakuMessageModel { timestamp: Some(unzigzag(v)), ..m }),
            None => None,
        }
    } else if num == 31 {
        match as_varint(w) {
            Some(v) => Some(WakuMessageModel { ephemeral: Some(v != 0), ..m }),
            None => None,
        }
    } else {
        Some(m)
    }
}

pub open spec fn waku_message_steps() -> spec_fn(WakuMessageModel, u64, WireValue) -> Option<
    WakuMessageModel,
> {
    |m: WakuMessageModel, num: u64, w: WireValue| waku_message_step(m, num, w)
}

/// The message read from `s`, starting from `m`.
pub open spec fn merge_waku_message(s: Seq<u8>, m: WakuMessageModel) -> Option<WakuMessageModel> {
    fold_fields(s, m, waku_message_steps())
}

pub open spec fn decode_waku_message(s: Seq<u8>) -> Option<WakuMessageModel> {
    merge_waku_message(s, empty_waku_message())
}

pub open spec fn bool_code(b: bool) -> u64 {
    if b {
        1
    } else {
        0
    }
}

pub open spec fn timestamp_code(t: Option<i64>) -> Option<u64> {
    match t {
        Some(x) => Some(zigzag(x)),
        None => None,
    }
}

pub open spec fn ephemeral_code(e: Option<bool>) -> Option<u64> {
    match e {
        Some(x) => Some(bool_code(x)),
        None => None,
    }
}

/// The encoding of a message: payload (1), content topic (2), timestamp (10,
/// zigzag) and ephemeral flag (31), in that order.
pub open spec fn encode_waku_message(m: WakuMessageModel) -> Seq<u8> {
    bytes_field(1, m.payload) + text_field(2, m.content_topic) + opt_uint_field(
        10,
        timestamp_code(m.timestamp),
    ) + opt_uint_field(31, ephemeral_code(m.ephemeral))
}

/// A message reads back from its encoding.
pub proof fn lemma_waku_message_round_trip(m: WakuMessageModel)
    requires
        encode_waku_message(m).len() <= u64::MAX,
    ensures
        decode_waku_message(encode_waku_message(m)) == Some(m),
{
    let st = waku_message_steps();
    let f1 = bytes_field(1, m.payload);
    let f2 = text_field(2, m.content_topic);
    let f3 = opt_uint_field(10, timestamp_code(m.timestamp));
    let f4 = opt_uint_field(31, ephemeral_code(m.ephemeral));
    let e: Seq<u8> = Seq::empty();
    assert(encode_waku_message(m) =~= f1 + (f2 + (f3 + (f4 + e))));
    let m0 = empty_waku_message();
    lemma_fold_bytes_field(1, m.payload, f2 + (f3 + (f4 + e)), m0, st);
    let m1 = WakuMessageModel { payload: m.payload, ..m0 };
    if m.payload.len() == 0 {
        assert(m.payload =~= m0.payload);
    }
    lemma_fold_text_field(2, m.content_topic, f3 + (f4 + e), m1, st);
    lemma_text_round_trip(m.content_topic);
    let m2 = WakuMessageModel { content_topic: m.content_topic, ..m1 };
    if m.content_topic.len() == 0 {
        assert(m.content_topic =~= m1.content_topic);
    }
    lemma_fold_opt_uint_field(10, timestamp_code(m.timestamp), f4 + e, m2, st);
    if let Some(t) = m.timestamp {
        lemma_unzigzag_zigzag(t);
    }
    let m3 = WakuMessageModel { timestamp: m.timestamp, ..m2 };
    lemma_fold_opt_uint_field(31, ephemeral_code(m.ephemeral), e, m3, st);
    assert(fold_fields(e, m, st) == Some(m));
}

impl WakuMessage {
    /// Appends the encoding of the message.
    pub fn encode_into(&self, buf: &mut Vec<u8>)
        ensures
            final(buf)@ == old(buf)@ + encode_waku_message(self@),
    {
        let ghost b0 = buf@;
        put_bytes_field(buf, 1, self.payload.as_slice());
        put_text_field(buf, 2, self.content_topic.as_str());
        let ts = match self.timestamp {
            Some(t) => Some(zigzag_encode(t)),
            None => None,
        };
        put_opt_uint_field(buf, 10, ts);
        let eph = match self.ephemeral {
            Some(x) => Some(
                if x {
                    1u64
                } else {
                    0u64
                },
            ),
            None => None,
        };
        put_opt_uint_field(buf, 31, eph);
        assert(buf@ =~= b0 + encode_waku_message(self@));
    }

    /// The encoding of the message.
    pub fn encode(&self) -> (r: Vec<u8>)
        ensures
            r@ == encode_waku_message(self@),
    {
        let mut buf: Vec<u8> = Vec::new();
        self.encode_into(&mut buf);
        assert(buf@ =~= encode_waku_message(self@));
        buf
    }

    fn apply(self, num: u64, raw: &RawValue, b: &[u8]) -> (r: Option<Self>)
        requires
            raw_within(b@, *raw),
        ensures
            match waku_message_step(self@, num, raw_value(b@, *raw)) {
                Some(m) => r matches Some(x) && x@ == m,
                None => r is None,
            },
    {
        let mut m = self;
        if num == 1 {
            match raw_bytes(b, raw) {
                Some(v) => m.payload = v,
                None => return None,
            }
        } else if num == 2 {
            match raw_text(b, raw) {
                Some(t) => m.content_topic = t,
                None => return None,
            }
        } else if num == 10 {
            match raw_varint(raw) {
                Some(v) => m.timestamp = Some(zigzag_decode(v)),
                None => return None,
            }
        } else if num == 31 {
            match raw_varint(raw) {
                Some(v) => m.ephemeral = Some(v != 0),
                None => return None,
            }
        }
        Some(m)
    }

    /// Reads the fields of `b` into the message, later fields replacing
    /// earlier values.
    pub fn merge(self, b: &[u8]) -> (r: Option<Self>)
        ensures
            match merge_waku_message(b@, self@) {
                Some(m) => r matches Some(x) && x@ == m,
                None => r is None,
            },
    {
        let mut m = self;
        let mut pos: usize = 0;
        assert(b@.skip(0) =~= b@);
        while pos < b.len()
            invariant
                pos <= b@.len(),
                merge_waku_message(b@, self@) == merge_waku_message(b@.skip(pos as int), m@),
            decreases b@.len() - pos,
        {
            proof {
                lemma_parse_field_bounds(b@.skip(pos as int));
            }
            match read_field(b, pos) {
                None => return None,
                Some((num, raw, end)) => {
                    assert(b@.skip(pos as int).skip((end - pos) as int) =~= b@.skip(end as int));
                    match m.apply(num, &raw, b) {
                        None => return None,
                        Some(m2) => m = m2,
                    }
                    pos = end;
                },
            }
        }
        Some(m)
    }

    /// The message with every field at its default.
    pub fn empty() -> (r: Self)
        ensures
            r@ == empty_waku_message(),
    {
        let m = WakuMessage {
            payload: Vec::new(),
            content_topic: String::new(),
            timestamp: None,
            ephemeral: None,
        };
        assert(m@.payload =~= Seq::<u8>::empty());
        m
    }

    /// The message that `b` encodes.
    pub fn decode(b: &[u8]) -> (r: Option<Self>)
        ensures
            match decode_waku_message(b@) {
                Some(m) => r matches Some(x) && x@ == m,
                None => r is None,
            },
    {
        WakuMessage::empty().merge(b)
    }
}

} // verus!
