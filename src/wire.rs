//! Protobuf fields: a key (field number and wire type) followed by a value.
use crate::varint::{lemma_read_varint, lemma_read_varint_bounds, lemma_varint_len, put_varint, read_varint, read_varint_spec, varint};
use vstd::prelude::*;
use vstd::utf8::{decode_utf8, encode_utf8, valid_utf8};
use vstd::slice::{slice_subrange, slice_to_vec};

verus! {

/// The largest field number protobuf allows.
pub const MAX_FIELD_NUMBER: u64 = 0x1fff_ffff;

/// What a field carries, as far as the wire format tells.
pub enum WireValue {
    Varint(u64),
    /// A fixed-width value of eight or four bytes, which no schema here uses.
    Fixed,
    Len(Seq<u8>),
}

/// A field number that a schema may use.
pub open spec fn valid_number(num: u64) -> bool {
    1 <= num <= MAX_FIELD_NUMBER
}

/// The key of a field: its number and wire type, packed into one varint.
pub open spec fn key(num: u64, wire_type: u64) -> Seq<u8> {
    varint((num * 8 + wire_type) as nat)
}

/// A field of wire type 0 (varint).
pub open spec fn varint_field(num: u64, v: u64) -> Seq<u8> {
    key(num, 0) + varint(v as nat)
}

/// A field of wire type 2: a varint length, then that many bytes.
pub open spec fn len_field(num: u64, bytes: Seq<u8>) -> Seq<u8> {
    key(num, 2) + varint(bytes.len()) + bytes
}

/// The field at the front of `s`: its number, its value and its length in
/// bytes. Fails on a key past 32 bits, field number 0, a wire type other than
/// varint, 64-bit, length-delimited and 32-bit, and a value cut short.
pub open spec fn parse_field(s: Seq<u8>) -> Option<(u64, WireValue, nat)> {
    match read_varint_spec(s) {
        None => None,
        Some((k, n)) => {
            let num = k / 8;
            let wire_type = k % 8;
            let rest = s.skip(n as int);
            if k > 0xffff_ffff || num == 0 {
                None
            } else if wire_type == 0 {
                match read_varint_spec(rest) {
                    Some((v, m)) => Some((num, WireValue::Varint(v), n + m)),
                    None => None,
                }
            } else if wire_type == 1 {
                if rest.len() >= 8 {
                    Some((num, WireValue::Fixed, n + 8))
                } else {
                    None
                }
            } else if wire_type == 5 {
                if rest.len() >= 4 {
                    Some((num, WireValue::Fixed, n + 4))
                } else {
                    None
                }
            } else if wire_type == 2 {
                match read_varint_spec(rest) {
                    Some((l, m)) => if l <= rest.len() - m {
                        Some((num, WireValue::Len(rest.subrange(m as int, m + l)), (n + m + l) as nat))
                    } else {
                        None
                    },
                    None => None,
                }
            } else {
                None
            }
        },
    }
}

/// Reads the fields of `s` one after the other, from the message `m`, and
/// lets `step` take each into the message; fails where a field cannot be read
/// or `step` refuses it.
pub open spec fn fold_fields<M>(
    s: Seq<u8>,
    m: M,
    step: spec_fn(M, u64, WireValue) -> Option<M>,
) -> Option<M>
    decreases s.len(),
{
    if s.len() == 0 {
        Some(m)
    } else {
        match parse_field(s) {
            None => None,
            Some((num, w, n)) => if 0 < n <= s.len() {
                match step(m, num, w) {
                    Some(m2) => fold_fields(s.skip(n as int), m2, step),
                    None => None,
                }
            } else {
                None
            },
        }
    }
}

/// A field value as the reader hands it out: a length-delimited value stands
/// as the bounds of its bytes in the buffer read.
pub enum RawValue {
    Varint(u64),
    Fixed,
    Len(usize, usize),
}

/// The value that the raw value `r` stands for in the buffer `b`.
pub open spec fn raw_value(b: Seq<u8>, r: RawValue) -> WireValue {
    match r {
        RawValue::Varint(x) => WireValue::Varint(x),
        RawValue::Fixed => WireValue::Fixed,
        RawValue::Len(start, end) => WireValue::Len(b.subrange(start as int, end as int)),
    }
}

/// The raw value `r` lies within `b`.
pub open spec fn raw_within(b: Seq<u8>, r: RawValue) -> bool {
    r matches RawValue::Len(start, end) ==> start <= end <= b.len()
}

/// The raw value `r`, read from `b`, is the value `w`.
pub open spec fn raw_agrees(b: Seq<u8>, r: RawValue, w: WireValue) -> bool {
    raw_within(b, r) && raw_value(b, r) == w
}

/// Reads the field that starts at `pos` in `b`; gives its number, its value
/// and the position after it.
pub fn read_field(b: &[u8], pos: usize) -> (r: Option<(u64, RawValue, usize)>)
    requires
        pos <= b@.len(),
    ensures
        match parse_field(b@.skip(pos as int)) {
            None => r is None,
            Some((num, w, n)) => r matches Some((num2, raw, end)) && num2 == num && end == pos
                + n && raw_agrees(b@, raw, w),
        },
{
    let s = slice_subrange(b, pos, b.len());
    assert(s@ =~= b@.skip(pos as int));
    proof {
        lemma_read_varint_bounds(s@);
    }
    let (k, left) = match read_varint(s) {
        None => {
            return None;
        },
        Some(x) => x,
    };
    let p = b.len() - left;
    assert(b@.skip(pos as int).skip((p - pos) as int) =~= b@.skip(p as int));
    if k > 0xffff_ffff || k / 8 == 0 {
        return None;
    }
    let num = k / 8;
    let wire_type = k % 8;
    if wire_type == 0 {
        let rest = slice_subrange(b, p, b.len());
        assert(rest@ =~= b@.skip(p as int));
        proof {
            lemma_read_varint_bounds(rest@);
        }
        match read_varint(rest) {
            Some((v, left2)) => Some((num, RawValue::Varint(v), b.len() - left2)),
            None => None,
        }
    } else if wire_type == 1 {
        if b.len() - p >= 8 {
            Some((num, RawValue::Fixed, p + 8))
        } else {
            None
        }
    } else if wire_type == 5 {
        if b.len() - p >= 4 {
            Some((num, RawValue::Fixed, p + 4))
        } else {
            None
        }
    } else if wire_type == 2 {
        let rest = slice_subrange(b, p, b.len());
        assert(rest@ =~= b@.skip(p as int));
        proof {
            lemma_read_varint_bounds(rest@);
        }
        match read_varint(rest) {
            Some((l, left2)) => {
                let start = b.len() - left2;
                if l <= left2 as u64 {
                    let end = start + l as usize;
                    assert(b@.subrange(start as int, end as int) =~= b@.skip(p as int).subrange(
                        (start - p) as int,
                        (end - p) as int,
                    ));
                    Some((num, RawValue::Len(start, end), end))
                } else {
                    None
                }
            },
            None => None,
        }
    } else {
        None
    }
}

/// A field that reads takes at least one byte, and no more than the input
/// holds.
pub proof fn lemma_parse_field_bounds(s: Seq<u8>)
    ensures
        parse_field(s) matches Some((_, _, n)) ==> 1 <= n <= s.len(),
{
    lemma_read_varint_bounds(s);
    if let Some((k, n)) = read_varint_spec(s) {
        lemma_read_varint_bounds(s.skip(n as int));
    }
}

/// Appends a varint field.
pub fn put_varint_field(buf: &mut Vec<u8>, num: u64, v: u64)
    requires
        valid_number(num),
    ensures
        final(buf)@ == old(buf)@ + varint_field(num, v),
{
    put_varint(num * 8, buf);
    put_varint(v, buf);
    assert(final(buf)@ =~= old(buf)@ + varint_field(num, v));
}

/// Appends a length-delimited field holding `bytes`.
pub fn put_len_field(buf: &mut Vec<u8>, num: u64, bytes: &[u8])
    requires
        valid_number(num),
    ensures
        final(buf)@ == old(buf)@ + len_field(num, bytes@),
{
    put_varint(num * 8 + 2, buf);
    put_varint(bytes.len() as u64, buf);
    let mut copy = slice_to_vec(bytes);
    buf.append(&mut copy);
    assert(final(buf)@ =~= old(buf)@ + len_field(num, bytes@));
}

/// A varint field reads back as its number and value.
pub proof fn lemma_parse_varint_field(num: u64, v: u64, rest: Seq<u8>)
    requires
        valid_number(num),
    ensures
        parse_field(varint_field(num, v) + rest) == Some(
            (num, WireValue::Varint(v), varint_field(num, v).len()),
        ),
{
    let k = (num * 8) as u64;
    let s = varint_field(num, v) + rest;
    assert(s =~= varint(k as nat) + (varint(v as nat) + rest));
    lemma_read_varint(k, varint(v as nat) + rest);
    assert(s.skip(varint(k as nat).len() as int) =~= varint(v as nat) + rest);
    lemma_read_varint(v, rest);
}

/// A length-delimited field reads back as its number and bytes.
pub proof fn lemma_parse_len_field(num: u64, bytes: Seq<u8>, rest: Seq<u8>)
    requires
        valid_number(num),
        bytes.len() <= u64::MAX,
    ensures
        parse_field(len_field(num, bytes) + rest) == Some(
            (num, WireValue::Len(bytes), len_field(num, bytes).len()),
        ),
{
    let k = (num * 8 + 2) as u64;
    let l = bytes.len() as u64;
    let s = len_field(num, bytes) + rest;
    assert(s =~= varint(k as nat) + (varint(l as nat) + bytes + rest));
    lemma_read_varint(k, varint(l as nat) + bytes + rest);
    let r1 = s.skip(varint(k as nat).len() as int);
    assert(r1 =~= varint(l as nat) + (bytes + rest));
    lemma_read_varint(l, bytes + rest);
    let m = varint(l as nat).len();
    assert(r1.subrange(m as int, m + l) =~= bytes);
}

/// Folding over a message that starts with a varint field takes that field
/// first.
pub proof fn lemma_fold_varint_field<M>(
    num: u64,
    v: u64,
    rest: Seq<u8>,
    m: M,
    step: spec_fn(M, u64, WireValue) -> Option<M>,
)
    requires
        valid_number(num),
    ensures
        fold_fields(varint_field(num, v) + rest, m, step) == match step(
            m,
            num,
            WireValue::Varint(v),
        ) {
            Some(m2) => fold_fields(rest, m2, step),
            None => None,
        },
{
    lemma_parse_varint_field(num, v, rest);
    lemma_varint_len((num * 8) as u64);
    let s = varint_field(num, v) + rest;
    assert(s.skip(varint_field(num, v).len() as int) =~= rest);
}

/// Folding over a message that starts with a length-delimited field takes
/// that field first.
pub proof fn lemma_fold_len_field<M>(
    num: u64,
    bytes: Seq<u8>,
    rest: Seq<u8>,
    m: M,
    step: spec_fn(M, u64, WireValue) -> Option<M>,
)
    requires
        valid_number(num),
        bytes.len() <= u64::MAX,
    ensures
        fold_fields(len_field(num, bytes) + rest, m, step) == match step(
            m,
            num,
            WireValue::Len(bytes),
        ) {
            Some(m2) => fold_fields(rest, m2, step),
            None => None,
        },
{
    lemma_parse_len_field(num, bytes, rest);
    lemma_varint_len((num * 8 + 2) as u64);
    let s = len_field(num, bytes) + rest;
    assert(s.skip(len_field(num, bytes).len() as int) =~= rest);
}

} // verus!

verus! {

/// The value of a varint field, if `w` is one.
pub open spec fn as_varint(w: WireValue) -> Option<u64> {
    match w {
        WireValue::Varint(v) => Some(v),
        _ => None,
    }
}

/// The bytes of a length-delimited field, if `w` is one.
pub open spec fn as_bytes(w: WireValue) -> Option<Seq<u8>> {
    match w {
        WireValue::Len(b) => Some(b),
        _ => None,
    }
}

/// The text of a length-delimited field that holds valid UTF-8.
pub open spec fn as_text(w: WireValue) -> Option<Seq<char>> {
    match w {
        WireValue::Len(b) => if valid_utf8(b) {
            Some(decode_utf8(b))
        } else {
            None
        },
        _ => None,
    }
}

/// A scalar with no presence of its own: left out when it is zero.
pub open spec fn uint_field(num: u64, v: u64) -> Seq<u8> {
    if v == 0 {
        Seq::empty()
    } else {
        varint_field(num, v)
    }
}

/// A scalar with presence: left out when absent.
pub open spec fn opt_uint_field(num: u64, v: Option<u64>) -> Seq<u8> {
    match v {
        Some(x) => varint_field(num, x),
        None => Seq::empty(),
    }
}

/// Bytes with no presence of their own: left out when empty.
pub open spec fn bytes_field(num: u64, b: Seq<u8>) -> Seq<u8> {
    if b.len() == 0 {
        Seq::empty()
    } else {
        len_field(num, b)
    }
}

/// Text with no presence of its own: left out when empty.
pub open spec fn text_field(num: u64, t: Seq<char>) -> Seq<u8> {
    if t.len() == 0 {
        Seq::empty()
    } else {
        len_field(num, encode_utf8(t))
    }
}

/// Length-delimited content with presence: left out when absent.
pub open spec fn opt_len_field(num: u64, b: Option<Seq<u8>>) -> Seq<u8> {
    match b {
        Some(x) => len_field(num, x),
        None => Seq::empty(),
    }
}

/// The zigzag mapping of `sint64`: small magnitudes, of either sign, get
/// small codes.
pub open spec fn zigzag(t: i64) -> u64 {
    if t >= 0 {
        (2 * t) as u64
    } else {
        (-2 * t - 1) as u64
    }
}

/// The inverse of [`zigzag`].
pub open spec fn unzigzag(v: u64) -> i64 {
    if v % 2 == 0 {
        (v / 2) as i64
    } else {
        (-(v / 2) - 1) as i64
    }
}

pub proof fn lemma_unzigzag_zigzag(t: i64)
    ensures
        unzigzag(zigzag(t)) == t,
{
}

pub fn zigzag_encode(t: i64) -> (r: u64)
    ensures
        r == zigzag(t),
{
    if t >= 0 {
        (t as u64) * 2
    } else {
        let m: i64 = -(t + 1);
        (m as u64) * 2 + 1
    }
}

pub fn zigzag_decode(v: u64) -> (r: i64)
    ensures
        r == unzigzag(v),
{
    let h: i64 = (v / 2) as i64;
    if v % 2 == 0 {
        h
    } else {
        -h - 1
    }
}

/// Relies on std's String::from_utf8: it succeeds exactly on valid UTF-8, and
/// the string then holds the characters that the bytes encode.
#[verifier::external_body]
pub fn utf8_string(v: Vec<u8>) -> (r: Option<String>)
    ensures
        match r {
            Some(s) => valid_utf8(v@) && s@ == decode_utf8(v@),
            None => !valid_utf8(v@),
        },
{
    String::from_utf8(v).ok()
}

/// Copies out the bytes of a length-delimited value.
pub fn raw_bytes(b: &[u8], raw: &RawValue) -> (r: Option<Vec<u8>>)
    requires
        raw_within(b@, *raw),
    ensures
        r matches Some(v) ==> as_bytes(raw_value(b@, *raw)) == Some(v@),
        r is None ==> as_bytes(raw_value(b@, *raw)) is None,
{
    match raw {
        RawValue::Len(start, end) => Some(slice_to_vec(slice_subrange(b, *start, *end))),
        _ => None,
    }
}

/// Reads the text of a length-delimited value.
pub fn raw_text(b: &[u8], raw: &RawValue) -> (r: Option<String>)
    requires
        raw_within(b@, *raw),
    ensures
        r matches Some(s) ==> as_text(raw_value(b@, *raw)) == Some(s@),
        r is None ==> as_text(raw_value(b@, *raw)) is None,
{
    match raw_bytes(b, raw) {
        Some(v) => utf8_string(v),
        None => None,
    }
}

/// Reads the value of a varint field.
pub fn raw_varint(raw: &RawValue) -> (r: Option<u64>)
    ensures
        forall|b: Seq<u8>| r == as_varint(#[trigger] raw_value(b, *raw)),
{
    match raw {
        RawValue::Varint(v) => Some(*v),
        _ => None,
    }
}

/// Appends a scalar field unless it is zero.
pub fn put_uint_field(buf: &mut Vec<u8>, num: u64, v: u64)
    requires
        valid_number(num),
    ensures
        final(buf)@ == old(buf)@ + uint_field(num, v),
{
    if v != 0 {
        put_varint_field(buf, num, v);
    } else {
        assert(buf@ =~= old(buf)@ + uint_field(num, v));
    }
}

/// Appends a scalar field if it is present.
pub fn put_opt_uint_field(buf: &mut Vec<u8>, num: u64, v: Option<u64>)
    requires
        valid_number(num),
    ensures
        final(buf)@ == old(buf)@ + opt_uint_field(num, v),
{
    match v {
        Some(x) => put_varint_field(buf, num, x),
        None => {
            assert(buf@ =~= old(buf)@ + opt_uint_field(num, v));
        },
    }
}

/// Appends a bytes field unless it is empty.
pub fn put_bytes_field(buf: &mut Vec<u8>, num: u64, b: &[u8])
    requires
        valid_number(num),
    ensures
        final(buf)@ == old(buf)@ + bytes_field(num, b@),
{
    if b.len() != 0 {
        put_len_field(buf, num, b);
    } else {
        assert(buf@ =~= old(buf)@ + bytes_field(num, b@));
    }
}

/// Appends a text field unless it is empty.
pub fn put_text_field(buf: &mut Vec<u8>, num: u64, t: &str)
    requires
        valid_number(num),
    ensures
        final(buf)@ == old(buf)@ + text_field(num, t@),
{
    if !t.is_empty() {
        put_len_field(buf, num, t.as_bytes());
    } else {
        assert(buf@ =~= old(buf)@ + text_field(num, t@));
    }
}

/// Folding over a scalar field that may be left out.
pub proof fn lemma_fold_uint_field<M>(
    num: u64,
    v: u64,
    rest: Seq<u8>,
    m: M,
    step: spec_fn(M, u64, WireValue) -> Option<M>,
)
    requires
        valid_number(num),
    ensures
        fold_fields(uint_field(num, v) + rest, m, step) == if v == 0 {
            fold_fields(rest, m, step)
        } else {
            match step(m, num, WireValue::Varint(v)) {
                Some(m2) => fold_fields(rest, m2, step),
                None => None,
            }
        },
{
    if v == 0 {
        assert(uint_field(num, v) + rest =~= rest);
    } else {
        lemma_fold_varint_field(num, v, rest, m, step);
    }
}

/// Folding over a scalar field with presence.
pub proof fn lemma_fold_opt_uint_field<M>(
    num: u64,
    v: Option<u64>,
    rest: Seq<u8>,
    m: M,
    step: spec_fn(M, u64, WireValue) -> Option<M>,
)
    requires
        valid_number(num),
    ensures
        fold_fields(opt_uint_field(num, v) + rest, m, step) == match v {
            None => fold_fields(rest, m, step),
            Some(x) => match step(m, num, WireValue::Varint(x)) {
                Some(m2) => fold_fields(rest, m2, step),
                None => None,
            },
        },
{
    match v {
        None => {
            assert(opt_uint_field(num, v) + rest =~= rest);
        },
        Some(x) => {
            lemma_fold_varint_field(num, x, rest, m, step);
        },
    }
}

/// Folding over a bytes field that may be left out.
pub proof fn lemma_fold_bytes_field<M>(
    num: u64,
    b: Seq<u8>,
    rest: Seq<u8>,
    m: M,
    step: spec_fn(M, u64, WireValue) -> Option<M>,
)
    requires
        valid_number(num),
        b.len() <= u64::MAX,
    ensures
        fold_fields(bytes_field(num, b) + rest, m, step) == if b.len() == 0 {
            fold_fields(rest, m, step)
        } else {
            match step(m, num, WireValue::Len(b)) {
                Some(m2) => fold_fields(rest, m2, step),
                None => None,
            }
        },
{
    if b.len() == 0 {
        assert(bytes_field(num, b) + rest =~= rest);
    } else {
        lemma_fold_len_field(num, b, rest, m, step);
    }
}

/// Folding over a text field that may be left out.
pub proof fn lemma_fold_text_field<M>(
    num: u64,
    t: Seq<char>,
    rest: Seq<u8>,
    m: M,
    step: spec_fn(M, u64, WireValue) -> Option<M>,
)
    requires
        valid_number(num),
        t.len() > 0 ==> encode_utf8(t).len() <= u64::MAX,
    ensures
        fold_fields(text_field(num, t) + rest, m, step) == if t.len() == 0 {
            fold_fields(rest, m, step)
        } else {
            match step(m, num, WireValue::Len(encode_utf8(t))) {
                Some(m2) => fold_fields(rest, m2, step),
                None => None,
            }
        },
{
    if t.len() == 0 {
        assert(text_field(num, t) + rest =~= rest);
    } else {
        lemma_fold_len_field(num, encode_utf8(t), rest, m, step);
    }
}

/// Folding over length-delimited content with presence.
pub proof fn lemma_fold_opt_len_field<M>(
    num: u64,
    b: Option<Seq<u8>>,
    rest: Seq<u8>,
    m: M,
    step: spec_fn(M, u64, WireValue) -> Option<M>,
)
    requires
        valid_number(num),
        b matches Some(x) ==> x.len() <= u64::MAX,
    ensures
        fold_fields(opt_len_field(num, b) + rest, m, step) == match b {
            None => fold_fields(rest, m, step),
            Some(x) => match step(m, num, WireValue::Len(x)) {
                Some(m2) => fold_fields(rest, m2, step),
                None => None,
            },
        },
{
    match b {
        None => {
            assert(opt_len_field(num, b) + rest =~= rest);
        },
        Some(x) => {
            lemma_fold_len_field(num, x, rest, m, step);
        },
    }
}

/// The text of encoded characters reads back as those characters.
pub proof fn lemma_text_round_trip(t: Seq<char>)
    ensures
        as_text(WireValue::Len(encode_utf8(t))) == Some(t),
{
    vstd::utf8::encode_utf8_valid_utf8(t);
    vstd::utf8::encode_utf8_decode_utf8(t);
}

} // verus!

verus! {

/// The bytes of a length-delimited value, in place.
pub fn raw_slice<'a>(b: &'a [u8], raw: &RawValue) -> (r: Option<&'a [u8]>)
    requires
        raw_within(b@, *raw),
    ensures
        r matches Some(s) ==> as_bytes(raw_value(b@, *raw)) == Some(s@),
        r is None ==> as_bytes(raw_value(b@, *raw)) is None,
{
    match raw {
        RawValue::Len(start, end) => Some(slice_subrange(b, *start, *end)),
        _ => None,
    }
}

/// The encoded form of text that may be absent.
pub open spec fn opt_text_bytes(t: Option<Seq<char>>) -> Option<Seq<u8>> {
    match t {
        Some(x) => Some(encode_utf8(x)),
        None => None,
    }
}

pub open spec fn opt_string_view(t: Option<String>) -> Option<Seq<char>> {
    match t {
        Some(x) => Some(x@),
        None => None,
    }
}

/// Appends a text field if it is present.
pub fn put_opt_text_field(buf: &mut Vec<u8>, num: u64, t: &Option<String>)
    requires
        valid_number(num),
    ensures
        final(buf)@ == old(buf)@ + opt_len_field(num, opt_text_bytes(opt_string_view(*t))),
{
    match t {
        Some(s) => put_len_field(buf, num, s.as_str().as_bytes()),
        None => {
            assert(buf@ =~= old(buf)@ + opt_len_field(num, opt_text_bytes(opt_string_view(*t))));
        },
    }
}

/// Appends a length-delimited field if it is present.
pub fn put_opt_len_field(buf: &mut Vec<u8>, num: u64, b: Option<Vec<u8>>)
    requires
        valid_number(num),
    ensures
        final(buf)@ == old(buf)@ + opt_len_field(
            num,
            match b {
                Some(x) => Some(x@),
                None => None,
            },
        ),
{
    match b {
        Some(x) => put_len_field(buf, num, x.as_slice()),
        None => {
            assert(buf@ =~= old(buf)@ + opt_len_field(num, None));
        },
    }
}

} // verus!
