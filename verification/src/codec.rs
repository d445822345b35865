//! The byte format of saved state: little-endian integers, length-prefixed
//! byte strings and sequences, and tagged scalars.
//!
//! Every value has one encoding, and decoding an encoding gives the value
//! back. The decoders read from the front of a byte sequence and hand back
//! what follows the value they read.

use vstd::prelude::*;
use vstd::bytes::*;
use vstd::utf8::*;
use vstd::slice::slice_subrange;
use vstd::slice::slice_to_vec;
use crate::array::Scalar;
use crate::array::ScalarValue;
use crate::array::scalar_values;
use crate::array::string_from_utf8;

verus! {

/// The largest length that a length prefix can state.
pub open spec fn max_len() -> int {
    0xffff_ffff_ffff_ffff
}

/// The two's complement bit pattern of a signed integer.
pub open spec fn i64_bits(v: i64) -> u64 {
    if v >= 0 {
        v as u64
    } else {
        (v + 0x1_0000_0000_0000_0000) as u64
    }
}

/// The signed integer of a two's complement bit pattern.
pub open spec fn bits_i64(u: u64) -> i64 {
    if u <= 0x7fff_ffff_ffff_ffff {
        u as i64
    } else {
        (u - 0x1_0000_0000_0000_0000) as i64
    }
}

pub fn i64_to_bits(v: i64) -> (bits: u64)
    ensures
        bits == i64_bits(v),
{
    if v >= 0 {
        v as u64
    } else {
        (v as i128 + 0x1_0000_0000_0000_0000i128) as u64
    }
}

pub fn bits_to_i64(bits: u64) -> (v: i64)
    ensures
        v == bits_i64(bits),
        i64_bits(v) == bits,
{
    if bits <= 0x7fff_ffff_ffff_ffff {
        bits as i64
    } else {
        (bits as i128 - 0x1_0000_0000_0000_0000i128) as i64
    }
}

/// Eight bytes, least significant first.
pub open spec fn enc_u64(v: u64) -> Seq<u8> {
    spec_u64_to_le_bytes(v)
}

pub open spec fn parse_u64(bytes: Seq<u8>) -> Option<(u64, Seq<u8>)> {
    if bytes.len() >= 8 {
        Some((spec_u64_from_le_bytes(bytes.take(8)), bytes.skip(8)))
    } else {
        None
    }
}

pub open spec fn enc_i64(v: i64) -> Seq<u8> {
    enc_u64(i64_bits(v))
}

pub open spec fn parse_i64(bytes: Seq<u8>) -> Option<(i64, Seq<u8>)> {
    match parse_u64(bytes) {
        Some((bits, rest)) => Some((bits_i64(bits), rest)),
        None => None,
    }
}

/// A byte string: its length, then its bytes.
pub open spec fn enc_bytes(data: Seq<u8>) -> Seq<u8> {
    enc_u64(data.len() as u64) + data
}

pub open spec fn parse_bytes(bytes: Seq<u8>) -> Option<(Seq<u8>, Seq<u8>)> {
    match parse_u64(bytes) {
        Some((len, rest)) => if rest.len() >= len {
            Some((rest.take(len as int), rest.skip(len as int)))
        } else {
            None
        },
        None => None,
    }
}

/// The encodings of the items of a sequence, one after the other.
pub open spec fn enc_seq<T>(items: Seq<T>, enc: spec_fn(T) -> Seq<u8>) -> Seq<u8>
    decreases items.len(),
{
    if items.len() == 0 {
        Seq::empty()
    } else {
        enc_seq(items.drop_last(), enc) + enc(items.last())
    }
}

/// Reads `count` items from the front of `bytes`.
pub open spec fn parse_seq<T>(
    bytes: Seq<u8>,
    count: nat,
    parse: spec_fn(Seq<u8>) -> Option<(T, Seq<u8>)>,
) -> Option<(Seq<T>, Seq<u8>)>
    decreases count,
{
    if count == 0 {
        Some((Seq::empty(), bytes))
    } else {
        match parse_seq(bytes, (count - 1) as nat, parse) {
            Some((items, rest)) => match parse(rest) {
                Some((item, after)) => Some((items.push(item), after)),
                None => None,
            },
            None => None,
        }
    }
}

/// A sequence: the number of its items, then the items.
pub open spec fn enc_list<T>(items: Seq<T>, enc: spec_fn(T) -> Seq<u8>) -> Seq<u8> {
    enc_u64(items.len() as u64) + enc_seq(items, enc)
}

pub open spec fn parse_list<T>(
    bytes: Seq<u8>,
    parse: spec_fn(Seq<u8>) -> Option<(T, Seq<u8>)>,
) -> Option<(Seq<T>, Seq<u8>)> {
    match parse_u64(bytes) {
        Some((count, rest)) => parse_seq(rest, count as nat, parse),
        None => None,
    }
}

/// A scalar: one tag byte, then the value. Integers take eight bytes, a
/// boolean one, a string is the byte string of its UTF-8 encoding.
pub open spec fn enc_scalar(value: ScalarValue) -> Seq<u8> {
    match value {
        ScalarValue::Null => seq![0u8],
        ScalarValue::Int8(v) => seq![1u8] + enc_i64(v as i64),
        ScalarValue::Int16(v) => seq![2u8] + enc_i64(v as i64),
        ScalarValue::Int32(v) => seq![3u8] + enc_i64(v as i64),
        ScalarValue::Int64(v) => seq![4u8] + enc_i64(v),
        ScalarValue::Float32(v) => seq![5u8] + enc_u64(v as u64),
        ScalarValue::Float64(v) => seq![6u8] + enc_u64(v),
        ScalarValue::Boolean(v) => seq![
            7u8,
            if v {
                1u8
            } else {
                0u8
            },
        ],
        ScalarValue::Timestamp(v) => seq![8u8] + enc_i64(v),
        ScalarValue::String(v) => seq![9u8] + enc_bytes(encode_utf8(v)),
    }
}

pub open spec fn parse_scalar(bytes: Seq<u8>) -> Option<(ScalarValue, Seq<u8>)> {
    if bytes.len() == 0 {
        None
    } else {
        let tag = bytes[0];
        let body = bytes.skip(1);
        if tag == 0 {
            Some((ScalarValue::Null, body))
        } else if tag == 1 || tag == 2 || tag == 3 || tag == 4 || tag == 8 {
            match parse_i64(body) {
                Some((v, rest)) => if tag == 1 && -0x80 <= v <= 0x7f {
                    Some((ScalarValue::Int8(v as i8), rest))
                } else if tag == 2 && -0x8000 <= v <= 0x7fff {
                    Some((ScalarValue::Int16(v as i16), rest))
                } else if tag == 3 && -0x8000_0000 <= v <= 0x7fff_ffff {
                    Some((ScalarValue::Int32(v as i32), rest))
                } else if tag == 4 {
                    Some((ScalarValue::Int64(v), rest))
                } else if tag == 8 {
                    Some((ScalarValue::Timestamp(v), rest))
                } else {
                    None
                },
                None => None,
            }
        } else if tag == 5 || tag == 6 {
            match parse_u64(body) {
                Some((v, rest)) => if tag == 5 && v <= 0xffff_ffff {
                    Some((ScalarValue::Float32(v as u32), rest))
                } else if tag == 6 {
                    Some((ScalarValue::Float64(v), rest))
                } else {
                    None
                },
                None => None,
            }
        } else if tag == 7 {
            if body.len() >= 1 && body[0] <= 1 {
                Some((ScalarValue::Boolean(body[0] == 1), body.skip(1)))
            } else {
                None
            }
        } else if tag == 9 {
            match parse_bytes(body) {
                Some((raw, rest)) => if valid_utf8(raw) {
                    Some((ScalarValue::String(decode_utf8(raw)), rest))
                } else {
                    None
                },
                None => None,
            }
        } else {
            None
        }
    }
}

/// Whether the length of a scalar's payload can be stated in its prefix.
pub open spec fn scalar_fits(value: ScalarValue) -> bool {
    value matches ScalarValue::String(text) ==> encode_utf8(text).len() <= max_len()
}

pub open spec fn scalars_fit(values: Seq<ScalarValue>) -> bool {
    &&& values.len() <= max_len()
    &&& forall|i: int| 0 <= i < values.len() ==> scalar_fits(#[trigger] values[i])
}

pub open spec fn enc_scalars(values: Seq<ScalarValue>) -> Seq<u8> {
    enc_list(values, |v: ScalarValue| enc_scalar(v))
}

pub open spec fn parse_scalars(bytes: Seq<u8>) -> Option<(Seq<ScalarValue>, Seq<u8>)> {
    parse_list(bytes, |b: Seq<u8>| parse_scalar(b))
}

/// Whether the lengths of byte strings can be stated in their prefixes.
pub open spec fn blobs_fit(blobs: Seq<Seq<u8>>) -> bool {
    &&& blobs.len() <= max_len()
    &&& forall|i: int| 0 <= i < blobs.len() ==> (#[trigger] blobs[i]).len() <= max_len()
}

pub open spec fn enc_blobs(blobs: Seq<Seq<u8>>) -> Seq<u8> {
    enc_list(blobs, |b: Seq<u8>| enc_bytes(b))
}

pub open spec fn parse_blobs(bytes: Seq<u8>) -> Option<(Seq<Seq<u8>>, Seq<u8>)> {
    parse_list(bytes, |b: Seq<u8>| parse_bytes(b))
}

/// Decoding the encoding of an integer gives the integer and what followed it.
pub proof fn lemma_u64_round_trip(v: u64, rest: Seq<u8>)
    ensures
        enc_u64(v).len() == 8,
        parse_u64(enc_u64(v) + rest) == Some((v, rest)),
{
    lemma_auto_spec_u64_to_from_le_bytes();
    assert((enc_u64(v) + rest).take(8) =~= enc_u64(v));
    assert((enc_u64(v) + rest).skip(8) =~= rest);
}

pub proof fn lemma_i64_round_trip(v: i64, rest: Seq<u8>)
    ensures
        enc_i64(v).len() == 8,
        parse_i64(enc_i64(v) + rest) == Some((v, rest)),
{
    lemma_u64_round_trip(i64_bits(v), rest);
}

pub proof fn lemma_bytes_round_trip(data: Seq<u8>, rest: Seq<u8>)
    requires
        data.len() <= max_len(),
    ensures
        parse_bytes(enc_bytes(data) + rest) == Some((data, rest)),
{
    lemma_u64_round_trip(data.len() as u64, data + rest);
    assert(enc_bytes(data) + rest =~= enc_u64(data.len() as u64) + (data + rest));
    assert((data + rest).take(data.len() as int) =~= data);
    assert((data + rest).skip(data.len() as int) =~= rest);
}

pub proof fn lemma_scalar_round_trip(value: ScalarValue, rest: Seq<u8>)
    requires
        scalar_fits(value),
    ensures
        parse_scalar(enc_scalar(value) + rest) == Some((value, rest)),
{
    let bytes = enc_scalar(value) + rest;
    match value {
        ScalarValue::Null => {
            assert(bytes.skip(1) =~= rest);
        },
        ScalarValue::Int8(v) => {
            lemma_i64_round_trip(v as i64, rest);
            assert(bytes.skip(1) =~= enc_i64(v as i64) + rest);
        },
        ScalarValue::Int16(v) => {
            lemma_i64_round_trip(v as i64, rest);
            assert(bytes.skip(1) =~= enc_i64(v as i64) + rest);
        },
        ScalarValue::Int32(v) => {
            lemma_i64_round_trip(v as i64, rest);
            assert(bytes.skip(1) =~= enc_i64(v as i64) + rest);
        },
        ScalarValue::Int64(v) => {
            lemma_i64_round_trip(v, rest);
            assert(bytes.skip(1) =~= enc_i64(v) + rest);
        },
        ScalarValue::Float32(v) => {
            lemma_u64_round_trip(v as u64, rest);
            assert(bytes.skip(1) =~= enc_u64(v as u64) + rest);
        },
        ScalarValue::Float64(v) => {
            lemma_u64_round_trip(v, rest);
            assert(bytes.skip(1) =~= enc_u64(v) + rest);
        },
        ScalarValue::Boolean(v) => {
            assert(bytes.skip(1).skip(1) =~= rest);
        },
        ScalarValue::Timestamp(v) => {
            lemma_i64_round_trip(v, rest);
            assert(bytes.skip(1) =~= enc_i64(v) + rest);
        },
        ScalarValue::String(text) => {
            broadcast use encode_utf8_valid_utf8, encode_utf8_decode_utf8;

            lemma_bytes_round_trip(encode_utf8(text), rest);
            assert(bytes.skip(1) =~= enc_bytes(encode_utf8(text)) + rest);
        },
    }
}

/// Decoding the encodings of a sequence's items gives the items back, where
/// that holds of each item.
pub proof fn lemma_seq_round_trip<T>(
    items: Seq<T>,
    enc: spec_fn(T) -> Seq<u8>,
    parse: spec_fn(Seq<u8>) -> Option<(T, Seq<u8>)>,
    rest: Seq<u8>,
)
    requires
        forall|i: int, after: Seq<u8>|
            0 <= i < items.len() ==> #[trigger] parse(enc(items[i]) + after) == Some(
                (items[i], after),
            ),
    ensures
        parse_seq(enc_seq(items, enc) + rest, items.len(), parse) == Some((items, rest)),
    decreases items.len(),
{
    if items.len() == 0 {
        assert(enc_seq(items, enc) + rest =~= rest);
        assert(items =~= Seq::<T>::empty());
    } else {
        let front = items.drop_last();
        let last = items.last();
        assert forall|i: int, after: Seq<u8>| 0 <= i < front.len() implies #[trigger] parse(
            enc(front[i]) + after,
        ) == Some((front[i], after)) by {
            assert(front[i] == items[i]);
        }
        lemma_seq_round_trip(front, enc, parse, enc(last) + rest);
        assert(enc_seq(items, enc) + rest =~= enc_seq(front, enc) + (enc(last) + rest));
        assert(parse(enc(items[items.len() - 1]) + rest) == Some((last, rest)));
        assert(front.push(last) =~= items);
    }
}

pub proof fn lemma_list_round_trip<T>(
    items: Seq<T>,
    enc: spec_fn(T) -> Seq<u8>,
    parse: spec_fn(Seq<u8>) -> Option<(T, Seq<u8>)>,
    rest: Seq<u8>,
)
    requires
        items.len() <= max_len(),
        forall|i: int, after: Seq<u8>|
            0 <= i < items.len() ==> #[trigger] parse(enc(items[i]) + after) == Some(
                (items[i], after),
            ),
    ensures
        parse_list(enc_list(items, enc) + rest, parse) == Some((items, rest)),
{
    lemma_u64_round_trip(items.len() as u64, enc_seq(items, enc) + rest);
    assert(enc_list(items, enc) + rest =~= enc_u64(items.len() as u64) + (enc_seq(items, enc)
        + rest));
    lemma_seq_round_trip(items, enc, parse, rest);
}

pub proof fn lemma_scalars_round_trip(values: Seq<ScalarValue>, rest: Seq<u8>)
    requires
        scalars_fit(values),
    ensures
        parse_scalars(enc_scalars(values) + rest) == Some((values, rest)),
{
    let enc = |v: ScalarValue| enc_scalar(v);
    let parse = |b: Seq<u8>| parse_scalar(b);
    assert forall|i: int, after: Seq<u8>| 0 <= i < values.len() implies #[trigger] parse(
        enc(values[i]) + after,
    ) == Some((values[i], after)) by {
        lemma_scalar_round_trip(values[i], after);
    }
    lemma_list_round_trip(values, enc, parse, rest);
}

pub proof fn lemma_blobs_round_trip(blobs: Seq<Seq<u8>>, rest: Seq<u8>)
    requires
        blobs_fit(blobs),
    ensures
        parse_blobs(enc_blobs(blobs) + rest) == Some((blobs, rest)),
{
    let enc = |b: Seq<u8>| enc_bytes(b);
    let parse = |b: Seq<u8>| parse_bytes(b);
    assert forall|i: int, after: Seq<u8>| 0 <= i < blobs.len() implies #[trigger] parse(
        enc(blobs[i]) + after,
    ) == Some((blobs[i], after)) by {
        lemma_bytes_round_trip(blobs[i], after);
    }
    lemma_list_round_trip(blobs, enc, parse, rest);
}

/// Once an item cannot be read, no longer run of items can.
pub proof fn lemma_parse_seq_stops<T>(
    bytes: Seq<u8>,
    read: nat,
    count: nat,
    parse: spec_fn(Seq<u8>) -> Option<(T, Seq<u8>)>,
)
    requires
        read < count,
        match parse_seq(bytes, read, parse) {
            Some((_, rest)) => parse(rest) is None,
            None => true,
        },
    ensures
        parse_seq(bytes, count, parse) is None,
    decreases count,
{
    if read + 1 < count {
        lemma_parse_seq_stops(bytes, read, (count - 1) as nat, parse);
    }
}

pub fn put_u64(out: &mut Vec<u8>, v: u64)
    ensures
        final(out)@ == old(out)@ + enc_u64(v),
{
    let mut bytes = u64_to_le_bytes(v);
    out.append(&mut bytes);
}

pub fn put_i64(out: &mut Vec<u8>, v: i64)
    ensures
        final(out)@ == old(out)@ + enc_i64(v),
{
    put_u64(out, i64_to_bits(v));
}

pub fn put_bytes(out: &mut Vec<u8>, data: &[u8])
    ensures
        final(out)@ == old(out)@ + enc_bytes(data@),
{
    put_u64(out, data.len() as u64);
    out.extend_from_slice(data);
    assert(out@ =~= old(out)@ + enc_bytes(data@));
}

pub fn put_scalar(out: &mut Vec<u8>, scalar: &Scalar)
    ensures
        final(out)@ == old(out)@ + enc_scalar(scalar@),
        scalar_fits(scalar@),
{
    match scalar {
        Scalar::Null => {
            out.push(0u8);
        },
        Scalar::Int8(v) => {
            out.push(1u8);
            put_i64(out, *v as i64);
        },
        Scalar::Int16(v) => {
            out.push(2u8);
            put_i64(out, *v as i64);
        },
        Scalar::Int32(v) => {
            out.push(3u8);
            put_i64(out, *v as i64);
        },
        Scalar::Int64(v) => {
            out.push(4u8);
            put_i64(out, *v);
        },
        Scalar::Float32(v) => {
            out.push(5u8);
            put_u64(out, *v as u64);
        },
        Scalar::Float64(v) => {
            out.push(6u8);
            put_u64(out, *v);
        },
        Scalar::Boolean(v) => {
            out.push(7u8);
            out.push(
                if *v {
                    1u8
                } else {
                    0u8
                },
            );
        },
        Scalar::Timestamp(v) => {
            out.push(8u8);
            put_i64(out, *v);
        },
        Scalar::String(text) => {
            out.push(9u8);
            let raw = text.as_str().as_bytes();
            assert(encode_utf8(text@).len() == raw.len());
            put_bytes(out, raw);
        },
    }
    assert(out@ =~= old(out)@ + enc_scalar(scalar@));
}

pub fn put_scalars(out: &mut Vec<u8>, scalars: &Vec<Scalar>)
    ensures
        final(out)@ == old(out)@ + enc_scalars(scalar_values(scalars@)),
        scalars_fit(scalar_values(scalars@)),
{
    let ghost values = scalar_values(scalars@);
    let ghost enc = |v: ScalarValue| enc_scalar(v);
    put_u64(out, scalars.len() as u64);
    let mut i: usize = 0;
    while i < scalars.len()
        invariant
            i <= scalars.len(),
            values == scalar_values(scalars@),
            enc == (|v: ScalarValue| enc_scalar(v)),
            forall|j: int| 0 <= j < i ==> scalar_fits(#[trigger] values[j]),
            out@ == old(out)@ + enc_u64(scalars.len() as u64) + enc_seq(values.take(i as int), enc),
        decreases scalars.len() - i,
    {
        put_scalar(out, &scalars[i]);
        proof {
            let next = values.take(i + 1);
            assert(next.drop_last() =~= values.take(i as int));
            assert(next.last() == scalars[i as int]@);
            assert(enc_seq(next, enc) == enc_seq(values.take(i as int), enc) + enc(next.last()));
        }
        i += 1;
    }
    assert(values.take(i as int) =~= values);
    assert(out@ =~= old(out)@ + enc_scalars(values));
}

pub fn put_blobs(out: &mut Vec<u8>, blobs: &Vec<Vec<u8>>)
    ensures
        final(out)@ == old(out)@ + enc_blobs(blob_views(blobs@)),
        blobs_fit(blob_views(blobs@)),
{
    let ghost views = blob_views(blobs@);
    let ghost enc = |b: Seq<u8>| enc_bytes(b);
    put_u64(out, blobs.len() as u64);
    let mut i: usize = 0;
    while i < blobs.len()
        invariant
            i <= blobs.len(),
            views == blob_views(blobs@),
            enc == (|b: Seq<u8>| enc_bytes(b)),
            forall|j: int| 0 <= j < i ==> (#[trigger] views[j]).len() <= max_len(),
            out@ == old(out)@ + enc_u64(blobs.len() as u64) + enc_seq(views.take(i as int), enc),
        decreases blobs.len() - i,
    {
        assert(views[i as int].len() == blobs[i as int].len());
        put_bytes(out, blobs[i].as_slice());
        proof {
            let next = views.take(i + 1);
            assert(next.drop_last() =~= views.take(i as int));
            assert(next.last() == blobs[i as int]@);
            assert(enc_seq(next, enc) == enc_seq(views.take(i as int), enc) + enc(next.last()));
        }
        i += 1;
    }
    assert(views.take(i as int) =~= views);
    assert(out@ =~= old(out)@ + enc_blobs(views));
}

/// The views of a sequence of byte strings.
pub open spec fn blob_views(blobs: Seq<Vec<u8>>) -> Seq<Seq<u8>> {
    blobs.map_values(|b: Vec<u8>| b@)
}

/// What a reader that stands at `pos` of `bytes` has to hand back: the value
/// that the decoder finds there and the place behind it, or nothing where
/// the decoder finds none.
pub open spec fn reads<T>(
    bytes: Seq<u8>,
    pos: usize,
    parsed: Option<(T, Seq<u8>)>,
    got: Option<(T, usize)>,
) -> bool {
    match got {
        Some((value, next)) => pos <= next <= bytes.len() && parsed == Some(
            (value, bytes.skip(next as int)),
        ),
        None => parsed is None,
    }
}

pub fn read_u64(bytes: &[u8], pos: usize) -> (got: Option<(u64, usize)>)
    requires
        pos <= bytes@.len(),
    ensures
        reads(bytes@, pos, parse_u64(bytes@.skip(pos as int)), got),
{
    if bytes.len() - pos < 8 {
        return None;
    }
    let v = u64_from_le_bytes(slice_subrange(bytes, pos, pos + 8));
    proof {
        assert(bytes@.skip(pos as int).take(8) =~= bytes@.subrange(pos as int, pos + 8));
        assert(bytes@.skip(pos as int).skip(8) =~= bytes@.skip(pos + 8));
    }
    Some((v, pos + 8))
}

pub fn read_i64(bytes: &[u8], pos: usize) -> (got: Option<(i64, usize)>)
    requires
        pos <= bytes@.len(),
    ensures
        reads(bytes@, pos, parse_i64(bytes@.skip(pos as int)), got),
{
    match read_u64(bytes, pos) {
        Some((bits, next)) => Some((bits_to_i64(bits), next)),
        None => None,
    }
}

pub fn read_bytes(bytes: &[u8], pos: usize) -> (got: Option<(Vec<u8>, usize)>)
    requires
        pos <= bytes@.len(),
    ensures
        match got {
            Some((data, next)) => reads(
                bytes@,
                pos,
                parse_bytes(bytes@.skip(pos as int)),
                Some((data@, next)),
            ),
            None => parse_bytes(bytes@.skip(pos as int)) is None,
        },
{
    match read_u64(bytes, pos) {
        Some((len, start)) => {
            if len > (bytes.len() - start) as u64 {
                return None;
            }
            let end = start + len as usize;
            let data = slice_to_vec(slice_subrange(bytes, start, end));
            proof {
                assert(bytes@.skip(start as int).take(len as int) =~= data@);
                assert(bytes@.skip(start as int).skip(len as int) =~= bytes@.skip(end as int));
            }
            Some((data, end))
        },
        None => None,
    }
}

pub fn read_scalar(bytes: &[u8], pos: usize) -> (got: Option<(Scalar, usize)>)
    requires
        pos <= bytes@.len(),
    ensures
        match got {
            Some((scalar, next)) => reads(
                bytes@,
                pos,
                parse_scalar(bytes@.skip(pos as int)),
                Some((scalar@, next)),
            ),
            None => parse_scalar(bytes@.skip(pos as int)) is None,
        },
{
    if pos >= bytes.len() {
        return None;
    }
    let tag = bytes[pos];
    let body = pos + 1;
    proof {
        assert(bytes@.skip(pos as int)[0] == tag);
        assert(bytes@.skip(pos as int).skip(1) =~= bytes@.skip(body as int));
    }
    if tag == 0 {
        Some((Scalar::Null, body))
    } else if tag == 1 || tag == 2 || tag == 3 || tag == 4 || tag == 8 {
        match read_i64(bytes, body) {
            Some((v, next)) => {
                if tag == 1 && -0x80 <= v && v <= 0x7f {
                    Some((Scalar::Int8(v as i8), next))
                } else if tag == 2 && -0x8000 <= v && v <= 0x7fff {
                    Some((Scalar::Int16(v as i16), next))
                } else if tag == 3 && -0x8000_0000 <= v && v <= 0x7fff_ffff {
                    Some((Scalar::Int32(v as i32), next))
                } else if tag == 4 {
                    Some((Scalar::Int64(v), next))
                } else if tag == 8 {
                    Some((Scalar::Timestamp(v), next))
                } else {
                    None
                }
            },
            None => None,
        }
    } else if tag == 5 || tag == 6 {
        match read_u64(bytes, body) {
            Some((v, next)) => {
                if tag == 5 && v <= 0xffff_ffff {
                    Some((Scalar::Float32(v as u32), next))
                } else if tag == 6 {
                    Some((Scalar::Float64(v), next))
                } else {
                    None
                }
            },
            None => None,
        }
    } else if tag == 7 {
        if body < bytes.len() && bytes[body] <= 1 {
            proof {
                assert(bytes@.skip(body as int)[0] == bytes@[body as int]);
                assert(bytes@.skip(body as int).skip(1) =~= bytes@.skip(body + 1));
            }
            Some((Scalar::Boolean(bytes[body] == 1), body + 1))
        } else {
            proof {
                if body < bytes@.len() {
                    assert(bytes@.skip(body as int)[0] == bytes@[body as int]);
                }
            }
            None
        }
    } else if tag == 9 {
        match read_bytes(bytes, body) {
            Some((raw, next)) => match string_from_utf8(raw) {
                Some(text) => Some((Scalar::String(text), next)),
                None => None,
            },
            None => None,
        }
    } else {
        None
    }
}

pub fn read_scalars(bytes: &[u8], pos: usize) -> (got: Option<(Vec<Scalar>, usize)>)
    requires
        pos <= bytes@.len(),
    ensures
        match got {
            Some((scalars, next)) => reads(
                bytes@,
                pos,
                parse_scalars(bytes@.skip(pos as int)),
                Some((scalar_values(scalars@), next)),
            ),
            None => parse_scalars(bytes@.skip(pos as int)) is None,
        },
{
    let ghost parse = |b: Seq<u8>| parse_scalar(b);
    let (count, start) = match read_u64(bytes, pos) {
        Some(found) => found,
        None => { return None; },
    };
    let ghost body = bytes@.skip(start as int);
    let mut scalars: Vec<Scalar> = Vec::new();
    let mut at: usize = start;
    let mut i: u64 = 0;
    while i < count
        invariant
            i <= count,
            start <= at <= bytes@.len(),
            body == bytes@.skip(start as int),
            parse_u64(bytes@.skip(pos as int)) == Some((count, body)),
            parse == (|b: Seq<u8>| parse_scalar(b)),
            parse_seq(body, i as nat, parse) == Some(
                (scalar_values(scalars@), bytes@.skip(at as int)),
            ),
        decreases count - i,
    {
        match read_scalar(bytes, at) {
            Some((scalar, next)) => {
                let ghost before = scalar_values(scalars@);
                scalars.push(scalar);
                assert(scalar_values(scalars@) =~= before.push(scalar@));
                at = next;
            },
            None => {
                proof {
                    lemma_parse_seq_stops(body, i as nat, count as nat, parse);
                }
                return None;
            },
        }
        i += 1;
    }
    Some((scalars, at))
}

pub fn read_blobs(bytes: &[u8], pos: usize) -> (got: Option<(Vec<Vec<u8>>, usize)>)
    requires
        pos <= bytes@.len(),
    ensures
        match got {
            Some((blobs, next)) => reads(
                bytes@,
                pos,
                parse_blobs(bytes@.skip(pos as int)),
                Some((blob_views(blobs@), next)),
            ),
            None => parse_blobs(bytes@.skip(pos as int)) is None,
        },
{
    let ghost parse = |b: Seq<u8>| parse_bytes(b);
    let (count, start) = match read_u64(bytes, pos) {
        Some(found) => found,
        None => { return None; },
    };
    let ghost body = bytes@.skip(start as int);
    let mut blobs: Vec<Vec<u8>> = Vec::new();
    let mut at: usize = start;
    let mut i: u64 = 0;
    while i < count
        invariant
            i <= count,
            start <= at <= bytes@.len(),
            body == bytes@.skip(start as int),
            parse_u64(bytes@.skip(pos as int)) == Some((count, body)),
            parse == (|b: Seq<u8>| parse_bytes(b)),
            parse_seq(body, i as nat, parse) == Some((blob_views(blobs@), bytes@.skip(at as int))),
        decreases count - i,
    {
        match read_bytes(bytes, at) {
            Some((blob, next)) => {
                let ghost before = blob_views(blobs@);
                blobs.push(blob);
                assert(blob_views(blobs@) =~= before.push(blob@));
                at = next;
            },
            None => {
                proof {
                    lemma_parse_seq_stops(body, i as nat, count as nat, parse);
                }
                return None;
            },
        }
        i += 1;
    }
    Some((blobs, at))
}

/// An encoding that is cut short is no encoding of an integer.
pub proof fn lemma_u64_cut(v: u64, n: int)
    requires
        0 <= n < 8,
    ensures
        enc_u64(v).len() == 8,
        parse_u64(enc_u64(v).take(n)) is None,
{
    lemma_u64_round_trip(v, Seq::empty());
}

/// An encoding that is cut short is no encoding of a byte string.
pub proof fn lemma_bytes_cut(data: Seq<u8>, n: int)
    requires
        data.len() <= max_len(),
        0 <= n < enc_bytes(data).len(),
    ensures
        parse_bytes(enc_bytes(data).take(n)) is None,
{
    let len = data.len() as u64;
    lemma_u64_round_trip(len, Seq::empty());
    if n < 8 {
        lemma_u64_cut(len, n);
        assert(enc_bytes(data).take(n) =~= enc_u64(len).take(n));
    } else {
        let rest = data.take(n - 8);
        lemma_u64_round_trip(len, rest);
        assert(enc_bytes(data).take(n) =~= enc_u64(len) + rest);
    }
}

/// An encoding that is cut short is no encoding of a scalar.
pub proof fn lemma_scalar_cut(value: ScalarValue, n: int)
    requires
        scalar_fits(value),
        0 <= n < enc_scalar(value).len(),
    ensures
        parse_scalar(enc_scalar(value).take(n)) is None,
{
    let cut = enc_scalar(value).take(n);
    if n > 0 {
        assert(cut[0] == enc_scalar(value)[0]);
        match value {
            ScalarValue::Null => {},
            ScalarValue::Int8(v) => {
                lemma_u64_round_trip(i64_bits(v as i64), Seq::empty());
                lemma_u64_cut(i64_bits(v as i64), n - 1);
                assert(cut.skip(1) =~= enc_i64(v as i64).take(n - 1));
            },
            ScalarValue::Int16(v) => {
                lemma_u64_round_trip(i64_bits(v as i64), Seq::empty());
                lemma_u64_cut(i64_bits(v as i64), n - 1);
                assert(cut.skip(1) =~= enc_i64(v as i64).take(n - 1));
            },
            ScalarValue::Int32(v) => {
                lemma_u64_round_trip(i64_bits(v as i64), Seq::empty());
                lemma_u64_cut(i64_bits(v as i64), n - 1);
                assert(cut.skip(1) =~= enc_i64(v as i64).take(n - 1));
            },
            ScalarValue::Int64(v) => {
                lemma_u64_round_trip(i64_bits(v), Seq::empty());
                lemma_u64_cut(i64_bits(v), n - 1);
                assert(cut.skip(1) =~= enc_i64(v).take(n - 1));
            },
            ScalarValue::Float32(v) => {
                lemma_u64_round_trip(v as u64, Seq::empty());
                lemma_u64_cut(v as u64, n - 1);
                assert(cut.skip(1) =~= enc_u64(v as u64).take(n - 1));
            },
            ScalarValue::Float64(v) => {
                lemma_u64_round_trip(v, Seq::empty());
                lemma_u64_cut(v, n - 1);
                assert(cut.skip(1) =~= enc_u64(v).take(n - 1));
            },
            ScalarValue::Boolean(v) => {
                assert(cut.skip(1).len() == 0);
            },
            ScalarValue::Timestamp(v) => {
                lemma_u64_round_trip(i64_bits(v), Seq::empty());
                lemma_u64_cut(i64_bits(v), n - 1);
                assert(cut.skip(1) =~= enc_i64(v).take(n - 1));
            },
            ScalarValue::String(text) => {
                lemma_bytes_cut(encode_utf8(text), n - 1);
                assert(cut.skip(1) =~= enc_bytes(encode_utf8(text)).take(n - 1));
            },
        }
    }
}

/// The encodings of a sequence's items, cut short, are no encodings of as
/// many items, where that holds of each item.
pub proof fn lemma_seq_cut<T>(
    items: Seq<T>,
    enc: spec_fn(T) -> Seq<u8>,
    parse: spec_fn(Seq<u8>) -> Option<(T, Seq<u8>)>,
    n: int,
)
    requires
        forall|i: int, after: Seq<u8>|
            0 <= i < items.len() ==> #[trigger] parse(enc(items[i]) + after) == Some(
                (items[i], after),
            ),
        forall|i: int, m: int|
            0 <= i < items.len() && 0 <= m < enc(items[i]).len() ==> (#[trigger] parse(
                enc(items[i]).take(m),
            )) is None,
        0 <= n < enc_seq(items, enc).len(),
    ensures
        parse_seq(enc_seq(items, enc).take(n), items.len(), parse) is None,
    decreases items.len(),
{
    if items.len() > 0 {
        let front = items.drop_last();
        let last = items.last();
        let whole = enc_seq(front, enc);
        assert forall|i: int, after: Seq<u8>| 0 <= i < front.len() implies #[trigger] parse(
            enc(front[i]) + after,
        ) == Some((front[i], after)) by {
            assert(front[i] == items[i]);
        }
        if n < whole.len() {
            assert forall|i: int, m: int|
                0 <= i < front.len() && 0 <= m < enc(front[i]).len() implies (#[trigger] parse(
                enc(front[i]).take(m),
            )) is None by {
                assert(front[i] == items[i]);
            }
            lemma_seq_cut(front, enc, parse, n);
            assert(enc_seq(items, enc).take(n) =~= whole.take(n));
        } else {
            let m = n - whole.len();
            let rest = enc(last).take(m);
            lemma_seq_round_trip(front, enc, parse, rest);
            assert(enc_seq(items, enc).take(n) =~= whole + rest);
            assert(last == items[items.len() - 1]);
            assert(parse(enc(items[items.len() - 1]).take(m)) is None);
        }
    }
}

/// The encoding of a sequence, cut short, is no encoding of a sequence,
/// where that holds of each item.
pub proof fn lemma_list_cut<T>(
    items: Seq<T>,
    enc: spec_fn(T) -> Seq<u8>,
    parse: spec_fn(Seq<u8>) -> Option<(T, Seq<u8>)>,
    n: int,
)
    requires
        items.len() <= max_len(),
        forall|i: int, after: Seq<u8>|
            0 <= i < items.len() ==> #[trigger] parse(enc(items[i]) + after) == Some(
                (items[i], after),
            ),
        forall|i: int, m: int|
            0 <= i < items.len() && 0 <= m < enc(items[i]).len() ==> (#[trigger] parse(
                enc(items[i]).take(m),
            )) is None,
        0 <= n < enc_list(items, enc).len(),
    ensures
        parse_list(enc_list(items, enc).take(n), parse) is None,
{
    let count = items.len() as u64;
    lemma_u64_round_trip(count, Seq::empty());
    if n < 8 {
        lemma_u64_cut(count, n);
        assert(enc_list(items, enc).take(n) =~= enc_u64(count).take(n));
    } else {
        let rest = enc_seq(items, enc).take(n - 8);
        lemma_u64_round_trip(count, rest);
        assert(enc_list(items, enc).take(n) =~= enc_u64(count) + rest);
        lemma_seq_cut(items, enc, parse, n - 8);
    }
}

pub proof fn lemma_scalars_cut(values: Seq<ScalarValue>, n: int)
    requires
        scalars_fit(values),
        0 <= n < enc_scalars(values).len(),
    ensures
        parse_scalars(enc_scalars(values).take(n)) is None,
{
    let enc = |v: ScalarValue| enc_scalar(v);
    let parse = |b: Seq<u8>| parse_scalar(b);
    assert forall|i: int, after: Seq<u8>| 0 <= i < values.len() implies #[trigger] parse(
        enc(values[i]) + after,
    ) == Some((values[i], after)) by {
        lemma_scalar_round_trip(values[i], after);
    }
    assert forall|i: int, m: int|
        0 <= i < values.len() && 0 <= m < enc(values[i]).len() implies (#[trigger] parse(
        enc(values[i]).take(m),
    )) is None by {
        lemma_scalar_cut(values[i], m);
    }
    lemma_list_cut(values, enc, parse, n);
}

pub proof fn lemma_blobs_cut(blobs: Seq<Seq<u8>>, n: int)
    requires
        blobs_fit(blobs),
        0 <= n < enc_blobs(blobs).len(),
    ensures
        parse_blobs(enc_blobs(blobs).take(n)) is None,
{
    let enc = |b: Seq<u8>| enc_bytes(b);
    let parse = |b: Seq<u8>| parse_bytes(b);
    assert forall|i: int, after: Seq<u8>| 0 <= i < blobs.len() implies #[trigger] parse(
        enc(blobs[i]) + after,
    ) == Some((blobs[i], after)) by {
        lemma_bytes_round_trip(blobs[i], after);
    }
    assert forall|i: int, m: int|
        0 <= i < blobs.len() && 0 <= m < enc(blobs[i]).len() implies (#[trigger] parse(
        enc(blobs[i]).take(m),
    )) is None by {
        lemma_bytes_cut(blobs[i], m);
    }
    lemma_list_cut(blobs, enc, parse, n);
}

} // verus!
