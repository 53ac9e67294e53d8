//! The wire form of the schema's messages: each message is a run of
//! tagged fields; a field is a varint, a 64-bit little-endian word, or a
//! length-prefixed byte string. Encoding is canonical (fields in tag
//! order, default values omitted, every set field of a union written);
//! decoding accepts any field order and is proved to invert encoding.

use vstd::prelude::*;
use vstd::utf8::{decode_utf8, encode_utf8, valid_utf8};

use crate::pb::ValueV;
use crate::varint::{lemma_varint_roundtrip, spec_varint, spec_varint_dec, varint_dec, varint_enc};

verus! {

/// Wire tags of a value's union: each kind has its own field.
pub const TAG_VALUE_STR: u64 = 10;

pub const TAG_VALUE_BIN: u64 = 18;

pub const TAG_VALUE_INT: u64 = 24;

pub const TAG_VALUE_FLOAT: u64 = 33;

pub const TAG_VALUE_BOOL: u64 = 40;

/// A length-prefixed field: its tag, the payload's length, the payload.
pub open spec fn spec_ld(tag: u64, payload: Seq<u8>) -> Seq<u8> {
    spec_varint(tag) + spec_varint(payload.len() as u64) + payload
}

/// Reads a length-prefixed payload (without its tag) from the front of
/// `b`: the payload and how many bytes it took.
pub open spec fn spec_dec_bytes(b: Seq<u8>) -> Option<(Seq<u8>, int)> {
    match spec_varint_dec(b) {
        Some((len, k)) => if 1 <= k <= b.len() && len <= b.len() - k {
            Some((b.subrange(k, k + len), k + len))
        } else {
            None
        },
        None => None,
    }
}

/// Reading a length-prefixed payload back, whatever follows it.
pub proof fn lemma_dec_bytes_roundtrip(payload: Seq<u8>, rest: Seq<u8>)
    requires
        payload.len() <= u64::MAX,
    ensures
        spec_dec_bytes(spec_varint(payload.len() as u64) + payload + rest) == Some(
            (payload, spec_varint(payload.len() as u64).len() + payload.len() as int),
        ),
{
    let lenb = spec_varint(payload.len() as u64);
    let whole = lenb + payload + rest;
    lemma_varint_roundtrip(payload.len() as u64, payload + rest);
    assert(whole =~= lenb + (payload + rest));
    let k = lenb.len() as int;
    assert(whole.subrange(k, k + payload.len()) =~= payload);
}

/// A 64-bit word as `count` little-endian bytes.
pub open spec fn spec_le(n: u64, count: nat) -> Seq<u8>
    decreases count,
{
    if count == 0 {
        Seq::<u8>::empty()
    } else {
        seq![(n % 256) as u8] + spec_le(n / 256, (count - 1) as nat)
    }
}

/// The value little-endian bytes denote.
pub open spec fn spec_le_val(b: Seq<u8>) -> int
    decreases b.len(),
{
    if b.len() == 0 {
        0
    } else {
        b[0] + 256 * spec_le_val(b.drop_first())
    }
}

/// 256 to the `count`.
pub open spec fn spec_pow256(count: nat) -> int
    decreases count,
{
    if count == 0 {
        1
    } else {
        256 * spec_pow256((count - 1) as nat)
    }
}

/// Little-endian bytes read back the word they were written from.
pub proof fn lemma_le_roundtrip(n: u64, count: nat)
    requires
        n < spec_pow256(count),
    ensures
        spec_le(n, count).len() == count,
        spec_le_val(spec_le(n, count)) == n,
    decreases count,
{
    if count > 0 {
        assert((n / 256) < spec_pow256((count - 1) as nat)) by (nonlinear_arith)
            requires
                n < 256 * spec_pow256((count - 1) as nat),
                spec_pow256((count - 1) as nat) >= 0,
        {}
        lemma_le_roundtrip(n / 256, (count - 1) as nat);
        assert(spec_le(n, count).drop_first() =~= spec_le(n / 256, (count - 1) as nat));
        assert(n == 256 * (n / 256) + n % 256) by {
            vstd::arithmetic::div_mod::lemma_fundamental_div_mod(n as int, 256);
        }
    }
}

/// Every u64 fits eight little-endian bytes.
pub proof fn lemma_le8_roundtrip(n: u64)
    ensures
        spec_le(n, 8).len() == 8,
        spec_le_val(spec_le(n, 8)) == n,
{
    assert(spec_pow256(8) == 0x1_0000_0000_0000_0000) by {
        reveal_with_fuel(spec_pow256, 9);
    }
    lemma_le_roundtrip(n, 8);
}

/// What little-endian bytes denote stays below 256 to their count.
pub proof fn lemma_le_val_bound(b: Seq<u8>)
    ensures
        0 <= spec_le_val(b) < spec_pow256(b.len()),
    decreases b.len(),
{
    if b.len() == 0 {
    } else {
        lemma_le_val_bound(b.drop_first());
        assert(spec_le_val(b) < spec_pow256(b.len())) by (nonlinear_arith)
            requires
                spec_le_val(b) == b[0] + 256 * spec_le_val(b.drop_first()),
                b[0] < 256,
                0 <= spec_le_val(b.drop_first()) < spec_pow256((b.len() - 1) as nat),
                spec_pow256(b.len() as nat) == 256 * spec_pow256((b.len() - 1) as nat),
        {}
    }
}

/// Appends `count` little-endian bytes of `n`.
pub fn le_enc(n: u64, count: usize, out: &mut Vec<u8>)
    ensures
        final(out)@ == old(out)@ + spec_le(n, count as nat),
    decreases count,
{
    if count == 0 {
        proof {
            assert(out@ =~= old(out)@ + spec_le(n, 0));
        }
    } else {
        out.push((n % 256) as u8);
        le_enc(n / 256, count - 1, out);
        proof {
            assert(out@ =~= old(out)@ + spec_le(n, count as nat));
        }
    }
}

/// Reads the u64 eight little-endian bytes denote.
pub fn le8_dec(b: &[u8], pos: usize) -> (r: u64)
    requires
        pos + 8 <= b@.len(),
    ensures
        r == spec_le_val(b@.subrange(pos as int, pos + 8)),
{
    let total = b.len();
    let b0 = *vstd::slice::slice_index_get(b, pos) as u64;
    let b1 = *vstd::slice::slice_index_get(b, pos + 1) as u64;
    let b2 = *vstd::slice::slice_index_get(b, pos + 2) as u64;
    let b3 = *vstd::slice::slice_index_get(b, pos + 3) as u64;
    let b4 = *vstd::slice::slice_index_get(b, pos + 4) as u64;
    let b5 = *vstd::slice::slice_index_get(b, pos + 5) as u64;
    let b6 = *vstd::slice::slice_index_get(b, pos + 6) as u64;
    let b7 = *vstd::slice::slice_index_get(b, pos + 7) as u64;
    let r = b0 + 256 * (b1 + 256 * (b2 + 256 * (b3 + 256 * (b4 + 256 * (b5 + 256 * (b6 + 256
        * b7))))));
    proof {
        reveal_with_fuel(spec_le_val, 9);
        let s = b@.subrange(pos as int, pos + 8);
        assert(s.drop_first() =~= b@.subrange(pos + 1, pos + 8));
        let s1 = b@.subrange(pos + 1, pos + 8);
        assert(s1.drop_first() =~= b@.subrange(pos + 2, pos + 8));
        let s2 = b@.subrange(pos + 2, pos + 8);
        assert(s2.drop_first() =~= b@.subrange(pos + 3, pos + 8));
        let s3 = b@.subrange(pos + 3, pos + 8);
        assert(s3.drop_first() =~= b@.subrange(pos + 4, pos + 8));
        let s4 = b@.subrange(pos + 4, pos + 8);
        assert(s4.drop_first() =~= b@.subrange(pos + 5, pos + 8));
        let s5 = b@.subrange(pos + 5, pos + 8);
        assert(s5.drop_first() =~= b@.subrange(pos + 6, pos + 8));
        let s6 = b@.subrange(pos + 6, pos + 8);
        assert(s6.drop_first() =~= b@.subrange(pos + 7, pos + 8));
        let s7 = b@.subrange(pos + 7, pos + 8);
        assert(s7.drop_first() =~= Seq::<u8>::empty());
        assert(spec_le_val(s7.drop_first()) == 0);
    }
    r
}

/// A signed 64-bit integer as its unsigned two's-complement word.
pub open spec fn spec_i64_to_u64(i: i64) -> u64 {
    if i >= 0 {
        i as u64
    } else {
        (i + 0x1_0000_0000_0000_0000) as u64
    }
}

/// The signed reading of an unsigned 64-bit word.
pub open spec fn spec_u64_to_i64(v: u64) -> i64 {
    if v < 0x8000_0000_0000_0000 {
        v as i64
    } else {
        (v - 0x1_0000_0000_0000_0000) as i64
    }
}

/// The low 32 bits of a word, as the status field is read.
pub open spec fn spec_u64_to_u32(v: u64) -> u32 {
    (v % 0x1_0000_0000) as u32
}

/// Relies on String::from_utf8: it accepts exactly the valid UTF-8 byte
/// strings, and the accepted string's bytes are the input.
#[verifier::external_body]
pub(crate) fn bytes_to_string(v: Vec<u8>) -> (r: Option<String>)
    ensures
        r is Some <==> valid_utf8(v@),
        r matches Some(s) ==> encode_utf8(s@) == v@,
{
    String::from_utf8(v).ok()
}

/// The UTF-8 bytes of a string, as a vector.
pub(crate) fn string_bytes(s: &str) -> (r: Vec<u8>)
    ensures
        r@ == encode_utf8(s@),
{
    vstd::string::StrSliceExecFns::as_bytes_vec(s)
}

/// The wire form of a value: nothing for null, else the field of the
/// set kind.
pub open spec fn spec_enc_value(v: ValueV) -> Seq<u8> {
    match v {
        ValueV::Null => Seq::<u8>::empty(),
        ValueV::Str(s) => spec_ld(TAG_VALUE_STR, encode_utf8(s)),
        ValueV::Bin(b) => spec_ld(TAG_VALUE_BIN, b),
        ValueV::Int(i) => spec_varint(TAG_VALUE_INT) + spec_varint(spec_i64_to_u64(i)),
        ValueV::FloatBits(f) => spec_varint(TAG_VALUE_FLOAT) + spec_le(f, 8),
        ValueV::Bool(flag) => spec_varint(TAG_VALUE_BOOL) + spec_varint(
            if flag {
                1u64
            } else {
                0u64
            },
        ),
    }
}

/// Reads a value's fields; a later field of the union overrides an
/// earlier one, and an empty run of fields is the null value.
pub open spec fn spec_dec_value_fields(b: Seq<u8>, acc: ValueV) -> Option<ValueV>
    decreases b.len(),
{
    if b.len() == 0 {
        Some(acc)
    } else {
        match spec_varint_dec(b) {
            None => None,
            Some((tag, k)) => if !(1 <= k <= b.len()) {
                None
            } else {
                let rest = b.skip(k);
                if tag == TAG_VALUE_STR || tag == TAG_VALUE_BIN {
                    match spec_dec_bytes(rest) {
                        None => None,
                        Some((payload, k2)) => if !(1 <= k2 <= rest.len()) {
                            None
                        } else if tag == TAG_VALUE_STR {
                            if valid_utf8(payload) {
                                spec_dec_value_fields(
                                    rest.skip(k2),
                                    ValueV::Str(decode_utf8(payload)),
                                )
                            } else {
                                None
                            }
                        } else {
                            spec_dec_value_fields(rest.skip(k2), ValueV::Bin(payload))
                        },
                    }
                } else if tag == TAG_VALUE_INT || tag == TAG_VALUE_BOOL {
                    match spec_varint_dec(rest) {
                        None => None,
                        Some((v, k2)) => if !(1 <= k2 <= rest.len()) {
                            None
                        } else {
                            spec_dec_value_fields(
                                rest.skip(k2),
                                if tag == TAG_VALUE_INT {
                                    ValueV::Int(spec_u64_to_i64(v))
                                } else {
                                    ValueV::Bool(v != 0)
                                },
                            )
                        },
                    }
                } else if tag == TAG_VALUE_FLOAT {
                    if rest.len() >= 8 {
                        spec_dec_value_fields(
                            rest.skip(8),
                            ValueV::FloatBits(spec_le_val(rest.take(8)) as u64),
                        )
                    } else {
                        None
                    }
                } else {
                    None
                }
            },
        }
    }
}

/// Reads a whole value message.
pub open spec fn spec_dec_value(b: Seq<u8>) -> Option<ValueV> {
    spec_dec_value_fields(b, ValueV::Null)
}

/// Whether a value is small enough for its byte strings to carry a
/// length prefix (a machine limit no value built in memory exceeds).
pub open spec fn value_fits(v: ValueV) -> bool {
    match v {
        ValueV::Str(s) => encode_utf8(s).len() <= u64::MAX,
        ValueV::Bin(b) => b.len() <= u64::MAX,
        _ => true,
    }
}

/// Decoding a value reads back exactly the value encoded.
#[verifier::rlimit(60)]
pub proof fn lemma_value_roundtrip(v: ValueV)
    requires
        value_fits(v),
    ensures
        spec_dec_value(spec_enc_value(v)) == Some(v),
{
    broadcast use vstd::utf8::encode_utf8_valid_utf8;
    broadcast use vstd::utf8::encode_utf8_decode_utf8;

    reveal_with_fuel(spec_dec_value_fields, 3);
    let e = spec_enc_value(v);
    match v {
        ValueV::Null => {
        },
        ValueV::Str(s) => {
            let payload = encode_utf8(s);
            let lenb = spec_varint(payload.len() as u64);
            lemma_varint_roundtrip(TAG_VALUE_STR, lenb + payload);
            assert(e =~= spec_varint(TAG_VALUE_STR) + (lenb + payload));
            let k = spec_varint(TAG_VALUE_STR).len() as int;
            assert(e.skip(k) =~= lenb + payload);
            assert(lenb + payload =~= lenb + payload + Seq::<u8>::empty());
            lemma_dec_bytes_roundtrip(payload, Seq::<u8>::empty());
            let k2 = lenb.len() + payload.len() as int;
            assert(e.skip(k).skip(k2) =~= Seq::<u8>::empty());
        },
        ValueV::Bin(payload) => {
            let lenb = spec_varint(payload.len() as u64);
            lemma_varint_roundtrip(TAG_VALUE_BIN, lenb + payload);
            assert(e =~= spec_varint(TAG_VALUE_BIN) + (lenb + payload));
            let k = spec_varint(TAG_VALUE_BIN).len() as int;
            assert(e.skip(k) =~= lenb + payload);
            assert(lenb + payload =~= lenb + payload + Seq::<u8>::empty());
            lemma_dec_bytes_roundtrip(payload, Seq::<u8>::empty());
            let k2 = lenb.len() + payload.len() as int;
            assert(e.skip(k).skip(k2) =~= Seq::<u8>::empty());
        },
        ValueV::Int(i) => {
            let body = spec_varint(spec_i64_to_u64(i));
            lemma_varint_roundtrip(TAG_VALUE_INT, body);
            let k = spec_varint(TAG_VALUE_INT).len() as int;
            assert(e.skip(k) =~= body);
            assert(body =~= body + Seq::<u8>::empty());
            lemma_varint_roundtrip(spec_i64_to_u64(i), Seq::<u8>::empty());
            assert(e.skip(k).skip(body.len() as int) =~= Seq::<u8>::empty());
        },
        ValueV::FloatBits(f) => {
            lemma_le8_roundtrip(f);
            let body = spec_le(f, 8);
            lemma_varint_roundtrip(TAG_VALUE_FLOAT, body);
            let k = spec_varint(TAG_VALUE_FLOAT).len() as int;
            assert(e.skip(k) =~= body);
            assert(e.skip(k).take(8) =~= body);
            assert(e.skip(k).skip(8) =~= Seq::<u8>::empty());
        },
        ValueV::Bool(flag) => {
            let n: u64 = if flag {
                1
            } else {
                0
            };
            let body = spec_varint(n);
            lemma_varint_roundtrip(TAG_VALUE_BOOL, body);
            let k = spec_varint(TAG_VALUE_BOOL).len() as int;
            assert(e.skip(k) =~= body);
            assert(body =~= body + Seq::<u8>::empty());
            lemma_varint_roundtrip(n, Seq::<u8>::empty());
            assert(e.skip(k).skip(body.len() as int) =~= Seq::<u8>::empty());
        },
    }
}

/// Appends the wire form of a value.
pub fn enc_value(v: &crate::pb::Value, out: &mut Vec<u8>)
    ensures
        final(out)@ == old(out)@ + spec_enc_value(v@),
{
    match v {
        crate::pb::Value::Null => {
            proof {
                assert(out@ =~= old(out)@ + spec_enc_value(v@));
            }
        },
        crate::pb::Value::Str(s) => {
            varint_enc(TAG_VALUE_STR, out);
            let mut payload = string_bytes(s.as_str());
            varint_enc(payload.len() as u64, out);
            out.append(&mut payload);
            proof {
                assert(out@ =~= old(out)@ + spec_enc_value(v@));
            }
        },
        crate::pb::Value::Bin(b) => {
            varint_enc(TAG_VALUE_BIN, out);
            let mut payload = crate::pb::clone_bytes(b);
            varint_enc(payload.len() as u64, out);
            out.append(&mut payload);
            proof {
                assert(out@ =~= old(out)@ + spec_enc_value(v@));
            }
        },
        crate::pb::Value::Int(i) => {
            varint_enc(TAG_VALUE_INT, out);
            varint_enc(i64_bits(*i), out);
            proof {
                assert(out@ =~= old(out)@ + spec_enc_value(v@));
            }
        },
        crate::pb::Value::FloatBits(f) => {
            varint_enc(TAG_VALUE_FLOAT, out);
            le_enc(*f, 8, out);
            proof {
                assert(out@ =~= old(out)@ + spec_enc_value(v@));
            }
        },
        crate::pb::Value::Bool(flag) => {
            varint_enc(TAG_VALUE_BOOL, out);
            varint_enc(
                if *flag {
                    1
                } else {
                    0
                },
                out,
            );
            proof {
                assert(out@ =~= old(out)@ + spec_enc_value(v@));
            }
        },
    }
}

/// The unsigned two's-complement word of a signed integer.
fn i64_bits(i: i64) -> (r: u64)
    ensures
        r == spec_i64_to_u64(i),
{
    if i >= 0 {
        i as u64
    } else {
        let mag = (-(i + 1)) as u64;
        u64::MAX - mag
    }
}

/// The signed reading of an unsigned word.
fn u64_signed(v: u64) -> (r: i64)
    ensures
        r == spec_u64_to_i64(v),
{
    if v <= i64::MAX as u64 {
        v as i64
    } else {
        -((u64::MAX - v) as i64) - 1
    }
}

/// Reads a length-prefixed payload at `pos` (after its tag).
pub(crate) fn dec_bytes(b: &[u8], pos: usize) -> (r: Option<(Vec<u8>, usize)>)
    requires
        pos <= b@.len(),
    ensures
        match (r, spec_dec_bytes(b@.skip(pos as int))) {
            (Some((p, c)), Some((sp, sc))) => p@ == sp && c == sc && pos + c <= b@.len() && c
                >= 1,
            (None, None) => true,
            _ => false,
        },
{
    let total = b.len();
    match varint_dec(b, pos) {
        None => None,
        Some((len64, k)) => {
            let remaining = total - (pos + k);
            if len64 <= remaining as u64 {
                let l = len64 as usize;
                let s = vstd::slice::slice_subrange(b, pos + k, pos + k + l);
                let payload = vstd::slice::slice_to_vec(s);
                proof {
                    let tail = b@.skip(pos as int);
                    assert(tail.subrange(k as int, k + l) =~= b@.subrange(
                        pos + k,
                        pos + k + l,
                    ));
                }
                Some((payload, k + l))
            } else {
                None
            }
        },
    }
}

/// Reads a value message, given exactly its bytes.
pub fn dec_value(b: &[u8]) -> (r: Option<crate::pb::Value>)
    ensures
        match (r, spec_dec_value(b@)) {
            (Some(v), Some(sv)) => v@ == sv,
            (None, None) => true,
            _ => false,
        },
{
    proof {
        assert(b@.skip(0) =~= b@);
    }
    dec_value_fields(b, 0, crate::pb::Value::Null)
}

/// Reads a value's fields from `pos` on, folding them into `acc`.
fn dec_value_fields(b: &[u8], pos: usize, acc: crate::pb::Value) -> (r: Option<
    crate::pb::Value,
>)
    requires
        pos <= b@.len(),
    ensures
        match (r, spec_dec_value_fields(b@.skip(pos as int), acc@)) {
            (Some(v), Some(sv)) => v@ == sv,
            (None, None) => true,
            _ => false,
        },
    decreases b@.len() - pos,
{
    let total = b.len();
    let ghost tail = b@.skip(pos as int);
    if pos == total {
        return Some(acc);
    }
    match varint_dec(b, pos) {
        None => None,
        Some((tag, k)) => {
            proof {
                assert(tail.skip(k as int) =~= b@.skip(pos + k));
            }
            if tag == TAG_VALUE_STR || tag == TAG_VALUE_BIN {
                match dec_bytes(b, pos + k) {
                    None => None,
                    Some((payload, k2)) => {
                        proof {
                            assert(tail.skip(k as int).skip(k2 as int) =~= b@.skip(
                                pos + k + k2,
                            ));
                        }
                        if tag == TAG_VALUE_STR {
                            match bytes_to_string(payload) {
                                Some(s) => {
                                    proof {
                                        broadcast use vstd::utf8::encode_utf8_valid_utf8;

                                        vstd::utf8::decode_utf8_encode_utf8(
                                            encode_utf8(s@),
                                        );
                                        vstd::utf8::encode_utf8_decode_utf8(s@);
                                    }
                                    dec_value_fields(b, pos + k + k2, crate::pb::Value::Str(s))
                                },
                                None => None,
                            }
                        } else {
                            dec_value_fields(b, pos + k + k2, crate::pb::Value::Bin(payload))
                        }
                    },
                }
            } else if tag == TAG_VALUE_INT || tag == TAG_VALUE_BOOL {
                match varint_dec(b, pos + k) {
                    None => None,
                    Some((v, k2)) => {
                        proof {
                            assert(tail.skip(k as int).skip(k2 as int) =~= b@.skip(
                                pos + k + k2,
                            ));
                        }
                        if tag == TAG_VALUE_INT {
                            dec_value_fields(
                                b,
                                pos + k + k2,
                                crate::pb::Value::Int(u64_signed(v)),
                            )
                        } else {
                            dec_value_fields(b, pos + k + k2, crate::pb::Value::Bool(v != 0))
                        }
                    },
                }
            } else if tag == TAG_VALUE_FLOAT {
                if total - (pos + k) >= 8 {
                    let f = le8_dec(b, pos + k);
                    proof {
                        lemma_le_val_bound(b@.subrange(pos + k, pos + k + 8));
                        assert(tail.skip(k as int).take(8) =~= b@.subrange(pos + k, pos + k + 8));
                        assert(tail.skip(k as int).skip(8) =~= b@.skip(pos + k + 8));
                    }
                    dec_value_fields(b, pos + k + 8, crate::pb::Value::FloatBits(f))
                } else {
                    None
                }
            } else {
                None
            }
        },
    }
}

} // verus!
