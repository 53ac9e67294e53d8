//! The wire form of pairs and of responses.

use vstd::prelude::*;
use vstd::utf8::{decode_utf8, encode_utf8, valid_utf8};

use crate::pb::{
    CommandResponse, CommandResponseV, Kvpair, KvpairV, Value, ValueV, pairs_view, values_view,
};
use crate::varint::{lemma_varint_roundtrip, spec_varint, spec_varint_dec, varint_dec, varint_enc};
use crate::wire::{
    bytes_to_string, dec_bytes, dec_value, enc_value, lemma_dec_bytes_roundtrip,
    lemma_value_roundtrip, spec_dec_bytes, spec_dec_value, spec_enc_value, spec_ld,
    spec_u64_to_u32, string_bytes, value_fits,
};

verus! {

/// A string field: omitted when the string is empty.
pub open spec fn spec_str_field(tag: u64, s: Seq<char>) -> Seq<u8> {
    if s.len() == 0 {
        Seq::<u8>::empty()
    } else {
        spec_ld(tag, encode_utf8(s))
    }
}

/// An unsigned 32-bit field: omitted when zero.
pub open spec fn spec_u32_field(tag: u64, v: u32) -> Seq<u8> {
    if v == 0 {
        Seq::<u8>::empty()
    } else {
        spec_varint(tag) + spec_varint(v as u64)
    }
}

/// Wire tags of a pair's fields.
pub const TAG_PAIR_KEY: u64 = 10;

pub const TAG_PAIR_VALUE: u64 = 18;

/// The wire form of a pair: its key if nonempty, its value if not null.
pub open spec fn spec_enc_kvpair(p: KvpairV) -> Seq<u8> {
    spec_str_field(TAG_PAIR_KEY, p.key) + (if p.value is Null {
        Seq::<u8>::empty()
    } else {
        spec_ld(TAG_PAIR_VALUE, spec_enc_value(p.value))
    })
}

/// Reads a pair's fields; an omitted key is empty, an omitted value is
/// null.
pub open spec fn spec_dec_kvpair_fields(b: Seq<u8>, acc: KvpairV) -> Option<KvpairV>
    decreases b.len(),
{
    if b.len() == 0 {
        Some(acc)
    } else {
        match spec_varint_dec(b) {
            None => None,
            Some((tag, k)) => if !(1 <= k <= b.len()) {
                None
            } else {
                let rest = b.skip(k);
                if tag == TAG_PAIR_KEY || tag == TAG_PAIR_VALUE {
                    match spec_dec_bytes(rest) {
                        None => None,
                        Some((payload, k2)) => if !(1 <= k2 <= rest.len()) {
                            None
                        } else if tag == TAG_PAIR_KEY {
                            if valid_utf8(payload) {
                                spec_dec_kvpair_fields(
                                    rest.skip(k2),
                                    KvpairV { key: decode_utf8(payload), ..acc },
                                )
                            } else {
                                None
                            }
                        } else {
                            match spec_dec_value(payload) {
                                Some(v) => spec_dec_kvpair_fields(
                                    rest.skip(k2),
                                    KvpairV { value: v, ..acc },
                                ),
                                None => None,
                            }
                        },
                    }
                } else {
                    None
                }
            },
        }
    }
}

/// Reads a whole pair message.
pub open spec fn spec_dec_kvpair(b: Seq<u8>) -> Option<KvpairV> {
    spec_dec_kvpair_fields(b, KvpairV { key: Seq::<char>::empty(), value: ValueV::Null })
}

/// Whether a pair is small enough to carry length prefixes.
pub open spec fn kvpair_fits(p: KvpairV) -> bool {
    &&& encode_utf8(p.key).len() <= u64::MAX
    &&& value_fits(p.value)
    &&& spec_enc_value(p.value).len() <= u64::MAX
}

/// Reading a string field puts the string in the key and moves on.
proof fn lemma_kvpair_step_key(s: Seq<char>, tail: Seq<u8>, acc: KvpairV)
    requires
        s.len() > 0,
        encode_utf8(s).len() <= u64::MAX,
    ensures
        spec_dec_kvpair_fields(spec_ld(TAG_PAIR_KEY, encode_utf8(s)) + tail, acc)
            == spec_dec_kvpair_fields(tail, KvpairV { key: s, ..acc }),
{
    broadcast use vstd::utf8::encode_utf8_valid_utf8;
    broadcast use vstd::utf8::encode_utf8_decode_utf8;

    let payload = encode_utf8(s);
    let lenb = spec_varint(payload.len() as u64);
    let whole = spec_ld(TAG_PAIR_KEY, payload) + tail;
    lemma_varint_roundtrip(TAG_PAIR_KEY, lenb + payload + tail);
    assert(whole =~= spec_varint(TAG_PAIR_KEY) + (lenb + payload + tail));
    let k = spec_varint(TAG_PAIR_KEY).len() as int;
    assert(whole.skip(k) =~= lenb + payload + tail);
    lemma_dec_bytes_roundtrip(payload, tail);
    let k2 = lenb.len() + payload.len() as int;
    assert(whole.skip(k).skip(k2) =~= tail);
    assert(s.len() > 0 ==> payload.len() > 0) by {
        if payload.len() == 0 {
            assert(decode_utf8(payload).len() == 0);
        }
    }
}

/// Reading a value field puts the value in the pair and moves on.
proof fn lemma_kvpair_step_value(v: ValueV, tail: Seq<u8>, acc: KvpairV)
    requires
        value_fits(v),
        spec_enc_value(v).len() <= u64::MAX,
    ensures
        spec_dec_kvpair_fields(spec_ld(TAG_PAIR_VALUE, spec_enc_value(v)) + tail, acc)
            == spec_dec_kvpair_fields(tail, KvpairV { value: v, ..acc }),
{
    let payload = spec_enc_value(v);
    let lenb = spec_varint(payload.len() as u64);
    let whole = spec_ld(TAG_PAIR_VALUE, payload) + tail;
    lemma_varint_roundtrip(TAG_PAIR_VALUE, lenb + payload + tail);
    assert(whole =~= spec_varint(TAG_PAIR_VALUE) + (lenb + payload + tail));
    let k = spec_varint(TAG_PAIR_VALUE).len() as int;
    assert(whole.skip(k) =~= lenb + payload + tail);
    lemma_dec_bytes_roundtrip(payload, tail);
    let k2 = lenb.len() + payload.len() as int;
    assert(whole.skip(k).skip(k2) =~= tail);
    lemma_value_roundtrip(v);
}

/// Decoding a pair reads back exactly the pair encoded.
pub proof fn lemma_kvpair_roundtrip(p: KvpairV)
    requires
        kvpair_fits(p),
    ensures
        spec_dec_kvpair(spec_enc_kvpair(p)) == Some(p),
{
    let acc0 = KvpairV { key: Seq::<char>::empty(), value: ValueV::Null };
    let keypart = spec_str_field(TAG_PAIR_KEY, p.key);
    let valpart: Seq<u8> = if p.value is Null {
        Seq::<u8>::empty()
    } else {
        spec_ld(TAG_PAIR_VALUE, spec_enc_value(p.value))
    };
    let e = spec_enc_kvpair(p);
    let acc1 = if p.key.len() == 0 {
        acc0
    } else {
        KvpairV { key: p.key, ..acc0 }
    };
    if p.key.len() == 0 {
        assert(e =~= valpart);
    } else {
        lemma_kvpair_step_key(p.key, valpart, acc0);
        assert(e =~= spec_ld(TAG_PAIR_KEY, encode_utf8(p.key)) + valpart);
    }
    if p.value is Null {
        assert(spec_dec_kvpair_fields(valpart, acc1) == Some(acc1));
        assert(acc1 =~= p);
    } else {
        assert(valpart =~= spec_ld(TAG_PAIR_VALUE, spec_enc_value(p.value)) + Seq::<u8>::empty());
        lemma_kvpair_step_value(p.value, Seq::<u8>::empty(), acc1);
        assert(KvpairV { value: p.value, ..acc1 } =~= p);
    }
}

/// Appends a string field (nothing for the empty string).
pub fn enc_str_field(tag: u64, s: &str, out: &mut Vec<u8>)
    ensures
        final(out)@ == old(out)@ + spec_str_field(tag, s@),
{
    let mut payload = string_bytes(s);
    if payload.len() == 0 {
        proof {
            assert(s@.len() == 0) by {
                broadcast use vstd::utf8::encode_utf8_decode_utf8;

                if s@.len() > 0 {
                    assert(decode_utf8(encode_utf8(s@)) == s@);
                }
            }
            assert(out@ =~= old(out)@ + spec_str_field(tag, s@));
        }
    } else {
        varint_enc(tag, out);
        varint_enc(payload.len() as u64, out);
        out.append(&mut payload);
        proof {
            assert(out@ =~= old(out)@ + spec_str_field(tag, s@));
        }
    }
}

/// Appends the wire form of a pair.
pub fn enc_kvpair(p: &Kvpair, out: &mut Vec<u8>)
    ensures
        final(out)@ == old(out)@ + spec_enc_kvpair(p@),
{
    enc_str_field(TAG_PAIR_KEY, p.key.as_str(), out);
    match &p.value {
        Value::Null => {
            proof {
                assert(out@ =~= old(out)@ + spec_enc_kvpair(p@));
            }
        },
        _ => {
            varint_enc(TAG_PAIR_VALUE, out);
            let mut payload: Vec<u8> = Vec::new();
            enc_value(&p.value, &mut payload);
            varint_enc(payload.len() as u64, out);
            proof {
                assert(payload@ =~= Seq::<u8>::empty() + spec_enc_value(p@.value));
                assert(payload@ =~= spec_enc_value(p@.value));
            }
            out.append(&mut payload);
            proof {
                assert(out@ =~= old(out)@ + spec_enc_kvpair(p@));
            }
        },
    }
}

/// Wire tags of a response's fields.
pub const TAG_RESP_STATUS: u64 = 8;

pub const TAG_RESP_MESSAGE: u64 = 18;

pub const TAG_RESP_VALUE: u64 = 26;

pub const TAG_RESP_PAIR: u64 = 34;

/// The wire form of a run of value elements under one tag.
pub open spec fn spec_enc_rep_values(tag: u64, vs: Seq<ValueV>) -> Seq<u8>
    decreases vs.len(),
{
    if vs.len() == 0 {
        Seq::<u8>::empty()
    } else {
        spec_ld(tag, spec_enc_value(vs[0])) + spec_enc_rep_values(tag, vs.drop_first())
    }
}

/// The wire form of a run of pair elements under one tag.
pub open spec fn spec_enc_rep_pairs(tag: u64, ps: Seq<KvpairV>) -> Seq<u8>
    decreases ps.len(),
{
    if ps.len() == 0 {
        Seq::<u8>::empty()
    } else {
        spec_ld(tag, spec_enc_kvpair(ps[0])) + spec_enc_rep_pairs(tag, ps.drop_first())
    }
}

/// The wire form of a response: status and message when not default,
/// then every value, then every pair.
pub open spec fn spec_enc_resp(r: CommandResponseV) -> Seq<u8> {
    spec_u32_field(TAG_RESP_STATUS, r.status) + spec_str_field(TAG_RESP_MESSAGE, r.message)
        + spec_enc_rep_values(TAG_RESP_VALUE, r.values) + spec_enc_rep_pairs(TAG_RESP_PAIR, r.pairs)
}

/// Reads a response's fields: omitted status and message are default,
/// repeated fields append.
pub open spec fn spec_dec_resp_fields(b: Seq<u8>, acc: CommandResponseV) -> Option<
    CommandResponseV,
>
    decreases b.len(),
{
    if b.len() == 0 {
        Some(acc)
    } else {
        match spec_varint_dec(b) {
            None => None,
            Some((tag, k)) => if !(1 <= k <= b.len()) {
                None
            } else {
                let rest = b.skip(k);
                if tag == TAG_RESP_STATUS {
                    match spec_varint_dec(rest) {
                        None => None,
                        Some((v, k2)) => if !(1 <= k2 <= rest.len()) {
                            None
                        } else {
                            spec_dec_resp_fields(
                                rest.skip(k2),
                                CommandResponseV { status: spec_u64_to_u32(v), ..acc },
                            )
                        },
                    }
                } else if tag == TAG_RESP_MESSAGE || tag == TAG_RESP_VALUE || tag
                    == TAG_RESP_PAIR {
                    match spec_dec_bytes(rest) {
                        None => None,
                        Some((payload, k2)) => if !(1 <= k2 <= rest.len()) {
                            None
                        } else if tag == TAG_RESP_MESSAGE {
                            if valid_utf8(payload) {
                                spec_dec_resp_fields(
                                    rest.skip(k2),
                                    CommandResponseV { message: decode_utf8(payload), ..acc },
                                )
                            } else {
                                None
                            }
                        } else if tag == TAG_RESP_VALUE {
                            match spec_dec_value(payload) {
                                Some(v) => spec_dec_resp_fields(
                                    rest.skip(k2),
                                    CommandResponseV { values: acc.values.push(v), ..acc },
                                ),
                                None => None,
                            }
                        } else {
                            match spec_dec_kvpair(payload) {
                                Some(p) => spec_dec_resp_fields(
                                    rest.skip(k2),
                                    CommandResponseV { pairs: acc.pairs.push(p), ..acc },
                                ),
                                None => None,
                            }
                        },
                    }
                } else {
                    None
                }
            },
        }
    }
}

/// Reads a whole response message.
pub open spec fn spec_dec_resp(b: Seq<u8>) -> Option<CommandResponseV> {
    spec_dec_resp_fields(b, CommandResponseV::sentinel())
}

/// Whether a response is small enough to carry length prefixes.
pub open spec fn resp_fits(r: CommandResponseV) -> bool {
    &&& encode_utf8(r.message).len() <= u64::MAX
    &&& forall|i: int|
        0 <= i < r.values.len() ==> value_fits(#[trigger] r.values[i]) && spec_enc_value(
            r.values[i],
        ).len() <= u64::MAX
    &&& forall|i: int|
        0 <= i < r.pairs.len() ==> kvpair_fits(#[trigger] r.pairs[i]) && spec_enc_kvpair(
            r.pairs[i],
        ).len() <= u64::MAX
}

/// Reading a status field sets the status and moves on.
proof fn lemma_resp_step_status(status: u32, tail: Seq<u8>, acc: CommandResponseV)
    requires
        status != 0,
    ensures
        spec_dec_resp_fields(spec_u32_field(TAG_RESP_STATUS, status) + tail, acc)
            == spec_dec_resp_fields(tail, CommandResponseV { status: status, ..acc }),
{
    let body = spec_varint(status as u64);
    let whole = spec_u32_field(TAG_RESP_STATUS, status) + tail;
    lemma_varint_roundtrip(TAG_RESP_STATUS, body + tail);
    assert(whole =~= spec_varint(TAG_RESP_STATUS) + (body + tail));
    let k = spec_varint(TAG_RESP_STATUS).len() as int;
    assert(whole.skip(k) =~= body + tail);
    lemma_varint_roundtrip(status as u64, tail);
    assert(whole.skip(k).skip(body.len() as int) =~= tail);
}

/// Reading a message field sets the message and moves on.
proof fn lemma_resp_step_message(s: Seq<char>, tail: Seq<u8>, acc: CommandResponseV)
    requires
        s.len() > 0,
        encode_utf8(s).len() <= u64::MAX,
    ensures
        spec_dec_resp_fields(spec_ld(TAG_RESP_MESSAGE, encode_utf8(s)) + tail, acc)
            == spec_dec_resp_fields(tail, CommandResponseV { message: s, ..acc }),
{
    broadcast use vstd::utf8::encode_utf8_valid_utf8;
    broadcast use vstd::utf8::encode_utf8_decode_utf8;

    let payload = encode_utf8(s);
    let lenb = spec_varint(payload.len() as u64);
    let whole = spec_ld(TAG_RESP_MESSAGE, payload) + tail;
    lemma_varint_roundtrip(TAG_RESP_MESSAGE, lenb + payload + tail);
    assert(whole =~= spec_varint(TAG_RESP_MESSAGE) + (lenb + payload + tail));
    let k = spec_varint(TAG_RESP_MESSAGE).len() as int;
    assert(whole.skip(k) =~= lenb + payload + tail);
    lemma_dec_bytes_roundtrip(payload, tail);
    let k2 = lenb.len() + payload.len() as int;
    assert(whole.skip(k).skip(k2) =~= tail);
}

/// Reading a value element appends it and moves on.
proof fn lemma_resp_step_value(v: ValueV, tail: Seq<u8>, acc: CommandResponseV)
    requires
        value_fits(v),
        spec_enc_value(v).len() <= u64::MAX,
    ensures
        spec_dec_resp_fields(spec_ld(TAG_RESP_VALUE, spec_enc_value(v)) + tail, acc)
            == spec_dec_resp_fields(tail, CommandResponseV { values: acc.values.push(v), ..acc }),
{
    let payload = spec_enc_value(v);
    let lenb = spec_varint(payload.len() as u64);
    let whole = spec_ld(TAG_RESP_VALUE, payload) + tail;
    lemma_varint_roundtrip(TAG_RESP_VALUE, lenb + payload + tail);
    assert(whole =~= spec_varint(TAG_RESP_VALUE) + (lenb + payload + tail));
    let k = spec_varint(TAG_RESP_VALUE).len() as int;
    assert(whole.skip(k) =~= lenb + payload + tail);
    lemma_dec_bytes_roundtrip(payload, tail);
    let k2 = lenb.len() + payload.len() as int;
    assert(whole.skip(k).skip(k2) =~= tail);
    lemma_value_roundtrip(v);
}

/// Reading a pair element appends it and moves on.
proof fn lemma_resp_step_pair(p: KvpairV, tail: Seq<u8>, acc: CommandResponseV)
    requires
        kvpair_fits(p),
        spec_enc_kvpair(p).len() <= u64::MAX,
    ensures
        spec_dec_resp_fields(spec_ld(TAG_RESP_PAIR, spec_enc_kvpair(p)) + tail, acc)
            == spec_dec_resp_fields(tail, CommandResponseV { pairs: acc.pairs.push(p), ..acc }),
{
    let payload = spec_enc_kvpair(p);
    let lenb = spec_varint(payload.len() as u64);
    let whole = spec_ld(TAG_RESP_PAIR, payload) + tail;
    lemma_varint_roundtrip(TAG_RESP_PAIR, lenb + payload + tail);
    assert(whole =~= spec_varint(TAG_RESP_PAIR) + (lenb + payload + tail));
    let k = spec_varint(TAG_RESP_PAIR).len() as int;
    assert(whole.skip(k) =~= lenb + payload + tail);
    lemma_dec_bytes_roundtrip(payload, tail);
    let k2 = lenb.len() + payload.len() as int;
    assert(whole.skip(k).skip(k2) =~= tail);
    lemma_kvpair_roundtrip(p);
}

/// Reading a run of value elements appends them all, in order.
proof fn lemma_resp_values_loop(vs: Seq<ValueV>, tail: Seq<u8>, acc: CommandResponseV)
    requires
        forall|i: int|
            0 <= i < vs.len() ==> value_fits(#[trigger] vs[i]) && spec_enc_value(vs[i]).len()
                <= u64::MAX,
    ensures
        spec_dec_resp_fields(spec_enc_rep_values(TAG_RESP_VALUE, vs) + tail, acc) == spec_dec_resp_fields(
            tail,
            CommandResponseV { values: acc.values + vs, ..acc },
        ),
    decreases vs.len(),
{
    if vs.len() == 0 {
        assert(spec_enc_rep_values(TAG_RESP_VALUE, vs) + tail =~= tail);
        assert(acc.values + vs =~= acc.values);
        assert(CommandResponseV { values: acc.values + vs, ..acc } =~= acc);
    } else {
        let head = spec_ld(TAG_RESP_VALUE, spec_enc_value(vs[0]));
        let rest = spec_enc_rep_values(TAG_RESP_VALUE, vs.drop_first());
        assert(spec_enc_rep_values(TAG_RESP_VALUE, vs) + tail =~= head + (rest + tail));
        lemma_resp_step_value(vs[0], rest + tail, acc);
        let acc1 = CommandResponseV { values: acc.values.push(vs[0]), ..acc };
        lemma_resp_values_loop(vs.drop_first(), tail, acc1);
        assert(acc1.values + vs.drop_first() =~= acc.values + vs);
        assert(CommandResponseV { values: acc1.values + vs.drop_first(), ..acc1 }
            =~= CommandResponseV { values: acc.values + vs, ..acc });
    }
}

/// Reading a run of pair elements appends them all, in order.
proof fn lemma_resp_pairs_loop(ps: Seq<KvpairV>, tail: Seq<u8>, acc: CommandResponseV)
    requires
        forall|i: int|
            0 <= i < ps.len() ==> kvpair_fits(#[trigger] ps[i]) && spec_enc_kvpair(ps[i]).len()
                <= u64::MAX,
    ensures
        spec_dec_resp_fields(spec_enc_rep_pairs(TAG_RESP_PAIR, ps) + tail, acc) == spec_dec_resp_fields(
            tail,
            CommandResponseV { pairs: acc.pairs + ps, ..acc },
        ),
    decreases ps.len(),
{
    if ps.len() == 0 {
        assert(spec_enc_rep_pairs(TAG_RESP_PAIR, ps) + tail =~= tail);
        assert(acc.pairs + ps =~= acc.pairs);
        assert(CommandResponseV { pairs: acc.pairs + ps, ..acc } =~= acc);
    } else {
        let head = spec_ld(TAG_RESP_PAIR, spec_enc_kvpair(ps[0]));
        let rest = spec_enc_rep_pairs(TAG_RESP_PAIR, ps.drop_first());
        assert(spec_enc_rep_pairs(TAG_RESP_PAIR, ps) + tail =~= head + (rest + tail));
        lemma_resp_step_pair(ps[0], rest + tail, acc);
        let acc1 = CommandResponseV { pairs: acc.pairs.push(ps[0]), ..acc };
        lemma_resp_pairs_loop(ps.drop_first(), tail, acc1);
        assert(acc1.pairs + ps.drop_first() =~= acc.pairs + ps);
        assert(CommandResponseV { pairs: acc1.pairs + ps.drop_first(), ..acc1 }
            =~= CommandResponseV { pairs: acc.pairs + ps, ..acc });
    }
}

/// Decoding a response reads back exactly the response encoded.
pub proof fn lemma_resp_roundtrip(r: CommandResponseV)
    requires
        resp_fits(r),
    ensures
        spec_dec_resp(spec_enc_resp(r)) == Some(r),
{
    let acc0 = CommandResponseV::sentinel();
    let statuspart = spec_u32_field(TAG_RESP_STATUS, r.status);
    let msgpart = spec_str_field(TAG_RESP_MESSAGE, r.message);
    let valpart = spec_enc_rep_values(TAG_RESP_VALUE, r.values);
    let pairpart = spec_enc_rep_pairs(TAG_RESP_PAIR, r.pairs);
    let e = spec_enc_resp(r);
    let acc1 = if r.status == 0 {
        acc0
    } else {
        CommandResponseV { status: r.status, ..acc0 }
    };
    let acc2 = if r.message.len() == 0 {
        acc1
    } else {
        CommandResponseV { message: r.message, ..acc1 }
    };
    if r.status == 0 {
        assert(e =~= msgpart + valpart + pairpart);
    } else {
        lemma_resp_step_status(r.status, msgpart + valpart + pairpart, acc0);
        assert(e =~= statuspart + (msgpart + valpart + pairpart));
    }
    if r.message.len() == 0 {
        assert(msgpart + valpart + pairpart =~= valpart + pairpart);
    } else {
        lemma_resp_step_message(r.message, valpart + pairpart, acc1);
        assert(msgpart + valpart + pairpart =~= spec_ld(TAG_RESP_MESSAGE, encode_utf8(r.message))
            + (valpart + pairpart));
    }
    lemma_resp_values_loop(r.values, pairpart, acc2);
    assert(valpart + pairpart =~= spec_enc_rep_values(TAG_RESP_VALUE, r.values) + pairpart);
    let acc3 = CommandResponseV { values: acc2.values + r.values, ..acc2 };
    lemma_resp_pairs_loop(r.pairs, Seq::<u8>::empty(), acc3);
    assert(pairpart =~= spec_enc_rep_pairs(TAG_RESP_PAIR, r.pairs) + Seq::<u8>::empty());
    let acc4 = CommandResponseV { pairs: acc3.pairs + r.pairs, ..acc3 };
    assert(acc4 =~= r);
}

/// Appends the wire form of a response.
pub fn enc_resp(r: &CommandResponse, out: &mut Vec<u8>)
    ensures
        final(out)@ == old(out)@ + spec_enc_resp(r@),
{
    if r.status != 0 {
        varint_enc(TAG_RESP_STATUS, out);
        varint_enc(r.status as u64, out);
    }
    proof {
        assert(out@ =~= old(out)@ + spec_u32_field(TAG_RESP_STATUS, r@.status));
    }
    let ghost mark1 = out@;
    enc_str_field(TAG_RESP_MESSAGE, r.message.as_str(), out);
    let ghost mark2 = out@;
    let mut i: usize = 0;
    while i < r.values.len()
        invariant
            i <= r.values@.len(),
            out@ == mark2 + spec_enc_rep_values(TAG_RESP_VALUE, values_view(r.values@).take(i as int)),
        decreases r.values@.len() - i,
    {
        let ghost pre = out@;
        varint_enc(TAG_RESP_VALUE, out);
        let mut payload: Vec<u8> = Vec::new();
        enc_value(&r.values[i], &mut payload);
        proof {
            assert(payload@ =~= spec_enc_value(r.values@[i as int]@));
        }
        varint_enc(payload.len() as u64, out);
        out.append(&mut payload);
        i = i + 1;
        proof {
            let vv = values_view(r.values@);
            lemma_rep_values_take_step(TAG_RESP_VALUE, vv, i - 1);
            assert(out@ =~= mark2 + spec_enc_rep_values(TAG_RESP_VALUE, vv.take(i as int)));
        }
    }
    proof {
        assert(values_view(r.values@).take(r.values@.len() as int) =~= values_view(r.values@));
    }
    let ghost mark3 = out@;
    let mut j: usize = 0;
    while j < r.pairs.len()
        invariant
            j <= r.pairs@.len(),
            out@ == mark3 + spec_enc_rep_pairs(TAG_RESP_PAIR, pairs_view(r.pairs@).take(j as int)),
        decreases r.pairs@.len() - j,
    {
        varint_enc(TAG_RESP_PAIR, out);
        let mut payload: Vec<u8> = Vec::new();
        enc_kvpair(&r.pairs[j], &mut payload);
        proof {
            assert(payload@ =~= spec_enc_kvpair(r.pairs@[j as int]@));
        }
        varint_enc(payload.len() as u64, out);
        out.append(&mut payload);
        j = j + 1;
        proof {
            let pv = pairs_view(r.pairs@);
            lemma_rep_pairs_take_step(TAG_RESP_PAIR, pv, j - 1);
            assert(out@ =~= mark3 + spec_enc_rep_pairs(TAG_RESP_PAIR, pv.take(j as int)));
        }
    }
    proof {
        assert(pairs_view(r.pairs@).take(r.pairs@.len() as int) =~= pairs_view(r.pairs@));
        assert(out@ =~= old(out)@ + spec_enc_resp(r@));
    }
}

/// One more element extends the encoded run by one field.
pub proof fn lemma_rep_values_take_step(tag: u64, vs: Seq<ValueV>, i: int)
    requires
        0 <= i < vs.len(),
    ensures
        spec_enc_rep_values(tag, vs.take(i + 1)) == spec_enc_rep_values(tag, vs.take(i)) + spec_ld(
            tag,
            spec_enc_value(vs[i]),
        ),
    decreases i,
{
    if i == 0 {
        reveal_with_fuel(spec_enc_rep_values, 3);
        assert(vs.take(1).drop_first() =~= Seq::<ValueV>::empty());
        assert(vs.take(1)[0] == vs[0]);
        assert(spec_enc_rep_values(tag, vs.take(0)) =~= Seq::<u8>::empty());
        assert(spec_enc_rep_values(tag, vs.take(1)) =~= spec_ld(
            tag,
            spec_enc_value(vs[0]),
        ) + Seq::<u8>::empty());
        assert(spec_enc_rep_values(tag, vs.take(1)) =~= spec_enc_rep_values(tag, vs.take(0))
            + spec_ld(tag, spec_enc_value(vs[0])));
    } else {
        lemma_rep_values_take_step(tag, vs.drop_first(), i - 1);
        assert(vs.take(i + 1).drop_first() =~= vs.drop_first().take(i));
        assert(vs.take(i).drop_first() =~= vs.drop_first().take(i - 1));
        assert(vs.take(i + 1)[0] == vs[0]);
        assert(vs.take(i)[0] == vs[0]);
        assert(vs.drop_first()[i - 1] == vs[i]);
        assert(spec_enc_rep_values(tag, vs.take(i)) + spec_ld(tag, spec_enc_value(vs[i]))
            =~= spec_ld(tag, spec_enc_value(vs[0])) + (spec_enc_rep_values(
            tag,
            vs.drop_first().take(i - 1),
        ) + spec_ld(tag, spec_enc_value(vs.drop_first()[i - 1]))));
    }
}

/// One more element extends the encoded run by one field.
pub proof fn lemma_rep_pairs_take_step(tag: u64, ps: Seq<KvpairV>, i: int)
    requires
        0 <= i < ps.len(),
    ensures
        spec_enc_rep_pairs(tag, ps.take(i + 1)) == spec_enc_rep_pairs(tag, ps.take(i)) + spec_ld(
            tag,
            spec_enc_kvpair(ps[i]),
        ),
    decreases i,
{
    if i == 0 {
        reveal_with_fuel(spec_enc_rep_pairs, 3);
        assert(ps.take(1).drop_first() =~= Seq::<KvpairV>::empty());
        assert(ps.take(1)[0] == ps[0]);
        assert(spec_enc_rep_pairs(tag, ps.take(0)) =~= Seq::<u8>::empty());
        assert(spec_enc_rep_pairs(tag, ps.take(1)) =~= spec_ld(tag, spec_enc_kvpair(ps[0]))
            + Seq::<u8>::empty());
        assert(spec_enc_rep_pairs(tag, ps.take(1)) =~= spec_enc_rep_pairs(tag, ps.take(0))
            + spec_ld(tag, spec_enc_kvpair(ps[0])));
    } else {
        lemma_rep_pairs_take_step(tag, ps.drop_first(), i - 1);
        assert(ps.take(i + 1).drop_first() =~= ps.drop_first().take(i));
        assert(ps.take(i).drop_first() =~= ps.drop_first().take(i - 1));
        assert(ps.take(i + 1)[0] == ps[0]);
        assert(ps.take(i)[0] == ps[0]);
        assert(ps.drop_first()[i - 1] == ps[i]);
        assert(spec_enc_rep_pairs(tag, ps.take(i)) + spec_ld(tag, spec_enc_kvpair(ps[i]))
            =~= spec_ld(tag, spec_enc_kvpair(ps[0])) + (spec_enc_rep_pairs(
            tag,
            ps.drop_first().take(i - 1),
        ) + spec_ld(tag, spec_enc_kvpair(ps.drop_first()[i - 1]))));
    }
}

/// Reads a response message, given exactly its bytes.
pub fn dec_resp(b: &[u8]) -> (r: Option<CommandResponse>)
    ensures
        match (r, spec_dec_resp(b@)) {
            (Some(v), Some(sv)) => v@ == sv,
            (None, None) => true,
            _ => false,
        },
{
    proof {
        assert(b@.skip(0) =~= b@);
    }
    dec_resp_fields(b, 0, CommandResponse::default())
}

/// Reads a response's fields from `pos` on, folding them into `acc`.
fn dec_resp_fields(b: &[u8], pos: usize, acc: CommandResponse) -> (r: Option<CommandResponse>)
    requires
        pos <= b@.len(),
    ensures
        match (r, spec_dec_resp_fields(b@.skip(pos as int), acc@)) {
            (Some(v), Some(sv)) => v@ == sv,
            (None, None) => true,
            _ => false,
        },
    decreases b@.len() - pos,
{
    let total = b.len();
    let ghost tail = b@.skip(pos as int);
    if pos == total {
        return Some(acc);
    }
    match varint_dec(b, pos) {
        None => None,
        Some((tag, k)) => {
            proof {
                assert(tail.skip(k as int) =~= b@.skip(pos + k));
            }
            if tag == TAG_RESP_STATUS {
                match varint_dec(b, pos + k) {
                    None => None,
                    Some((v, k2)) => {
                        proof {
                            assert(tail.skip(k as int).skip(k2 as int) =~= b@.skip(
                                pos + k + k2,
                            ));
                        }
                        let status = (v % 0x1_0000_0000) as u32;
                        let mut acc2 = acc;
                        acc2.status = status;
                        dec_resp_fields(b, pos + k + k2, acc2)
                    },
                }
            } else if tag == TAG_RESP_MESSAGE || tag == TAG_RESP_VALUE || tag == TAG_RESP_PAIR {
                match dec_bytes(b, pos + k) {
                    None => None,
                    Some((payload, k2)) => {
                        proof {
                            assert(tail.skip(k as int).skip(k2 as int) =~= b@.skip(
                                pos + k + k2,
                            ));
                        }
                        if tag == TAG_RESP_MESSAGE {
                            match bytes_to_string(payload) {
                                Some(s) => {
                                    proof {
                                        broadcast use vstd::utf8::encode_utf8_valid_utf8;

                                        vstd::utf8::decode_utf8_encode_utf8(encode_utf8(s@));
                                        vstd::utf8::encode_utf8_decode_utf8(s@);
                                    }
                                    let mut acc2 = acc;
                                    acc2.message = s;
                                    dec_resp_fields(b, pos + k + k2, acc2)
                                },
                                None => None,
                            }
                        } else if tag == TAG_RESP_VALUE {
                            match dec_value(payload.as_slice()) {
                                Some(v) => {
                                    let mut acc2 = acc;
                                    acc2.values.push(v);
                                    proof {
                                        assert(values_view(acc2.values@) =~= values_view(
                                            acc.values@,
                                        ).push(v@));
                                    }
                                    dec_resp_fields(b, pos + k + k2, acc2)
                                },
                                None => None,
                            }
                        } else {
                            match dec_kvpair(payload.as_slice()) {
                                Some(p) => {
                                    let mut acc2 = acc;
                                    acc2.pairs.push(p);
                                    proof {
                                        assert(pairs_view(acc2.pairs@) =~= pairs_view(
                                            acc.pairs@,
                                        ).push(p@));
                                    }
                                    dec_resp_fields(b, pos + k + k2, acc2)
                                },
                                None => None,
                            }
                        }
                    },
                }
            } else {
                None
            }
        },
    }
}

/// Reads a pair message, given exactly its bytes.
pub fn dec_kvpair(b: &[u8]) -> (r: Option<Kvpair>)
    ensures
        match (r, spec_dec_kvpair(b@)) {
            (Some(p), Some(sp)) => p@ == sp,
            (None, None) => true,
            _ => false,
        },
{
    proof {
        assert(b@.skip(0) =~= b@);
    }
    dec_kvpair_fields(b, 0, Kvpair { key: String::new(), value: Value::Null })
}

/// Reads a pair's fields from `pos` on, folding them into `acc`.
fn dec_kvpair_fields(b: &[u8], pos: usize, acc: Kvpair) -> (r: Option<Kvpair>)
    requires
        pos <= b@.len(),
    ensures
        match (r, spec_dec_kvpair_fields(b@.skip(pos as int), acc@)) {
            (Some(p), Some(sp)) => p@ == sp,
            (None, None) => true,
            _ => false,
        },
    decreases b@.len() - pos,
{
    let total = b.len();
    let ghost tail = b@.skip(pos as int);
    if pos == total {
        return Some(acc);
    }
    match varint_dec(b, pos) {
        None => None,
        Some((tag, k)) => {
            proof {
                assert(tail.skip(k as int) =~= b@.skip(pos + k));
            }
            if tag == TAG_PAIR_KEY || tag == TAG_PAIR_VALUE {
                match dec_bytes(b, pos + k) {
                    None => None,
                    Some((payload, k2)) => {
                        proof {
                            assert(tail.skip(k as int).skip(k2 as int) =~= b@.skip(
                                pos + k + k2,
                            ));
                        }
                        if tag == TAG_PAIR_KEY {
                            match bytes_to_string(payload) {
                                Some(s) => {
                                    proof {
                                        broadcast use vstd::utf8::encode_utf8_valid_utf8;

                                        vstd::utf8::decode_utf8_encode_utf8(encode_utf8(s@));
                                        vstd::utf8::encode_utf8_decode_utf8(s@);
                                    }
                                    dec_kvpair_fields(
                                        b,
                                        pos + k + k2,
                                        Kvpair { key: s, value: acc.value },
                                    )
                                },
                                None => None,
                            }
                        } else {
                            match dec_value(payload.as_slice()) {
                                Some(v) => dec_kvpair_fields(
                                    b,
                                    pos + k + k2,
                                    Kvpair { key: acc.key, value: v },
                                ),
                                None => None,
                            }
                        }
                    },
                }
            } else {
                None
            }
        },
    }
}

} // verus!
