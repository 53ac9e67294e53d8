//! The wire form of requests. Every variant's body is a small record --
//! a leading string and, depending on the variant, a second string, a
//! run of strings, an optional pair, a run of pairs, a run of values or
//! an id -- so one body codec serves all twelve variants.

use vstd::prelude::*;
use vstd::utf8::{decode_utf8, encode_utf8, valid_utf8};

use crate::pb::{Kvpair, KvpairV, Value, ValueV, keys_view, pairs_view, values_view};
use crate::request::{
    CommandRequest, Hdel, HdelV, Hexist, HexistV, Hget, HgetV, Hgetall, HgetallV, Hmdel, HmdelV,
    Hmexist, HmexistV, Hmget, HmgetV, Hmset, HmsetV, Hset, HsetV, Publish, PublishV, RequestData,
    RequestDataV, Subscribe, SubscribeV, Unsubscribe, UnsubscribeV,
};
use crate::varint::{lemma_varint_roundtrip, spec_varint, spec_varint_dec, varint_dec, varint_enc};
use crate::wire::{
    bytes_to_string, dec_bytes, dec_value, enc_value, lemma_dec_bytes_roundtrip,
    lemma_value_roundtrip, spec_dec_bytes, spec_dec_value, spec_enc_value, spec_ld,
    spec_u64_to_u32, value_fits,
};
use crate::wire_resp::{
    dec_kvpair, enc_kvpair, enc_str_field, kvpair_fits, lemma_kvpair_roundtrip,
    lemma_rep_pairs_take_step, lemma_rep_values_take_step, spec_enc_kvpair, spec_enc_rep_pairs,
    spec_enc_rep_values, spec_str_field, spec_u32_field,
};

verus! {

/// The leading string field of every body.
pub const TAG_BODY_STR: u64 = 10;

/// The second field of most bodies.
pub const TAG_BODY_SECOND: u64 = 18;

/// The id field of an unsubscribe body.
pub const TAG_BODY_ID: u64 = 16;

/// What the second field of a body holds.
#[derive(Clone, Copy, PartialEq, Eq, Structural)]
pub enum BodyKind {
    /// A second string (key).
    Str2,
    /// A run of strings (keys).
    StrList,
    /// At most one pair.
    OptPair,
    /// A run of pairs.
    PairList,
    /// A run of values.
    ValueList,
    /// An unsigned id.
    StrId,
}

/// The fields a body can carry; a variant uses the leading string and
/// the one field its kind names.
#[verifier::ext_equal]
pub struct ReqBodyV {
    pub table: Seq<char>,
    pub key: Seq<char>,
    pub keys: Seq<Seq<char>>,
    pub pair: Option<KvpairV>,
    pub pairs: Seq<KvpairV>,
    pub values: Seq<ValueV>,
    pub id: u32,
}

/// The body with nothing set.
pub open spec fn body_default() -> ReqBodyV {
    ReqBodyV {
        table: Seq::<char>::empty(),
        key: Seq::<char>::empty(),
        keys: Seq::<Seq<char>>::empty(),
        pair: None,
        pairs: Seq::<KvpairV>::empty(),
        values: Seq::<ValueV>::empty(),
        id: 0,
    }
}

/// The body reduced to the fields its kind uses.
pub open spec fn body_norm(kind: BodyKind, b: ReqBodyV) -> ReqBodyV {
    match kind {
        BodyKind::Str2 => ReqBodyV { table: b.table, key: b.key, ..body_default() },
        BodyKind::StrList => ReqBodyV { table: b.table, keys: b.keys, ..body_default() },
        BodyKind::OptPair => ReqBodyV { table: b.table, pair: b.pair, ..body_default() },
        BodyKind::PairList => ReqBodyV { table: b.table, pairs: b.pairs, ..body_default() },
        BodyKind::ValueList => ReqBodyV { table: b.table, values: b.values, ..body_default() },
        BodyKind::StrId => ReqBodyV { table: b.table, id: b.id, ..body_default() },
    }
}

/// The wire form of a run of string elements under one tag; a string
/// element is always written, even when empty.
pub open spec fn spec_enc_rep_strs(tag: u64, ks: Seq<Seq<char>>) -> Seq<u8>
    decreases ks.len(),
{
    if ks.len() == 0 {
        Seq::<u8>::empty()
    } else {
        spec_ld(tag, encode_utf8(ks[0])) + spec_enc_rep_strs(tag, ks.drop_first())
    }
}

/// One more element extends the encoded run by one field.
pub proof fn lemma_rep_strs_take_step(tag: u64, ks: Seq<Seq<char>>, i: int)
    requires
        0 <= i < ks.len(),
    ensures
        spec_enc_rep_strs(tag, ks.take(i + 1)) == spec_enc_rep_strs(tag, ks.take(i)) + spec_ld(
            tag,
            encode_utf8(ks[i]),
        ),
    decreases i,
{
    if i == 0 {
        reveal_with_fuel(spec_enc_rep_strs, 3);
        assert(ks.take(1).drop_first() =~= Seq::<Seq<char>>::empty());
        assert(ks.take(1)[0] == ks[0]);
        assert(spec_enc_rep_strs(tag, ks.take(0)) =~= Seq::<u8>::empty());
        assert(spec_enc_rep_strs(tag, ks.take(1)) =~= spec_ld(tag, encode_utf8(ks[0]))
            + Seq::<u8>::empty());
        assert(spec_enc_rep_strs(tag, ks.take(1)) =~= spec_enc_rep_strs(tag, ks.take(0))
            + spec_ld(tag, encode_utf8(ks[0])));
    } else {
        lemma_rep_strs_take_step(tag, ks.drop_first(), i - 1);
        assert(ks.take(i + 1).drop_first() =~= ks.drop_first().take(i));
        assert(ks.take(i).drop_first() =~= ks.drop_first().take(i - 1));
        assert(ks.take(i + 1)[0] == ks[0]);
        assert(ks.take(i)[0] == ks[0]);
        assert(ks.drop_first()[i - 1] == ks[i]);
        assert(spec_enc_rep_strs(tag, ks.take(i)) + spec_ld(tag, encode_utf8(ks[i])) =~= spec_ld(
            tag,
            encode_utf8(ks[0]),
        ) + (spec_enc_rep_strs(tag, ks.drop_first().take(i - 1)) + spec_ld(
            tag,
            encode_utf8(ks.drop_first()[i - 1]),
        )));
    }
}

/// The wire form of a body under its kind.
pub open spec fn spec_enc_body(kind: BodyKind, b: ReqBodyV) -> Seq<u8> {
    spec_str_field(TAG_BODY_STR, b.table) + match kind {
        BodyKind::Str2 => spec_str_field(TAG_BODY_SECOND, b.key),
        BodyKind::StrList => spec_enc_rep_strs(TAG_BODY_SECOND, b.keys),
        BodyKind::OptPair => match b.pair {
            Some(p) => spec_ld(TAG_BODY_SECOND, spec_enc_kvpair(p)),
            None => Seq::<u8>::empty(),
        },
        BodyKind::PairList => spec_enc_rep_pairs(TAG_BODY_SECOND, b.pairs),
        BodyKind::ValueList => spec_enc_rep_values(TAG_BODY_SECOND, b.values),
        BodyKind::StrId => spec_u32_field(TAG_BODY_ID, b.id),
    }
}

/// Reads a body's fields under its kind.
pub open spec fn spec_dec_body_fields(kind: BodyKind, b: Seq<u8>, acc: ReqBodyV) -> Option<
    ReqBodyV,
>
    decreases b.len(),
{
    if b.len() == 0 {
        Some(acc)
    } else {
        match spec_varint_dec(b) {
            None => None,
            Some((tag, k)) => if !(1 <= k <= b.len()) {
                None
            } else {
                let rest = b.skip(k);
                if tag == TAG_BODY_STR {
                    match spec_dec_bytes(rest) {
                        None => None,
                        Some((payload, k2)) => if !(1 <= k2 <= rest.len()) {
                            None
                        } else if valid_utf8(payload) {
                            spec_dec_body_fields(
                                kind,
                                rest.skip(k2),
                                ReqBodyV { table: decode_utf8(payload), ..acc },
                            )
                        } else {
                            None
                        },
                    }
                } else if tag == TAG_BODY_ID && kind == BodyKind::StrId {
                    match spec_varint_dec(rest) {
                        None => None,
                        Some((v, k2)) => if !(1 <= k2 <= rest.len()) {
                            None
                        } else {
                            spec_dec_body_fields(
                                kind,
                                rest.skip(k2),
                                ReqBodyV { id: spec_u64_to_u32(v), ..acc },
                            )
                        },
                    }
                } else if tag == TAG_BODY_SECOND && kind != BodyKind::StrId {
                    match spec_dec_bytes(rest) {
                        None => None,
                        Some((payload, k2)) => if !(1 <= k2 <= rest.len()) {
                            None
                        } else {
                            match kind {
                                BodyKind::Str2 => if valid_utf8(payload) {
                                    spec_dec_body_fields(
                                        kind,
                                        rest.skip(k2),
                                        ReqBodyV { key: decode_utf8(payload), ..acc },
                                    )
                                } else {
                                    None
                                },
                                BodyKind::StrList => if valid_utf8(payload) {
                                    spec_dec_body_fields(
                                        kind,
                                        rest.skip(k2),
                                        ReqBodyV {
                                            keys: acc.keys.push(decode_utf8(payload)),
                                            ..acc
                                        },
                                    )
                                } else {
                                    None
                                },
                                BodyKind::OptPair => match crate::wire_resp::spec_dec_kvpair(
                                    payload,
                                ) {
                                    Some(p) => spec_dec_body_fields(
                                        kind,
                                        rest.skip(k2),
                                        ReqBodyV { pair: Some(p), ..acc },
                                    ),
                                    None => None,
                                },
                                BodyKind::PairList => match crate::wire_resp::spec_dec_kvpair(
                                    payload,
                                ) {
                                    Some(p) => spec_dec_body_fields(
                                        kind,
                                        rest.skip(k2),
                                        ReqBodyV { pairs: acc.pairs.push(p), ..acc },
                                    ),
                                    None => None,
                                },
                                BodyKind::ValueList => match spec_dec_value(payload) {
                                    Some(v) => spec_dec_body_fields(
                                        kind,
                                        rest.skip(k2),
                                        ReqBodyV { values: acc.values.push(v), ..acc },
                                    ),
                                    None => None,
                                },
                                BodyKind::StrId => None,
                            }
                        },
                    }
                } else {
                    None
                }
            },
        }
    }
}

/// Reads a whole body message under its kind.
pub open spec fn spec_dec_body(kind: BodyKind, b: Seq<u8>) -> Option<ReqBodyV> {
    spec_dec_body_fields(kind, b, body_default())
}

/// Whether a body is small enough to carry length prefixes.
pub open spec fn body_fits(kind: BodyKind, b: ReqBodyV) -> bool {
    &&& encode_utf8(b.table).len() <= u64::MAX
    &&& match kind {
        BodyKind::Str2 => encode_utf8(b.key).len() <= u64::MAX,
        BodyKind::StrList => forall|i: int|
            0 <= i < b.keys.len() ==> encode_utf8(#[trigger] b.keys[i]).len() <= u64::MAX,
        BodyKind::OptPair => b.pair matches Some(p) ==> kvpair_fits(p) && spec_enc_kvpair(
            p,
        ).len() <= u64::MAX,
        BodyKind::PairList => forall|i: int|
            0 <= i < b.pairs.len() ==> kvpair_fits(#[trigger] b.pairs[i]) && spec_enc_kvpair(
                b.pairs[i],
            ).len() <= u64::MAX,
        BodyKind::ValueList => forall|i: int|
            0 <= i < b.values.len() ==> value_fits(#[trigger] b.values[i]) && spec_enc_value(
                b.values[i],
            ).len() <= u64::MAX,
        BodyKind::StrId => true,
    }
}

/// Reading the leading string field sets the table and moves on.
proof fn lemma_body_step_table(kind: BodyKind, s: Seq<char>, tail: Seq<u8>, acc: ReqBodyV)
    requires
        s.len() > 0,
        encode_utf8(s).len() <= u64::MAX,
    ensures
        spec_dec_body_fields(kind, spec_ld(TAG_BODY_STR, encode_utf8(s)) + tail, acc)
            == spec_dec_body_fields(kind, tail, ReqBodyV { table: s, ..acc }),
{
    broadcast use vstd::utf8::encode_utf8_valid_utf8;
    broadcast use vstd::utf8::encode_utf8_decode_utf8;

    let payload = encode_utf8(s);
    let lenb = spec_varint(payload.len() as u64);
    let whole = spec_ld(TAG_BODY_STR, payload) + tail;
    lemma_varint_roundtrip(TAG_BODY_STR, lenb + payload + tail);
    assert(whole =~= spec_varint(TAG_BODY_STR) + (lenb + payload + tail));
    let k = spec_varint(TAG_BODY_STR).len() as int;
    assert(whole.skip(k) =~= lenb + payload + tail);
    lemma_dec_bytes_roundtrip(payload, tail);
    let k2 = lenb.len() + payload.len() as int;
    assert(whole.skip(k).skip(k2) =~= tail);
}

/// Reading one second-field element folds it in and moves on.
proof fn lemma_body_step_second(kind: BodyKind, payload: Seq<u8>, tail: Seq<u8>, acc: ReqBodyV)
    requires
        kind != BodyKind::StrId,
        payload.len() <= u64::MAX,
        match kind {
            BodyKind::Str2 => valid_utf8(payload),
            BodyKind::StrList => valid_utf8(payload),
            BodyKind::OptPair => crate::wire_resp::spec_dec_kvpair(payload) is Some,
            BodyKind::PairList => crate::wire_resp::spec_dec_kvpair(payload) is Some,
            BodyKind::ValueList => spec_dec_value(payload) is Some,
            BodyKind::StrId => false,
        },
    ensures
        spec_dec_body_fields(kind, spec_ld(TAG_BODY_SECOND, payload) + tail, acc)
            == spec_dec_body_fields(
            kind,
            tail,
            match kind {
                BodyKind::Str2 => ReqBodyV { key: decode_utf8(payload), ..acc },
                BodyKind::StrList => ReqBodyV {
                    keys: acc.keys.push(decode_utf8(payload)),
                    ..acc
                },
                BodyKind::OptPair => ReqBodyV {
                    pair: Some(crate::wire_resp::spec_dec_kvpair(payload)->Some_0),
                    ..acc
                },
                BodyKind::PairList => ReqBodyV {
                    pairs: acc.pairs.push(crate::wire_resp::spec_dec_kvpair(payload)->Some_0),
                    ..acc
                },
                BodyKind::ValueList => ReqBodyV {
                    values: acc.values.push(spec_dec_value(payload)->Some_0),
                    ..acc
                },
                BodyKind::StrId => acc,
            },
        ),
{
    let lenb = spec_varint(payload.len() as u64);
    let whole = spec_ld(TAG_BODY_SECOND, payload) + tail;
    lemma_varint_roundtrip(TAG_BODY_SECOND, lenb + payload + tail);
    assert(whole =~= spec_varint(TAG_BODY_SECOND) + (lenb + payload + tail));
    let k = spec_varint(TAG_BODY_SECOND).len() as int;
    assert(whole.skip(k) =~= lenb + payload + tail);
    lemma_dec_bytes_roundtrip(payload, tail);
    let k2 = lenb.len() + payload.len() as int;
    assert(whole.skip(k).skip(k2) =~= tail);
}

/// Reading the id field sets the id and moves on.
proof fn lemma_body_step_id(id: u32, tail: Seq<u8>, acc: ReqBodyV)
    requires
        id != 0,
    ensures
        spec_dec_body_fields(BodyKind::StrId, spec_u32_field(TAG_BODY_ID, id) + tail, acc)
            == spec_dec_body_fields(BodyKind::StrId, tail, ReqBodyV { id: id, ..acc }),
{
    let body = spec_varint(id as u64);
    let whole = spec_u32_field(TAG_BODY_ID, id) + tail;
    lemma_varint_roundtrip(TAG_BODY_ID, body + tail);
    assert(whole =~= spec_varint(TAG_BODY_ID) + (body + tail));
    let k = spec_varint(TAG_BODY_ID).len() as int;
    assert(whole.skip(k) =~= body + tail);
    lemma_varint_roundtrip(id as u64, tail);
    assert(whole.skip(k).skip(body.len() as int) =~= tail);
}

/// Reading a run of string elements appends them all, in order.
proof fn lemma_body_strs_loop(ks: Seq<Seq<char>>, tail: Seq<u8>, acc: ReqBodyV)
    requires
        forall|i: int|
            0 <= i < ks.len() ==> encode_utf8(#[trigger] ks[i]).len() <= u64::MAX,
    ensures
        spec_dec_body_fields(
            BodyKind::StrList,
            spec_enc_rep_strs(TAG_BODY_SECOND, ks) + tail,
            acc,
        ) == spec_dec_body_fields(
            BodyKind::StrList,
            tail,
            ReqBodyV { keys: acc.keys + ks, ..acc },
        ),
    decreases ks.len(),
{
    broadcast use vstd::utf8::encode_utf8_valid_utf8;
    broadcast use vstd::utf8::encode_utf8_decode_utf8;

    if ks.len() == 0 {
        assert(spec_enc_rep_strs(TAG_BODY_SECOND, ks) + tail =~= tail);
        assert(acc.keys + ks =~= acc.keys);
        assert(ReqBodyV { keys: acc.keys + ks, ..acc } =~= acc);
    } else {
        let head = spec_ld(TAG_BODY_SECOND, encode_utf8(ks[0]));
        let rest = spec_enc_rep_strs(TAG_BODY_SECOND, ks.drop_first());
        assert(spec_enc_rep_strs(TAG_BODY_SECOND, ks) + tail =~= head + (rest + tail));
        lemma_body_step_second(BodyKind::StrList, encode_utf8(ks[0]), rest + tail, acc);
        let acc1 = ReqBodyV { keys: acc.keys.push(ks[0]), ..acc };
        lemma_body_strs_loop(ks.drop_first(), tail, acc1);
        assert(acc1.keys + ks.drop_first() =~= acc.keys + ks);
        assert(ReqBodyV { keys: acc1.keys + ks.drop_first(), ..acc1 } =~= ReqBodyV {
            keys: acc.keys + ks,
            ..acc
        });
    }
}

/// Reading a run of pair elements appends them all, in order.
proof fn lemma_body_pairs_loop(ps: Seq<KvpairV>, tail: Seq<u8>, acc: ReqBodyV)
    requires
        forall|i: int|
            0 <= i < ps.len() ==> kvpair_fits(#[trigger] ps[i]) && spec_enc_kvpair(ps[i]).len()
                <= u64::MAX,
    ensures
        spec_dec_body_fields(
            BodyKind::PairList,
            spec_enc_rep_pairs(TAG_BODY_SECOND, ps) + tail,
            acc,
        ) == spec_dec_body_fields(
            BodyKind::PairList,
            tail,
            ReqBodyV { pairs: acc.pairs + ps, ..acc },
        ),
    decreases ps.len(),
{
    if ps.len() == 0 {
        assert(spec_enc_rep_pairs(TAG_BODY_SECOND, ps) + tail =~= tail);
        assert(acc.pairs + ps =~= acc.pairs);
        assert(ReqBodyV { pairs: acc.pairs + ps, ..acc } =~= acc);
    } else {
        let head = spec_ld(TAG_BODY_SECOND, spec_enc_kvpair(ps[0]));
        let rest = spec_enc_rep_pairs(TAG_BODY_SECOND, ps.drop_first());
        assert(spec_enc_rep_pairs(TAG_BODY_SECOND, ps) + tail =~= head + (rest + tail));
        lemma_kvpair_roundtrip(ps[0]);
        lemma_body_step_second(BodyKind::PairList, spec_enc_kvpair(ps[0]), rest + tail, acc);
        let acc1 = ReqBodyV { pairs: acc.pairs.push(ps[0]), ..acc };
        lemma_body_pairs_loop(ps.drop_first(), tail, acc1);
        assert(acc1.pairs + ps.drop_first() =~= acc.pairs + ps);
        assert(ReqBodyV { pairs: acc1.pairs + ps.drop_first(), ..acc1 } =~= ReqBodyV {
            pairs: acc.pairs + ps,
            ..acc
        });
    }
}

/// Reading a run of value elements appends them all, in order.
proof fn lemma_body_values_loop(vs: Seq<ValueV>, tail: Seq<u8>, acc: ReqBodyV)
    requires
        forall|i: int|
            0 <= i < vs.len() ==> value_fits(#[trigger] vs[i]) && spec_enc_value(vs[i]).len()
                <= u64::MAX,
    ensures
        spec_dec_body_fields(
            BodyKind::ValueList,
            spec_enc_rep_values(TAG_BODY_SECOND, vs) + tail,
            acc,
        ) == spec_dec_body_fields(
            BodyKind::ValueList,
            tail,
            ReqBodyV { values: acc.values + vs, ..acc },
        ),
    decreases vs.len(),
{
    if vs.len() == 0 {
        assert(spec_enc_rep_values(TAG_BODY_SECOND, vs) + tail =~= tail);
        assert(acc.values + vs =~= acc.values);
        assert(ReqBodyV { values: acc.values + vs, ..acc } =~= acc);
    } else {
        let head = spec_ld(TAG_BODY_SECOND, spec_enc_value(vs[0]));
        let rest = spec_enc_rep_values(TAG_BODY_SECOND, vs.drop_first());
        assert(spec_enc_rep_values(TAG_BODY_SECOND, vs) + tail =~= head + (rest + tail));
        lemma_value_roundtrip(vs[0]);
        lemma_body_step_second(BodyKind::ValueList, spec_enc_value(vs[0]), rest + tail, acc);
        let acc1 = ReqBodyV { values: acc.values.push(vs[0]), ..acc };
        lemma_body_values_loop(vs.drop_first(), tail, acc1);
        assert(acc1.values + vs.drop_first() =~= acc.values + vs);
        assert(ReqBodyV { values: acc1.values + vs.drop_first(), ..acc1 } =~= ReqBodyV {
            values: acc.values + vs,
            ..acc
        });
    }
}

/// Decoding a body reads back the fields its kind uses.
pub proof fn lemma_body_roundtrip(kind: BodyKind, b: ReqBodyV)
    requires
        body_fits(kind, b),
    ensures
        spec_dec_body(kind, spec_enc_body(kind, b)) == Some(body_norm(kind, b)),
{
    broadcast use vstd::utf8::encode_utf8_valid_utf8;
    broadcast use vstd::utf8::encode_utf8_decode_utf8;

    let acc0 = body_default();
    let tablepart = spec_str_field(TAG_BODY_STR, b.table);
    let secondpart = spec_enc_body(kind, b).skip(tablepart.len() as int);
    let e = spec_enc_body(kind, b);
    let second: Seq<u8> = match kind {
        BodyKind::Str2 => spec_str_field(TAG_BODY_SECOND, b.key),
        BodyKind::StrList => spec_enc_rep_strs(TAG_BODY_SECOND, b.keys),
        BodyKind::OptPair => match b.pair {
            Some(p) => spec_ld(TAG_BODY_SECOND, spec_enc_kvpair(p)),
            None => Seq::<u8>::empty(),
        },
        BodyKind::PairList => spec_enc_rep_pairs(TAG_BODY_SECOND, b.pairs),
        BodyKind::ValueList => spec_enc_rep_values(TAG_BODY_SECOND, b.values),
        BodyKind::StrId => spec_u32_field(TAG_BODY_ID, b.id),
    };
    let acc1 = if b.table.len() == 0 {
        acc0
    } else {
        ReqBodyV { table: b.table, ..acc0 }
    };
    if b.table.len() == 0 {
        assert(e =~= second);
    } else {
        lemma_body_step_table(kind, b.table, second, acc0);
        assert(e =~= spec_ld(TAG_BODY_STR, encode_utf8(b.table)) + second);
    }
    match kind {
        BodyKind::Str2 => {
            if b.key.len() == 0 {
                assert(second =~= Seq::<u8>::empty());
                assert(acc1 =~= body_norm(kind, b));
            } else {
                assert(second =~= spec_ld(TAG_BODY_SECOND, encode_utf8(b.key))
                    + Seq::<u8>::empty());
                lemma_body_step_second(kind, encode_utf8(b.key), Seq::<u8>::empty(), acc1);
                assert(ReqBodyV { key: b.key, ..acc1 } =~= body_norm(kind, b));
            }
        },
        BodyKind::StrList => {
            assert(second =~= spec_enc_rep_strs(TAG_BODY_SECOND, b.keys) + Seq::<u8>::empty());
            lemma_body_strs_loop(b.keys, Seq::<u8>::empty(), acc1);
            assert(ReqBodyV { keys: acc1.keys + b.keys, ..acc1 } =~= body_norm(kind, b));
        },
        BodyKind::OptPair => {
            match b.pair {
                Some(p) => {
                    assert(second =~= spec_ld(TAG_BODY_SECOND, spec_enc_kvpair(p))
                        + Seq::<u8>::empty());
                    lemma_kvpair_roundtrip(p);
                    lemma_body_step_second(kind, spec_enc_kvpair(p), Seq::<u8>::empty(), acc1);
                    assert(ReqBodyV { pair: Some(p), ..acc1 } =~= body_norm(kind, b));
                },
                None => {
                    assert(second =~= Seq::<u8>::empty());
                    assert(acc1 =~= body_norm(kind, b));
                },
            }
        },
        BodyKind::PairList => {
            assert(second =~= spec_enc_rep_pairs(TAG_BODY_SECOND, b.pairs) + Seq::<u8>::empty());
            lemma_body_pairs_loop(b.pairs, Seq::<u8>::empty(), acc1);
            assert(ReqBodyV { pairs: acc1.pairs + b.pairs, ..acc1 } =~= body_norm(kind, b));
        },
        BodyKind::ValueList => {
            assert(second =~= spec_enc_rep_values(TAG_BODY_SECOND, b.values)
                + Seq::<u8>::empty());
            lemma_body_values_loop(b.values, Seq::<u8>::empty(), acc1);
            assert(ReqBodyV { values: acc1.values + b.values, ..acc1 } =~= body_norm(kind, b));
        },
        BodyKind::StrId => {
            if b.id == 0 {
                assert(second =~= Seq::<u8>::empty());
                assert(acc1 =~= body_norm(kind, b));
            } else {
                lemma_body_step_id(b.id, Seq::<u8>::empty(), acc1);
                assert(second =~= spec_u32_field(TAG_BODY_ID, b.id) + Seq::<u8>::empty());
                assert(ReqBodyV { id: b.id, ..acc1 } =~= body_norm(kind, b));
            }
        },
    }
}

/// Wire tags of the request union: one field per variant.
pub const TAG_REQ_HGET: u64 = 10;

pub const TAG_REQ_HGETALL: u64 = 18;

pub const TAG_REQ_HMGET: u64 = 26;

pub const TAG_REQ_HSET: u64 = 34;

pub const TAG_REQ_HMSET: u64 = 42;

pub const TAG_REQ_HDEL: u64 = 50;

pub const TAG_REQ_HMDEL: u64 = 58;

pub const TAG_REQ_HEXIST: u64 = 66;

pub const TAG_REQ_HMEXIST: u64 = 74;

pub const TAG_REQ_SUBSCRIBE: u64 = 82;

pub const TAG_REQ_UNSUBSCRIBE: u64 = 90;

pub const TAG_REQ_PUBLISH: u64 = 98;

/// The body kind of each variant.
pub open spec fn req_kind(rd: RequestDataV) -> BodyKind {
    match rd {
        RequestDataV::Hget(_) => BodyKind::Str2,
        RequestDataV::Hgetall(_) => BodyKind::Str2,
        RequestDataV::Hmget(_) => BodyKind::StrList,
        RequestDataV::Hset(_) => BodyKind::OptPair,
        RequestDataV::Hmset(_) => BodyKind::PairList,
        RequestDataV::Hdel(_) => BodyKind::Str2,
        RequestDataV::Hmdel(_) => BodyKind::StrList,
        RequestDataV::Hexist(_) => BodyKind::Str2,
        RequestDataV::Hmexist(_) => BodyKind::StrList,
        RequestDataV::Subscribe(_) => BodyKind::Str2,
        RequestDataV::Unsubscribe(_) => BodyKind::StrId,
        RequestDataV::Publish(_) => BodyKind::ValueList,
    }
}

/// The union tag of each variant.
pub open spec fn req_tag(rd: RequestDataV) -> u64 {
    match rd {
        RequestDataV::Hget(_) => TAG_REQ_HGET,
        RequestDataV::Hgetall(_) => TAG_REQ_HGETALL,
        RequestDataV::Hmget(_) => TAG_REQ_HMGET,
        RequestDataV::Hset(_) => TAG_REQ_HSET,
        RequestDataV::Hmset(_) => TAG_REQ_HMSET,
        RequestDataV::Hdel(_) => TAG_REQ_HDEL,
        RequestDataV::Hmdel(_) => TAG_REQ_HMDEL,
        RequestDataV::Hexist(_) => TAG_REQ_HEXIST,
        RequestDataV::Hmexist(_) => TAG_REQ_HMEXIST,
        RequestDataV::Subscribe(_) => TAG_REQ_SUBSCRIBE,
        RequestDataV::Unsubscribe(_) => TAG_REQ_UNSUBSCRIBE,
        RequestDataV::Publish(_) => TAG_REQ_PUBLISH,
    }
}

/// The body record each variant writes.
pub open spec fn req_body_of(rd: RequestDataV) -> ReqBodyV {
    match rd {
        RequestDataV::Hget(q) => ReqBodyV { table: q.table, key: q.key, ..body_default() },
        RequestDataV::Hgetall(q) => ReqBodyV { table: q.table, ..body_default() },
        RequestDataV::Hmget(q) => ReqBodyV { table: q.table, keys: q.keys, ..body_default() },
        RequestDataV::Hset(q) => ReqBodyV { table: q.table, pair: q.pair, ..body_default() },
        RequestDataV::Hmset(q) => ReqBodyV { table: q.table, pairs: q.pairs, ..body_default() },
        RequestDataV::Hdel(q) => ReqBodyV { table: q.table, key: q.key, ..body_default() },
        RequestDataV::Hmdel(q) => ReqBodyV { table: q.table, keys: q.keys, ..body_default() },
        RequestDataV::Hexist(q) => ReqBodyV { table: q.table, key: q.key, ..body_default() },
        RequestDataV::Hmexist(q) => ReqBodyV { table: q.table, keys: q.keys, ..body_default() },
        RequestDataV::Subscribe(q) => ReqBodyV { table: q.topic, ..body_default() },
        RequestDataV::Unsubscribe(q) => ReqBodyV { table: q.topic, id: q.id, ..body_default() },
        RequestDataV::Publish(q) => ReqBodyV { table: q.topic, values: q.data, ..body_default() },
    }
}

/// The kind a union tag announces, for the tags the schema knows.
pub open spec fn tag_kind(tag: u64) -> BodyKind {
    if tag == TAG_REQ_HMGET || tag == TAG_REQ_HMDEL || tag == TAG_REQ_HMEXIST {
        BodyKind::StrList
    } else if tag == TAG_REQ_HSET {
        BodyKind::OptPair
    } else if tag == TAG_REQ_HMSET {
        BodyKind::PairList
    } else if tag == TAG_REQ_UNSUBSCRIBE {
        BodyKind::StrId
    } else if tag == TAG_REQ_PUBLISH {
        BodyKind::ValueList
    } else {
        BodyKind::Str2
    }
}

/// The variant a union tag and its decoded body denote.
pub open spec fn variant_of(tag: u64, b: ReqBodyV) -> RequestDataV {
    if tag == TAG_REQ_HGET {
        RequestDataV::Hget(HgetV { table: b.table, key: b.key })
    } else if tag == TAG_REQ_HGETALL {
        RequestDataV::Hgetall(HgetallV { table: b.table })
    } else if tag == TAG_REQ_HMGET {
        RequestDataV::Hmget(HmgetV { table: b.table, keys: b.keys })
    } else if tag == TAG_REQ_HSET {
        RequestDataV::Hset(HsetV { table: b.table, pair: b.pair })
    } else if tag == TAG_REQ_HMSET {
        RequestDataV::Hmset(HmsetV { table: b.table, pairs: b.pairs })
    } else if tag == TAG_REQ_HDEL {
        RequestDataV::Hdel(HdelV { table: b.table, key: b.key })
    } else if tag == TAG_REQ_HMDEL {
        RequestDataV::Hmdel(HmdelV { table: b.table, keys: b.keys })
    } else if tag == TAG_REQ_HEXIST {
        RequestDataV::Hexist(HexistV { table: b.table, key: b.key })
    } else if tag == TAG_REQ_HMEXIST {
        RequestDataV::Hmexist(HmexistV { table: b.table, keys: b.keys })
    } else if tag == TAG_REQ_SUBSCRIBE {
        RequestDataV::Subscribe(SubscribeV { topic: b.table })
    } else if tag == TAG_REQ_UNSUBSCRIBE {
        RequestDataV::Unsubscribe(UnsubscribeV { topic: b.table, id: b.id })
    } else {
        RequestDataV::Publish(PublishV { topic: b.table, data: b.values })
    }
}

/// Whether a union tag is one of the schema's.
pub open spec fn known_req_tag(tag: u64) -> bool {
    tag == TAG_REQ_HGET || tag == TAG_REQ_HGETALL || tag == TAG_REQ_HMGET || tag == TAG_REQ_HSET
        || tag == TAG_REQ_HMSET || tag == TAG_REQ_HDEL || tag == TAG_REQ_HMDEL || tag
        == TAG_REQ_HEXIST || tag == TAG_REQ_HMEXIST || tag == TAG_REQ_SUBSCRIBE || tag
        == TAG_REQ_UNSUBSCRIBE || tag == TAG_REQ_PUBLISH
}

/// The wire form of a request: nothing when it carries no data, else the
/// one field of its variant.
pub open spec fn spec_enc_request(req: Option<RequestDataV>) -> Seq<u8> {
    match req {
        None => Seq::<u8>::empty(),
        Some(rd) => spec_ld(req_tag(rd), spec_enc_body(req_kind(rd), req_body_of(rd))),
    }
}

/// Reads a request's fields; a later union field overrides an earlier
/// one, and no field at all is a request without data.
pub open spec fn spec_dec_request_fields(b: Seq<u8>, acc: Option<RequestDataV>) -> Option<
    Option<RequestDataV>,
>
    decreases b.len(),
{
    if b.len() == 0 {
        Some(acc)
    } else {
        match spec_varint_dec(b) {
            None => None,
            Some((tag, k)) => if !(1 <= k <= b.len()) {
                None
            } else if !known_req_tag(tag) {
                None
            } else {
                let rest = b.skip(k);
                match spec_dec_bytes(rest) {
                    None => None,
                    Some((payload, k2)) => if !(1 <= k2 <= rest.len()) {
                        None
                    } else {
                        match spec_dec_body(tag_kind(tag), payload) {
                            Some(body) => spec_dec_request_fields(
                                rest.skip(k2),
                                Some(variant_of(tag, body)),
                            ),
                            None => None,
                        }
                    },
                }
            },
        }
    }
}

/// Reads a whole request message.
pub open spec fn spec_dec_request(b: Seq<u8>) -> Option<Option<RequestDataV>> {
    spec_dec_request_fields(b, None)
}

/// Whether a request is small enough to carry length prefixes.
pub open spec fn request_fits(req: Option<RequestDataV>) -> bool {
    match req {
        None => true,
        Some(rd) => body_fits(req_kind(rd), req_body_of(rd)) && spec_enc_body(
            req_kind(rd),
            req_body_of(rd),
        ).len() <= u64::MAX,
    }
}

/// Decoding a request reads back exactly the request encoded.
#[verifier::rlimit(60)]
pub proof fn lemma_request_roundtrip(req: Option<RequestDataV>)
    requires
        request_fits(req),
    ensures
        spec_dec_request(spec_enc_request(req)) == Some(req),
{
    reveal_with_fuel(spec_dec_request_fields, 3);
    let e = spec_enc_request(req);
    match req {
        None => {
        },
        Some(rd) => {
            let tag = req_tag(rd);
            let kind = req_kind(rd);
            let body = req_body_of(rd);
            let payload = spec_enc_body(kind, body);
            let lenb = spec_varint(payload.len() as u64);
            lemma_varint_roundtrip(tag, lenb + payload + Seq::<u8>::empty());
            assert(e =~= spec_varint(tag) + (lenb + payload + Seq::<u8>::empty()));
            let k = spec_varint(tag).len() as int;
            assert(e.skip(k) =~= lenb + payload + Seq::<u8>::empty());
            lemma_dec_bytes_roundtrip(payload, Seq::<u8>::empty());
            let k2 = lenb.len() + payload.len() as int;
            assert(e.skip(k).skip(k2) =~= Seq::<u8>::empty());
            assert(tag_kind(tag) == kind);
            lemma_body_roundtrip(kind, body);
            assert(body_norm(kind, body) =~= body);
            assert(variant_of(tag, body) =~= rd);
        },
    }
}

/// Appends a run of string elements.
fn enc_rep_strs(tag: u64, ks: &Vec<String>, out: &mut Vec<u8>)
    ensures
        final(out)@ == old(out)@ + spec_enc_rep_strs(tag, keys_view(ks@)),
{
    let ghost mark = out@;
    let mut i: usize = 0;
    proof {
        assert(out@ =~= mark + spec_enc_rep_strs(tag, keys_view(ks@).take(0)));
    }
    while i < ks.len()
        invariant
            i <= ks@.len(),
            out@ == mark + spec_enc_rep_strs(tag, keys_view(ks@).take(i as int)),
        decreases ks@.len() - i,
    {
        varint_enc(tag, out);
        let mut payload = crate::wire::string_bytes(ks[i].as_str());
        varint_enc(payload.len() as u64, out);
        out.append(&mut payload);
        i = i + 1;
        proof {
            let kv = keys_view(ks@);
            lemma_rep_strs_take_step(tag, kv, i - 1);
            assert(out@ =~= mark + spec_enc_rep_strs(tag, kv.take(i as int)));
        }
    }
    proof {
        assert(keys_view(ks@).take(ks@.len() as int) =~= keys_view(ks@));
    }
}

/// Appends a run of pair elements.
fn enc_rep_pairs_run(tag: u64, ps: &Vec<Kvpair>, out: &mut Vec<u8>)
    ensures
        final(out)@ == old(out)@ + spec_enc_rep_pairs(tag, pairs_view(ps@)),
{
    let ghost mark = out@;
    let mut i: usize = 0;
    proof {
        assert(out@ =~= mark + spec_enc_rep_pairs(tag, pairs_view(ps@).take(0)));
    }
    while i < ps.len()
        invariant
            i <= ps@.len(),
            out@ == mark + spec_enc_rep_pairs(tag, pairs_view(ps@).take(i as int)),
        decreases ps@.len() - i,
    {
        varint_enc(tag, out);
        let mut payload: Vec<u8> = Vec::new();
        enc_kvpair(&ps[i], &mut payload);
        proof {
            assert(payload@ =~= spec_enc_kvpair(ps@[i as int]@));
        }
        varint_enc(payload.len() as u64, out);
        out.append(&mut payload);
        i = i + 1;
        proof {
            let pv = pairs_view(ps@);
            lemma_rep_pairs_take_step(tag, pv, i - 1);
            assert(out@ =~= mark + spec_enc_rep_pairs(tag, pv.take(i as int)));
        }
    }
    proof {
        assert(pairs_view(ps@).take(ps@.len() as int) =~= pairs_view(ps@));
    }
}

/// Appends a run of value elements.
fn enc_rep_values_run(tag: u64, vs: &Vec<Value>, out: &mut Vec<u8>)
    ensures
        final(out)@ == old(out)@ + spec_enc_rep_values(tag, values_view(vs@)),
{
    let ghost mark = out@;
    let mut i: usize = 0;
    proof {
        assert(out@ =~= mark + spec_enc_rep_values(tag, values_view(vs@).take(0)));
    }
    while i < vs.len()
        invariant
            i <= vs@.len(),
            out@ == mark + spec_enc_rep_values(tag, values_view(vs@).take(i as int)),
        decreases vs@.len() - i,
    {
        varint_enc(tag, out);
        let mut payload: Vec<u8> = Vec::new();
        enc_value(&vs[i], &mut payload);
        proof {
            assert(payload@ =~= spec_enc_value(vs@[i as int]@));
        }
        varint_enc(payload.len() as u64, out);
        out.append(&mut payload);
        i = i + 1;
        proof {
            let vv = values_view(vs@);
            lemma_rep_values_take_step(tag, vv, i - 1);
            assert(out@ =~= mark + spec_enc_rep_values(tag, vv.take(i as int)));
        }
    }
    proof {
        assert(values_view(vs@).take(vs@.len() as int) =~= values_view(vs@));
    }
}

/// Appends the wire form of a request.
#[verifier::rlimit(80)]
pub fn enc_request(r: &CommandRequest, out: &mut Vec<u8>)
    ensures
        final(out)@ == old(out)@ + spec_enc_request(r@),
{
    match &r.request_data {
        None => {
            proof {
                assert(out@ =~= old(out)@ + spec_enc_request(r@));
            }
        },
        Some(rd) => {
            let mut payload: Vec<u8> = Vec::new();
            let tag: u64 = match rd {
                RequestData::Hget(q) => {
                    enc_str_field(TAG_BODY_STR, q.table.as_str(), &mut payload);
                    enc_str_field(TAG_BODY_SECOND, q.key.as_str(), &mut payload);
                    TAG_REQ_HGET
                },
                RequestData::Hgetall(q) => {
                    enc_str_field(TAG_BODY_STR, q.table.as_str(), &mut payload);
                    TAG_REQ_HGETALL
                },
                RequestData::Hmget(q) => {
                    enc_str_field(TAG_BODY_STR, q.table.as_str(), &mut payload);
                    enc_rep_strs(TAG_BODY_SECOND, &q.keys, &mut payload);
                    TAG_REQ_HMGET
                },
                RequestData::Hset(q) => {
                    enc_str_field(TAG_BODY_STR, q.table.as_str(), &mut payload);
                    match &q.pair {
                        Some(p) => {
                            varint_enc(TAG_BODY_SECOND, &mut payload);
                            let mut sub: Vec<u8> = Vec::new();
                            enc_kvpair(p, &mut sub);
                            proof {
                                assert(sub@ =~= spec_enc_kvpair(p@));
                            }
                            varint_enc(sub.len() as u64, &mut payload);
                            payload.append(&mut sub);
                        },
                        None => {},
                    }
                    TAG_REQ_HSET
                },
                RequestData::Hmset(q) => {
                    enc_str_field(TAG_BODY_STR, q.table.as_str(), &mut payload);
                    enc_rep_pairs_run(TAG_BODY_SECOND, &q.pairs, &mut payload);
                    TAG_REQ_HMSET
                },
                RequestData::Hdel(q) => {
                    enc_str_field(TAG_BODY_STR, q.table.as_str(), &mut payload);
                    enc_str_field(TAG_BODY_SECOND, q.key.as_str(), &mut payload);
                    TAG_REQ_HDEL
                },
                RequestData::Hmdel(q) => {
                    enc_str_field(TAG_BODY_STR, q.table.as_str(), &mut payload);
                    enc_rep_strs(TAG_BODY_SECOND, &q.keys, &mut payload);
                    TAG_REQ_HMDEL
                },
                RequestData::Hexist(q) => {
                    enc_str_field(TAG_BODY_STR, q.table.as_str(), &mut payload);
                    enc_str_field(TAG_BODY_SECOND, q.key.as_str(), &mut payload);
                    TAG_REQ_HEXIST
                },
                RequestData::Hmexist(q) => {
                    enc_str_field(TAG_BODY_STR, q.table.as_str(), &mut payload);
                    enc_rep_strs(TAG_BODY_SECOND, &q.keys, &mut payload);
                    TAG_REQ_HMEXIST
                },
                RequestData::Subscribe(q) => {
                    enc_str_field(TAG_BODY_STR, q.topic.as_str(), &mut payload);
                    TAG_REQ_SUBSCRIBE
                },
                RequestData::Unsubscribe(q) => {
                    enc_str_field(TAG_BODY_STR, q.topic.as_str(), &mut payload);
                    if q.id != 0 {
                        varint_enc(TAG_BODY_ID, &mut payload);
                        varint_enc(q.id as u64, &mut payload);
                    }
                    TAG_REQ_UNSUBSCRIBE
                },
                RequestData::Publish(q) => {
                    enc_str_field(TAG_BODY_STR, q.topic.as_str(), &mut payload);
                    enc_rep_values_run(TAG_BODY_SECOND, &q.data, &mut payload);
                    TAG_REQ_PUBLISH
                },
            };
            proof {
                let rdv = r@->Some_0;
                assert(payload@ =~= spec_enc_body(req_kind(rdv), req_body_of(rdv)));
                assert(tag == req_tag(rdv));
            }
            varint_enc(tag, out);
            varint_enc(payload.len() as u64, out);
            out.append(&mut payload);
            proof {
                assert(out@ =~= old(out)@ + spec_enc_request(r@));
            }
        },
    }
}

/// The fields a body can carry, as read off the wire.
struct ReqBody {
    table: String,
    key: String,
    keys: Vec<String>,
    pair: Option<Kvpair>,
    pairs: Vec<Kvpair>,
    values: Vec<Value>,
    id: u32,
}

impl View for ReqBody {
    type V = ReqBodyV;

    closed spec fn view(&self) -> ReqBodyV {
        ReqBodyV {
            table: self.table@,
            key: self.key@,
            keys: keys_view(self.keys@),
            pair: match &self.pair {
                Some(p) => Some(p@),
                None => None,
            },
            pairs: pairs_view(self.pairs@),
            values: values_view(self.values@),
            id: self.id,
        }
    }
}

/// Reads a body message under its kind, given exactly its bytes.
fn dec_body(kind: BodyKind, b: &[u8]) -> (r: Option<ReqBody>)
    ensures
        match (r, spec_dec_body(kind, b@)) {
            (Some(body), Some(sb)) => body@ == sb,
            (None, None) => true,
            _ => false,
        },
{
    let acc = ReqBody {
        table: String::new(),
        key: String::new(),
        keys: Vec::new(),
        pair: None,
        pairs: Vec::new(),
        values: Vec::new(),
        id: 0,
    };
    proof {
        assert(b@.skip(0) =~= b@);
        assert(acc@ =~= body_default());
    }
    dec_body_fields(kind, b, 0, acc)
}

/// Reads a body's fields from `pos` on, folding them into `acc`.
fn dec_body_fields(kind: BodyKind, b: &[u8], pos: usize, acc: ReqBody) -> (r: Option<ReqBody>)
    requires
        pos <= b@.len(),
    ensures
        match (r, spec_dec_body_fields(kind, b@.skip(pos as int), acc@)) {
            (Some(body), Some(sb)) => body@ == sb,
            (None, None) => true,
            _ => false,
        },
    decreases b@.len() - pos,
{
    let total = b.len();
    let ghost tail = b@.skip(pos as int);
    if pos == total {
        return Some(acc);
    }
    match varint_dec(b, pos) {
        None => None,
        Some((tag, k)) => {
            proof {
                assert(tail.skip(k as int) =~= b@.skip(pos + k));
            }
            if tag == TAG_BODY_STR {
                match dec_bytes(b, pos + k) {
                    None => None,
                    Some((payload, k2)) => {
                        proof {
                            assert(tail.skip(k as int).skip(k2 as int) =~= b@.skip(
                                pos + k + k2,
                            ));
                        }
                        match bytes_to_string(payload) {
                            Some(s) => {
                                proof {
                                    broadcast use vstd::utf8::encode_utf8_valid_utf8;

                                    vstd::utf8::decode_utf8_encode_utf8(encode_utf8(s@));
                                    vstd::utf8::encode_utf8_decode_utf8(s@);
                                }
                                let mut acc2 = acc;
                                acc2.table = s;
                                dec_body_fields(kind, b, pos + k + k2, acc2)
                            },
                            None => None,
                        }
                    },
                }
            } else if tag == TAG_BODY_ID && matches!(kind, BodyKind::StrId) {
                match varint_dec(b, pos + k) {
                    None => None,
                    Some((v, k2)) => {
                        proof {
                            assert(tail.skip(k as int).skip(k2 as int) =~= b@.skip(
                                pos + k + k2,
                            ));
                        }
                        let mut acc2 = acc;
                        acc2.id = (v % 0x1_0000_0000) as u32;
                        dec_body_fields(kind, b, pos + k + k2, acc2)
                    },
                }
            } else if tag == TAG_BODY_SECOND && !matches!(kind, BodyKind::StrId) {
                match dec_bytes(b, pos + k) {
                    None => None,
                    Some((payload, k2)) => {
                        proof {
                            assert(tail.skip(k as int).skip(k2 as int) =~= b@.skip(
                                pos + k + k2,
                            ));
                        }
                        match kind {
                            BodyKind::Str2 => match bytes_to_string(payload) {
                                Some(s) => {
                                    proof {
                                        broadcast use vstd::utf8::encode_utf8_valid_utf8;

                                        vstd::utf8::decode_utf8_encode_utf8(encode_utf8(s@));
                                        vstd::utf8::encode_utf8_decode_utf8(s@);
                                    }
                                    let mut acc2 = acc;
                                    acc2.key = s;
                                    dec_body_fields(kind, b, pos + k + k2, acc2)
                                },
                                None => None,
                            },
                            BodyKind::StrList => match bytes_to_string(payload) {
                                Some(s) => {
                                    proof {
                                        broadcast use vstd::utf8::encode_utf8_valid_utf8;

                                        vstd::utf8::decode_utf8_encode_utf8(encode_utf8(s@));
                                        vstd::utf8::encode_utf8_decode_utf8(s@);
                                    }
                                    let mut acc2 = acc;
                                    acc2.keys.push(s);
                                    proof {
                                        assert(keys_view(acc2.keys@) =~= keys_view(
                                            acc.keys@,
                                        ).push(s@));
                                    }
                                    dec_body_fields(kind, b, pos + k + k2, acc2)
                                },
                                None => None,
                            },
                            BodyKind::OptPair => match dec_kvpair(payload.as_slice()) {
                                Some(p) => {
                                    let mut acc2 = acc;
                                    acc2.pair = Some(p);
                                    dec_body_fields(kind, b, pos + k + k2, acc2)
                                },
                                None => None,
                            },
                            BodyKind::PairList => match dec_kvpair(payload.as_slice()) {
                                Some(p) => {
                                    let mut acc2 = acc;
                                    acc2.pairs.push(p);
                                    proof {
                                        assert(pairs_view(acc2.pairs@) =~= pairs_view(
                                            acc.pairs@,
                                        ).push(p@));
                                    }
                                    dec_body_fields(kind, b, pos + k + k2, acc2)
                                },
                                None => None,
                            },
                            BodyKind::ValueList => match dec_value(payload.as_slice()) {
                                Some(v) => {
                                    let mut acc2 = acc;
                                    acc2.values.push(v);
                                    proof {
                                        assert(values_view(acc2.values@) =~= values_view(
                                            acc.values@,
                                        ).push(v@));
                                    }
                                    dec_body_fields(kind, b, pos + k + k2, acc2)
                                },
                                None => None,
                            },
                            BodyKind::StrId => None,
                        }
                    },
                }
            } else {
                None
            }
        },
    }
}

/// Reads a request message, given exactly its bytes.
pub fn dec_request(b: &[u8]) -> (r: Option<CommandRequest>)
    ensures
        match (r, spec_dec_request(b@)) {
            (Some(v), Some(sv)) => v@ == sv,
            (None, None) => true,
            _ => false,
        },
{
    proof {
        assert(b@.skip(0) =~= b@);
    }
    dec_request_fields(b, 0, CommandRequest { request_data: None })
}

/// Reads a request's fields from `pos` on, folding them into `acc`.
#[verifier::rlimit(100)]
fn dec_request_fields(b: &[u8], pos: usize, acc: CommandRequest) -> (r: Option<CommandRequest>)
    requires
        pos <= b@.len(),
    ensures
        match (r, spec_dec_request_fields(b@.skip(pos as int), acc@)) {
            (Some(v), Some(sv)) => v@ == sv,
            (None, None) => true,
            _ => false,
        },
    decreases b@.len() - pos,
{
    let total = b.len();
    let ghost tail = b@.skip(pos as int);
    if pos == total {
        return Some(acc);
    }
    match varint_dec(b, pos) {
        None => None,
        Some((tag, k)) => {
            proof {
                assert(tail.skip(k as int) =~= b@.skip(pos + k));
            }
            if tag == TAG_REQ_HGET || tag == TAG_REQ_HGETALL || tag == TAG_REQ_HMGET || tag
                == TAG_REQ_HSET || tag == TAG_REQ_HMSET || tag == TAG_REQ_HDEL || tag
                == TAG_REQ_HMDEL || tag == TAG_REQ_HEXIST || tag == TAG_REQ_HMEXIST || tag
                == TAG_REQ_SUBSCRIBE || tag == TAG_REQ_UNSUBSCRIBE || tag == TAG_REQ_PUBLISH {
                match dec_bytes(b, pos + k) {
                    None => None,
                    Some((payload, k2)) => {
                        proof {
                            assert(tail.skip(k as int).skip(k2 as int) =~= b@.skip(
                                pos + k + k2,
                            ));
                        }
                        let kind: BodyKind = if tag == TAG_REQ_HMGET || tag == TAG_REQ_HMDEL
                            || tag == TAG_REQ_HMEXIST {
                            BodyKind::StrList
                        } else if tag == TAG_REQ_HSET {
                            BodyKind::OptPair
                        } else if tag == TAG_REQ_HMSET {
                            BodyKind::PairList
                        } else if tag == TAG_REQ_UNSUBSCRIBE {
                            BodyKind::StrId
                        } else if tag == TAG_REQ_PUBLISH {
                            BodyKind::ValueList
                        } else {
                            BodyKind::Str2
                        };
                        match dec_body(kind, payload.as_slice()) {
                            None => None,
                            Some(body) => {
                                let rd: RequestData = if tag == TAG_REQ_HGET {
                                    RequestData::Hget(
                                        Hget { table: body.table, key: body.key },
                                    )
                                } else if tag == TAG_REQ_HGETALL {
                                    RequestData::Hgetall(Hgetall { table: body.table })
                                } else if tag == TAG_REQ_HMGET {
                                    RequestData::Hmget(
                                        Hmget { table: body.table, keys: body.keys },
                                    )
                                } else if tag == TAG_REQ_HSET {
                                    RequestData::Hset(
                                        Hset { table: body.table, pair: body.pair },
                                    )
                                } else if tag == TAG_REQ_HMSET {
                                    RequestData::Hmset(
                                        Hmset { table: body.table, pairs: body.pairs },
                                    )
                                } else if tag == TAG_REQ_HDEL {
                                    RequestData::Hdel(
                                        Hdel { table: body.table, key: body.key },
                                    )
                                } else if tag == TAG_REQ_HMDEL {
                                    RequestData::Hmdel(
                                        Hmdel { table: body.table, keys: body.keys },
                                    )
                                } else if tag == TAG_REQ_HEXIST {
                                    RequestData::Hexist(
                                        Hexist { table: body.table, key: body.key },
                                    )
                                } else if tag == TAG_REQ_HMEXIST {
                                    RequestData::Hmexist(
                                        Hmexist { table: body.table, keys: body.keys },
                                    )
                                } else if tag == TAG_REQ_SUBSCRIBE {
                                    RequestData::Subscribe(Subscribe { topic: body.table })
                                } else if tag == TAG_REQ_UNSUBSCRIBE {
                                    RequestData::Unsubscribe(
                                        Unsubscribe { topic: body.table, id: body.id },
                                    )
                                } else {
                                    RequestData::Publish(
                                        Publish { topic: body.table, data: body.values },
                                    )
                                };
                                dec_request_fields(
                                    b,
                                    pos + k + k2,
                                    CommandRequest { request_data: Some(rd) },
                                )
                            },
                        }
                    },
                }
            } else {
                None
            }
        },
    }
}

} // verus!
