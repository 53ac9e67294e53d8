//! Base-128 variable-length integers, the primitive of the wire format.
//! A value is written seven bits at a time, least significant group
//! first, the high bit of a byte marking that another byte follows.

use vstd::prelude::*;

verus! {

/// The bytes of a value.
pub open spec fn spec_varint(n: u64) -> Seq<u8>
    decreases n,
{
    if n < 128 {
        seq![n as u8]
    } else {
        seq![(128 + (n % 128)) as u8] + spec_varint(n / 128)
    }
}

/// The value read from the front of a byte sequence, and how many bytes
/// it took; `None` when the sequence ends inside the value or the value
/// does not fit 64 bits.
pub open spec fn spec_varint_dec(b: Seq<u8>) -> Option<(u64, int)>
    decreases b.len(),
{
    if b.len() == 0 {
        None
    } else if b[0] < 128 {
        Some((b[0] as u64, 1))
    } else {
        match spec_varint_dec(b.drop_first()) {
            Some((v, k)) => {
                let val = (b[0] - 128) + 128 * (v as int);
                if val <= u64::MAX {
                    Some((val as u64, k + 1))
                } else {
                    None
                }
            },
            None => None,
        }
    }
}

/// Decoding reads back exactly what was encoded, whatever follows it.
pub proof fn lemma_varint_roundtrip(n: u64, rest: Seq<u8>)
    ensures
        spec_varint_dec(spec_varint(n) + rest) == Some((n, spec_varint(n).len() as int)),
    decreases n,
{
    let e = spec_varint(n);
    if n < 128 {
        assert((e + rest)[0] == n as u8);
    } else {
        let b0: u8 = (128 + (n % 128)) as u8;
        assert((e + rest)[0] == b0);
        assert((e + rest).drop_first() =~= spec_varint(n / 128) + rest);
        lemma_varint_roundtrip(n / 128, rest);
        assert(n == 128 * (n / 128) + n % 128) by {
            vstd::arithmetic::div_mod::lemma_fundamental_div_mod(n as int, 128);
        }
    }
}

/// Appends the encoding of `n`.
pub fn varint_enc(n: u64, out: &mut Vec<u8>)
    ensures
        final(out)@ == old(out)@ + spec_varint(n),
    decreases n,
{
    if n < 128 {
        out.push(n as u8);
        proof {
            assert(out@ =~= old(out)@ + spec_varint(n));
        }

    } else {
        let ghost mid = out@;
        out.push((128 + (n % 128)) as u8);
        varint_enc(n / 128, out);
        proof {
            assert(out@ =~= old(out)@ + spec_varint(n));
        }
    }
}

/// Reads a value from position `pos`, returning it and how many bytes it
/// took, exactly as the wire specification says.
pub fn varint_dec(b: &[u8], pos: usize) -> (r: Option<(u64, usize)>)
    requires
        pos <= b@.len(),
    ensures
        spec_varint_dec(b@.skip(pos as int)) == (match r {
            Some((v, k)) => Some((v, k as int)),
            None => None::<(u64, int)>,
        }),
        r matches Some(p) ==> pos + p.1 <= b@.len() && p.1 >= 1,
    decreases b@.len() - pos,
{
    let ghost tail = b@.skip(pos as int);
    if pos == b.len() {
        return None;
    }
    let b0 = *vstd::slice::slice_index_get(b, pos);
    proof {
        assert(tail[0] == b@[pos as int]);
    }
    if b0 < 128 {
        Some((b0 as u64, 1))
    } else {
        proof {
            assert(tail.drop_first() =~= b@.skip(pos + 1));
        }
        match varint_dec(b, pos + 1) {
            Some((v, k)) => {
                let c = (b0 - 128) as u64;
                if v <= (u64::MAX - c) / 128 {
                    proof {
                        assert(c + 128 * v <= u64::MAX) by (nonlinear_arith)
                            requires
                                v <= (u64::MAX - c) / 128,
                                c < 128,
                        {
                            vstd::arithmetic::div_mod::lemma_fundamental_div_mod(
                                (u64::MAX - c) as int,
                                128,
                            );
                        }
                    }
                    Some((c + 128 * v, k + 1))
                } else {
                    proof {
                        assert(!(c + 128 * v <= u64::MAX)) by (nonlinear_arith)
                            requires
                                v > (u64::MAX - c) / 128,
                                c < 128,
                        {
                            vstd::arithmetic::div_mod::lemma_fundamental_div_mod(
                                (u64::MAX - c) as int,
                                128,
                            );
                        }
                    }
                    None
                }
            },
            None => None,
        }
    }
}

} // verus!
