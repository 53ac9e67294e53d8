//! Decimal rendering of integers, used to build error messages.

use vstd::prelude::*;
use vstd::string::StringExecFns;

verus! {

/// The character of a single decimal digit.
pub open spec fn spec_digit_char(d: nat) -> char {
    ((48 + d) as u8) as char
}

/// The decimal digits of a natural number, most significant first.
pub open spec fn spec_u64_dec(n: nat) -> Seq<char>
    decreases n,
{
    if n < 10 {
        seq![spec_digit_char(n)]
    } else {
        spec_u64_dec(n / 10) + seq![spec_digit_char(n % 10)]
    }
}

/// The decimal rendering of a signed integer: a minus sign for negative
/// numbers, then the digits of the magnitude.
pub open spec fn spec_i64_dec(i: int) -> Seq<char> {
    if i < 0 {
        seq!['-'] + spec_u64_dec((-i) as nat)
    } else {
        spec_u64_dec(i as nat)
    }
}

/// The single-character string of one decimal digit.
fn digit_str(d: u64) -> (r: &'static str)
    requires
        d < 10,
    ensures
        r@ == seq![spec_digit_char(d as nat)],
{
    if d == 0 {
        proof {
            reveal_strlit("0");
        }
        "0"
    } else if d == 1 {
        proof {
            reveal_strlit("1");
        }
        "1"
    } else if d == 2 {
        proof {
            reveal_strlit("2");
        }
        "2"
    } else if d == 3 {
        proof {
            reveal_strlit("3");
        }
        "3"
    } else if d == 4 {
        proof {
            reveal_strlit("4");
        }
        "4"
    } else if d == 5 {
        proof {
            reveal_strlit("5");
        }
        "5"
    } else if d == 6 {
        proof {
            reveal_strlit("6");
        }
        "6"
    } else if d == 7 {
        proof {
            reveal_strlit("7");
        }
        "7"
    } else if d == 8 {
        proof {
            reveal_strlit("8");
        }
        "8"
    } else {
        proof {
            reveal_strlit("9");
        }
        "9"
    }
}

/// Renders an unsigned integer in decimal.
pub fn u64_dec(n: u64) -> (s: String)
    ensures
        s@ == spec_u64_dec(n as nat),
    decreases n,
{
    if n < 10 {
        digit_str(n).to_owned()
    } else {
        let mut s = u64_dec(n / 10);
        s.append(digit_str(n % 10));
        s
    }
}

/// Whether `needle` occurs in `haystack` as a contiguous run.
pub open spec fn spec_contains_seq(haystack: Seq<char>, needle: Seq<char>) -> bool {
    exists|i: int|
        0 <= i <= haystack.len() - needle.len() && #[trigger] haystack.subrange(
            i,
            i + needle.len(),
        ) == needle
}

/// Whether the needle occurs in the haystack.
pub fn contains_str(haystack: &String, needle: &str) -> (r: bool)
    ensures
        r == spec_contains_seq(haystack@, needle@),
{
    let h = haystack.as_str();
    let hn = h.unicode_len();
    let nn = needle.unicode_len();
    if nn > hn {
        return false;
    }
    let mut i: usize = 0;
    while i <= hn - nn
        invariant
            h@ == haystack@,
            hn == haystack@.len(),
            nn == needle@.len(),
            nn <= hn,
            i <= hn - nn + 1,
            forall|l: int|
                0 <= l < i ==> #[trigger] haystack@.subrange(l, l + needle@.len()) != needle@,
        decreases hn - nn + 1 - i,
    {
        let mut j: usize = 0;
        let mut matches: bool = true;
        while j < nn && matches
            invariant
                h@ == haystack@,
                hn == haystack@.len(),
                nn == needle@.len(),
                i + nn <= hn,
                j <= nn,
                matches == (haystack@.subrange(i as int, i + j as int) =~= needle@.subrange(
                    0,
                    j as int,
                )),
            decreases nn - j,
        {
            let hc = h.get_char(i + j);
            let nc = needle.get_char(j);
            proof {
                let pre = haystack@.subrange(i as int, i + j as int);
                let cur = haystack@.subrange(i as int, i + j + 1 as int);
                assert(cur =~= pre.push(haystack@[i + j]));
                let npre = needle@.subrange(0, j as int);
                let ncur = needle@.subrange(0, j + 1 as int);
                assert(ncur =~= npre.push(needle@[j as int]));
            }
            if hc != nc {
                matches = false;
                proof {
                    assert(haystack@.subrange(i as int, i + j + 1 as int)[j as int]
                        != needle@.subrange(0, j + 1 as int)[j as int]);
                }
            }
            j = j + 1;
        }
        if matches {
            proof {
                assert(needle@.subrange(0, needle@.len() as int) =~= needle@);
                assert(spec_contains_seq(haystack@, needle@)) by {
                    assert(haystack@.subrange(i as int, i + needle@.len()) == needle@);
                }
            }
            return true;
        }
        i = i + 1;
    }
    proof {
        assert forall|l: int|
            0 <= l <= haystack@.len() - needle@.len() implies #[trigger] haystack@.subrange(
            l,
            l + needle@.len(),
        ) != needle@ by {}
    }
    false
}

/// Renders a signed integer in decimal.
pub fn i64_dec(i: i64) -> (s: String)
    ensures
        s@ == spec_i64_dec(i as int),
{
    if i >= 0 {
        u64_dec(i as u64)
    } else {
        let magnitude: u64 = (-(i as i128)) as u64;
        proof {
            reveal_strlit("-");
        }
        let mut s: String = "-".to_owned();
        s.append(u64_dec(magnitude).as_str());
        s
    }
}

} // verus!
