//! Decimal text for the integers that appear in headers: span extents,
//! component counts, and appended-section offsets.

use vstd::prelude::*;

verus! {

/// ASCII digit test.
pub open spec fn is_digit(b: u8) -> bool {
    0x30 <= b <= 0x39
}

/// The decimal rendering of a natural number, most significant digit first.
pub open spec fn dec_digits(n: nat) -> Seq<u8>
    decreases n,
{
    if n < 10 {
        seq![(n + 0x30) as u8]
    } else {
        dec_digits(n / 10).push((n % 10 + 0x30) as u8)
    }
}

/// The value of a sequence of ASCII digits, most significant digit first.
pub open spec fn dec_val(s: Seq<u8>) -> nat
    decreases s.len(),
{
    if s.len() == 0 {
        0
    } else {
        dec_val(s.drop_last()) * 10 + (if is_digit(s.last()) {
            (s.last() - 0x30) as nat
        } else {
            0
        })
    }
}

/// A sequence that can be read back as a number: nothing but digits, at
/// least one of them.
pub open spec fn is_dec_token(s: Seq<u8>) -> bool {
    s.len() > 0 && forall|i: int| 0 <= i < s.len() ==> is_digit(#[trigger] s[i])
}

/// Every rendered number is a digit token.
pub proof fn lemma_dec_digits_wf(n: nat)
    ensures
        is_dec_token(dec_digits(n)),
        1 <= dec_digits(n).len(),
    decreases n,
{
    if n >= 10 {
        lemma_dec_digits_wf(n / 10);
        assert forall|i: int| 0 <= i < dec_digits(n).len() implies is_digit(
            #[trigger] dec_digits(n)[i],
        ) by {
            if i < dec_digits(n / 10).len() {
                assert(dec_digits(n)[i] == dec_digits(n / 10)[i]);
            }
        }
    }
}

/// Reading back a rendered number gives the number: the two spec functions
/// are inverse.
pub proof fn lemma_dec_roundtrip(n: nat)
    ensures
        dec_val(dec_digits(n)) == n,
    decreases n,
{
    if n < 10 {
        let s = dec_digits(n);
        assert(s =~= seq![(n + 0x30) as u8]);
        assert(s.drop_last() =~= Seq::<u8>::empty());
        assert(dec_val(Seq::<u8>::empty()) == 0);
        assert(is_digit(s.last()));
        assert(dec_val(s) == dec_val(s.drop_last()) * 10 + ((s.last() - 0x30) as nat));
    } else {
        lemma_dec_roundtrip(n / 10);
        assert(dec_digits(n).drop_last() =~= dec_digits(n / 10));
        assert(dec_digits(n).last() == (n % 10 + 0x30) as u8);
        assert((((n % 10 + 0x30) as u8) - 0x30) as nat == n % 10);
        assert(dec_val(dec_digits(n)) == (n / 10) * 10 + n % 10);
        assert((n / 10) * 10 + n % 10 == n) by (nonlinear_arith);
    }
}

/// Append the decimal rendering of `n` to `out`.
pub fn push_decimal(out: &mut Vec<u8>, n: usize)
    ensures
        final(out)@ == old(out)@ + dec_digits(n as nat),
    decreases n,
{
    if n >= 10 {
        push_decimal(out, n / 10);
        out.push((n % 10) as u8 + 0x30);
        assert(out@ =~= old(out)@ + dec_digits(n as nat));
    } else {
        out.push(n as u8 + 0x30);
        assert(out@ =~= old(out)@ + dec_digits(n as nat));
    }
}

/// Append the decimal rendering of a 64-bit value to `out`.
pub fn push_decimal_u64(out: &mut Vec<u8>, n: u64)
    ensures
        final(out)@ == old(out)@ + dec_digits(n as nat),
    decreases n,
{
    if n >= 10 {
        push_decimal_u64(out, n / 10);
        out.push((n % 10) as u8 + 0x30);
        assert(out@ =~= old(out)@ + dec_digits(n as nat));
    } else {
        out.push(n as u8 + 0x30);
        assert(out@ =~= old(out)@ + dec_digits(n as nat));
    }
}

/// Parse a whole digit token as a `usize`; `None` when the token is not a
/// run of digits or its value does not fit.
pub fn parse_usize_token(s: &[u8]) -> (r: Option<usize>)
    ensures
        match r {
            Some(v) => is_dec_token(s@) && v == dec_val(s@) && dec_val(s@) <= usize::MAX,
            None => !is_dec_token(s@) || dec_val(s@) > usize::MAX,
        },
{
    if s.len() == 0 {
        return None;
    }
    let mut acc: usize = 0;
    let mut i: usize = 0;
    while i < s.len()
        invariant
            0 <= i <= s@.len(),
            forall|j: int| 0 <= j < i ==> is_digit(#[trigger] s@[j]),
            acc == dec_val(s@.subrange(0, i as int)),
        decreases s@.len() - i,
    {
        let b = s[i];
        if b < 0x30 || b > 0x39 {
            assert(!is_dec_token(s@));
            return None;
        }
        let d = (b - 0x30) as usize;
        if acc > (usize::MAX - d) / 10 {
            proof {
                let pre = s@.subrange(0, i + 1);
                assert(pre.drop_last() =~= s@.subrange(0, i as int));
                lemma_dec_val_prefix_monotone(s@, i + 1);
            }
            return None;
        }
        proof {
            let pre = s@.subrange(0, i + 1);
            assert(pre.drop_last() =~= s@.subrange(0, i as int));
        }
        acc = acc * 10 + d;
        i = i + 1;
    }
    proof {
        assert(s@.subrange(0, s@.len() as int) =~= s@);
    }
    Some(acc)
}

/// The value of a digit sequence is at least the value of any of its
/// prefixes; used to report overflow soundly.
proof fn lemma_dec_val_prefix_monotone(s: Seq<u8>, k: int)
    requires
        0 < k <= s.len(),
    ensures
        dec_val(s) >= dec_val(s.subrange(0, k)),
    decreases s.len() - k,
{
    if k == s.len() {
        assert(s.subrange(0, k) =~= s);
    } else {
        lemma_dec_val_prefix_monotone(s, k + 1);
        let p = s.subrange(0, k + 1);
        assert(p.drop_last() =~= s.subrange(0, k));
        assert(dec_val(p) >= dec_val(s.subrange(0, k)));
    }
}

/// Parse a whole digit token as a `u64` no larger than `bound`; `None`
/// when the token is not a run of digits or its value is out of range.
pub fn parse_dec_bounded(s: &[u8], bound: u64) -> (r: Option<u64>)
    ensures
        match r {
            Some(v) => is_dec_token(s@) && v == dec_val(s@) && dec_val(s@) <= bound,
            None => !is_dec_token(s@) || dec_val(s@) > bound,
        },
{
    if s.len() == 0 {
        return None;
    }
    let mut acc: u64 = 0;
    let mut i: usize = 0;
    while i < s.len()
        invariant
            0 <= i <= s@.len(),
            forall|j: int| 0 <= j < i ==> is_digit(#[trigger] s@[j]),
            acc == dec_val(s@.subrange(0, i as int)),
            acc <= bound,
        decreases s@.len() - i,
    {
        let b = s[i];
        if b < 0x30 || b > 0x39 {
            assert(!is_dec_token(s@));
            return None;
        }
        let d = (b - 0x30) as u64;
        proof {
            let pre = s@.subrange(0, i + 1);
            assert(pre.drop_last() =~= s@.subrange(0, i as int));
        }
        if acc > bound / 10 || (acc == bound / 10 && d > bound % 10) {
            proof {
                lemma_dec_val_prefix_monotone(s@, i + 1);
                assert(acc * 10 + d > bound) by (nonlinear_arith)
                    requires
                        acc > bound / 10 || (acc == bound / 10 && d > bound % 10),
                        acc >= 0 && d >= 0 && bound >= 0,
                        bound == (bound / 10) * 10 + bound % 10,
                        bound % 10 < 10,
                ;
            }
            return None;
        }
        proof {
            assert(acc * 10 + d <= bound) by (nonlinear_arith)
                requires
                    acc <= bound / 10,
                    !(acc == bound / 10 && d > bound % 10),
                    acc >= 0 && 0 <= d < 10,
                    bound == (bound / 10) * 10 + bound % 10,
                    bound % 10 < 10,
            ;
        }
        acc = acc * 10 + d;
        i = i + 1;
    }
    proof {
        assert(s@.subrange(0, s@.len() as int) =~= s@);
    }
    Some(acc)
}

/// The signed offset a text parses to: an optional minus sign, then
/// digits, with a magnitude the resolver can work with.
pub open spec fn spec_parse_offset(t: Seq<u8>) -> Option<int> {
    if t.len() > 0 && t[0] == 0x2d {
        if is_dec_token(t.skip(1)) && dec_val(t.skip(1)) <= i64::MAX {
            Some(-(dec_val(t.skip(1)) as int))
        } else {
            None
        }
    } else {
        if is_dec_token(t) && dec_val(t) <= i64::MAX {
            Some(dec_val(t) as int)
        } else {
            None
        }
    }
}

/// Parse a signed offset attribute value.
pub fn parse_offset_token(s: &[u8]) -> (r: Option<i64>)
    ensures
        match r {
            Some(v) => spec_parse_offset(s@) == Some(v as int),
            None => spec_parse_offset(s@) is None,
        },
{
    if s.len() > 0 && s[0] == 0x2d {
        let rest = vstd::slice::slice_subrange(s, 1, s.len());
        proof {
            assert(rest@ =~= s@.skip(1));
        }
        match parse_dec_bounded(rest, 9223372036854775807u64) {
            Some(v) => Some(-(v as i64)),
            None => None,
        }
    } else {
        match parse_dec_bounded(s, 9223372036854775807u64) {
            Some(v) => Some(v as i64),
            None => None,
        }
    }
}

} // verus!
