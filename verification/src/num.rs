//! ASCII decimal formatting and parsing for the RESP wire form.

use vstd::prelude::*;

verus! {

pub const ZERO_DIGIT: u8 = 48;

pub const MINUS: u8 = 45;

pub const PLUS: u8 = 43;

/// The decimal digits of `n`, most significant first, no leading zeros
/// (the single digit `0` for zero).
pub open spec fn dec_digits(n: nat) -> Seq<u8>
    decreases n,
{
    if n < 10 {
        seq![(n + ZERO_DIGIT) as u8]
    } else {
        dec_digits(n / 10).push(((n % 10) + ZERO_DIGIT) as u8)
    }
}

/// The decimal form of a signed integer: a minus sign before the digits
/// of the magnitude when negative.
pub open spec fn dec_digits_signed(i: int) -> Seq<u8> {
    if i < 0 {
        seq![MINUS] + dec_digits((-i) as nat)
    } else {
        dec_digits(i as nat)
    }
}

pub open spec fn is_digit(b: u8) -> bool {
    ZERO_DIGIT <= b <= ZERO_DIGIT + 9
}

pub open spec fn all_digits(s: Seq<u8>) -> bool {
    forall|i: int| 0 <= i < s.len() ==> is_digit(#[trigger] s[i])
}

/// The value of a digit string read as a decimal number.
pub open spec fn dec_val(s: Seq<u8>) -> int
    decreases s,
{
    if s.len() == 0 {
        0
    } else {
        dec_val(s.drop_last()) * 10 + (s.last() - ZERO_DIGIT)
    }
}

/// What `parse_u64_range` returns: the value of a non-empty all-digit
/// string that fits in a `u64`, and nothing else.
pub open spec fn parse_u64_spec(s: Seq<u8>) -> Option<u64> {
    if s.len() > 0 && all_digits(s) && dec_val(s) <= u64::MAX {
        Some(dec_val(s) as u64)
    } else {
        None
    }
}

/// What `parse_i64_range` returns: an optional sign, then a non-empty
/// all-digit magnitude whose signed value fits in an `i64`.
pub open spec fn parse_i64_spec(s: Seq<u8>) -> Option<i64> {
    if s.len() > 0 && (s[0] == MINUS || s[0] == PLUS) {
        let body = s.subrange(1, s.len() as int);
        if body.len() > 0 && all_digits(body) {
            if s[0] == MINUS && dec_val(body) <= i64::MAX as int + 1 {
                Some((-(dec_val(body) as int)) as i64)
            } else if s[0] == PLUS && dec_val(body) <= i64::MAX as int {
                Some(dec_val(body) as i64)
            } else {
                None
            }
        } else {
            None
        }
    } else if s.len() > 0 && all_digits(s) && dec_val(s) <= i64::MAX as int {
        Some(dec_val(s) as i64)
    } else {
        None
    }
}

/// Appending a digit multiplies the value by ten and adds the digit.
pub proof fn lemma_dec_val_push(s: Seq<u8>, d: u8)
    ensures
        dec_val(s.push(d)) == dec_val(s) * 10 + (d - ZERO_DIGIT),
{
    assert(s.push(d).drop_last() =~= s);
    assert(s.push(d).last() == d);
}

/// A digit string's value is never negative.
pub proof fn lemma_dec_val_nonneg(s: Seq<u8>)
    requires
        all_digits(s),
    ensures
        dec_val(s) >= 0,
    decreases s,
{
    if s.len() > 0 {
        assert(all_digits(s.drop_last())) by {
            assert(forall|i: int|
                0 <= i < s.drop_last().len() ==> s.drop_last()[i] == #[trigger] s[i]);
        }
        lemma_dec_val_nonneg(s.drop_last());
        assert(dec_val(s.drop_last()) * 10 >= 0) by (nonlinear_arith)
            requires
                dec_val(s.drop_last()) >= 0,
        ;
    }
}

/// A digit string's value only grows as more digits follow.
pub proof fn lemma_dec_val_prefix_le(s: Seq<u8>, i: int)
    requires
        0 <= i <= s.len(),
        all_digits(s),
    ensures
        dec_val(s.subrange(0, i)) <= dec_val(s),
    decreases s.len() - i,
{
    if i == s.len() {
        assert(s.subrange(0, i) =~= s);
    } else {
        let p = s.subrange(0, i);
        let q = s.subrange(0, i + 1);
        assert(q.drop_last() =~= p);
        assert(q.last() == s[i]);
        assert(dec_val(q) == dec_val(p) * 10 + (q.last() - ZERO_DIGIT));
        assert(all_digits(p)) by {
            assert(forall|j: int| 0 <= j < p.len() ==> p[j] == #[trigger] s[j]);
        }
        lemma_dec_val_nonneg(p);
        assert(dec_val(p) * 10 >= dec_val(p)) by (nonlinear_arith)
            requires
                dec_val(p) >= 0,
        ;
        lemma_dec_val_prefix_le(s, i + 1);
    }
}

/// The decimal digits of a number are digits, and there is at least
/// one of them.
pub proof fn lemma_dec_digits_are_digits(n: nat)
    ensures
        all_digits(dec_digits(n)),
        dec_digits(n).len() >= 1,
    decreases n,
{
    if n >= 10 {
        lemma_dec_digits_are_digits(n / 10);
        let s = dec_digits(n);
        assert(s == dec_digits(n / 10).push(((n % 10) + ZERO_DIGIT) as u8));
        assert(forall|i: int|
            0 <= i < s.len() - 1 ==> s[i] == #[trigger] dec_digits(n / 10)[i]);
        assert(is_digit(s[s.len() - 1]));
    }
}

/// Formatting then reading a number gives it back.
pub proof fn lemma_dec_val_of_digits(n: nat)
    ensures
        dec_val(dec_digits(n)) == n,
    decreases n,
{
    if n < 10 {
        let s = dec_digits(n);
        assert(s == seq![(n + ZERO_DIGIT) as u8]);
        assert(s.drop_last() =~= Seq::<u8>::empty());
        assert(s.last() == (n + ZERO_DIGIT) as u8);
        assert((n + ZERO_DIGIT) as u8 == n + ZERO_DIGIT);
        assert(dec_val(Seq::<u8>::empty()) == 0);
        assert(dec_val(s) == 0 * 10 + ((n + ZERO_DIGIT) as u8 - ZERO_DIGIT));
    } else {
        lemma_dec_val_of_digits(n / 10);
        let s = dec_digits(n);
        assert(s == dec_digits(n / 10).push(((n % 10) + ZERO_DIGIT) as u8));
        assert(s.drop_last() =~= dec_digits(n / 10));
        assert(s.last() == ((n % 10) + ZERO_DIGIT) as u8);
        assert(((n % 10) + ZERO_DIGIT) as u8 == (n % 10) + ZERO_DIGIT);
        assert(dec_val(s) == (n / 10) * 10 + (n % 10));
        assert(n == (n / 10) * 10 + (n % 10)) by (nonlinear_arith);
    }
}

/// A signed decimal round-trips through its decimal form.
pub proof fn lemma_parse_of_digits_signed(i: i64)
    ensures
        parse_i64_spec(dec_digits_signed(i as int)) == Some(i),
{
    if i >= 0 {
        lemma_dec_digits_are_digits(i as nat);
        lemma_dec_val_of_digits(i as nat);
        let s = dec_digits_signed(i as int);
        assert(is_digit(s[0]));
        assert(s[0] != MINUS && s[0] != PLUS);
    } else {
        let m = (-(i as int)) as nat;
        lemma_dec_digits_are_digits(m);
        lemma_dec_val_of_digits(m);
        let s = dec_digits_signed(i as int);
        assert(s[0] == MINUS);
        assert(s.subrange(1, s.len() as int) =~= dec_digits(m));
    }
}

/// Every byte of a signed decimal form is a minus sign or a digit.
pub proof fn lemma_dec_digits_signed_bytes(i: int)
    ensures
        forall|t: int|
            0 <= t < dec_digits_signed(i).len() ==> (#[trigger] dec_digits_signed(i)[t]) == MINUS
                || is_digit(dec_digits_signed(i)[t]),
{
    if i < 0 {
        lemma_dec_digits_are_digits((-i) as nat);
        let ds = dec_digits_signed(i);
        assert forall|t: int| 0 <= t < ds.len() implies (#[trigger] ds[t]) == MINUS || is_digit(
            ds[t],
        ) by {
            if t > 0 {
                assert(ds[t] == dec_digits((-i) as nat)[t - 1]);
            }
        }
    } else {
        lemma_dec_digits_are_digits(i as nat);
    }
}

/// Append the decimal digits of `n` to `out`.
pub fn push_dec_u64(n: u64, out: &mut Vec<u8>)
    ensures
        final(out)@ == old(out)@ + dec_digits(n as nat),
    decreases n,
{
    if n < 10 {
        out.push(ZERO_DIGIT + (n as u8));
        proof {
            assert(out@ =~= old(out)@ + dec_digits(n as nat));
        }
    } else {
        push_dec_u64(n / 10, out);
        out.push(ZERO_DIGIT + ((n % 10) as u8));
        proof {
            assert(out@ =~= old(out)@ + dec_digits(n as nat));
        }
    }
}

/// Append the decimal form of `i`, minus sign included, to `out`.
pub fn push_dec_i64(i: i64, out: &mut Vec<u8>)
    ensures
        final(out)@ == old(out)@ + dec_digits_signed(i as int),
{
    if i >= 0 {
        push_dec_u64(i as u64, out);
    } else {
        out.push(MINUS);
        let magnitude: u64 = if i == i64::MIN {
            9223372036854775808u64
        } else {
            (-i) as u64
        };
        assert(magnitude == (-(i as int)) as nat);
        push_dec_u64(magnitude, out);
        proof {
            assert(out@ =~= old(out)@ + dec_digits_signed(i as int));
        }
    }
}

/// Parse `s[lo..hi]` as an unsigned decimal.
pub fn parse_u64_range(s: &[u8], lo: usize, hi: usize) -> (r: Option<u64>)
    requires
        lo <= hi <= s@.len(),
    ensures
        r == parse_u64_spec(s@.subrange(lo as int, hi as int)),
{
    let ghost body = s@.subrange(lo as int, hi as int);
    if lo == hi {
        return None;
    }
    let mut acc: u64 = 0;
    let mut i = lo;
    while i < hi
        invariant
            lo <= i <= hi <= s@.len(),
            body == s@.subrange(lo as int, hi as int),
            all_digits(body.subrange(0, i - lo)),
            acc == dec_val(body.subrange(0, i - lo)),
        decreases hi - i,
    {
        let b = s[i];
        proof {
            assert(body[i - lo] == b);
        }
        if b < ZERO_DIGIT || b > ZERO_DIGIT + 9 {
            proof {
                assert(!all_digits(body));
            }
            return None;
        }
        let d = b - ZERO_DIGIT;
        proof {
            assert(body.subrange(0, i + 1 - lo) =~= body.subrange(0, i - lo).push(b));
            lemma_dec_val_push(body.subrange(0, i - lo), b);
        }
        let next = match acc.checked_mul(10) {
            Some(m) => m.checked_add(d as u64),
            None => None,
        };
        match next {
            Some(v) => {
                acc = v;
            },
            None => {
                // The prefix already exceeds u64::MAX, so the whole does too.
                proof {
                    if all_digits(body) {
                        lemma_dec_val_prefix_le(body, i + 1 - lo);
                    }
                }
                return None;
            },
        }
        i = i + 1;
    }
    proof {
        assert(body.subrange(0, hi - lo) =~= body);
    }
    Some(acc)
}

/// Parse `s[lo..hi]` as a signed decimal.
pub fn parse_i64_range(s: &[u8], lo: usize, hi: usize) -> (r: Option<i64>)
    requires
        lo <= hi <= s@.len(),
    ensures
        r == parse_i64_spec(s@.subrange(lo as int, hi as int)),
{
    let ghost whole = s@.subrange(lo as int, hi as int);
    if lo == hi {
        return None;
    }
    let first = s[lo];
    proof {
        assert(whole[0] == first);
    }
    if first == MINUS || first == PLUS {
        proof {
            assert(whole.subrange(1, whole.len() as int) =~= s@.subrange(lo + 1, hi as int));
        }
        match parse_u64_range(s, lo + 1, hi) {
            None => None,
            Some(m) => {
                proof {
                    lemma_dec_val_nonneg(s@.subrange(lo + 1, hi as int));
                }
                if first == MINUS {
                    if m == 9223372036854775808u64 {
                        Some(i64::MIN)
                    } else if m <= i64::MAX as u64 {
                        Some(-(m as i64))
                    } else {
                        None
                    }
                } else {
                    if m <= i64::MAX as u64 {
                        Some(m as i64)
                    } else {
                        None
                    }
                }
            },
        }
    } else {
        match parse_u64_range(s, lo, hi) {
            None => None,
            Some(m) => {
                proof {
                    lemma_dec_val_nonneg(whole);
                }
                if m <= i64::MAX as u64 {
                    Some(m as i64)
                } else {
                    None
                }
            },
        }
    }
}

} // verus!
