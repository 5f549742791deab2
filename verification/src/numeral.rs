//! Decimal rendering and parsing of durations.
//!
//! A duration is persisted as its canonical base-10 digit string. The
//! rendering is specified by [`dec_rep`] and the numeric value of a digit
//! string by [`digits_val`]; [`lemma_dec_rep_val`] ties the two together.

use vstd::prelude::*;

verus! {

/// First decimal digit byte, `'0'`.
pub const DIGIT_ZERO: u8 = 0x30;

/// Whether `b` is an ASCII decimal digit.
pub open spec fn is_digit(b: u8) -> bool {
    0x30 <= b <= 0x39
}

/// Numeric value of a digit byte.
pub open spec fn digit_val(b: u8) -> nat {
    (b - 0x30) as nat
}

/// Whether every byte of `s` is an ASCII decimal digit.
pub open spec fn all_digits(s: Seq<u8>) -> bool {
    forall|i: int| 0 <= i < s.len() ==> is_digit(s[i])
}

/// The numeric value of a digit string, most significant digit first.
pub open spec fn digits_val(s: Seq<u8>) -> nat
    decreases s.len(),
{
    if s.len() == 0 {
        0
    } else {
        digits_val(s.drop_last()) * 10 + digit_val(s.last())
    }
}

/// The canonical decimal representation of `n`: no sign, no leading zeros
/// (except for `n == 0`, which is the single digit `0`).
pub open spec fn dec_rep(n: nat) -> Seq<u8>
    decreases n,
{
    if n < 10 {
        seq![(0x30 + n) as u8]
    } else {
        dec_rep(n / 10).push((0x30 + n % 10) as u8)
    }
}

/// The canonical representation is nonempty, consists of digits, and
/// evaluates back to the number it was made from.
pub proof fn lemma_dec_rep_val(n: nat)
    ensures
        dec_rep(n).len() >= 1,
        all_digits(dec_rep(n)),
        digits_val(dec_rep(n)) == n,
    decreases n,
{
    if n < 10 {
        let s = dec_rep(n);
        assert(s =~= seq![(0x30 + n) as u8]);
        assert(s.drop_last() =~= Seq::<u8>::empty());
        assert(s.last() == (0x30 + n) as u8);
        assert(digits_val(s) == digits_val(s.drop_last()) * 10 + digit_val(s.last()));
        assert(digit_val((0x30 + n) as u8) == n);
    } else {
        lemma_dec_rep_val(n / 10);
        let d = (0x30 + n % 10) as u8;
        let s = dec_rep(n / 10).push(d);
        assert(s.drop_last() =~= dec_rep(n / 10));
        assert(s.last() == d);
        assert(digits_val(s) == (n / 10) * 10 + n % 10);
        assert((n / 10) * 10 + n % 10 == n) by (nonlinear_arith);
    }
}

/// Renders `n` as its canonical decimal digit string.
pub fn u64_to_bytes(n: u64) -> (v: Vec<u8>)
    ensures
        v@ == dec_rep(n as nat),
    decreases n,
{
    if n < 10 {
        let mut v: Vec<u8> = Vec::new();
        v.push(DIGIT_ZERO + (n as u8));
        proof {
            assert(v@ =~= dec_rep(n as nat));
        }
        v
    } else {
        let mut v = u64_to_bytes(n / 10);
        v.push(DIGIT_ZERO + ((n % 10) as u8));
        proof {
            assert(v@ =~= dec_rep(n as nat));
        }
        v
    }
}

/// The value of a digit-string prefix one byte longer.
proof fn lemma_digits_val_take_succ(s: Seq<u8>, j: int)
    requires
        0 < j <= s.len(),
    ensures
        digits_val(s.take(j)) == digits_val(s.take(j - 1)) * 10 + digit_val(s[j - 1]),
{
    assert(s.take(j).drop_last() =~= s.take(j - 1));
    assert(s.take(j).last() == s[j - 1]);
}

/// The value of a digit string never decreases as the prefix grows.
proof fn lemma_digits_val_mono(s: Seq<u8>, i: int, j: int)
    requires
        0 <= i <= j <= s.len(),
    ensures
        digits_val(s.take(i)) <= digits_val(s.take(j)),
    decreases j - i,
{
    if i < j {
        lemma_digits_val_mono(s, i, j - 1);
        lemma_digits_val_take_succ(s, j);
    }
}

/// Parses a digit string back into a number. Succeeds exactly on nonempty
/// all-digit strings whose value fits in a `u64`.
pub fn parse_u64(s: &Vec<u8>) -> (r: Option<u64>)
    ensures
        r is Some <==> (s@.len() > 0 && all_digits(s@) && digits_val(s@) <= u64::MAX),
        r matches Some(n) ==> n == digits_val(s@),
{
    if s.len() == 0 {
        return None;
    }
    let ghost gs = s@;
    let mut acc: u64 = 0;
    let mut i: usize = 0;
    while i < s.len()
        invariant
            0 <= i <= gs.len(),
            s@ == gs,
            all_digits(gs.take(i as int)),
            acc == digits_val(gs.take(i as int)),
        decreases gs.len() - i,
    {
        let b = s[i];
        if !(DIGIT_ZERO <= b && b <= 0x39) {
            assert(!is_digit(gs[i as int]));
            assert(!all_digits(gs));
            return None;
        }
        let d = (b - DIGIT_ZERO) as u64;
        proof {
            lemma_digits_val_take_succ(gs, i + 1);
            assert(gs.take(i as int + 1).drop_last() =~= gs.take(i as int));
        }
        let shifted = match acc.checked_mul(10) {
            Some(m) => m,
            None => {
                proof {
                    lemma_digits_val_mono(gs, i + 1, gs.len() as int);
                    assert(gs.take(gs.len() as int) =~= gs);
                }
                return None;
            },
        };
        acc = match shifted.checked_add(d) {
            Some(a) => a,
            None => {
                proof {
                    lemma_digits_val_mono(gs, i + 1, gs.len() as int);
                    assert(gs.take(gs.len() as int) =~= gs);
                }
                return None;
            },
        };
        i = i + 1;
    }
    proof {
        assert(gs.take(gs.len() as int) =~= gs);
    }
    Some(acc)
}

} // verus!
