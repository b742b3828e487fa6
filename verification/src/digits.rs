//! Decimal ASCII encoding and parsing of unsigned integers.
//!
//! Object headers and tree entries carry lengths and modes as decimal
//! ASCII text; these functions convert between numbers and digit strings.

use vstd::prelude::*;

verus! {

/// The byte is an ASCII decimal digit, `'0'` through `'9'`.
pub open spec fn is_digit_byte(b: u8) -> bool {
    48 <= b <= 57
}

/// Every byte of the string is an ASCII decimal digit.
pub open spec fn all_digits(s: Seq<u8>) -> bool {
    forall|i: int| 0 <= i < s.len() ==> is_digit_byte(#[trigger] s[i])
}

/// Numeric value of a digit string, most significant digit first.
pub open spec fn dec_val(s: Seq<u8>) -> nat
    decreases s.len(),
{
    if s.len() == 0 {
        0
    } else {
        dec_val(s.drop_last()) * 10 + (s.last() - 48) as nat
    }
}

/// Canonical decimal digits of `n`: nonempty, and without leading zeros
/// except for the single digit `"0"`.
pub open spec fn dec_digits(n: nat) -> Seq<u8>
    decreases n,
{
    if n < 10 {
        seq![(48 + n) as u8]
    } else {
        dec_digits(n / 10).push((48 + n % 10) as u8)
    }
}

pub proof fn lemma_dec_digits_wf(n: nat)
    ensures
        dec_digits(n).len() >= 1,
        all_digits(dec_digits(n)),
    decreases n,
{
    if n < 10 {
    } else {
        lemma_dec_digits_wf(n / 10);
        assert forall|i: int| 0 <= i < dec_digits(n).len() implies is_digit_byte(
            #[trigger] dec_digits(n)[i],
        ) by {
            if i < dec_digits(n / 10).len() {
                assert(is_digit_byte(dec_digits(n / 10)[i]));
            }
        }
    }
}

/// Parsing inverts formatting: the canonical digits of `n` evaluate to `n`.
pub proof fn lemma_dec_val_of_digits(n: nat)
    ensures
        dec_val(dec_digits(n)) == n,
    decreases n,
{
    if n < 10 {
        let s = dec_digits(n);
        assert(s.len() == 1);
        assert(dec_val(s) == dec_val(s.drop_last()) * 10 + (s.last() - 48) as nat);
        assert(s.drop_last() =~= Seq::<u8>::empty());
        assert(dec_val(s.drop_last()) == 0);
        assert(s.last() == (48 + n) as u8);
        assert((48 + n) as u8 == 48 + n);
    } else {
        lemma_dec_val_of_digits(n / 10);
        let s = dec_digits(n);
        assert(s.len() == dec_digits(n / 10).len() + 1);
        assert(dec_val(s) == dec_val(s.drop_last()) * 10 + (s.last() - 48) as nat);
        assert(s.drop_last() =~= dec_digits(n / 10));
        assert(s.last() == (48 + n % 10) as u8);
        assert((48 + n % 10) as u8 == 48 + n % 10);
        assert(n == (n / 10) * 10 + n % 10);
    }
}

/// A digit string is worth at least as much as any of its prefixes.
pub proof fn lemma_dec_val_prefix(s: Seq<u8>, k: int)
    requires
        0 <= k <= s.len(),
    ensures
        dec_val(s) >= dec_val(s.take(k)),
    decreases s.len() - k,
{
    if k == s.len() {
        assert(s.take(k) =~= s);
    } else {
        lemma_dec_val_prefix(s.drop_last(), k);
        assert(s.drop_last().take(k) =~= s.take(k));
    }
}

/// Formats `n` as canonical decimal ASCII digits.
pub fn u64_to_dec(n: u64) -> (r: Vec<u8>)
    ensures
        r@ == dec_digits(n as nat),
    decreases n,
{
    if n < 10 {
        let mut v: Vec<u8> = Vec::new();
        v.push(48 + n as u8);
        proof {
            assert(v@ =~= dec_digits(n as nat));
        }
        v
    } else {
        let mut v = u64_to_dec(n / 10);
        v.push(48 + (n % 10) as u8);
        proof {
            assert(v@ =~= dec_digits(n as nat));
        }
        v
    }
}

/// Parses a decimal digit string into a number.  Returns `None` when the
/// string is empty, contains a non-digit byte, or names a value that does
/// not fit in `usize`.
pub fn parse_dec(b: &[u8]) -> (r: Option<usize>)
    ensures
        match r {
            Some(v) => b@.len() > 0 && all_digits(b@) && dec_val(b@) == v,
            None => b@.len() == 0 || !all_digits(b@) || dec_val(b@) > usize::MAX,
        },
{
    if b.len() == 0 {
        return None;
    }
    let mut acc: usize = 0;
    let mut i: usize = 0;
    while i < b.len()
        invariant
            0 <= i <= b@.len(),
            all_digits(b@.take(i as int)),
            acc == dec_val(b@.take(i as int)),
        decreases b@.len() - i,
    {
        let c = b[i];
        if c < 48 || c > 57 {
            return None;
        }
        let d = (c - 48) as usize;
        if acc > (usize::MAX - d) / 10 {
            proof {
                let hi = b@.take(i + 1);
                assert(hi.drop_last() =~= b@.take(i as int));
                assert(hi.last() == c);
                let m = (usize::MAX - d) as int;
                assert(m < (m / 10) * 10 + 10) by {
                    assert(m == (m / 10) * 10 + m % 10);
                };
                assert(acc * 10 >= (m / 10 + 1) * 10);
                assert(dec_val(hi) > usize::MAX);
                lemma_dec_val_prefix(b@, i + 1);
                assert(b@.take(b@.len() as int) =~= b@);
            }
            return None;
        }
        proof {
            let m = (usize::MAX - d) as int;
            assert((m / 10) * 10 <= m) by {
                assert(m == (m / 10) * 10 + m % 10);
            };
            assert(acc * 10 <= (m / 10) * 10);
            assert(b@.take(i + 1).drop_last() =~= b@.take(i as int));
            assert(b@.take(i + 1).last() == c);
        }
        acc = acc * 10 + d;
        i = i + 1;
    }
    proof {
        assert(b@.take(i as int) =~= b@);
    }
    Some(acc)
}

} // verus!
