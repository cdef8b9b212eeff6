//! Decimal numerals as ASCII bytes: formatting and parsing.
use vstd::prelude::*;

verus! {

/// Is `b` an ASCII decimal digit?
pub open spec fn is_digit(b: u8) -> bool {
    48 <= b && b <= 57
}

/// Every byte of `s` is an ASCII decimal digit.
pub open spec fn all_digits(s: Seq<u8>) -> bool {
    forall|i: int| 0 <= i < s.len() ==> is_digit(#[trigger] s[i])
}

/// The shortest decimal numeral of `n`, most significant digit first.
pub open spec fn decimal_digits(n: nat) -> Seq<u8>
    decreases n,
{
    if n < 10 {
        seq![(48 + n) as u8]
    } else {
        decimal_digits(n / 10).push((48 + n % 10) as u8)
    }
}

/// The number that the digit string `s` denotes (leading zeros allowed).
pub open spec fn decimal_value(s: Seq<u8>) -> nat
    decreases s.len(),
{
    if s.len() == 0 {
        0
    } else {
        10 * decimal_value(s.drop_last()) + (s.last() - 48) as nat
    }
}

/// The numeral of `n` is a non-empty digit string that denotes `n`.
pub proof fn lemma_decimal_digits(n: nat)
    ensures
        decimal_digits(n).len() >= 1,
        all_digits(decimal_digits(n)),
        decimal_value(decimal_digits(n)) == n,
    decreases n,
{
    if n >= 10 {
        lemma_decimal_digits(n / 10);
        let d = decimal_digits(n);
        assert(d.drop_last() =~= decimal_digits(n / 10));
        assert(d.last() == (48 + n % 10) as u8);
        assert(n == 10 * (n / 10) + n % 10);
    } else {
        let d = decimal_digits(n);
        assert(d.drop_last() =~= Seq::<u8>::empty());
        assert(d.last() == (48 + n) as u8);
        assert(decimal_value(Seq::<u8>::empty()) == 0);
    }
}

/// A digit string denotes at least as much as any of its prefixes.
pub proof fn lemma_decimal_prefix_le(s: Seq<u8>, k: int)
    requires
        0 <= k <= s.len(),
        all_digits(s),
    ensures
        decimal_value(s.take(k)) <= decimal_value(s),
    decreases s.len(),
{
    if k < s.len() {
        let t = s.drop_last();
        assert(t.take(k) =~= s.take(k));
        assert(all_digits(t));
        lemma_decimal_prefix_le(t, k);
    } else {
        assert(s.take(k) =~= s);
    }
}

/// Appends the decimal numeral of `n` to `out`.
pub fn push_decimal(out: &mut Vec<u8>, n: usize)
    ensures
        final(out)@ == old(out)@ + decimal_digits(n as nat),
    decreases n,
{
    if n >= 10 {
        push_decimal(out, n / 10);
    }
    out.push((48 + n % 10) as u8);
    proof {
        if n >= 10 {
            assert(final(out)@ =~= old(out)@ + decimal_digits(n as nat));
        }
    }
}

/// Reads the digit string `s[start..end]` as a number; `None` when the
/// number does not fit in a `usize`.
pub fn parse_decimal(s: &[u8], start: usize, end: usize) -> (r: Option<usize>)
    requires
        start <= end <= s@.len(),
        all_digits(s@.subrange(start as int, end as int)),
    ensures
        match r {
            Some(v) => v as nat == decimal_value(s@.subrange(start as int, end as int)),
            None => decimal_value(s@.subrange(start as int, end as int)) > usize::MAX,
        },
{
    let ghost digits = s@.subrange(start as int, end as int);
    let mut acc: usize = 0;
    let mut i: usize = start;
    while i < end
        invariant
            start <= i <= end <= s@.len(),
            digits == s@.subrange(start as int, end as int),
            all_digits(digits),
            acc as nat == decimal_value(digits.take(i - start)),
        decreases end - i,
    {
        let ghost k = i - start;
        assert(digits[k] == s@[i as int]);
        assert(is_digit(digits[k]));
        let d = s[i] - 48;
        assert(digits.take(k + 1).drop_last() =~= digits.take(k));
        match acc.checked_mul(10) {
            Some(m) => match m.checked_add(d as usize) {
                Some(next) => {
                    acc = next;
                },
                None => {
                    proof { lemma_decimal_prefix_le(digits, k + 1); }
                    return None;
                },
            },
            None => {
                proof { lemma_decimal_prefix_le(digits, k + 1); }
                return None;
            },
        }
        i = i + 1;
    }
    assert(digits.take(end - start) =~= digits);
    Some(acc)
}

} // verus!
