//! Lowercase hexadecimal text of byte strings.
use vstd::prelude::*;
use crate::primitives::push_char;

verus! {

/// The lowercase hex digit of a value below 16.
pub open spec fn hex_digit(v: u8) -> char {
    if v < 10 {
        ((48 + v) as u8) as char
    } else {
        ((87 + v) as u8) as char
    }
}

/// Is `c` one of `0-9`, `a-f`?
pub open spec fn is_lower_hex(c: char) -> bool {
    ('0' <= c && c <= '9') || ('a' <= c && c <= 'f')
}

/// Is `c` one of `0-9`, `a-f`, `A-F`?
pub open spec fn is_hex(c: char) -> bool {
    is_lower_hex(c) || ('A' <= c && c <= 'F')
}

/// Two lowercase hex digits per byte, high nibble first.
pub open spec fn hex_lower(b: Seq<u8>) -> Seq<char> {
    Seq::new(
        2 * b.len(),
        |i: int|
            if i % 2 == 0 {
                hex_digit(b[i / 2] / 16)
            } else {
                hex_digit(b[i / 2] % 16)
            },
    )
}

proof fn lemma_hex_digit_injective(x: u8, y: u8)
    requires
        x < 16,
        y < 16,
        hex_digit(x) == hex_digit(y),
    ensures
        x == y,
{
    assert(hex_digit(x) as u32 == (if x < 10 { 48 + x } else { 87 + x }) as u32);
    assert(hex_digit(y) as u32 == (if y < 10 { 48 + y } else { 87 + y }) as u32);
}

/// Hex text is one-to-one: two byte strings with the same hex text are equal.
pub proof fn lemma_hex_lower_injective(a: Seq<u8>, b: Seq<u8>)
    requires
        hex_lower(a) == hex_lower(b),
    ensures
        a == b,
{
    assert(hex_lower(a).len() == hex_lower(b).len());
    assert(hex_lower(a).len() == 2 * a.len());
    assert(hex_lower(b).len() == 2 * b.len());
    assert(a.len() == b.len());
    assert forall|i: int| 0 <= i < a.len() implies a[i] == b[i] by {
        let j = 2 * i;
        assert(j / 2 == i && j % 2 == 0);
        assert((j + 1) / 2 == i && (j + 1) % 2 == 1);
        assert(hex_lower(a)[j] == hex_digit(a[i] / 16));
        assert(hex_lower(b)[j] == hex_digit(b[i] / 16));
        assert(hex_lower(a)[j + 1] == hex_digit(a[i] % 16));
        assert(hex_lower(b)[j + 1] == hex_digit(b[i] % 16));
        lemma_hex_digit_injective(a[i] / 16, b[i] / 16);
        lemma_hex_digit_injective(a[i] % 16, b[i] % 16);
        assert(a[i] == 16 * (a[i] / 16) + a[i] % 16);
        assert(b[i] == 16 * (b[i] / 16) + b[i] % 16);
    }
    assert(a =~= b);
}

fn hex_digit_exec(v: u8) -> (c: char)
    requires
        v < 16,
    ensures
        c == hex_digit(v),
        is_lower_hex(c),
{
    if v < 10 {
        (48 + v) as char
    } else {
        (87 + v) as char
    }
}

/// Writes `b` as lowercase hex text.
pub fn to_hex_lower(b: &[u8]) -> (r: String)
    requires
        2 * b@.len() <= usize::MAX,
    ensures
        r@ == hex_lower(b@),
        forall|i: int| 0 <= i < r@.len() ==> is_lower_hex(#[trigger] r@[i]),
{
    let mut out = String::new();
    let mut i: usize = 0;
    while i < b.len()
        invariant
            i <= b@.len(),
            out@ =~= hex_lower(b@).take(2 * i as int),
            forall|j: int| 0 <= j < out@.len() ==> is_lower_hex(#[trigger] out@[j]),
        decreases b@.len() - i,
    {
        let hi = hex_digit_exec(b[i] / 16);
        let lo = hex_digit_exec(b[i] % 16);
        push_char(&mut out, hi);
        push_char(&mut out, lo);
        i = i + 1;
        assert(out@ =~= hex_lower(b@).take(2 * i as int));
    }
    assert(hex_lower(b@).take(2 * b@.len() as int) =~= hex_lower(b@));
    out
}

} // verus!
