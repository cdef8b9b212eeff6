//! The object format: a framed object is `<tag> <size>\0<content>`, and what
//! is stored is the zlib stream of the framed bytes.
use vstd::prelude::*;
use vstd::slice::{slice_subrange, slice_to_vec};
use crate::decimal::{
    all_digits, decimal_digits, decimal_value, is_digit, lemma_decimal_digits, parse_decimal,
    push_decimal,
};
use crate::primitives::{inflated, zlib_compress, zlib_decompress, zlib_of};

verus! {

/// The kinds of object the store knows.
#[derive(Clone, Copy, Debug, PartialEq, Eq, Structural)]
pub enum Kind {
    Blob,
}

/// Every way in which storing or fetching an object can fail.
#[derive(Debug, PartialEq, Eq)]
pub enum ObjectError {
    /// A filesystem operation failed; the text names the path tried.
    IoError(String),
    /// The identifier is well formed but no object is stored under it.
    ObjectNotFound,
    /// The identifier is not 40 hexadecimal characters.
    InvalidIdentifier,
    /// The stored bytes are not a valid zlib stream.
    CorruptStream,
    /// The header is not `<tag> <size>` ended by a NUL early enough.
    MalformedHeader,
    /// Fewer content bytes follow the header than it declares.
    SizeMismatch,
    /// The header's tag names no known kind.
    UnknownKind,
}

/// The NUL that ends the header must stand among this many first bytes.
pub const HEADER_LIMIT: usize = 64;

/// The tag that names `kind` in a header.
pub open spec fn kind_tag(kind: Kind) -> Seq<u8> {
    match kind {
        Kind::Blob => seq![98u8, 108u8, 111u8, 98u8],
    }
}

/// The kind that a header tag names, if any.
pub open spec fn kind_of_tag(tag: Seq<u8>) -> Option<Kind> {
    if tag == kind_tag(Kind::Blob) {
        Some(Kind::Blob)
    } else {
        None
    }
}

/// The framed object: tag, a space, the decimal length, a NUL, the content.
pub open spec fn framed(kind: Kind, content: Seq<u8>) -> Seq<u8> {
    kind_tag(kind) + seq![32u8] + decimal_digits(content.len()) + seq![0u8] + content
}

/// Every byte of `s` is ASCII.
pub open spec fn all_ascii(s: Seq<u8>) -> bool {
    forall|i: int| 0 <= i < s.len() ==> #[trigger] s[i] < 128
}

/// `p` is the first NUL of `b`, and lies within the header window.
pub open spec fn is_header_end(b: Seq<u8>, p: int) -> bool {
    &&& 0 <= p < b.len()
    &&& p < HEADER_LIMIT
    &&& b[p] == 0
    &&& forall|j: int| 0 <= j < p ==> b[j] != 0
}

/// `s` is the one space of the header `h`.
pub open spec fn is_separator(h: Seq<u8>, s: int) -> bool {
    &&& 0 <= s < h.len()
    &&& h[s] == 32
    &&& forall|j: int| 0 <= j < h.len() && j != s ==> h[j] != 32
}

/// What decoding the decompressed bytes `b` of an object gives.
pub open spec fn decode_framed_spec(b: Seq<u8>) -> Result<(Kind, Seq<u8>), ObjectError> {
    if !(exists|p: int| is_header_end(b, p)) {
        Err(ObjectError::MalformedHeader)
    } else {
        let p = choose|p: int| is_header_end(b, p);
        let h = b.take(p);
        if !(exists|s: int| is_separator(h, s)) {
            Err(ObjectError::MalformedHeader)
        } else {
            let s = choose|s: int| is_separator(h, s);
            let digits = h.subrange(s + 1, p);
            if digits.len() == 0 || !all_digits(digits) || !all_ascii(h.take(s)) {
                Err(ObjectError::MalformedHeader)
            } else {
                match kind_of_tag(h.take(s)) {
                    None => Err(ObjectError::UnknownKind),
                    Some(kind) => {
                        let size = decimal_value(digits);
                        if p + 1 + size > b.len() {
                            Err(ObjectError::SizeMismatch)
                        } else {
                            Ok((kind, b.subrange(p + 1, p + 1 + size)))
                        }
                    },
                }
            }
        }
    }
}

/// What decoding the stored (compressed) bytes `c` gives.
pub open spec fn decode_spec(c: Seq<u8>) -> Result<(Kind, Seq<u8>), ObjectError> {
    match inflated(c) {
        None => Err(ObjectError::CorruptStream),
        Some(b) => decode_framed_spec(b),
    }
}

/// The stored bytes of an object.
pub open spec fn encode_spec(kind: Kind, content: Seq<u8>) -> Seq<u8> {
    zlib_of(framed(kind, content))
}

/// A decoding result with the content seen as a sequence.
pub open spec fn decoded_view(r: Result<(Kind, Vec<u8>), ObjectError>) -> Result<
    (Kind, Seq<u8>),
    ObjectError,
> {
    match r {
        Ok((kind, content)) => Ok((kind, content@)),
        Err(e) => Err(e),
    }
}

spec fn pow10(k: nat) -> nat
    decreases k,
{
    if k == 0 {
        1
    } else {
        10 * pow10((k - 1) as nat)
    }
}

proof fn lemma_digits_len_bound(n: nat, k: nat)
    requires
        k >= 1,
        n < pow10(k),
    ensures
        decimal_digits(n).len() <= k,
    decreases k,
{
    if n >= 10 {
        assert(pow10(k) == 10 * pow10((k - 1) as nat));
        if k == 1 {
            assert(pow10(0) == 1);
        } else {
            assert(n / 10 < pow10((k - 1) as nat)) by (nonlinear_arith)
                requires
                    n < 10 * pow10((k - 1) as nat),
            ;
            lemma_digits_len_bound(n / 10, (k - 1) as nat);
        }
    }
}

/// The numeral of a length that fits a `usize` has at most 20 digits.
proof fn lemma_length_digits(n: nat)
    requires
        n <= usize::MAX,
    ensures
        decimal_digits(n).len() <= 20,
{
    reveal_with_fuel(pow10, 21);
    assert(pow10(20) == 100_000_000_000_000_000_000nat);
    lemma_digits_len_bound(n, 20);
}

/// A header `<tag> <digits>\0` of a known kind, short enough to end within
/// the header window, followed by `rest`: decoding takes the declared number
/// of bytes from `rest` and ignores what follows them, and fails with
/// `SizeMismatch` when `rest` is shorter than declared.
pub proof fn lemma_header_decodes(kind: Kind, digits: Seq<u8>, rest: Seq<u8>)
    requires
        digits.len() >= 1,
        all_digits(digits),
        5 + digits.len() < HEADER_LIMIT,
    ensures
        decode_framed_spec(kind_tag(kind) + seq![32u8] + digits + seq![0u8] + rest) == (if rest.len()
            < decimal_value(digits) {
            Err::<(Kind, Seq<u8>), ObjectError>(ObjectError::SizeMismatch)
        } else {
            Ok::<(Kind, Seq<u8>), ObjectError>((kind, rest.take(decimal_value(digits) as int)))
        }),
{
    let b = kind_tag(kind) + seq![32u8] + digits + seq![0u8] + rest;
    let p: int = 5 + digits.len() as int;
    assert(b[p] == 0);
    assert forall|j: int| 0 <= j < p implies b[j] != 0 by {
        if j >= 5 {
            assert(b[j] == digits[j - 5]);
            assert(is_digit(digits[j - 5]));
        }
    }
    assert(is_header_end(b, p));
    let q = choose|q: int| is_header_end(b, q);
    assert(q == p);
    let h = b.take(p);
    assert forall|j: int| 0 <= j < h.len() && j != 4 implies h[j] != 32 by {
        if j >= 5 {
            assert(h[j] == digits[j - 5]);
            assert(is_digit(digits[j - 5]));
        }
    }
    assert(is_separator(h, 4));
    let s = choose|s: int| is_separator(h, s);
    assert(s == 4);
    assert(h.subrange(5, p) =~= digits);
    assert(h.take(4) =~= kind_tag(kind));
    assert(all_ascii(kind_tag(kind)));
    let size = decimal_value(digits);
    if rest.len() >= size {
        assert(b.subrange(p + 1, p + 1 + size) =~= rest.take(size as int));
    }
}

/// Decoding a framed object gives back its kind and content.
pub proof fn lemma_frame_round_trip(kind: Kind, content: Seq<u8>)
    requires
        content.len() <= usize::MAX,
    ensures
        decode_framed_spec(framed(kind, content)) == Ok::<(Kind, Seq<u8>), ObjectError>((kind, content)),
{
    let d = decimal_digits(content.len());
    lemma_decimal_digits(content.len());
    lemma_length_digits(content.len());
    lemma_header_decodes(kind, d, content);
    assert(content.take(content.len() as int) =~= content);
}

/// Stored bytes that decompress to a well-formed header followed by fewer
/// bytes than it declares fail with `SizeMismatch`: truncated content is
/// never handed out.
pub proof fn lemma_truncated_content(stored: Seq<u8>, kind: Kind, digits: Seq<u8>, rest: Seq<u8>)
    requires
        digits.len() >= 1,
        all_digits(digits),
        5 + digits.len() < HEADER_LIMIT,
        rest.len() < decimal_value(digits),
        inflated(stored) == Some(kind_tag(kind) + seq![32u8] + digits + seq![0u8] + rest),
    ensures
        decode_spec(stored) == Err::<(Kind, Seq<u8>), ObjectError>(ObjectError::SizeMismatch),
{
    lemma_header_decodes(kind, digits, rest);
}

/// Stored bytes that decompress to bytes with no NUL among the first
/// `HEADER_LIMIT` fail with `MalformedHeader`.
pub proof fn lemma_no_header_end(stored: Seq<u8>, b: Seq<u8>)
    requires
        inflated(stored) == Some(b),
        forall|i: int| 0 <= i < b.len() && i < HEADER_LIMIT ==> b[i] != 0,
    ensures
        decode_spec(stored) == Err::<(Kind, Seq<u8>), ObjectError>(ObjectError::MalformedHeader),
{
    assert forall|p: int| !is_header_end(b, p) by {
        if is_header_end(b, p) {
            assert(b[p] != 0);
        }
    }
}

/// Builds the framed bytes of an object.
pub fn frame(kind: Kind, content: &[u8]) -> (r: Vec<u8>)
    ensures
        r@ == framed(kind, content@),
{
    let mut out: Vec<u8> = Vec::new();
    match kind {
        Kind::Blob => {
            out.push(98u8);
            out.push(108u8);
            out.push(111u8);
            out.push(98u8);
        },
    }
    out.push(32u8);
    push_decimal(&mut out, content.len());
    out.push(0u8);
    let mut i: usize = 0;
    let ghost start = out@;
    while i < content.len()
        invariant
            i <= content@.len(),
            out@ == start + content@.take(i as int),
        decreases content@.len() - i,
    {
        out.push(content[i]);
        i = i + 1;
        assert(out@ =~= start + content@.take(i as int));
    }
    assert(content@.take(content@.len() as int) =~= content@);
    assert(out@ =~= framed(kind, content@));
    out
}


/// Decodes the decompressed bytes of an object into its kind and content.
/// Bytes after the declared content are ignored.
pub fn decode_framed(b: &[u8]) -> (r: Result<(Kind, Vec<u8>), ObjectError>)
    ensures
        decoded_view(r) == decode_framed_spec(b@),
{
    let mut p: usize = 0;
    while p < b.len() && p < HEADER_LIMIT && b[p] != 0
        invariant
            p <= b@.len(),
            p <= HEADER_LIMIT,
            forall|j: int| 0 <= j < p ==> b@[j] != 0,
        decreases b@.len() - p,
    {
        p = p + 1;
    }
    if p == b.len() || p == HEADER_LIMIT {
        assert forall|q: int| !is_header_end(b@, q) by {
            if is_header_end(b@, q) && q >= p {
                assert(false);
            }
        }
        return Err(ObjectError::MalformedHeader);
    }
    assert(is_header_end(b@, p as int));
    proof {
        let q = choose|q: int| is_header_end(b@, q);
        assert(q == p);
    }
    let ghost h = b@.take(p as int);
    let mut s: usize = 0;
    while s < p && b[s] != 32
        invariant
            s <= p < b@.len(),
            forall|j: int| 0 <= j < s ==> b@[j] != 32,
        decreases p - s,
    {
        s = s + 1;
    }
    if s == p {
        assert forall|t: int| !is_separator(h, t) by {
            if is_separator(h, t) {
                assert(h[t] == b@[t]);
            }
        }
        return Err(ObjectError::MalformedHeader);
    }
    let mut t: usize = s + 1;
    while t < p && b[t] != 32
        invariant
            s < t <= p < b@.len(),
            forall|j: int| s < j < t ==> b@[j] != 32,
        decreases p - t,
    {
        t = t + 1;
    }
    if t < p {
        assert forall|u: int| !is_separator(h, u) by {
            if is_separator(h, u) {
                assert(h[s as int] == 32);
                assert(h[t as int] == 32);
            }
        }
        return Err(ObjectError::MalformedHeader);
    }
    assert(is_separator(h, s as int));
    proof {
        let u = choose|u: int| is_separator(h, u);
        assert(u == s);
    }
    let ghost digits = h.subrange(s + 1, p as int);
    if s + 1 == p {
        return Err(ObjectError::MalformedHeader);
    }
    assert(!all_digits(digits) ==> decode_framed_spec(b@) == Err::<(Kind, Seq<u8>), ObjectError>(
        ObjectError::MalformedHeader,
    ));
    let mut k: usize = s + 1;
    while k < p
        invariant
            s < k <= p < b@.len(),
            !all_digits(digits) ==> decode_framed_spec(b@) == Err::<(Kind, Seq<u8>), ObjectError>(
                ObjectError::MalformedHeader,
            ),
            digits == b@.subrange(s + 1, p as int),
            forall|j: int| s < j < k ==> is_digit(#[trigger] b@[j]),
        decreases p - k,
    {
        if !(48 <= b[k] && b[k] <= 57) {
            assert(digits[k - s - 1] == b@[k as int]);
            assert(!is_digit(digits[k - s - 1]));
            return Err(ObjectError::MalformedHeader);
        }
        k = k + 1;
    }
    assert(all_digits(digits)) by {
        assert forall|j: int| 0 <= j < digits.len() implies is_digit(#[trigger] digits[j]) by {
            assert(digits[j] == b@[s + 1 + j]);
        }
    }
    assert(!all_ascii(h.take(s as int)) ==> decode_framed_spec(b@) == Err::<(Kind, Seq<u8>), ObjectError>(
        ObjectError::MalformedHeader,
    ));
    let mut a: usize = 0;
    while a < s
        invariant
            s < p < b@.len(),
            h == b@.take(p as int),
            !all_ascii(h.take(s as int)) ==> decode_framed_spec(b@) == Err::<(Kind, Seq<u8>), ObjectError>(
                ObjectError::MalformedHeader,
            ),
            a <= s,
            forall|j: int| 0 <= j < a ==> #[trigger] b@[j] < 128,
        decreases s - a,
    {
        if b[a] >= 128 {
            assert(h.take(s as int)[a as int] == b@[a as int]);
            return Err(ObjectError::MalformedHeader);
        }
        a = a + 1;
    }
    assert(all_ascii(h.take(s as int))) by {
        assert forall|j: int| 0 <= j < s implies #[trigger] h.take(s as int)[j] < 128 by {
            assert(h.take(s as int)[j] == b@[j]);
        }
    }
    let is_blob = s == 4 && b[0] == 98 && b[1] == 108 && b[2] == 111 && b[3] == 98;
    if !is_blob {
        assert(kind_of_tag(h.take(s as int)) is None) by {
            let tag = h.take(s as int);
            if tag == kind_tag(Kind::Blob) {
                assert(tag.len() == 4);
                assert(tag[0] == b@[0]);
                assert(tag[1] == b@[1]);
                assert(tag[2] == b@[2]);
                assert(tag[3] == b@[3]);
            }
        }
        return Err(ObjectError::UnknownKind);
    }
    assert(h.take(4) =~= kind_tag(Kind::Blob));
    let start = p + 1;
    match parse_decimal(b, s + 1, p) {
        None => Err(ObjectError::SizeMismatch),
        Some(size) => {
            if size > b.len() - start {
                Err(ObjectError::SizeMismatch)
            } else {
                let content = slice_to_vec(slice_subrange(b, start, start + size));
                Ok((Kind::Blob, content))
            }
        },
    }
}

/// Encodes an object into the bytes to store: the zlib stream of its frame.
/// Decoding those bytes gives the object back.
pub fn encode(kind: Kind, content: &[u8]) -> (r: Vec<u8>)
    ensures
        r@ == encode_spec(kind, content@),
        inflated(r@) == Some(framed(kind, content@)),
        decode_spec(r@) == Ok::<(Kind, Seq<u8>), ObjectError>((kind, content@)),
{
    let framed_bytes = frame(kind, content);
    let r = zlib_compress(framed_bytes.as_slice());
    let n: usize = content.len();
    proof {
        assert(content@.len() == n);
        lemma_frame_round_trip(kind, content@);
    }
    r
}

/// Decodes stored bytes: decompresses them, then reads the frame.
pub fn decode(compressed: &[u8]) -> (r: Result<(Kind, Vec<u8>), ObjectError>)
    ensures
        decoded_view(r) == decode_spec(compressed@),
{
    match zlib_decompress(compressed) {
        None => Err(ObjectError::CorruptStream),
        Some(b) => decode_framed(b.as_slice()),
    }
}

} // verus!
