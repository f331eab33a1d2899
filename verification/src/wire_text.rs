//! Short text messages on the wire, padded with NUL bytes.
use vstd::prelude::*;

verus! {

/// The bytes with every leading and trailing NUL byte removed, as `trim_matches('\0')`
/// leaves a text (a NUL character is the single byte 0 in UTF-8, and no other
/// character's encoding holds that byte).
pub open spec fn trim_nul(b: Seq<u8>) -> Seq<u8>
    decreases b.len(),
{
    if b.len() > 0 && b.first() == 0 {
        trim_nul(b.drop_first())
    } else if b.len() > 0 && b.last() == 0 {
        trim_nul(b.drop_last())
    } else {
        b
    }
}

/// The part of `buf` that is left when NUL bytes are trimmed from both ends, given as
/// the range `lo .. hi`.
pub fn trim_nul_range(buf: &[u8]) -> (range: (usize, usize))
    ensures
        range.0 <= range.1 <= buf@.len(),
        buf@.subrange(range.0 as int, range.1 as int) == trim_nul(buf@),
{
    let mut lo: usize = 0;
    let mut hi: usize = buf.len();
    assert(buf@.subrange(0, buf@.len() as int) =~= buf@);
    loop
        invariant
            lo <= hi <= buf@.len(),
            trim_nul(buf@.subrange(lo as int, hi as int)) == trim_nul(buf@),
        ensures
            lo <= hi <= buf@.len(),
            trim_nul(buf@.subrange(lo as int, hi as int)) == buf@.subrange(lo as int, hi as int),
            buf@.subrange(lo as int, hi as int) == trim_nul(buf@),
        decreases hi - lo,
    {
        let ghost cur = buf@.subrange(lo as int, hi as int);
        if lo < hi && buf[lo] == 0 {
            assert(cur.drop_first() =~= buf@.subrange(lo + 1, hi as int));
            lo = lo + 1;
        } else if lo < hi && buf[hi - 1] == 0 {
            assert(cur.drop_last() =~= buf@.subrange(lo as int, hi - 1));
            hi = hi - 1;
        } else {
            break;
        }
    }
    (lo, hi)
}

/// True when `a[lo .. hi]` and `b` hold the same bytes.
pub fn range_equals(a: &[u8], lo: usize, hi: usize, b: &[u8]) -> (eq: bool)
    requires
        lo <= hi <= a@.len(),
    ensures
        eq == (a@.subrange(lo as int, hi as int) == b@),
{
    if hi - lo != b.len() {
        return false;
    }
    let mut i: usize = 0;
    while i < b.len()
        invariant
            hi - lo == b@.len(),
            lo <= hi <= a@.len(),
            0 <= i <= b@.len(),
            forall|j: int| 0 <= j < i ==> a@[lo + j] == b@[j],
        decreases b@.len() - i,
    {
        if a[lo + i] != b[i] {
            assert(a@.subrange(lo as int, hi as int)[i as int] != b@[i as int]);
            return false;
        }
        i = i + 1;
    }
    assert(a@.subrange(lo as int, hi as int) =~= b@);
    true
}

/// True when `buf`, NUL bytes trimmed from both ends, is the text `text`.
pub fn nul_trimmed_equals(buf: &[u8], text: &[u8]) -> (eq: bool)
    ensures
        eq == (trim_nul(buf@) == text@),
{
    let (lo, hi) = trim_nul_range(buf);
    range_equals(buf, lo, hi, text)
}

/// `k` NUL bytes.
pub open spec fn nuls(k: nat) -> Seq<u8> {
    Seq::new(k, |i: int| 0u8)
}

/// A text that neither begins nor ends with a NUL byte survives trimming, whatever NUL
/// padding is put around it.
pub proof fn lemma_trim_nul_padded(text: Seq<u8>, before: nat, after: nat)
    requires
        text.len() > 0,
        text.first() != 0,
        text.last() != 0,
    ensures
        trim_nul(nuls(before) + text + nuls(after)) == text,
    decreases before + after,
{
    let b = nuls(before) + text + nuls(after);
    if before > 0 {
        assert(b.first() == 0);
        assert(b.drop_first() =~= nuls((before - 1) as nat) + text + nuls(after));
        lemma_trim_nul_padded(text, (before - 1) as nat, after);
    } else if after > 0 {
        assert(b.first() == text.first());
        assert(b.last() == 0);
        assert(b.drop_last() =~= nuls(before) + text + nuls((after - 1) as nat));
        lemma_trim_nul_padded(text, before, (after - 1) as nat);
    } else {
        assert(b =~= text);
    }
}

/// True for a continuation byte of UTF-8, `0x80 ..= 0xBF`.
pub open spec fn is_continuation(b: u8) -> bool {
    0x80 <= b && b <= 0xBF
}

/// The length of the well-formed UTF-8 encoding of one character at the start of `b`
/// (The Unicode Standard, table 3-7), or 0 when `b` does not start with one.
pub open spec fn utf8_char_len(b: Seq<u8>) -> int {
    if b.len() == 0 {
        0
    } else if b[0] <= 0x7F {
        1
    } else if 0xC2 <= b[0] <= 0xDF && b.len() >= 2 && is_continuation(b[1]) {
        2
    } else if b.len() >= 3 && is_continuation(b[2]) && (
    (b[0] == 0xE0 && 0xA0 <= b[1] <= 0xBF)
        || ((0xE1 <= b[0] <= 0xEC || 0xEE <= b[0] <= 0xEF) && is_continuation(b[1]))
        || (b[0] == 0xED && 0x80 <= b[1] <= 0x9F)) {
        3
    } else if b.len() >= 4 && is_continuation(b[2]) && is_continuation(b[3]) && (
    (b[0] == 0xF0 && 0x90 <= b[1] <= 0xBF)
        || (0xF1 <= b[0] <= 0xF3 && is_continuation(b[1]))
        || (b[0] == 0xF4 && 0x80 <= b[1] <= 0x8F)) {
        4
    } else {
        0
    }
}

/// True when `b` is well-formed UTF-8: a sequence of well-formed character encodings.
pub open spec fn is_utf8(b: Seq<u8>) -> bool
    decreases b.len(),
{
    if b.len() == 0 {
        true
    } else if utf8_char_len(b) == 0 {
        false
    } else {
        is_utf8(b.skip(utf8_char_len(b)))
    }
}

/// Bytes below 0x80 are well-formed UTF-8.
pub proof fn lemma_ascii_is_utf8(b: Seq<u8>)
    requires
        forall|i: int| 0 <= i < b.len() ==> b[i] < 0x80,
    ensures
        is_utf8(b),
    decreases b.len(),
{
    if b.len() > 0 {
        lemma_ascii_is_utf8(b.skip(1));
    }
}

/// A byte that never occurs in well-formed UTF-8: `0xC0`, `0xC1` or `0xF5 ..= 0xFF`.
pub open spec fn never_in_utf8(b: u8) -> bool {
    b == 0xC0 || b == 0xC1 || b >= 0xF5
}

/// Well-formed UTF-8 holds no byte that never occurs in UTF-8.
pub proof fn lemma_utf8_bytes_allowed(b: Seq<u8>)
    requires
        is_utf8(b),
    ensures
        forall|i: int| 0 <= i < b.len() ==> !never_in_utf8(#[trigger] b[i]),
    decreases b.len(),
{
    if b.len() > 0 {
        let n = utf8_char_len(b);
        lemma_utf8_bytes_allowed(b.skip(n));
        assert forall|i: int| 0 <= i < b.len() implies !never_in_utf8(#[trigger] b[i]) by {
            if i >= n {
                assert(b[i] == b.skip(n)[i - n]);
            }
        }
    }
}

/// `std::str::from_utf8(bytes).is_ok()`: true exactly when the bytes are well-formed
/// UTF-8 as the Unicode Standard defines it.
#[verifier::external_body]
pub(crate) fn utf8_is_valid(bytes: &[u8]) -> (valid: bool)
    ensures
        valid == is_utf8(bytes@),
{
    std::str::from_utf8(bytes).is_ok()
}

} // verus!
