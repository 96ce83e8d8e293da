//! Primitive text parsers: whitespace skipping, whitespace-delimited tokens,
//! unsigned decimal numbers, and newline scanning.
//!
//! Every exec function works on a byte slice and a cursor position and is
//! specified against the spec functions below, which define exactly which
//! bytes are consumed and what value is produced.

use vstd::prelude::*;

verus! {

/// Space and tab separate fields within a line.
pub open spec fn is_space(b: u8) -> bool {
    b == 32 || b == 9
}

/// ASCII decimal digit.
pub open spec fn is_digit(b: u8) -> bool {
    48 <= b && b <= 57
}

/// Numeric value of one ASCII digit.
pub open spec fn digit_val(b: u8) -> nat
    recommends
        is_digit(b),
{
    (b - 48) as nat
}

/// First index at or after `i` that is either the end of `s` or a
/// non-space byte.
pub open spec fn skip_ws(s: Seq<u8>, i: int) -> int
    recommends
        0 <= i <= s.len(),
    decreases s.len() - i when 0 <= i <= s.len()
{
    if i < s.len() && is_space(s[i]) {
        skip_ws(s, i + 1)
    } else {
        i
    }
}

/// End of the maximal run of non-space bytes starting at `i`.
pub open spec fn token_end(s: Seq<u8>, i: int) -> int
    recommends
        0 <= i <= s.len(),
    decreases s.len() - i when 0 <= i <= s.len()
{
    if i < s.len() && !is_space(s[i]) {
        token_end(s, i + 1)
    } else {
        i
    }
}

/// End of the maximal run of decimal digits starting at `i`.
pub open spec fn digit_end(s: Seq<u8>, i: int) -> int
    recommends
        0 <= i <= s.len(),
    decreases s.len() - i when 0 <= i <= s.len()
{
    if i < s.len() && is_digit(s[i]) {
        digit_end(s, i + 1)
    } else {
        i
    }
}

/// Value of the decimal digits `s[i..j)`, most significant first.
pub open spec fn digits_val(s: Seq<u8>, i: int, j: int) -> nat
    recommends
        0 <= i <= j <= s.len(),
    decreases j - i when i <= j
{
    if i < j {
        digits_val(s, i, j - 1) * 10 + digit_val(s[j - 1])
    } else {
        0
    }
}

/// Outcome of reading the next whitespace-delimited token from position `i`:
/// the token's start and end, or `None` when only whitespace remains.
pub open spec fn spec_token(s: Seq<u8>, i: int) -> Option<(int, int)> {
    let p = skip_ws(s, i);
    if p < s.len() {
        Some((p, token_end(s, p)))
    } else {
        None
    }
}

/// Outcome of reading the next unsigned decimal number from position `i`:
/// its value and the position just past its digits, or `None` when the next
/// non-space byte is not a digit (or the digits exceed `u64::MAX`).
pub open spec fn spec_u64(s: Seq<u8>, i: int) -> Option<(u64, int)> {
    let p = skip_ws(s, i);
    let e = digit_end(s, p);
    if p < e && digits_val(s, p, e) <= u64::MAX {
        Some((digits_val(s, p, e) as u64, e))
    } else {
        None
    }
}

/// First index at or after `i` that is either the end of `s` or a newline.
pub open spec fn line_end(s: Seq<u8>, i: int) -> int
    recommends
        0 <= i <= s.len(),
    decreases s.len() - i when 0 <= i <= s.len()
{
    if i < s.len() && s[i] != 10 {
        line_end(s, i + 1)
    } else {
        i
    }
}

/// Cursor position after consuming the line that starts at `i`, including
/// its terminator when one is present.
pub open spec fn after_line(s: Seq<u8>, i: int) -> int
    recommends
        0 <= i <= s.len(),
{
    if line_end(s, i) < s.len() {
        line_end(s, i) + 1
    } else {
        line_end(s, i)
    }
}

pub proof fn lemma_skip_ws_bounds(s: Seq<u8>, i: int)
    requires
        0 <= i <= s.len(),
    ensures
        i <= skip_ws(s, i) <= s.len(),
        forall|k: int| i <= k < skip_ws(s, i) ==> is_space(s[k]),
        skip_ws(s, i) < s.len() ==> !is_space(s[skip_ws(s, i)]),
    decreases s.len() - i,
{
    if i < s.len() && is_space(s[i]) {
        lemma_skip_ws_bounds(s, i + 1);
    }
}

pub proof fn lemma_token_end_bounds(s: Seq<u8>, i: int)
    requires
        0 <= i <= s.len(),
    ensures
        i <= token_end(s, i) <= s.len(),
        forall|k: int| i <= k < token_end(s, i) ==> !is_space(s[k]),
        token_end(s, i) < s.len() ==> is_space(s[token_end(s, i)]),
    decreases s.len() - i,
{
    if i < s.len() && !is_space(s[i]) {
        lemma_token_end_bounds(s, i + 1);
    }
}

pub proof fn lemma_digit_end_bounds(s: Seq<u8>, i: int)
    requires
        0 <= i <= s.len(),
    ensures
        i <= digit_end(s, i) <= s.len(),
        forall|k: int| i <= k < digit_end(s, i) ==> is_digit(s[k]),
        digit_end(s, i) < s.len() ==> !is_digit(s[digit_end(s, i)]),
    decreases s.len() - i,
{
    if i < s.len() && is_digit(s[i]) {
        lemma_digit_end_bounds(s, i + 1);
    }
}

pub proof fn lemma_line_end_bounds(s: Seq<u8>, i: int)
    requires
        0 <= i <= s.len(),
    ensures
        i <= line_end(s, i) <= s.len(),
        i <= after_line(s, i) <= s.len(),
        i < s.len() ==> i < after_line(s, i),
        forall|k: int| i <= k < line_end(s, i) ==> s[k] != 10,
        line_end(s, i) < s.len() ==> s[line_end(s, i)] == 10,
    decreases s.len() - i,
{
    if i < s.len() && s[i] != 10 {
        lemma_line_end_bounds(s, i + 1);
    }
}

/// `skip_ws` is determined by its characterization: it stops exactly at
/// the first non-space byte.
pub proof fn lemma_skip_ws_exact(s: Seq<u8>, i: int, j: int)
    requires
        0 <= i <= j <= s.len(),
        forall|k: int| i <= k < j ==> is_space(s[k]),
        j == s.len() || !is_space(s[j]),
    ensures
        skip_ws(s, i) == j,
    decreases j - i,
{
    if i < j {
        lemma_skip_ws_exact(s, i + 1, j);
    }
}

/// `token_end` is determined by its characterization: it stops exactly at
/// the first space (or the end).
pub proof fn lemma_token_end_exact(s: Seq<u8>, i: int, j: int)
    requires
        0 <= i <= j <= s.len(),
        forall|k: int| i <= k < j ==> !is_space(s[k]),
        j == s.len() || is_space(s[j]),
    ensures
        token_end(s, i) == j,
    decreases j - i,
{
    if i < j {
        lemma_token_end_exact(s, i + 1, j);
    }
}

/// `digit_end` is determined by its characterization: it stops exactly at
/// the first non-digit (or the end).
pub proof fn lemma_digit_end_exact(s: Seq<u8>, i: int, j: int)
    requires
        0 <= i <= j <= s.len(),
        forall|k: int| i <= k < j ==> is_digit(s[k]),
        j == s.len() || !is_digit(s[j]),
    ensures
        digit_end(s, i) == j,
    decreases j - i,
{
    if i < j {
        lemma_digit_end_exact(s, i + 1, j);
    }
}

/// `line_end` is determined by its characterization: it stops exactly at
/// the first newline (or the end).
pub proof fn lemma_line_end_exact(s: Seq<u8>, i: int, j: int)
    requires
        0 <= i <= j <= s.len(),
        forall|k: int| i <= k < j ==> s[k] != 10,
        j == s.len() || s[j] == 10,
    ensures
        line_end(s, i) == j,
    decreases j - i,
{
    if i < j {
        lemma_line_end_exact(s, i + 1, j);
    }
}

/// `digits_val` depends only on the bytes of the digit run, wherever the
/// run sits.
pub proof fn lemma_digits_val_shift(s1: Seq<u8>, i1: int, s2: Seq<u8>, i2: int, len: int)
    requires
        0 <= len,
        0 <= i1,
        i1 + len <= s1.len(),
        0 <= i2,
        i2 + len <= s2.len(),
        s1.subrange(i1, i1 + len) == s2.subrange(i2, i2 + len),
    ensures
        digits_val(s1, i1, i1 + len) == digits_val(s2, i2, i2 + len),
    decreases len,
{
    if len > 0 {
        assert(s1.subrange(i1, i1 + len - 1) =~= s1.subrange(i1, i1 + len).subrange(0, len - 1));
        assert(s2.subrange(i2, i2 + len - 1) =~= s2.subrange(i2, i2 + len).subrange(0, len - 1));
        lemma_digits_val_shift(s1, i1, s2, i2, len - 1);
        assert(s1[i1 + (len - 1)] == s1.subrange(i1, i1 + len)[len - 1]);
        assert(s2[i2 + (len - 1)] == s2.subrange(i2, i2 + len)[len - 1]);
    }
}

/// Reading a number at a position known to hold spaces, then a digit run,
/// then a non-digit boundary.
pub proof fn lemma_spec_u64_at(s: Seq<u8>, i: int, w: int, de: int)
    requires
        0 <= i <= w < de <= s.len(),
        forall|k: int| i <= k < w ==> is_space(s[k]),
        forall|k: int| w <= k < de ==> is_digit(s[k]),
        de == s.len() || !is_digit(s[de]),
    ensures
        digits_val(s, w, de) <= u64::MAX ==> spec_u64(s, i) == Some(
            (digits_val(s, w, de) as u64, de),
        ),
        digits_val(s, w, de) > u64::MAX ==> spec_u64(s, i) is None,
{
    assert(is_digit(s[w]) && !is_space(s[w]));
    lemma_skip_ws_exact(s, i, w);
    lemma_digit_end_exact(s, w, de);
}

/// Reading a token at a position known to hold spaces, then a non-space
/// run, then a space boundary.
pub proof fn lemma_spec_token_at(s: Seq<u8>, i: int, w: int, te: int)
    requires
        0 <= i <= w < te <= s.len(),
        forall|k: int| i <= k < w ==> is_space(s[k]),
        forall|k: int| w <= k < te ==> !is_space(s[k]),
        te == s.len() || is_space(s[te]),
    ensures
        spec_token(s, i) == Some((w, te)),
{
    lemma_skip_ws_exact(s, i, w);
    lemma_token_end_exact(s, w, te);
}

/// Skip spaces and tabs; returns the first position at or after `pos` that
/// holds a non-space byte, or the end of the slice.
pub fn consume_space(s: &[u8], pos: usize) -> (r: usize)
    requires
        pos <= s@.len(),
    ensures
        r == skip_ws(s@, pos as int),
        pos <= r <= s@.len(),
{
    let mut i: usize = pos;
    while i < s.len() && (*vstd::slice::slice_index_get(s, i) == 32u8 || *vstd::slice::slice_index_get(s, i) == 9u8)
        invariant
            pos <= i <= s@.len(),
            skip_ws(s@, pos as int) == skip_ws(s@, i as int),
        decreases s@.len() - i,
    {
        i = i + 1;
    }
    i
}

/// Read the next whitespace-delimited token.  Returns the token's start and
/// end positions; the unconsumed remainder begins at the end position.
/// `None` means only whitespace remained: the caller treats that as
/// "field absent", not as a malformed field.
pub fn parse_token(s: &[u8], pos: usize) -> (r: Option<(usize, usize)>)
    requires
        pos <= s@.len(),
    ensures
        r is Some <==> spec_token(s@, pos as int) is Some,
        r is Some ==> {
            let (st, en) = r->0;
            &&& spec_token(s@, pos as int) == Some((st as int, en as int))
            &&& pos <= st < en <= s@.len()
        },
{
    let p = consume_space(s, pos);
    proof {
        lemma_skip_ws_bounds(s@, pos as int);
    }
    if p >= s.len() {
        return None;
    }
    let mut i: usize = p;
    while i < s.len() && *vstd::slice::slice_index_get(s, i) != 32u8 && *vstd::slice::slice_index_get(s, i) != 9u8
        invariant
            p <= i <= s@.len(),
            token_end(s@, p as int) == token_end(s@, i as int),
        decreases s@.len() - i,
    {
        i = i + 1;
    }
    assert(p < i);
    Some((p, i))
}

/// Monotonicity of `digits_val` in its right endpoint: reading more digits
/// never decreases the value.
pub proof fn lemma_digits_val_mono(s: Seq<u8>, i: int, j: int, k: int)
    requires
        0 <= i <= j <= k <= s.len(),
    ensures
        digits_val(s, i, j) <= digits_val(s, i, k),
    decreases k - j,
{
    if j < k {
        lemma_digits_val_mono(s, i, j, k - 1);
        assert(digits_val(s, i, k) == digits_val(s, i, k - 1) * 10 + digit_val(s[k - 1]));
        assert(digits_val(s, i, k - 1) <= digits_val(s, i, k - 1) * 10) by (nonlinear_arith);
    }
}

/// Read the next unsigned decimal number.  Returns the value and the
/// position just past its digits.  `None` when the next non-space byte is
/// not a digit, or when the digit run's value does not fit in `u64`.
pub fn parse_u64(s: &[u8], pos: usize) -> (r: Option<(u64, usize)>)
    requires
        pos <= s@.len(),
    ensures
        r is Some <==> spec_u64(s@, pos as int) is Some,
        r is Some ==> {
            let (v, en) = r->0;
            &&& spec_u64(s@, pos as int) == Some((v, en as int))
            &&& pos <= en <= s@.len()
        },
{
    let p = consume_space(s, pos);
    proof {
        lemma_digit_end_bounds(s@, p as int);
    }
    let mut i: usize = p;
    let mut acc: u64 = 0;
    let mut overflowed: bool = false;
    while i < s.len() && 48u8 <= *vstd::slice::slice_index_get(s, i) && *vstd::slice::slice_index_get(s, i) <= 57u8
        invariant
            p <= i <= s@.len(),
            digit_end(s@, p as int) == digit_end(s@, i as int),
            forall|k: int| p <= k < i ==> is_digit(s@[k]),
            !overflowed ==> acc == digits_val(s@, p as int, i as int),
            overflowed ==> digits_val(s@, p as int, i as int) > u64::MAX,
        decreases s@.len() - i,
    {
        let d: u8 = *vstd::slice::slice_index_get(s, i) - 48;
        if !overflowed {
            match acc.checked_mul(10) {
                Some(m) => match m.checked_add(d as u64) {
                    Some(a) => {
                        acc = a;
                    },
                    None => {
                        overflowed = true;
                    },
                },
                None => {
                    overflowed = true;
                },
            }
            assert(digits_val(s@, p as int, i + 1) == digits_val(s@, p as int, i as int) * 10
                + digit_val(s@[i as int]));
        } else {
            proof {
                lemma_digits_val_mono(s@, p as int, i as int, i + 1);
            }
        }
        i = i + 1;
    }
    let ghost e = digit_end(s@, p as int);
    proof {
        assert(e == i);
    }
    if i == p {
        None
    } else if overflowed {
        proof {
            assert(digits_val(s@, p as int, e) > u64::MAX);
        }
        None
    } else {
        Some((acc, i))
    }
}

/// Position of the next newline at or after `pos`, or the end of the slice.
pub fn find_line_end(s: &[u8], pos: usize) -> (r: usize)
    requires
        pos <= s@.len(),
    ensures
        r == line_end(s@, pos as int),
        pos <= r <= s@.len(),
{
    let mut i: usize = pos;
    while i < s.len() && *vstd::slice::slice_index_get(s, i) != 10u8
        invariant
            pos <= i <= s@.len(),
            line_end(s@, pos as int) == line_end(s@, i as int),
        decreases s@.len() - i,
    {
        i = i + 1;
    }
    i
}

/// Compare `s[start..end)` against `expected`, byte for byte.
pub fn range_eq(s: &[u8], start: usize, end: usize, expected: &Vec<u8>) -> (r: bool)
    requires
        start <= end <= s@.len(),
    ensures
        r <==> s@.subrange(start as int, end as int) == expected@,
{
    if end - start != expected.len() {
        proof {
            assert(s@.subrange(start as int, end as int).len() == end - start);
        }
        return false;
    }
    let mut i: usize = 0;
    while i < expected.len()
        invariant
            0 <= i <= expected@.len(),
            start <= end <= s@.len(),
            end - start == expected@.len(),
            forall|k: int| 0 <= k < i ==> s@[start + k] == expected@[k],
        decreases expected@.len() - i,
    {
        if *vstd::slice::slice_index_get(s, start + i) != expected[i] {
            proof {
                assert(s@.subrange(start as int, end as int)[i as int] != expected@[i as int]);
            }
            return false;
        }
        i = i + 1;
    }
    proof {
        assert(s@.subrange(start as int, end as int) =~= expected@);
    }
    true
}

} // verus!
