//! Reading the pieces of a puzzle file out of a byte buffer: little-endian
//! numbers, the marker that opens the header, and texts that end in a zero
//! byte.

use crate::charset::{decode_latin1, latin1_chars};
use crate::puzfile::DecodeError;
use vstd::prelude::*;
use vstd::slice::slice_subrange;

verus! {

/// The number that two bytes stand for, the low byte first.
pub open spec fn le_u16_of(low: u8, high: u8) -> u16 {
    (low as int + 256 * (high as int)) as u16
}

/// The 16-bit little-endian number at position `at`.
pub open spec fn u16_at(b: Seq<u8>, at: int) -> u16 {
    le_u16_of(b[at], b[at + 1])
}

/// The two bytes of a 16-bit number, the low byte first.
pub open spec fn le_u16_bytes(v: u16) -> Seq<u8> {
    seq![(v % 256) as u8, (v / 256) as u8]
}

/// The marker `ACROSS&DOWN` that opens the header, two bytes behind the
/// start of the checksum: the ASCII codes of its eleven characters.
pub open spec fn marker() -> Seq<u8> {
    seq![65u8, 67u8, 82u8, 79u8, 83u8, 83u8, 38u8, 68u8, 79u8, 87u8, 78u8]
}

/// A header starts at `i`: two bytes of checksum, then the marker.
pub open spec fn header_at(b: Seq<u8>, i: int) -> bool {
    0 <= i && i + 13 <= b.len() && b.subrange(i + 2, i + 13) == marker()
}

/// The first position from `from` on at which a header starts.
pub open spec fn first_header(b: Seq<u8>, from: int) -> Option<int>
    decreases b.len() - from,
{
    if from < 0 || from + 13 > b.len() {
        None
    } else if header_at(b, from) {
        Some(from)
    } else {
        first_header(b, from + 1)
    }
}

/// The first position from `from` on that holds a zero byte.
pub open spec fn first_nul(b: Seq<u8>, from: int) -> Option<int>
    decreases b.len() - from,
{
    if from < 0 || from >= b.len() {
        None
    } else if b[from] == 0 {
        Some(from)
    } else {
        first_nul(b, from + 1)
    }
}

/// Where the text with number `k` starts, of the zero-terminated texts that
/// stand one behind the other from `from` on; `None` if the buffer ends
/// before `k` texts are complete.
pub open spec fn field_start(b: Seq<u8>, from: int, k: nat) -> Option<int>
    decreases k,
{
    if k == 0 {
        Some(from)
    } else {
        match field_start(b, from, (k - 1) as nat) {
            Some(s) => match first_nul(b, s) {
                Some(z) => Some(z + 1),
                None => None,
            },
            None => None,
        }
    }
}

/// The text with number `k` of the zero-terminated texts from `from` on:
/// the Latin-1 characters before its zero byte.
pub open spec fn field_text(b: Seq<u8>, from: int, k: nat) -> Seq<char> {
    let s = field_start(b, from, k)->0;
    latin1_chars(b.subrange(s, first_nul(b, s)->0))
}

/// Every byte is below 128.
pub open spec fn is_seven_bit(b: Seq<u8>) -> bool {
    forall|i: int| 0 <= i < b.len() ==> #[trigger] b[i] < 128
}

/// Two bytes make the number whose bytes they are.
pub proof fn lemma_le_u16_round_trip(v: u16)
    ensures
        le_u16_bytes(v).len() == 2,
        u16_at(le_u16_bytes(v), 0) == v,
        le_u16_of((v % 256) as u8, (v / 256) as u8) == v,
{
}

/// A number made of two bytes has those bytes.
pub proof fn lemma_le_u16_bytes_of(low: u8, high: u8)
    ensures
        le_u16_bytes(le_u16_of(low, high)) == seq![low, high],
{
    let v = le_u16_of(low, high);
    assert(v == low + 256 * high);
    assert(v % 256 == low as int);
    assert(v / 256 == high as int);
    assert(le_u16_bytes(v) =~= seq![low, high]);
}

/// What `first_header` finds is a header, and no header starts before it.
pub proof fn lemma_first_header(b: Seq<u8>, from: int)
    requires
        0 <= from,
    ensures
        match first_header(b, from) {
            Some(h) => from <= h && header_at(b, h) && forall|j: int|
                from <= j < h ==> !header_at(b, j),
            None => forall|j: int| from <= j ==> !header_at(b, j),
        },
    decreases b.len() - from,
{
    if from + 13 <= b.len() && !header_at(b, from) {
        lemma_first_header(b, from + 1);
    }
}

/// A header with no header before it is what `first_header` finds.
pub proof fn lemma_first_header_is(b: Seq<u8>, from: int, h: int)
    requires
        0 <= from <= h,
        header_at(b, h),
        forall|j: int| from <= j < h ==> !header_at(b, j),
    ensures
        first_header(b, from) == Some(h),
    decreases h - from,
{
    if from < h {
        lemma_first_header_is(b, from + 1, h);
    }
}

/// What `first_nul` finds is a zero byte, and no zero byte stands between
/// `from` and it.
pub proof fn lemma_first_nul(b: Seq<u8>, from: int)
    requires
        0 <= from,
    ensures
        match first_nul(b, from) {
            Some(z) => from <= z < b.len() && b[z] == 0 && forall|j: int|
                from <= j < z ==> b[j] != 0,
            None => forall|j: int| from <= j < b.len() ==> b[j] != 0,
        },
    decreases b.len() - from,
{
    if from < b.len() && b[from] != 0 {
        lemma_first_nul(b, from + 1);
    }
}

/// A zero byte with none between `from` and it is what `first_nul` finds.
pub proof fn lemma_first_nul_is(b: Seq<u8>, from: int, z: int)
    requires
        0 <= from <= z < b.len(),
        b[z] == 0,
        forall|j: int| from <= j < z ==> b[j] != 0,
    ensures
        first_nul(b, from) == Some(z),
    decreases z - from,
{
    if from < z {
        lemma_first_nul_is(b, from + 1, z);
    }
}

/// The starts of the texts lie in the buffer, one behind the other, and
/// where text `k` is complete, so are those before it.
pub proof fn lemma_field_start(b: Seq<u8>, from: int, j: nat, k: nat)
    requires
        0 <= from <= b.len(),
        j <= k,
        field_start(b, from, k) is Some,
    ensures
        field_start(b, from, j) is Some,
        from <= field_start(b, from, j)->0 <= field_start(b, from, k)->0 <= b.len(),
        j < k ==> first_nul(b, field_start(b, from, j)->0) is Some && first_nul(
            b,
            field_start(b, from, j)->0,
        )->0 < field_start(b, from, k)->0,
    decreases k,
{
    if k > 0 {
        let s = field_start(b, from, (k - 1) as nat)->0;
        if j < k {
            lemma_field_start(b, from, j, (k - 1) as nat);
        }
        lemma_field_start(b, from, (k - 1) as nat, (k - 1) as nat);
        lemma_first_nul(b, s);
    }
}

/// Calls `nom::le_u8`.
///
/// Trusted: on an empty input the parser fails; otherwise it yields the
/// first byte.
#[verifier::external_body]
pub(crate) fn nom_le_u8(input: &[u8]) -> (r: Option<u8>)
    ensures
        r == if input@.len() >= 1 {
            Some(input@[0])
        } else {
            None
        },
{
    match nom::le_u8(input) {
        Ok((_, v)) => Some(v),
        Err(_) => None,
    }
}

/// Calls `nom::le_u16`.
///
/// Trusted: on fewer than two bytes the parser fails; otherwise it yields
/// the first byte plus 256 times the second.
#[verifier::external_body]
pub(crate) fn nom_le_u16(input: &[u8]) -> (r: Option<u16>)
    ensures
        r == if input@.len() >= 2 {
            Some(le_u16_of(input@[0], input@[1]))
        } else {
            None
        },
{
    match nom::le_u16(input) {
        Ok((_, v)) => Some(v),
        Err(_) => None,
    }
}

/// Reads the little-endian 16-bit number at `pos`; fails where the buffer
/// ends before its second byte.
pub(crate) fn read_u16(input: &[u8], pos: usize) -> (r: Result<u16, DecodeError>)
    requires
        pos <= input@.len(),
    ensures
        match r {
            Ok(v) => pos + 2 <= input.len() && v == u16_at(input@, pos as int),
            Err(e) => e == DecodeError::Truncated && pos + 2 > input@.len(),
        },
{
    let rest = slice_subrange(input, pos, input.len());
    match nom_le_u16(rest) {
        Some(v) => Ok(v),
        None => Err(DecodeError::Truncated),
    }
}

/// Whether a header starts at `pos`: behind the two bytes of the checksum
/// stands the marker.
pub(crate) fn is_header_at(input: &[u8], pos: usize) -> (found: bool)
    requires
        pos + 13 <= input.len(),
    ensures
        found == header_at(input@, pos as int),
{
    let found = input[pos + 2] == 65 && input[pos + 3] == 67 && input[pos + 4] == 82 && input[pos
        + 5] == 79 && input[pos + 6] == 83 && input[pos + 7] == 83 && input[pos + 8] == 38
        && input[pos + 9] == 68 && input[pos + 10] == 79 && input[pos + 11] == 87 && input[pos
        + 12] == 78;
    proof {
        let window = input@.subrange(pos + 2, pos + 13);
        if found {
            assert(window =~= marker());
        } else {
            assert(forall|k: int| 0 <= k < 11 ==> window[k] == input@[pos + 2 + k]);
            if window == marker() {
                assert(window[0] == 65 && window[1] == 67 && window[2] == 82 && window[3] == 79
                    && window[4] == 83 && window[5] == 83 && window[6] == 38 && window[7] == 68
                    && window[8] == 79 && window[9] == 87 && window[10] == 78);
            }
        }
    }
    found
}

/// Finds the first header of the buffer.
pub(crate) fn find_header(input: &[u8]) -> (r: Option<usize>)
    ensures
        match r {
            Some(h) => first_header(input@, 0) == Some(h as int) && h + 13 <= input.len(),
            None => first_header(input@, 0) is None,
        },
{
    let n = input.len();
    if n < 13 {
        return None;
    }
    let last = n - 13;
    let mut pos: usize = 0;
    while pos <= last
        invariant
            n == input@.len(),
            n >= 13,
            last == n - 13,
            pos <= last + 1,
            first_header(input@, 0) == first_header(input@, pos as int),
        decreases last + 1 - pos,
    {
        if is_header_at(input, pos) {
            return Some(pos);
        }
        pos += 1;
    }
    None
}

/// Finds the first zero byte from `from` on.
pub(crate) fn find_nul(input: &[u8], from: usize) -> (r: Option<usize>)
    requires
        from <= input@.len(),
    ensures
        match r {
            Some(z) => first_nul(input@, from as int) == Some(z as int) && from <= z
                < input.len(),
            None => first_nul(input@, from as int) is None,
        },
{
    let n = input.len();
    let mut pos: usize = from;
    while pos < n
        invariant
            n == input@.len(),
            from <= pos <= n,
            first_nul(input@, from as int) == first_nul(input@, pos as int),
        decreases n - pos,
    {
        if input[pos] == 0 {
            return Some(pos);
        }
        pos += 1;
    }
    None
}

/// Whether the bytes from `from` up to `to` are all below 128.
pub(crate) fn seven_bit_between(input: &[u8], from: usize, to: usize) -> (clean: bool)
    requires
        from <= to <= input@.len(),
    ensures
        clean == is_seven_bit(input@.subrange(from as int, to as int)),
{
    let ghost window = input@.subrange(from as int, to as int);
    let mut pos: usize = from;
    while pos < to
        invariant
            from <= pos <= to <= input@.len(),
            window == input@.subrange(from as int, to as int),
            forall|j: int| 0 <= j < pos - from ==> #[trigger] window[j] < 128,
        decreases to - pos,
    {
        if input[pos] >= 128 {
            assert(window[pos - from] == input@[pos as int]);
            return false;
        }
        assert(window[pos - from] == input@[pos as int]);
        pos += 1;
    }
    true
}

/// The Latin-1 text of the bytes from `from` up to `to`.
pub(crate) fn text_between(input: &[u8], from: usize, to: usize) -> (text: String)
    requires
        from <= to <= input@.len(),
    ensures
        text@ == latin1_chars(input@.subrange(from as int, to as int)),
{
    decode_latin1(slice_subrange(input, from, to))
}

} // verus!
