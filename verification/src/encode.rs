//! Writing a puzzle record back into the bytes of a file, and the laws that
//! tie the written bytes to what the decoder reads.

use crate::charset::{
    encode_latin1, is_latin1, latin1_bytes, latin1_chars, lemma_latin1_byte, lemma_latin1_char,
    lemma_latin1_round_trip, lemma_latin1_text_round_trip,
};
use crate::puzfile::{decode, decode_at, decoded_len, record_at, DecodeError, PuzFile, PuzView};
use crate::wire::{
    field_start, field_text, find_header, first_header, first_nul, header_at, is_seven_bit,
    le_u16_bytes, lemma_first_header, lemma_first_header_is, lemma_first_nul, lemma_first_nul_is,
    lemma_le_u16_bytes_of, lemma_le_u16_round_trip, marker, u16_at,
};
use vstd::prelude::*;
use vstd::string::is_ascii_spec_bytes;
use vstd::utf8::is_ascii_chars;

verus! {

/// A text that can stand before a zero byte: every character has a Latin-1
/// code and none is the character 0.
pub open spec fn is_text(t: Seq<char>) -> bool {
    forall|i: int| 0 <= i < t.len() ==> 0 < (#[trigger] t[i]) as int <= 0xff
}

/// The bytes of a text and the zero byte that ends it.
pub open spec fn cstring(t: Seq<char>) -> Seq<u8> {
    latin1_bytes(t).push(0u8)
}

/// The bytes of several zero-terminated texts, one behind the other.
pub open spec fn cstrings(ts: Seq<Seq<char>>) -> Seq<u8>
    decreases ts.len(),
{
    if ts.len() == 0 {
        Seq::empty()
    } else {
        cstrings(ts.drop_last()) + cstring(ts.last())
    }
}

/// The first `k` of the zero-terminated texts that stand in `b` from `from`
/// on.
pub open spec fn fields(b: Seq<u8>, from: int, k: nat) -> Seq<Seq<char>> {
    Seq::new(k, |j: int| field_text(b, from, j as nat))
}

/// Every one of the texts can stand before a zero byte.
pub open spec fn all_text(ts: Seq<Seq<char>>) -> bool {
    forall|k: int| 0 <= k < ts.len() ==> is_text(#[trigger] ts[k])
}

/// The bytes of a text hold no zero byte, and the text can be read back
/// from them.
pub proof fn lemma_text_bytes(t: Seq<char>)
    requires
        is_text(t),
    ensures
        is_latin1(t),
        latin1_bytes(t).len() == t.len(),
        forall|i: int| 0 <= i < t.len() ==> #[trigger] latin1_bytes(t)[i] != 0,
        latin1_chars(latin1_bytes(t)) == t,
{
    assert forall|i: int| 0 <= i < t.len() implies #[trigger] latin1_bytes(t)[i] != 0 by {
        assert(0 < t[i] as int <= 0xff);
        lemma_latin1_char(t[i]);
    }
    assert forall|i: int| 0 <= i < t.len() implies (#[trigger] t[i]) as int <= 0xff by {
        assert(0 < t[i] as int <= 0xff);
    }
    lemma_latin1_text_round_trip(t);
}

/// The characters of bytes without a zero byte are a text.
pub proof fn lemma_bytes_text(bytes: Seq<u8>)
    requires
        forall|i: int| 0 <= i < bytes.len() ==> bytes[i] != 0,
    ensures
        is_text(latin1_chars(bytes)),
        latin1_bytes(latin1_chars(bytes)) == bytes,
{
    let t = latin1_chars(bytes);
    assert forall|i: int| 0 <= i < t.len() implies 0 < (#[trigger] t[i]) as int <= 0xff by {
        lemma_latin1_byte(bytes[i]);
    }
    lemma_latin1_round_trip(bytes);
}

/// The zero-terminated texts that the decoder finds in a buffer, written one
/// behind the other, are the very bytes in which it found them.
pub proof fn lemma_fields_written(b: Seq<u8>, from: int, k: nat)
    requires
        0 <= from <= b.len(),
        field_start(b, from, k) is Some,
    ensures
        from <= field_start(b, from, k)->0 <= b.len(),
        cstrings(fields(b, from, k)) == b.subrange(from, field_start(b, from, k)->0),
        all_text(fields(b, from, k)),
    decreases k,
{
    if k == 0 {
        assert(cstrings(fields(b, from, k)) =~= b.subrange(from, from));
    } else {
        let j = (k - 1) as nat;
        lemma_fields_written(b, from, j);
        let s = field_start(b, from, j)->0;
        lemma_first_nul(b, s);
        let z = first_nul(b, s)->0;
        let before = fields(b, from, j);
        let here = fields(b, from, k);
        assert(here.drop_last() =~= before);
        assert(here.last() == field_text(b, from, j));
        let raw = b.subrange(s, z);
        lemma_bytes_text(raw);
        assert(cstring(here.last()) =~= b.subrange(s, z + 1));
        assert(cstrings(here) =~= b.subrange(from, z + 1));
        assert forall|i: int| 0 <= i < here.len() implies is_text(#[trigger] here[i]) by {
            if i < j {
                assert(here[i] == before[i]);
            }
        }
    }
}

/// Zero-terminated texts that stand written in a buffer are what the
/// decoder finds there.
pub proof fn lemma_written_fields(b: Seq<u8>, from: int, ts: Seq<Seq<char>>)
    requires
        0 <= from,
        from + cstrings(ts).len() <= b.len(),
        b.subrange(from, from + cstrings(ts).len()) == cstrings(ts),
        all_text(ts),
    ensures
        field_start(b, from, ts.len()) == Some(from + cstrings(ts).len()),
        fields(b, from, ts.len()) == ts,
    decreases ts.len(),
{
    if ts.len() == 0 {
        assert(fields(b, from, ts.len()) =~= ts);
    } else {
        let before = ts.drop_last();
        let last = ts.last();
        let n = cstrings(before).len() as int;
        let written = cstrings(ts);
        assert(written == cstrings(before) + cstring(last));
        assert(b.subrange(from, from + n) =~= cstrings(before)) by {
            assert forall|i: int| 0 <= i < n implies b.subrange(from, from + n)[i] == cstrings(
                before,
            )[i] by {
                assert(b.subrange(from, from + written.len())[i] == written[i]);
            }
        }
        assert forall|i: int| 0 <= i < before.len() implies is_text(#[trigger] before[i]) by {
            assert(before[i] == ts[i]);
        }
        lemma_written_fields(b, from, before);
        let s = from + n;
        let z = s + last.len();
        assert(is_text(last)) by {
            assert(last == ts[ts.len() - 1]);
        }
        lemma_text_bytes(last);
        assert forall|i: int| 0 <= i <= last.len() implies b[s + i] == cstring(last)[i] by {
            assert(b.subrange(from, from + written.len())[n + i] == written[n + i]);
        }
        assert forall|i: int| s <= i < z implies b[i] != 0 by {
            assert(b[s + (i - s)] == cstring(last)[i - s]);
            assert(cstring(last)[i - s] == latin1_bytes(last)[i - s]);
        }
        assert(b[z] == 0) by {
            assert(b[s + last.len()] == cstring(last)[last.len() as int]);
        }
        lemma_first_nul_is(b, s, z);
        assert(field_start(b, from, (ts.len() - 1) as nat) == Some(s));
        assert(b.subrange(s, z) =~= latin1_bytes(last)) by {
            assert forall|i: int| 0 <= i < last.len() implies b.subrange(s, z)[i] == latin1_bytes(
                last,
            )[i] by {
                assert(b[s + i] == cstring(last)[i]);
            }
        }
        assert(field_text(b, from, (ts.len() - 1) as nat) == last);
        assert(fields(b, from, ts.len()) =~= ts) by {
            assert forall|i: int| 0 <= i < ts.len() implies fields(b, from, ts.len())[i]
                == ts[i] by {
                if i < ts.len() - 1 {
                    assert(fields(b, from, before.len())[i] == before[i]);
                }
            }
        }
    }
}

/// The zero-terminated texts of a record in the order of the file: title,
/// author, copyright, the clues, and the notes.
pub open spec fn texts_of(v: PuzView) -> Seq<Seq<char>> {
    seq![v.title, v.author, v.copyright] + v.clues + seq![v.notes]
}

/// The bytes up to the end of the magic text: preamble, checksum, and the
/// magic text with its zero byte.
pub open spec fn head_bytes(v: PuzView) -> Seq<u8> {
    v.preamble + le_u16_bytes(v.checksum) + cstring(v.magic)
}

/// The 38 bytes of the fields of fixed size.
pub open spec fn fixed_bytes(v: PuzView) -> Seq<u8> {
    le_u16_bytes(v.cib_checksum) + le_u16_bytes(v.masked_low_checksum_1) + le_u16_bytes(
        v.masked_low_checksum_2,
    ) + le_u16_bytes(v.masked_high_checksum_1) + le_u16_bytes(v.masked_high_checksum_2)
        + latin1_bytes(v.version) + le_u16_bytes(v.reserved_1) + le_u16_bytes(
        v.scrambled_checksum,
    ) + v.reserved_2 + seq![v.width, v.height] + le_u16_bytes(v.num_clues) + le_u16_bytes(
        v.unknown_bitmask,
    ) + le_u16_bytes(v.scrambled)
}

/// The bytes of the two grids.
pub open spec fn grid_bytes(v: PuzView) -> Seq<u8> {
    latin1_bytes(v.puzzle) + latin1_bytes(v.state)
}

/// The bytes of the file that holds a record.
pub open spec fn encoded(v: PuzView) -> Seq<u8> {
    head_bytes(v) + fixed_bytes(v) + grid_bytes(v) + cstrings(texts_of(v))
}

/// The head of a record can be written and found again: no header starts
/// in the preamble, and the magic text can stand before a zero byte and
/// begins with the marker.
pub open spec fn head_ok(v: PuzView) -> bool {
    &&& forall|i: int|
        0 <= i < v.preamble.len() ==> !header_at(
            v.preamble + le_u16_bytes(v.checksum) + marker(),
            i,
        )
    &&& is_text(v.magic)
    &&& v.magic.len() >= 11
    &&& latin1_bytes(v.magic).subrange(0, 11) == marker()
}

/// The fields of fixed size take up their 38 bytes: the version has four
/// Latin-1 characters and the second reserved field twelve bytes.
pub open spec fn fixed_ok(v: PuzView) -> bool {
    &&& v.version.len() == 4
    &&& is_latin1(v.version)
    &&& v.reserved_2.len() == 12
}

/// Both grids are 7-bit text with one character per square.
pub open spec fn grids_ok(v: PuzView) -> bool {
    &&& v.puzzle.len() == v.width * v.height
    &&& is_ascii_chars(v.puzzle)
    &&& v.state.len() == v.width * v.height
    &&& is_ascii_chars(v.state)
}

/// A record can be written as a file that decodes to it again: head, fixed
/// fields and grids are in order, there are as many clues as declared, and
/// every zero-terminated text can stand before a zero byte.
pub open spec fn encodable(v: PuzView) -> bool {
    &&& head_ok(v)
    &&& fixed_ok(v)
    &&& grids_ok(v)
    &&& v.clues.len() == v.num_clues
    &&& all_text(texts_of(v))
}

/// The head of a record is what stands in `b` around the header at `h`,
/// whose magic text ends at `z`.
pub open spec fn head_stands_at(v: PuzView, b: Seq<u8>, h: int, z: int) -> bool {
    &&& v.preamble == b.subrange(0, h)
    &&& v.checksum == u16_at(b, h)
    &&& v.magic == latin1_chars(b.subrange(h + 2, z))
}

/// The grids of a record are those of `cells` squares that stand in `b`
/// from `g` on.
pub open spec fn grids_stand_at(v: PuzView, b: Seq<u8>, g: int, cells: int) -> bool {
    &&& v.puzzle == latin1_chars(b.subrange(g, g + cells))
    &&& v.state == latin1_chars(b.subrange(g + cells, g + 2 * cells))
}

/// The fields of fixed size of a record are those that stand in `b` from
/// `f` on.
pub open spec fn fixed_stands_at(v: PuzView, b: Seq<u8>, f: int) -> bool {
    &&& v.cib_checksum == u16_at(b, f)
    &&& v.masked_low_checksum_1 == u16_at(b, f + 2)
    &&& v.masked_low_checksum_2 == u16_at(b, f + 4)
    &&& v.masked_high_checksum_1 == u16_at(b, f + 6)
    &&& v.masked_high_checksum_2 == u16_at(b, f + 8)
    &&& v.version == latin1_chars(b.subrange(f + 10, f + 14))
    &&& v.reserved_1 == u16_at(b, f + 14)
    &&& v.scrambled_checksum == u16_at(b, f + 16)
    &&& v.reserved_2 == b.subrange(f + 18, f + 30)
    &&& v.width == b[f + 30]
    &&& v.height == b[f + 31]
    &&& v.num_clues == u16_at(b, f + 32)
    &&& v.unknown_bitmask == u16_at(b, f + 34)
    &&& v.scrambled == u16_at(b, f + 36)
}

/// A part of a window of a buffer stands in the buffer where the window
/// puts it.
proof fn lemma_window(b: Seq<u8>, f: int, w: Seq<u8>, off: int, part: Seq<u8>)
    requires
        0 <= f,
        f + w.len() <= b.len(),
        b.subrange(f, f + w.len()) == w,
        0 <= off,
        off + part.len() <= w.len(),
        w.subrange(off, off + part.len()) =~= part,
    ensures
        b.subrange(f + off, f + off + part.len()) == part,
{
    assert forall|i: int| 0 <= i < part.len() implies b.subrange(f + off, f + off + part.len())[i]
        == part[i] by {
        assert(b.subrange(f, f + w.len())[off + i] == w[off + i]);
        assert(w.subrange(off, off + part.len())[i] == w[off + i]);
    }
    assert(b.subrange(f + off, f + off + part.len()) =~= part);
}

/// Two bytes of a buffer are the bytes of the number that they make.
proof fn lemma_u16_window(b: Seq<u8>, at: int)
    requires
        0 <= at,
        at + 2 <= b.len(),
    ensures
        le_u16_bytes(u16_at(b, at)) == b.subrange(at, at + 2),
{
    lemma_le_u16_bytes_of(b[at], b[at + 1]);
    assert(b.subrange(at, at + 2) =~= seq![b[at], b[at + 1]]);
}

/// The two bytes of a number, found in a buffer, make that number.
proof fn lemma_u16_found(b: Seq<u8>, at: int, v: u16)
    requires
        0 <= at,
        at + 2 <= b.len(),
        b.subrange(at, at + 2) == le_u16_bytes(v),
    ensures
        u16_at(b, at) == v,
{
    lemma_le_u16_round_trip(v);
    assert(b[at] == b.subrange(at, at + 2)[0]);
    assert(b[at + 1] == b.subrange(at, at + 2)[1]);
}

/// The fields of fixed size that the decoder reads, written again, are the
/// 38 bytes from which it read them.
pub proof fn lemma_fixed_written(v: PuzView, b: Seq<u8>, f: int)
    requires
        0 <= f,
        f + 38 <= b.len(),
        fixed_stands_at(v, b, f),
    ensures
        fixed_bytes(v) == b.subrange(f, f + 38),
        v.version.len() == 4,
        is_latin1(v.version),
        v.reserved_2.len() == 12,
{
    lemma_u16_window(b, f);
    lemma_u16_window(b, f + 2);
    lemma_u16_window(b, f + 4);
    lemma_u16_window(b, f + 6);
    lemma_u16_window(b, f + 8);
    lemma_latin1_round_trip(b.subrange(f + 10, f + 14));
    lemma_u16_window(b, f + 14);
    lemma_u16_window(b, f + 16);
    lemma_u16_window(b, f + 32);
    lemma_u16_window(b, f + 34);
    lemma_u16_window(b, f + 36);
    assert(seq![v.width, v.height] =~= b.subrange(f + 30, f + 32));
    assert(fixed_bytes(v) =~= b.subrange(f, f + 2) + b.subrange(f + 2, f + 4) + b.subrange(
        f + 4,
        f + 6,
    ) + b.subrange(f + 6, f + 8) + b.subrange(f + 8, f + 10) + b.subrange(f + 10, f + 14)
        + b.subrange(f + 14, f + 16) + b.subrange(f + 16, f + 18) + b.subrange(f + 18, f + 30)
        + b.subrange(f + 30, f + 32) + b.subrange(f + 32, f + 34) + b.subrange(f + 34, f + 36)
        + b.subrange(f + 36, f + 38));
    assert(fixed_bytes(v) =~= b.subrange(f, f + 38));
}

/// The fields of fixed size of a record, found written in a buffer, are what
/// the decoder reads there.
pub proof fn lemma_written_fixed(v: PuzView, b: Seq<u8>, f: int)
    requires
        0 <= f,
        f + 38 <= b.len(),
        v.version.len() == 4,
        is_latin1(v.version),
        v.reserved_2.len() == 12,
        b.subrange(f, f + 38) == fixed_bytes(v),
    ensures
        fixed_stands_at(v, b, f),
{
    let w = fixed_bytes(v);
    let p1 = le_u16_bytes(v.cib_checksum);
    let p2 = p1 + le_u16_bytes(v.masked_low_checksum_1);
    let p3 = p2 + le_u16_bytes(v.masked_low_checksum_2);
    let p4 = p3 + le_u16_bytes(v.masked_high_checksum_1);
    let p5 = p4 + le_u16_bytes(v.masked_high_checksum_2);
    let p6 = p5 + latin1_bytes(v.version);
    let p7 = p6 + le_u16_bytes(v.reserved_1);
    let p8 = p7 + le_u16_bytes(v.scrambled_checksum);
    let p9 = p8 + v.reserved_2;
    let p10 = p9 + seq![v.width, v.height];
    let p11 = p10 + le_u16_bytes(v.num_clues);
    let p12 = p11 + le_u16_bytes(v.unknown_bitmask);
    let p13 = p12 + le_u16_bytes(v.scrambled);
    assert(w == p13);
    assert(p1.len() == 2 && p2.len() == 4 && p3.len() == 6 && p4.len() == 8 && p5.len() == 10);
    assert(p6.len() == 14 && p7.len() == 16 && p8.len() == 18 && p9.len() == 30);
    assert(p10.len() == 32 && p11.len() == 34 && p12.len() == 36 && p13.len() == 38);
    assert(w.len() == 38);
    assert(forall|k: int| 0 <= k < 36 ==> p13[k] == p12[k]);
    assert(forall|k: int| 0 <= k < 34 ==> p12[k] == p11[k]);
    assert(forall|k: int| 0 <= k < 32 ==> p11[k] == p10[k]);
    assert(forall|k: int| 0 <= k < 30 ==> p10[k] == p9[k]);
    assert(forall|k: int| 0 <= k < 18 ==> p9[k] == p8[k]);
    assert(forall|k: int| 0 <= k < 16 ==> p8[k] == p7[k]);
    assert(forall|k: int| 0 <= k < 14 ==> p7[k] == p6[k]);
    assert(forall|k: int| 0 <= k < 10 ==> p6[k] == p5[k]);
    assert(forall|k: int| 0 <= k < 8 ==> p5[k] == p4[k]);
    assert(forall|k: int| 0 <= k < 6 ==> p4[k] == p3[k]);
    assert(forall|k: int| 0 <= k < 4 ==> p3[k] == p2[k]);
    assert(forall|k: int| 0 <= k < 2 ==> p2[k] == p1[k]);
    lemma_window(b, f, w, 0, le_u16_bytes(v.cib_checksum));
    lemma_u16_found(b, f, v.cib_checksum);
    lemma_window(b, f, w, 2, le_u16_bytes(v.masked_low_checksum_1));
    lemma_u16_found(b, f + 2, v.masked_low_checksum_1);
    lemma_window(b, f, w, 4, le_u16_bytes(v.masked_low_checksum_2));
    lemma_u16_found(b, f + 4, v.masked_low_checksum_2);
    lemma_window(b, f, w, 6, le_u16_bytes(v.masked_high_checksum_1));
    lemma_u16_found(b, f + 6, v.masked_high_checksum_1);
    lemma_window(b, f, w, 8, le_u16_bytes(v.masked_high_checksum_2));
    lemma_u16_found(b, f + 8, v.masked_high_checksum_2);
    lemma_window(b, f, w, 10, latin1_bytes(v.version));
    lemma_latin1_text_round_trip(v.version);
    lemma_window(b, f, w, 14, le_u16_bytes(v.reserved_1));
    lemma_u16_found(b, f + 14, v.reserved_1);
    lemma_window(b, f, w, 16, le_u16_bytes(v.scrambled_checksum));
    lemma_u16_found(b, f + 16, v.scrambled_checksum);
    lemma_window(b, f, w, 18, v.reserved_2);
    lemma_window(b, f, w, 30, seq![v.width, v.height]);
    assert(b[f + 30] == b.subrange(f + 30, f + 32)[0]);
    assert(b[f + 31] == b.subrange(f + 30, f + 32)[1]);
    lemma_window(b, f, w, 32, le_u16_bytes(v.num_clues));
    lemma_u16_found(b, f + 32, v.num_clues);
    lemma_window(b, f, w, 34, le_u16_bytes(v.unknown_bitmask));
    lemma_u16_found(b, f + 34, v.unknown_bitmask);
    lemma_window(b, f, w, 36, le_u16_bytes(v.scrambled));
    lemma_u16_found(b, f + 36, v.scrambled);
}

/// Bytes below 128 are 7-bit text, and are the bytes of their text.
pub proof fn lemma_grid_text(bytes: Seq<u8>)
    requires
        is_seven_bit(bytes),
    ensures
        is_ascii_chars(latin1_chars(bytes)),
        latin1_bytes(latin1_chars(bytes)) == bytes,
        latin1_chars(bytes).len() == bytes.len(),
{
    let t = latin1_chars(bytes);
    assert forall|i: int| 0 <= i < t.len() implies '\0' <= #[trigger] t[i] <= '\u{7f}' by {
        assert(bytes[i] < 128);
        lemma_latin1_byte(bytes[i]);
    }
    lemma_latin1_round_trip(bytes);
}

/// The bytes of a 7-bit text are below 128, and the text is the text of its
/// bytes.
pub proof fn lemma_text_grid(t: Seq<char>)
    requires
        is_ascii_chars(t),
    ensures
        is_seven_bit(latin1_bytes(t)),
        latin1_chars(latin1_bytes(t)) == t,
        latin1_bytes(t).len() == t.len(),
{
    assert forall|i: int| 0 <= i < t.len() implies (#[trigger] t[i]) as int <= 0xff by {
        assert('\0' <= t[i] <= '\u{7f}');
    }
    assert forall|i: int| 0 <= i < t.len() implies #[trigger] latin1_bytes(t)[i] < 128 by {
        assert('\0' <= t[i] <= '\u{7f}');
        lemma_latin1_char(t[i]);
    }
    lemma_latin1_text_round_trip(t);
}

/// The marker holds no zero byte.
proof fn lemma_marker_bytes()
    ensures
        marker().len() == 11,
        forall|k: int| 0 <= k < 11 ==> #[trigger] marker()[k] != 0,
{
}

/// The head that the decoder reads, written again, is the bytes up to the
/// end of the magic text, and it can be found again.
pub proof fn lemma_head_written(v: PuzView, b: Seq<u8>, h: int, z: int)
    requires
        first_header(b, 0) == Some(h),
        first_nul(b, h + 2) == Some(z),
        head_stands_at(v, b, h, z),
    ensures
        0 <= h,
        h + 13 <= z < b.len(),
        head_bytes(v) == b.subrange(0, z + 1),
        head_ok(v),
{
    lemma_first_header(b, 0);
    lemma_first_nul(b, h + 2);
    lemma_marker_bytes();
    assert(z >= h + 13) by {
        if z < h + 13 {
            assert(b.subrange(h + 2, h + 13)[z - (h + 2)] == marker()[z - (h + 2)]);
        }
    }
    lemma_u16_window(b, h);
    lemma_bytes_text(b.subrange(h + 2, z));
    assert(cstring(v.magic) =~= b.subrange(h + 2, z + 1));
    assert(head_bytes(v) =~= b.subrange(0, z + 1));
    let x = v.preamble + le_u16_bytes(v.checksum) + marker();
    assert(x =~= b.subrange(0, h + 13));
    assert forall|i: int| 0 <= i < v.preamble.len() implies !header_at(x, i) by {
        if header_at(x, i) {
            assert(x.subrange(i + 2, i + 13) =~= b.subrange(i + 2, i + 13));
            assert(header_at(b, i));
        }
    }
    assert(latin1_bytes(v.magic).subrange(0, 11) =~= b.subrange(h + 2, h + 13));
}

/// A head that stands written at the start of a buffer is what the decoder
/// finds there.
pub proof fn lemma_written_head(v: PuzView, b: Seq<u8>)
    requires
        head_ok(v),
        head_bytes(v).len() <= b.len(),
        b.subrange(0, head_bytes(v).len() as int) == head_bytes(v),
    ensures
        head_bytes(v).len() == v.preamble.len() + 2 + v.magic.len() + 1,
        first_header(b, 0) == Some(v.preamble.len() as int),
        first_nul(b, v.preamble.len() as int + 2) == Some(
            v.preamble.len() as int + 2 + v.magic.len(),
        ),
        head_stands_at(
            v,
            b,
            v.preamble.len() as int,
            v.preamble.len() as int + 2 + v.magic.len(),
        ),
{
    let p = v.preamble.len() as int;
    let m = v.magic.len() as int;
    let z = p + 2 + m;
    let f = z + 1;
    let head = head_bytes(v);
    lemma_marker_bytes();
    lemma_text_bytes(v.magic);
    assert(head.len() == f);
    assert forall|i: int| 0 <= i < f implies b[i] == head[i] by {
        assert(b.subrange(0, f)[i] == b[i]);
    }
    // the header
    let x = v.preamble + le_u16_bytes(v.checksum) + marker();
    assert forall|i: int| 0 <= i < 11 implies head[p + 2 + i] == marker()[i] by {
        assert(latin1_bytes(v.magic).subrange(0, 11)[i] == latin1_bytes(v.magic)[i]);
    }
    assert(b.subrange(0, p + 13) =~= x);
    assert(b.subrange(p + 2, p + 13) =~= marker());
    assert(header_at(b, p));
    assert forall|i: int| 0 <= i < p implies !header_at(b, i) by {
        if header_at(b, i) {
            assert(x.subrange(i + 2, i + 13) =~= b.subrange(i + 2, i + 13)) by {
                assert forall|k: int| 0 <= k < 11 implies #[trigger] x.subrange(i + 2, i + 13)[k]
                    == b.subrange(i + 2, i + 13)[k] by {
                    assert(b.subrange(0, p + 13)[i + 2 + k] == x[i + 2 + k]);
                }
            }
            assert(header_at(x, i));
        }
    }
    lemma_first_header_is(b, 0, p);
    // the checksum
    assert(b.subrange(p, p + 2) =~= le_u16_bytes(v.checksum));
    lemma_u16_found(b, p, v.checksum);
    // the magic text
    assert forall|j: int| p + 2 <= j < z implies b[j] != 0 by {
        assert(head[j] == latin1_bytes(v.magic)[j - (p + 2)]);
    }
    assert(b[z] == 0) by {
        assert(head[z] == 0);
    }
    lemma_first_nul_is(b, p + 2, z);
    assert(b.subrange(p + 2, z) =~= latin1_bytes(v.magic)) by {
        assert forall|i: int| 0 <= i < m implies b.subrange(p + 2, z)[i] == latin1_bytes(
            v.magic,
        )[i] by {
            assert(head[p + 2 + i] == latin1_bytes(v.magic)[i]);
        }
    }
    assert(b.subrange(0, p) =~= v.preamble);
}

/// The grids that the decoder reads, written again, are the bytes from
/// which it read them.
pub proof fn lemma_grids_written(v: PuzView, b: Seq<u8>, g: int, cells: int)
    requires
        0 <= g,
        0 <= cells,
        cells == v.width * v.height,
        g + 2 * cells <= b.len(),
        is_seven_bit(b.subrange(g, g + cells)),
        is_seven_bit(b.subrange(g + cells, g + 2 * cells)),
        grids_stand_at(v, b, g, cells),
    ensures
        grid_bytes(v) == b.subrange(g, g + 2 * cells),
        grids_ok(v),
{
    lemma_grid_text(b.subrange(g, g + cells));
    lemma_grid_text(b.subrange(g + cells, g + 2 * cells));
    assert(grid_bytes(v) =~= b.subrange(g, g + 2 * cells));
}

/// Grids that stand written in a buffer are what the decoder reads there.
pub proof fn lemma_written_grids(v: PuzView, b: Seq<u8>, g: int)
    requires
        0 <= g,
        grids_ok(v),
        g + grid_bytes(v).len() <= b.len(),
        b.subrange(g, g + grid_bytes(v).len()) == grid_bytes(v),
    ensures
        grid_bytes(v).len() == 2 * (v.width * v.height),
        is_seven_bit(b.subrange(g, g + v.width * v.height)),
        is_seven_bit(b.subrange(g + v.width * v.height, g + 2 * (v.width * v.height))),
        grids_stand_at(v, b, g, v.width * v.height),
{
    let cells = v.width * v.height;
    let grid = grid_bytes(v);
    lemma_text_grid(v.puzzle);
    lemma_text_grid(v.state);
    assert(grid.subrange(0, cells) =~= latin1_bytes(v.puzzle));
    assert(grid.subrange(cells, 2 * cells) =~= latin1_bytes(v.state));
    lemma_window(b, g, grid, 0, latin1_bytes(v.puzzle));
    lemma_window(b, g, grid, cells, latin1_bytes(v.state));
}

/// The zero-terminated texts of a record are those that the decoder finds
/// in `b` from `t` on.
pub proof fn lemma_texts_of_record(b: Seq<u8>, h: int, z: int)
    ensures
        ({
            let f = z + 1;
            let t = f + 38 + 2 * (b[f + 30] * b[f + 31]);
            texts_of(record_at(b, h, z)) == fields(b, t, (u16_at(b, f + 32) + 4) as nat)
        }),
{
    let f = z + 1;
    let t = f + 38 + 2 * (b[f + 30] * b[f + 31]);
    assert(texts_of(record_at(b, h, z)) =~= fields(b, t, (u16_at(b, f + 32) + 4) as nat));
}

/// What the decoder reads can be written, and written it is the very bytes
/// that were read: the record of a buffer is encodable, and its file is the
/// part of the buffer that the record takes up. The decoder loses nothing
/// of those bytes.
pub proof fn lemma_decode_then_encode(b: Seq<u8>, v: PuzView)
    requires
        decode(b) == Ok::<PuzView, DecodeError>(v),
    ensures
        encodable(v),
        0 <= decoded_len(b) <= b.len(),
        encoded(v) == b.subrange(0, decoded_len(b)),
{
    let h = first_header(b, 0)->0;
    let z = first_nul(b, h + 2)->0;
    let f = z + 1;
    assert(decode_at(b, h, z) == Ok::<PuzView, DecodeError>(v));
    assert(v == record_at(b, h, z));
    let cells = b[f + 30] * b[f + 31];
    let g = f + 38;
    let t = g + 2 * cells;
    let total = (u16_at(b, f + 32) + 4) as nat;
    let end = field_start(b, t, total)->0;
    assert(0 <= cells) by (nonlinear_arith)
        requires
            cells == b[f + 30] * b[f + 31],
    ;
    lemma_head_written(v, b, h, z);
    lemma_fixed_written(v, b, f);
    lemma_grids_written(v, b, g, cells);
    lemma_fields_written(b, t, total);
    lemma_texts_of_record(b, h, z);
    lemma_joined(b, f, g, t, end);
}

/// Four parts of a buffer that stand one behind the other make up its
/// start.
proof fn lemma_joined(b: Seq<u8>, f: int, g: int, t: int, end: int)
    requires
        0 <= f <= g <= t <= end <= b.len(),
    ensures
        b.subrange(0, f) + b.subrange(f, g) + b.subrange(g, t) + b.subrange(t, end)
            == b.subrange(0, end),
{
    assert(b.subrange(0, f) + b.subrange(f, g) + b.subrange(g, t) + b.subrange(t, end)
        =~= b.subrange(0, end));
}

/// The parts of a buffer that begins with four parts joined.
proof fn lemma_split(b: Seq<u8>, head: Seq<u8>, fixed: Seq<u8>, grid: Seq<u8>, tail: Seq<u8>)
    requires
        (head + fixed + grid + tail).len() <= b.len(),
        b.subrange(0, (head + fixed + grid + tail).len() as int) == head + fixed + grid + tail,
    ensures
        b.subrange(0, head.len() as int) == head,
        b.subrange(head.len() as int, head.len() as int + fixed.len()) == fixed,
        b.subrange(
            head.len() as int + fixed.len(),
            head.len() as int + fixed.len() + grid.len(),
        ) == grid,
        b.subrange(
            head.len() as int + fixed.len() + grid.len(),
            head.len() as int + fixed.len() + grid.len() + tail.len(),
        ) == tail,
{
    let e = head + fixed + grid + tail;
    let f = head.len() as int;
    let g = f + fixed.len();
    let t = g + grid.len();
    assert(e.subrange(0, f) =~= head);
    assert(e.subrange(f, g) =~= fixed);
    assert(e.subrange(g, t) =~= grid);
    assert(e.subrange(t, t + tail.len()) =~= tail);
    lemma_window(b, 0, e, 0, head);
    lemma_window(b, 0, e, f, fixed);
    lemma_window(b, 0, e, g, grid);
    lemma_window(b, 0, e, t, tail);
}

/// What was written can be read: a buffer that begins with the file of an
/// encodable record decodes to that record, whatever follows the file.
pub proof fn lemma_encode_then_decode(v: PuzView, b: Seq<u8>)
    requires
        encodable(v),
        encoded(v).len() <= b.len(),
        b.subrange(0, encoded(v).len() as int) == encoded(v),
    ensures
        decode(b) == Ok::<PuzView, DecodeError>(v),
        decoded_len(b) == encoded(v).len(),
{
    let p = v.preamble.len() as int;
    let z = p + 2 + v.magic.len();
    let f = z + 1;
    let cells = v.width * v.height;
    let g = f + 38;
    let t = g + 2 * cells;
    let total = (v.num_clues + 4) as nat;
    let ts = texts_of(v);
    lemma_text_bytes(v.magic);
    lemma_text_grid(v.puzzle);
    lemma_text_grid(v.state);
    assert(head_bytes(v).len() == f);
    assert(fixed_bytes(v).len() == 38);
    assert(grid_bytes(v).len() == 2 * cells);
    lemma_split(b, head_bytes(v), fixed_bytes(v), grid_bytes(v), cstrings(ts));
    lemma_written_head(v, b);
    lemma_written_fixed(v, b, f);
    lemma_written_grids(v, b, g);
    lemma_written_fields(b, t, ts);
    lemma_texts_of_record(b, p, z);
    assert(ts.len() == total);
    lemma_same_record(v, record_at(b, p, z), b, p, z);
}

/// Two records with the same head, fixed fields, grids and texts are one.
proof fn lemma_same_record(v: PuzView, r: PuzView, b: Seq<u8>, h: int, z: int)
    requires
        head_stands_at(v, b, h, z),
        head_stands_at(r, b, h, z),
        fixed_stands_at(v, b, z + 1),
        fixed_stands_at(r, b, z + 1),
        grids_stand_at(v, b, z + 39, v.width * v.height),
        grids_stand_at(r, b, z + 39, v.width * v.height),
        texts_of(v) == texts_of(r),
        v.clues.len() == r.clues.len(),
    ensures
        v == r,
{
    let tv = texts_of(v);
    let tr = texts_of(r);
    let n = v.clues.len() as int;
    assert(tv[0] == v.title && tr[0] == r.title);
    assert(tv[1] == v.author && tr[1] == r.author);
    assert(tv[2] == v.copyright && tr[2] == r.copyright);
    assert(tv[3 + n] == v.notes && tr[3 + n] == r.notes);
    assert(v.clues =~= r.clues) by {
        assert forall|k: int| 0 <= k < n implies v.clues[k] == r.clues[k] by {
            assert(tv[3 + k] == v.clues[k]);
            assert(tr[3 + k] == r.clues[k]);
        }
    }
}

/// Decoding is lossless: a record that was decoded from a buffer, written
/// as a file and decoded again, is the same record.
pub proof fn lemma_round_trip(b: Seq<u8>, v: PuzView)
    requires
        decode(b) == Ok::<PuzView, DecodeError>(v),
    ensures
        decode(encoded(v)) == Ok::<PuzView, DecodeError>(v),
{
    lemma_decode_then_encode(b, v);
    let e = encoded(v);
    assert(e.subrange(0, e.len() as int) =~= e);
    lemma_encode_then_decode(v, e);
}

/// Texts written one behind the other: a further text goes behind those
/// that stand already.
pub proof fn lemma_cstrings_push(ts: Seq<Seq<char>>, t: Seq<char>)
    ensures
        cstrings(ts.push(t)) == cstrings(ts) + cstring(t),
{
    assert(ts.push(t).drop_last() =~= ts);
}

/// Appends bytes to a buffer.
fn push_bytes(out: &mut Vec<u8>, bytes: &[u8])
    ensures
        final(out)@ == old(out)@ + bytes@,
{
    let n = bytes.len();
    let mut i: usize = 0;
    while i < n
        invariant
            n == bytes@.len(),
            i <= n,
            out@ == old(out)@ + bytes@.take(i as int),
        decreases n - i,
    {
        out.push(bytes[i]);
        assert(bytes@.take(i + 1) =~= bytes@.take(i as int).push(bytes@[i as int]));
        i += 1;
    }
    assert(bytes@.take(n as int) =~= bytes@);
}

/// Appends a 16-bit number, the low byte first.
fn push_u16(out: &mut Vec<u8>, v: u16)
    ensures
        final(out)@ == old(out)@ + le_u16_bytes(v),
{
    out.push((v % 256) as u8);
    out.push((v / 256) as u8);
    assert(out@ =~= old(out)@ + le_u16_bytes(v));
}

/// Whether no byte is 0.
fn has_no_nul(bytes: &[u8]) -> (clean: bool)
    ensures
        clean == (forall|i: int| 0 <= i < bytes@.len() ==> bytes@[i] != 0),
{
    let n = bytes.len();
    let mut i: usize = 0;
    while i < n
        invariant
            n == bytes@.len(),
            i <= n,
            forall|j: int| 0 <= j < i ==> bytes@[j] != 0,
        decreases n - i,
    {
        if bytes[i] == 0 {
            return false;
        }
        i += 1;
    }
    true
}

/// The Latin-1 bytes of a text that can stand before a zero byte; `None`
/// for any other text.
fn text_bytes(text: &str) -> (r: Option<Vec<u8>>)
    ensures
        r is Some <==> is_text(text@),
        r is Some ==> r->0@ == latin1_bytes(text@),
{
    let bytes = match encode_latin1(text) {
        Some(bytes) => bytes,
        None => {
            proof {
                if is_text(text@) {
                    lemma_text_bytes(text@);
                }
            }
            return None;
        },
    };
    if !has_no_nul(bytes.as_slice()) {
        proof {
            if is_text(text@) {
                lemma_text_bytes(text@);
            }
        }
        return None;
    }
    proof {
        assert forall|i: int| 0 <= i < text@.len() implies 0 < (#[trigger] text@[i]) as int
            <= 0xff by {
            assert(text@[i] as int <= 0xff);
            assert(bytes@[i] != 0);
            lemma_latin1_char(text@[i]);
        }
    }
    Some(bytes)
}

/// Appends a text and its zero byte, if the text can stand before one.
/// Returns whether it did; otherwise the buffer is as it was.
fn push_text(out: &mut Vec<u8>, text: &str) -> (done: bool)
    ensures
        done == is_text(text@),
        done ==> final(out)@ == old(out)@ + cstring(text@),
        !done ==> final(out)@ == old(out)@,
{
    match text_bytes(text) {
        Some(bytes) => {
            push_bytes(out, bytes.as_slice());
            out.push(0);
            assert(out@ =~= old(out)@ + cstring(text@));
            true
        },
        None => false,
    }
}

/// Appends a grid of `cells` squares, if the text is 7-bit text of that
/// length. Returns whether it did; otherwise the buffer is as it was.
fn push_grid(out: &mut Vec<u8>, text: &str, cells: usize) -> (done: bool)
    ensures
        done == (is_ascii_chars(text@) && text@.len() == cells),
        done ==> final(out)@ == old(out)@ + latin1_bytes(text@),
        !done ==> final(out)@ == old(out)@,
{
    if !text.is_ascii() {
        return false;
    }
    proof {
        is_ascii_spec_bytes(text);
        assert(vstd::string::is_ascii(text));
    }
    let bytes = text.as_bytes();
    assert(bytes@ =~= latin1_bytes(text@));
    if bytes.len() != cells {
        return false;
    }
    push_bytes(out, bytes);
    true
}

/// Whether the bytes begin with the marker.
fn starts_with_marker(bytes: &[u8]) -> (found: bool)
    ensures
        found == (bytes@.len() >= 11 && bytes@.subrange(0, 11) == marker()),
{
    if bytes.len() < 11 {
        return false;
    }
    let found = bytes[0] == 65 && bytes[1] == 67 && bytes[2] == 82 && bytes[3] == 79 && bytes[4]
        == 83 && bytes[5] == 83 && bytes[6] == 38 && bytes[7] == 68 && bytes[8] == 79 && bytes[9]
        == 87 && bytes[10] == 78;
    proof {
        let window = bytes@.subrange(0, 11);
        if found {
            assert(window =~= marker());
        } else if window == marker() {
            assert(window[0] == 65 && window[1] == 67 && window[2] == 82 && window[3] == 79
                && window[4] == 83 && window[5] == 83 && window[6] == 38 && window[7] == 68
                && window[8] == 79 && window[9] == 87 && window[10] == 78);
        }
    }
    found
}

/// Writes preamble, checksum and magic text, if no header starts in the
/// preamble and the magic text begins with the marker.
fn encode_head(p: &PuzFile) -> (r: Option<Vec<u8>>)
    ensures
        r is Some <==> head_ok(p@),
        r is Some ==> r->0@ == head_bytes(p@),
{
    let magic = match text_bytes(p.magic.as_str()) {
        Some(bytes) => bytes,
        None => {
            return None;
        },
    };
    if !starts_with_marker(magic.as_slice()) {
        return None;
    }
    let mut out: Vec<u8> = Vec::new();
    push_bytes(&mut out, p.preamble.as_slice());
    push_u16(&mut out, p.checksum);
    push_bytes(&mut out, magic.as_slice());
    out.push(0);
    let ghost x = p@.preamble + le_u16_bytes(p@.checksum) + marker();
    let ghost n = p@.preamble.len() as int;
    proof {
        assert(out@ =~= head_bytes(p@));
        assert(out@.subrange(n + 2, n + 13) =~= marker()) by {
            assert forall|k: int| 0 <= k < 11 implies out@.subrange(n + 2, n + 13)[k]
                == marker()[k] by {
                assert(magic@.subrange(0, 11)[k] == magic@[k]);
            }
        }
        assert(header_at(out@, n));
        assert(out@.subrange(0, n + 13) =~= x);
        assert forall|i: int| 0 <= i < n implies header_at(out@, i) == header_at(x, i) by {
            assert(out@.subrange(i + 2, i + 13) =~= x.subrange(i + 2, i + 13)) by {
                assert forall|k: int| 0 <= k < 11 implies #[trigger] out@.subrange(
                    i + 2,
                    i + 13,
                )[k] == x.subrange(i + 2, i + 13)[k] by {
                    assert(out@.subrange(0, n + 13)[i + 2 + k] == x[i + 2 + k]);
                }
            }
        }
        lemma_first_header(out@, 0);
    }
    match find_header(out.as_slice()) {
        Some(h) => {
            if h != p.preamble.len() {
                assert(h < n);
                assert(header_at(out@, h as int) == header_at(x, h as int));
                assert(header_at(x, h as int));
                return None;
            }
        },
        None => {
            return None;
        },
    }
    Some(out)
}

/// Appends the 38 bytes of the fields of fixed size, if the version has
/// four Latin-1 characters and the second reserved field twelve bytes.
fn push_fixed(out: &mut Vec<u8>, p: &PuzFile) -> (done: bool)
    ensures
        done == fixed_ok(p@),
        done ==> final(out)@ == old(out)@ + fixed_bytes(p@),
{
    let version = match encode_latin1(p.version.as_str()) {
        Some(bytes) => bytes,
        None => {
            return false;
        },
    };
    if version.len() != 4 || p.reserved_2.len() != 12 {
        return false;
    }
    push_u16(out, p.cib_checksum);
    push_u16(out, p.masked_low_checksum_1);
    push_u16(out, p.masked_low_checksum_2);
    push_u16(out, p.masked_high_checksum_1);
    push_u16(out, p.masked_high_checksum_2);
    push_bytes(out, version.as_slice());
    push_u16(out, p.reserved_1);
    push_u16(out, p.scrambled_checksum);
    push_bytes(out, p.reserved_2.as_slice());
    out.push(p.width);
    out.push(p.height);
    push_u16(out, p.num_clues);
    push_u16(out, p.unknown_bitmask);
    push_u16(out, p.scrambled);
    assert(out@ =~= old(out)@ + fixed_bytes(p@));
    true
}

/// Appends the zero-terminated texts of a record in the order of the file,
/// if each of them can stand before a zero byte.
fn push_texts(out: &mut Vec<u8>, p: &PuzFile) -> (done: bool)
    ensures
        done == all_text(texts_of(p@)),
        done ==> final(out)@ == old(out)@ + cstrings(texts_of(p@)),
{
    let ghost base = out@;
    let ghost ts = texts_of(p@);
    let n = p.clues.len();
    assert(ts.len() == n + 4);
    assert(ts[0] == p@.title && ts[1] == p@.author && ts[2] == p@.copyright);
    assert(ts[n + 3] == p@.notes);
    if !push_text(out, p.title.as_str()) {
        return false;
    }
    if !push_text(out, p.author.as_str()) {
        return false;
    }
    if !push_text(out, p.copyright.as_str()) {
        return false;
    }
    proof {
        let none = Seq::<Seq<char>>::empty();
        assert(ts.take(0) =~= none);
        assert(ts.take(1) =~= ts.take(0).push(ts[0]));
        assert(ts.take(2) =~= ts.take(1).push(ts[1]));
        assert(ts.take(3) =~= ts.take(2).push(ts[2]));
        lemma_cstrings_push(ts.take(0), ts[0]);
        lemma_cstrings_push(ts.take(1), ts[1]);
        lemma_cstrings_push(ts.take(2), ts[2]);
        assert(cstrings(none) =~= Seq::<u8>::empty());
        assert(out@ =~= base + cstrings(ts.take(3)));
    }
    let mut k: usize = 0;
    while k < n
        invariant
            n == p.clues@.len(),
            ts == texts_of(p@),
            ts.len() == n + 4,
            k <= n,
            out@ == base + cstrings(ts.take(3 + k)),
            forall|j: int| 0 <= j < 3 + k ==> is_text(#[trigger] ts[j]),
        decreases n - k,
    {
        assert(ts[3 + k] == p@.clues[k as int]);
        assert(p@.clues[k as int] == p.clues@[k as int]@);
        if !push_text(out, p.clues[k].as_str()) {
            return false;
        }
        proof {
            assert(ts.take(3 + k + 1) =~= ts.take(3 + k).push(ts[3 + k]));
            lemma_cstrings_push(ts.take(3 + k), ts[3 + k]);
            assert(out@ =~= base + cstrings(ts.take(3 + k + 1)));
        }
        k += 1;
    }
    if !push_text(out, p.notes.as_str()) {
        return false;
    }
    proof {
        assert(ts.take(n + 4) =~= ts.take(n + 3).push(ts[n + 3]));
        lemma_cstrings_push(ts.take(n + 3), ts[n + 3]);
        assert(ts.take(n + 4) =~= ts);
        assert(out@ =~= base + cstrings(ts));
    }
    true
}

impl PuzFile {
    /// Writes the record as the bytes of a file, in the layout that
    /// `parse_all` reads. Returns `None` for a record that no file decodes
    /// to.
    pub fn encode(&self) -> (r: Option<Vec<u8>>)
        ensures
            r is Some <==> encodable(self@),
            r is Some ==> r->0@ == encoded(self@),
    {
        let mut out = match encode_head(self) {
            Some(out) => out,
            None => {
                return None;
            },
        };
        if !push_fixed(&mut out, self) {
            return None;
        }
        assert(self.width * self.height <= 255 * 255) by (nonlinear_arith)
            requires
                self.width <= 255,
                self.height <= 255,
        ;
        let cells = self.width as usize * self.height as usize;
        if !push_grid(&mut out, self.puzzle.as_str(), cells) {
            return None;
        }
        if !push_grid(&mut out, self.state.as_str(), cells) {
            return None;
        }
        if self.clues.len() != self.num_clues as usize {
            return None;
        }
        if !push_texts(&mut out, self) {
            return None;
        }
        assert(out@ =~= encoded(self@));
        Some(out)
    }
}

} // verus!
