//! The `.puz` file: the record that a file decodes to, and the errors that
//! loading one can end in.

use crate::charset::latin1_chars;
use crate::wire::{
    field_start, field_text, find_header, find_nul, first_header, first_nul, is_seven_bit,
    lemma_field_start, lemma_first_header, nom_le_u16, nom_le_u8, read_u16, seven_bit_between,
    text_between, u16_at,
};
use vstd::prelude::*;
use vstd::slice::{slice_subrange, slice_to_vec};

verus! {

/// Why a puzzle could not be loaded.
#[derive(Debug, Clone, Copy, PartialEq, Eq, Structural)]
pub enum DecodeError {
    /// The buffer ends in the middle of a field.
    Truncated,
    /// The buffer holds no header, or the header describes no grid.
    MalformedHeader,
    /// The text of a grid is not 7-bit text of the declared size.
    InvalidCharacterGrid,
    /// The grid needs another number of clues than the file brings.
    ClueCountMismatch,
}

/// A decoded puzzle file. The checksums are kept as they were read and are
/// never held against the content.
#[derive(Debug)]
pub struct PuzFile {
    pub preamble: Vec<u8>,
    pub checksum: u16,
    pub magic: String,
    pub cib_checksum: u16,
    pub masked_low_checksum_1: u16,
    pub masked_low_checksum_2: u16,
    pub masked_high_checksum_1: u16,
    pub masked_high_checksum_2: u16,
    pub version: String,
    pub reserved_1: u16,
    pub scrambled_checksum: u16,
    pub reserved_2: Vec<u8>,
    pub width: u8,
    pub height: u8,
    pub num_clues: u16,
    pub unknown_bitmask: u16,
    pub scrambled: u16,
    pub puzzle: String,
    pub state: String,
    pub title: String,
    pub author: String,
    pub copyright: String,
    pub clues: Vec<String>,
    pub notes: String,
}

/// The content of a puzzle file as mathematical values.
pub struct PuzView {
    pub preamble: Seq<u8>,
    pub checksum: u16,
    pub magic: Seq<char>,
    pub cib_checksum: u16,
    pub masked_low_checksum_1: u16,
    pub masked_low_checksum_2: u16,
    pub masked_high_checksum_1: u16,
    pub masked_high_checksum_2: u16,
    pub version: Seq<char>,
    pub reserved_1: u16,
    pub scrambled_checksum: u16,
    pub reserved_2: Seq<u8>,
    pub width: u8,
    pub height: u8,
    pub num_clues: u16,
    pub unknown_bitmask: u16,
    pub scrambled: u16,
    pub puzzle: Seq<char>,
    pub state: Seq<char>,
    pub title: Seq<char>,
    pub author: Seq<char>,
    pub copyright: Seq<char>,
    pub clues: Seq<Seq<char>>,
    pub notes: Seq<char>,
}

impl PuzView {
    /// The parts of the record fit together: each grid has one character per
    /// square, and there are as many clues as declared.
    pub open spec fn wf(self) -> bool {
        &&& self.puzzle.len() == self.width * self.height
        &&& self.state.len() == self.width * self.height
        &&& self.clues.len() == self.num_clues
    }
}

impl View for PuzFile {
    type V = PuzView;

    open spec fn view(&self) -> PuzView {
        PuzView {
            preamble: self.preamble@,
            checksum: self.checksum,
            magic: self.magic@,
            cib_checksum: self.cib_checksum,
            masked_low_checksum_1: self.masked_low_checksum_1,
            masked_low_checksum_2: self.masked_low_checksum_2,
            masked_high_checksum_1: self.masked_high_checksum_1,
            masked_high_checksum_2: self.masked_high_checksum_2,
            version: self.version@,
            reserved_1: self.reserved_1,
            scrambled_checksum: self.scrambled_checksum,
            reserved_2: self.reserved_2@,
            width: self.width,
            height: self.height,
            num_clues: self.num_clues,
            unknown_bitmask: self.unknown_bitmask,
            scrambled: self.scrambled,
            puzzle: self.puzzle@,
            state: self.state@,
            title: self.title@,
            author: self.author@,
            copyright: self.copyright@,
            clues: Seq::new(self.clues@.len(), |i: int| self.clues@[i]@),
            notes: self.notes@,
        }
    }
}

/// The record that stands in a buffer whose header starts at `h` and whose
/// magic text ends with the zero byte at `z`, where every field is there.
///
/// Behind the zero byte stand 38 bytes of fixed fields, then the two grids
/// of `width * height` bytes each, then the zero-terminated texts: title,
/// author, copyright, the clues, and the notes.
pub open spec fn record_at(b: Seq<u8>, h: int, z: int) -> PuzView {
    let f = z + 1;
    let width = b[f + 30];
    let height = b[f + 31];
    let num_clues = u16_at(b, f + 32);
    let g = f + 38;
    let t = g + 2 * (width * height);
    PuzView {
        preamble: b.subrange(0, h),
        checksum: u16_at(b, h),
        magic: latin1_chars(b.subrange(h + 2, z)),
        cib_checksum: u16_at(b, f),
        masked_low_checksum_1: u16_at(b, f + 2),
        masked_low_checksum_2: u16_at(b, f + 4),
        masked_high_checksum_1: u16_at(b, f + 6),
        masked_high_checksum_2: u16_at(b, f + 8),
        version: latin1_chars(b.subrange(f + 10, f + 14)),
        reserved_1: u16_at(b, f + 14),
        scrambled_checksum: u16_at(b, f + 16),
        reserved_2: b.subrange(f + 18, f + 30),
        width,
        height,
        num_clues,
        unknown_bitmask: u16_at(b, f + 34),
        scrambled: u16_at(b, f + 36),
        puzzle: latin1_chars(b.subrange(g, g + width * height)),
        state: latin1_chars(b.subrange(g + width * height, t)),
        title: field_text(b, t, 0),
        author: field_text(b, t, 1),
        copyright: field_text(b, t, 2),
        clues: Seq::new(num_clues as nat, |k: int| field_text(b, t, (3 + k) as nat)),
        notes: field_text(b, t, (3 + num_clues) as nat),
    }
}

/// What decoding makes of the part of a buffer behind the magic text, whose
/// zero byte stands at `z`. The fields are read one after the other, and the
/// first that cannot be read decides the error: a field that the buffer
/// ends in is `Truncated`, a grid with a byte above 127 is
/// `InvalidCharacterGrid`.
pub open spec fn decode_at(b: Seq<u8>, h: int, z: int) -> Result<PuzView, DecodeError> {
    let f = z + 1;
    if b.len() < f + 38 {
        Err(DecodeError::Truncated)
    } else {
        let cells = b[f + 30] * b[f + 31];
        let num_clues = u16_at(b, f + 32);
        let g = f + 38;
        let t = g + 2 * cells;
        if b.len() < g + cells {
            Err(DecodeError::Truncated)
        } else if !is_seven_bit(b.subrange(g, g + cells)) {
            Err(DecodeError::InvalidCharacterGrid)
        } else if b.len() < t {
            Err(DecodeError::Truncated)
        } else if !is_seven_bit(b.subrange(g + cells, t)) {
            Err(DecodeError::InvalidCharacterGrid)
        } else if field_start(b, t, (num_clues + 4) as nat) is None {
            Err(DecodeError::Truncated)
        } else {
            Ok(record_at(b, h, z))
        }
    }
}

/// What decoding makes of a buffer. The header is the first place where the
/// marker stands two bytes behind the start of a checksum; what lies
/// before it is the preamble. Without such a place the buffer is a
/// `MalformedHeader`. The magic text runs from the marker to the next zero
/// byte.
pub open spec fn decode(b: Seq<u8>) -> Result<PuzView, DecodeError> {
    match first_header(b, 0) {
        None => Err(DecodeError::MalformedHeader),
        Some(h) => match first_nul(b, h + 2) {
            None => Err(DecodeError::Truncated),
            Some(z) => decode_at(b, h, z),
        },
    }
}

/// How many bytes of a buffer its record takes up, where it holds one.
pub open spec fn decoded_len(b: Seq<u8>) -> int {
    let h = first_header(b, 0)->0;
    let f = first_nul(b, h + 2)->0 + 1;
    let t = f + 38 + 2 * (b[f + 30] * b[f + 31]);
    field_start(b, t, (u16_at(b, f + 32) + 4) as nat)->0
}

/// Takes `n` bytes from `pos` on; fails where the buffer ends before the
/// last of them.
fn take(input: &[u8], pos: usize, n: usize) -> (r: Result<&[u8], DecodeError>)
    requires
        pos <= input@.len(),
    ensures
        match r {
            Ok(s) => pos + n <= input.len() && s@ == input@.subrange(pos as int, pos + n),
            Err(e) => e == DecodeError::Truncated && pos + n > input@.len(),
        },
{
    if input.len() - pos < n {
        return Err(DecodeError::Truncated);
    }
    Ok(slice_subrange(input, pos, pos + n))
}

/// Reads the zero-terminated text at `pos` and returns it with the position
/// behind its zero byte; fails where the buffer holds no zero byte from
/// `pos` on.
fn read_text(input: &[u8], pos: usize) -> (r: Result<(String, usize), DecodeError>)
    requires
        pos <= input@.len(),
    ensures
        match r {
            Ok((text, next)) => {
                &&& first_nul(input@, pos as int) == Some(next - 1)
                &&& pos < next <= input.len()
                &&& text@ == latin1_chars(input@.subrange(pos as int, next - 1))
            },
            Err(e) => e == DecodeError::Truncated && first_nul(input@, pos as int) is None,
        },
{
    match find_nul(input, pos) {
        Some(z) => Ok((text_between(input, pos, z), z + 1)),
        None => Err(DecodeError::Truncated),
    }
}

/// Reads a grid of `cells` bytes at `pos` as 7-bit text.
fn read_grid(input: &[u8], pos: usize, cells: usize) -> (r: Result<String, DecodeError>)
    requires
        pos <= input@.len(),
    ensures
        match r {
            Ok(text) => {
                &&& pos + cells <= input.len()
                &&& is_seven_bit(input@.subrange(pos as int, pos + cells))
                &&& text@ == latin1_chars(input@.subrange(pos as int, pos + cells))
            },
            Err(e) => if pos + cells > input@.len() {
                e == DecodeError::Truncated
            } else {
                e == DecodeError::InvalidCharacterGrid && !is_seven_bit(
                    input@.subrange(pos as int, pos + cells),
                )
            },
        },
{
    if input.len() - pos < cells {
        return Err(DecodeError::Truncated);
    }
    if !seven_bit_between(input, pos, pos + cells) {
        return Err(DecodeError::InvalidCharacterGrid);
    }
    Ok(text_between(input, pos, pos + cells))
}

/// The fields of fixed size that stand behind the magic text.
struct FixedFields {
    cib_checksum: u16,
    masked_low_checksum_1: u16,
    masked_low_checksum_2: u16,
    masked_high_checksum_1: u16,
    masked_high_checksum_2: u16,
    version: String,
    reserved_1: u16,
    scrambled_checksum: u16,
    reserved_2: Vec<u8>,
    width: u8,
    height: u8,
    num_clues: u16,
    unknown_bitmask: u16,
    scrambled: u16,
}

impl FixedFields {
    /// These are the fields that stand in `b` from `f` on.
    spec fn stands_at(self, b: Seq<u8>, f: int) -> bool {
        &&& self.cib_checksum == u16_at(b, f)
        &&& self.masked_low_checksum_1 == u16_at(b, f + 2)
        &&& self.masked_low_checksum_2 == u16_at(b, f + 4)
        &&& self.masked_high_checksum_1 == u16_at(b, f + 6)
        &&& self.masked_high_checksum_2 == u16_at(b, f + 8)
        &&& self.version@ == latin1_chars(b.subrange(f + 10, f + 14))
        &&& self.reserved_1 == u16_at(b, f + 14)
        &&& self.scrambled_checksum == u16_at(b, f + 16)
        &&& self.reserved_2@ == b.subrange(f + 18, f + 30)
        &&& self.width == b[f + 30]
        &&& self.height == b[f + 31]
        &&& self.num_clues == u16_at(b, f + 32)
        &&& self.unknown_bitmask == u16_at(b, f + 34)
        &&& self.scrambled == u16_at(b, f + 36)
    }
}

/// The byte at `at` in a block that holds it.
fn u8_in(block: &[u8], at: usize) -> (v: u8)
    requires
        at + 1 <= block.len(),
    ensures
        v == block@[at as int],
{
    nom_le_u8(slice_subrange(block, at, block.len())).unwrap()
}

/// The little-endian 16-bit number at `at` in a block that holds it.
fn u16_in(block: &[u8], at: usize) -> (v: u16)
    requires
        at + 2 <= block.len(),
    ensures
        v == u16_at(block@, at as int),
{
    nom_le_u16(slice_subrange(block, at, block.len())).unwrap()
}

/// Reads the 38 bytes of fixed fields at `f`; fails where the buffer ends
/// before the last of them.
fn read_fixed(input: &[u8], f: usize) -> (r: Result<FixedFields, DecodeError>)
    requires
        f <= input@.len(),
    ensures
        match r {
            Ok(fields) => f + 38 <= input.len() && fields.stands_at(input@, f as int),
            Err(e) => e == DecodeError::Truncated && f + 38 > input@.len(),
        },
{
    let block = match take(input, f, 38) {
        Ok(block) => block,
        Err(e) => {
            return Err(e);
        },
    };
    let fields = FixedFields {
        cib_checksum: u16_in(block, 0),
        masked_low_checksum_1: u16_in(block, 2),
        masked_low_checksum_2: u16_in(block, 4),
        masked_high_checksum_1: u16_in(block, 6),
        masked_high_checksum_2: u16_in(block, 8),
        version: text_between(block, 10, 14),
        reserved_1: u16_in(block, 14),
        scrambled_checksum: u16_in(block, 16),
        reserved_2: slice_to_vec(slice_subrange(block, 18, 30)),
        width: u8_in(block, 30),
        height: u8_in(block, 31),
        num_clues: u16_in(block, 32),
        unknown_bitmask: u16_in(block, 34),
        scrambled: u16_in(block, 36),
    };
    proof {
        let b = input@;
        assert forall|k: int| 0 <= k < 38 implies #[trigger] block@[k] == b[f + k] by {}
        assert(block@.subrange(10, 14) =~= b.subrange(f + 10, f + 14));
        assert(block@.subrange(18, 30) =~= b.subrange(f + 18, f + 30));
    }
    Ok(fields)
}

/// Reads `count` zero-terminated texts that stand one behind the other from
/// `from` on, and returns them with the position behind the last.
fn read_texts(input: &[u8], from: usize, count: usize) -> (r: Result<
    (Vec<String>, usize),
    DecodeError,
>)
    requires
        from <= input@.len(),
    ensures
        match r {
            Ok((texts, end)) => {
                &&& field_start(input@, from as int, count as nat) == Some(end as int)
                &&& texts@.len() == count
                &&& forall|j: int|
                    0 <= j < count ==> (#[trigger] texts@[j])@ == field_text(
                        input@,
                        from as int,
                        j as nat,
                    )
            },
            Err(e) => e == DecodeError::Truncated && field_start(
                input@,
                from as int,
                count as nat,
            ) is None,
        },
{
    let ghost b = input@;
    let mut texts: Vec<String> = Vec::new();
    let mut pos = from;
    let mut k: usize = 0;
    while k < count
        invariant
            b == input@,
            from <= pos <= b.len(),
            k <= count,
            texts@.len() == k,
            field_start(b, from as int, k as nat) == Some(pos as int),
            forall|j: int|
                0 <= j < k ==> (#[trigger] texts@[j])@ == field_text(b, from as int, j as nat),
        decreases count - k,
    {
        let (text, next) = match read_text(input, pos) {
            Ok(found) => found,
            Err(e) => {
                proof {
                    assert(field_start(b, from as int, ((k + 1) - 1) as nat) == Some(pos as int));
                    assert(field_start(b, from as int, (k + 1) as nat) is None);
                    if field_start(b, from as int, count as nat) is Some {
                        lemma_field_start(b, from as int, (k + 1) as nat, count as nat);
                    }
                }
                return Err(e);
            },
        };
        proof {
            assert(field_start(b, from as int, ((k + 1) - 1) as nat) == Some(pos as int));
            assert(field_start(b, from as int, (k + 1) as nat) == Some(next as int));
        }
        texts.push(text);
        pos = next;
        k += 1;
    }
    Ok((texts, pos))
}

/// Decodes a puzzle file from a byte buffer.
///
/// Bytes before the header are kept as the preamble. The checksums are
/// stored and never verified, and nothing is made of the `scrambled` flag.
/// The result is exactly what `decode` says of the buffer, and the parts of
/// a decoded record fit together.
pub fn parse_all(input: &[u8]) -> (r: Result<PuzFile, DecodeError>)
    ensures
        match r {
            Ok(p) => decode(input@) == Ok::<PuzView, DecodeError>(p@) && p@.wf(),
            Err(e) => decode(input@) == Err::<PuzView, DecodeError>(e),
        },
{
    let ghost b = input@;
    let h = match find_header(input) {
        Some(h) => h,
        None => {
            return Err(DecodeError::MalformedHeader);
        },
    };
    proof {
        lemma_first_header(b, 0);
    }
    let preamble = slice_to_vec(slice_subrange(input, 0, h));
    let checksum = match read_u16(input, h) {
        Ok(v) => v,
        Err(e) => {
            return Err(e);
        },
    };
    let (magic, f) = match read_text(input, h + 2) {
        Ok(found) => found,
        Err(e) => {
            return Err(e);
        },
    };
    let ghost z = f - 1;
    let fixed = match read_fixed(input, f) {
        Ok(fields) => fields,
        Err(e) => {
            return Err(e);
        },
    };
    let g = f + 38;
    assert(fixed.width * fixed.height <= 255 * 255) by (nonlinear_arith)
        requires
            fixed.width <= 255,
            fixed.height <= 255,
    ;
    let cells = fixed.width as usize * fixed.height as usize;
    let puzzle = match read_grid(input, g, cells) {
        Ok(text) => text,
        Err(e) => {
            return Err(e);
        },
    };
    let state = match read_grid(input, g + cells, cells) {
        Ok(text) => text,
        Err(e) => {
            return Err(e);
        },
    };
    let t = g + cells + cells;
    let (mut texts, end) = match read_texts(input, t, fixed.num_clues as usize + 4) {
        Ok(found) => found,
        Err(e) => {
            return Err(e);
        },
    };
    let ghost all = texts@;
    let notes = texts.pop().unwrap();
    let title = texts.remove(0);
    let author = texts.remove(0);
    let copyright = texts.remove(0);
    let p = PuzFile {
        preamble,
        checksum,
        magic,
        cib_checksum: fixed.cib_checksum,
        masked_low_checksum_1: fixed.masked_low_checksum_1,
        masked_low_checksum_2: fixed.masked_low_checksum_2,
        masked_high_checksum_1: fixed.masked_high_checksum_1,
        masked_high_checksum_2: fixed.masked_high_checksum_2,
        version: fixed.version,
        reserved_1: fixed.reserved_1,
        scrambled_checksum: fixed.scrambled_checksum,
        reserved_2: fixed.reserved_2,
        width: fixed.width,
        height: fixed.height,
        num_clues: fixed.num_clues,
        unknown_bitmask: fixed.unknown_bitmask,
        scrambled: fixed.scrambled,
        puzzle,
        state,
        title,
        author,
        copyright,
        clues: texts,
        notes,
    };
    proof {
        assert(p.clues@ =~= all.subrange(3, all.len() - 1));
        assert(p@.clues =~= record_at(b, h as int, z).clues);
        assert(p@ == record_at(b, h as int, z));
    }
    Ok(p)
}

} // verus!
