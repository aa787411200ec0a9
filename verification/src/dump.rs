//! The hex-dump transformation: partition the input into chunks of at most
//! 16 bytes and render each chunk as one [`MemoryRow`].

use vstd::prelude::*;
use crate::hexfmt::{byte_hex, byte_to_hex, offset_rep, offset_to_string, push_char};

verus! {

/// One formatted line of output, covering up to 16 consecutive input bytes.
pub struct MemoryRow {
    /// `0x` plus the uppercase hexadecimal byte offset of the first byte of
    /// the row, zero-padded to at least 4 digits.
    pub offset: String,
    /// One entry per byte of the row: its two-digit uppercase hexadecimal
    /// rendering.
    pub hex: Vec<String>,
    /// One entry per byte of the row: a single-character string holding the
    /// byte's character if it is printable, `"."` otherwise.
    pub ascii: Vec<String>,
}

/// Whether a byte is rendered literally in the ASCII column: an ASCII
/// graphic character (`'!'` through `'~'`), the space, or an ASCII
/// whitespace control (tab, newline, vertical tab, form feed, carriage
/// return). Bytes of 128 and above are never printable.
pub open spec fn is_printable(b: u8) -> bool {
    (0x21 <= b && b <= 0x7e) || b == 0x20 || (0x09 <= b && b <= 0x0d)
}

/// The single character shown for a byte in the ASCII column.
pub open spec fn ascii_char(b: u8) -> char {
    if is_printable(b) {
        b as char
    } else {
        '.'
    }
}

/// The number of rows a dump of `len` input bytes has: `len / 16`, rounded
/// up; zero rows for an empty input.
pub open spec fn row_count(len: nat) -> nat {
    ((len + 15) / 16) as nat
}

/// The number of bytes covered by row `i` of a dump of `len` input bytes:
/// 16 for every row but possibly the last, which takes what remains.
pub open spec fn row_width(len: nat, i: int) -> int {
    if len - 16 * i < 16 {
        len - 16 * i
    } else {
        16
    }
}

/// What row `i` of a dump of `input` holds: the rendered offset `16 * i`,
/// and one hex cell and one ASCII cell for each byte of the row's chunk.
pub open spec fn row_matches(input: Seq<u8>, i: int, r: MemoryRow) -> bool {
    &&& r.offset@ == offset_rep((16 * i) as nat)
    &&& r.hex@.len() == row_width(input.len(), i)
    &&& r.ascii@.len() == row_width(input.len(), i)
    &&& forall|j: int|
        0 <= j < row_width(input.len(), i) ==> (#[trigger] r.hex@[j])@ == byte_hex(
            input[16 * i + j],
        )
    &&& forall|j: int|
        0 <= j < row_width(input.len(), i) ==> (#[trigger] r.ascii@[j])@ == seq![
            ascii_char(input[16 * i + j]),
        ]
}

/// What the whole dump of `input` holds: one matching row per chunk.
pub open spec fn rows_match(input: Seq<u8>, rows: Seq<MemoryRow>) -> bool {
    &&& rows.len() == row_count(input.len())
    &&& forall|i: int| 0 <= i < rows.len() ==> row_matches(input, i, #[trigger] rows[i])
}

/// Renders one byte's ASCII column cell: the byte's character as a
/// single-character string if it is printable, `"."` otherwise.
pub fn ascii_cell(b: u8) -> (s: String)
    ensures
        s@ == seq![ascii_char(b)],
{
    let c: char = if (0x21 <= b && b <= 0x7e) || b == 0x20 || (0x09 <= b && b <= 0x0d) {
        b as char
    } else {
        '.'
    };
    let mut s = String::new();
    push_char(&mut s, c);
    proof {
        assert(s@ =~= seq![ascii_char(b)]);
    }
    s
}

/// Formats a byte buffer as a hex dump: chunks of at most 16 bytes, in
/// order, each rendered as one row with its offset, hex cells and ASCII
/// cells. Total for every input; an empty input gives zero rows.
pub fn parse_bytes(bytes: &[u8]) -> (rows: Vec<MemoryRow>)
    ensures
        rows_match(bytes@, rows@),
        rows@.len() == row_count(bytes@.len()),
{
    let n: usize = bytes.len();
    let mut rows: Vec<MemoryRow> = Vec::new();
    let mut pos: usize = 0;
    while pos < n
        invariant
            n == bytes@.len(),
            pos <= n,
            pos % 16 == 0 || pos == n,
            rows@.len() == row_count(pos as nat),
            pos == n || 16 * rows@.len() == pos,
            forall|i: int| 0 <= i < rows@.len() ==> row_matches(bytes@, i, #[trigger] rows@[i]),
        decreases n - pos,
    {
        let rem: usize = n - pos;
        let width: usize = if rem < 16 {
            rem
        } else {
            16
        };
        let offset = offset_to_string(pos);
        let mut hex: Vec<String> = Vec::new();
        let mut ascii: Vec<String> = Vec::new();
        let mut j: usize = 0;
        while j < width
            invariant
                n == bytes@.len(),
                pos + width <= n,
                j <= width,
                hex@.len() == j,
                ascii@.len() == j,
                forall|k: int|
                    0 <= k < j ==> (#[trigger] hex@[k])@ == byte_hex(bytes@[pos + k]),
                forall|k: int|
                    0 <= k < j ==> (#[trigger] ascii@[k])@ == seq![ascii_char(bytes@[pos + k])],
            decreases width - j,
        {
            let b: u8 = bytes[pos + j];
            hex.push(byte_to_hex(b));
            ascii.push(ascii_cell(b));
            j = j + 1;
        }
        let ghost i = rows@.len() as int;
        let row = MemoryRow { offset, hex, ascii };
        proof {
            assert(row_width(bytes@.len(), i) == width);
            assert(row_matches(bytes@, i, row));
        }
        rows.push(row);
        proof {
            assert(row_count((pos + width) as nat) == rows@.len()) by (nonlinear_arith)
                requires
                    pos % 16 == 0,
                    rows@.len() == (pos + 15) / 16 + 1,
                    1 <= width <= 16,
                    width == 16 || pos + width == n,
            ;
        }
        pos = pos + width;
    }
    rows
}

} // verus!
