//! Properties of a whole dump, proved from the shape that
//! [`crate::dump::rows_match`] gives it.

use vstd::prelude::*;
use crate::dump::{row_matches, row_width, rows_match, MemoryRow};
use crate::hexfmt::{lemma_offset_rep_inj, offset_rep};

verus! {

/// The total number of hex cells over a sequence of rows.
pub open spec fn total_hex_cells(rows: Seq<MemoryRow>) -> int
    decreases rows.len(),
{
    if rows.len() == 0 {
        0
    } else {
        total_hex_cells(rows.drop_last()) + rows.last().hex@.len()
    }
}

/// The first `k` rows of a dump hold one hex cell per input byte they
/// cover: 16 cells per row, capped by the input's length.
proof fn lemma_prefix_cells(input: Seq<u8>, rows: Seq<MemoryRow>, k: int)
    requires
        rows_match(input, rows),
        0 <= k <= rows.len(),
    ensures
        total_hex_cells(rows.take(k)) == if 16 * k < input.len() {
            16 * k
        } else {
            input.len() as int
        },
    decreases k,
{
    if k == 0 {
        assert(rows.take(0) =~= Seq::<MemoryRow>::empty());
    } else {
        lemma_prefix_cells(input, rows, k - 1);
        assert(rows.take(k).drop_last() =~= rows.take(k - 1));
        assert(rows.take(k).last() == rows[k - 1]);
        assert(row_matches(input, k - 1, rows[k - 1]));
        assert(16 * (k - 1) < input.len()) by (nonlinear_arith)
            requires
                0 < k <= rows.len(),
                rows.len() == (input.len() + 15) / 16,
        ;
    }
}

/// Every input byte is rendered exactly once: the hex cells of all rows
/// together number exactly the input's bytes.
pub proof fn lemma_hex_cells_cover_input(input: Seq<u8>, rows: Seq<MemoryRow>)
    requires
        rows_match(input, rows),
    ensures
        total_hex_cells(rows) == input.len(),
{
    lemma_prefix_cells(input, rows, rows.len() as int);
    assert(rows.take(rows.len() as int) =~= rows);
    assert(16 * rows.len() >= input.len()) by (nonlinear_arith)
        requires
            rows.len() == (input.len() + 15) / 16,
    ;
}

/// Every row but the last holds exactly 16 hex cells; the last holds the
/// remainder of the input's length by 16, or 16 when that length is a
/// positive multiple of 16.
pub proof fn lemma_row_widths(input: Seq<u8>, rows: Seq<MemoryRow>, i: int)
    requires
        rows_match(input, rows),
        0 <= i < rows.len(),
    ensures
        i + 1 < rows.len() ==> rows[i].hex@.len() == 16,
        i + 1 == rows.len() ==> rows[i].hex@.len() == (if input.len() % 16 == 0 {
            16int
        } else {
            (input.len() % 16) as int
        }),
{
    assert(row_matches(input, i, rows[i]));
    if i + 1 < rows.len() {
        assert(row_width(input.len(), i) == 16) by (nonlinear_arith)
            requires
                0 <= i,
                i + 1 < (input.len() + 15) / 16,
        ;
    } else {
        assert(row_width(input.len(), i) == (if input.len() % 16 == 0 {
            16int
        } else {
            (input.len() % 16) as int
        })) by (nonlinear_arith)
            requires
                0 <= i,
                i + 1 == (input.len() + 15) / 16,
        ;
    }
}

/// Each row carries exactly as many ASCII cells as hex cells.
pub proof fn lemma_hex_ascii_aligned(input: Seq<u8>, rows: Seq<MemoryRow>, i: int)
    requires
        rows_match(input, rows),
        0 <= i < rows.len(),
    ensures
        rows[i].hex@.len() == rows[i].ascii@.len(),
{
    assert(row_matches(input, i, rows[i]));
}

/// Offsets across a dump render `16 * i` for row `i`: numerically they
/// grow strictly, and no two rows share an offset string.
pub proof fn lemma_offsets_increasing(input: Seq<u8>, rows: Seq<MemoryRow>, i: int, j: int)
    requires
        rows_match(input, rows),
        0 <= i < j < rows.len(),
    ensures
        rows[i].offset@ == offset_rep((16 * i) as nat),
        rows[j].offset@ == offset_rep((16 * j) as nat),
        16 * i < 16 * j,
        rows[i].offset@ != rows[j].offset@,
{
    assert(row_matches(input, i, rows[i]));
    assert(row_matches(input, j, rows[j]));
    lemma_offset_rep_inj((16 * i) as nat, (16 * j) as nat);
}

/// Two rows that render the same chunk agree in everything a caller can
/// observe of them.
pub open spec fn row_like(a: MemoryRow, b: MemoryRow) -> bool {
    &&& a.offset@ == b.offset@
    &&& a.hex@.len() == b.hex@.len()
    &&& forall|j: int| 0 <= j < a.hex@.len() ==> (#[trigger] a.hex@[j])@ == b.hex@[j]@
    &&& a.ascii@.len() == b.ascii@.len()
    &&& forall|j: int| 0 <= j < a.ascii@.len() ==> (#[trigger] a.ascii@[j])@ == b.ascii@[j]@
}

/// The dump of an input is determined by the input alone: any two outputs
/// for the same input agree row by row and cell by cell.
pub proof fn lemma_format_deterministic(input: Seq<u8>, rows1: Seq<MemoryRow>, rows2: Seq<MemoryRow>)
    requires
        rows_match(input, rows1),
        rows_match(input, rows2),
    ensures
        rows1.len() == rows2.len(),
        forall|i: int| 0 <= i < rows1.len() ==> row_like(#[trigger] rows1[i], rows2[i]),
{
    assert forall|i: int| 0 <= i < rows1.len() implies row_like(#[trigger] rows1[i], rows2[i]) by {
        assert(row_matches(input, i, rows1[i]));
        assert(row_matches(input, i, rows2[i]));
    }
}

} // verus!
