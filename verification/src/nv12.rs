//! NV12 pictures in memory: a luma plane of `height` rows, and under it a
//! chroma plane of `height / 2` rows. Rows start `pitch` bytes apart.
use vstd::arithmetic::div_mod::lemma_div_pos_is_pos;
use vstd::arithmetic::div_mod::lemma_fundamental_div_mod;
use vstd::arithmetic::div_mod::lemma_fundamental_div_mod_converse;
use vstd::arithmetic::mul::lemma_mul_inequality;
use vstd::arithmetic::mul::lemma_mul_is_commutative;
use vstd::prelude::*;

verus! {

/// Luma of black in the legal range.
pub const BLACK_LUMA: u8 = 16;

/// Chroma without colour.
pub const NEUTRAL_CHROMA: u8 = 128;

/// How many rows both planes of a picture have.
pub open spec fn plane_rows(height: int) -> int {
    height + height / 2
}

/// Whether `rows` rows of `width` bytes fit into `len` bytes.
pub open spec fn rows_fit(len: int, pitch: int, width: int, rows: int) -> bool {
    &&& 0 < pitch
    &&& width <= pitch
    &&& rows > 0 ==> (rows - 1) * pitch + width <= len
}

/// Where a byte of a row stands.
pub open spec fn offset(pitch: int, row: int, col: int) -> int {
    row * pitch + col
}

proof fn lemma_offset(pitch: int, row: int, col: int)
    requires
        0 <= col < pitch,
        0 <= row,
    ensures
        offset(pitch, row, col) / pitch == row,
        offset(pitch, row, col) % pitch == col,
        offset(pitch, row, col) >= 0,
{
    lemma_fundamental_div_mod_converse(row * pitch + col, pitch, row, col);
    lemma_mul_inequality(0, row, pitch);
}

proof fn lemma_place(pitch: int, i: int)
    requires
        0 < pitch,
        0 <= i,
    ensures
        i == offset(pitch, i / pitch, i % pitch),
        0 <= i / pitch,
{
    lemma_fundamental_div_mod(i, pitch);
    lemma_mul_is_commutative(pitch, i / pitch);
    lemma_div_pos_is_pos(i, pitch);
}

/// Sets the first `width` bytes of `rows` rows to `value`.
fn fill_rows(buf: &mut [u8], pitch: usize, width: usize, first: usize, rows: usize, value: u8)
    requires
        rows_fit(old(buf)@.len() as int, pitch as int, width as int, first + rows),
        first + rows <= usize::MAX,
    ensures
        final(buf)@.len() == old(buf)@.len(),
        forall|i: int|
            0 <= i < old(buf)@.len() ==> #[trigger] final(buf)@[i] == if first <= i / pitch as int
                && i / (pitch as int) < first + rows && i % (pitch as int) < width {
                value
            } else {
                old(buf)@[i]
            },
{
    let ghost start = buf@;
    let len: usize = buf.len();
    let mut row: usize = first;
    while row < first + rows
        invariant
            len == start.len(),
            first <= row <= first + rows <= usize::MAX,
            rows_fit(start.len() as int, pitch as int, width as int, first + rows),
            buf@.len() == start.len(),
            forall|i: int|
                0 <= i < start.len() ==> #[trigger] buf@[i] == if first <= i / pitch as int && i / (
                pitch as int) < row && i % (pitch as int) < width {
                    value
                } else {
                    start[i]
                },
        decreases first + rows - row,
    {
        let mut col: usize = 0;
        while col < width
            invariant
                len == start.len(),
                col <= width,
                first <= row < first + rows <= usize::MAX,
                rows_fit(start.len() as int, pitch as int, width as int, first + rows),
                buf@.len() == start.len(),
                forall|i: int|
                    0 <= i < start.len() ==> #[trigger] buf@[i] == if first <= i / pitch as int && (
                    i / (pitch as int) < row && i % (pitch as int) < width || i / (pitch as int)
                        == row && i % (pitch as int) < col) {
                        value
                    } else {
                        start[i]
                    },
            decreases width - col,
        {
            proof {
                lemma_offset(pitch as int, row as int, col as int);
                lemma_mul_inequality(row as int, first + rows - 1, pitch as int);
            }
            let ghost before = buf@;
            let at: usize = row * pitch + col;
            buf[at] = value;
            col += 1;
            assert forall|i: int| 0 <= i < start.len() implies #[trigger] buf@[i] == if first
                <= i / pitch as int && (i / (pitch as int) < row && i % (pitch as int) < width || i
                / (pitch as int) == row && i % (pitch as int) < col) {
                value
            } else {
                start[i]
            } by {
                lemma_place(pitch as int, i);
            }
        }
        row += 1;
    }
}

/// Fills a picture with legal black: luma 16, chroma 128.
pub fn fill_black(buf: &mut [u8], pitch: usize, width: u32, height: u32)
    requires
        rows_fit(old(buf)@.len() as int, pitch as int, width as int, plane_rows(height as int)),
        plane_rows(height as int) <= usize::MAX,
    ensures
        final(buf)@.len() == old(buf)@.len(),
        forall|i: int|
            0 <= i < old(buf)@.len() ==> #[trigger] final(buf)@[i] == if i % (pitch as int)
                >= width || i / (pitch as int) >= plane_rows(height as int) {
                old(buf)@[i]
            } else if i / (pitch as int) < height {
                BLACK_LUMA
            } else {
                NEUTRAL_CHROMA
            },
{
    let ghost start = buf@;
    let luma: usize = height as usize;
    let chroma: usize = (height / 2) as usize;
    assert(rows_fit(start.len() as int, pitch as int, width as int, luma as int)) by {
        if luma > 0 {
            lemma_mul_inequality(luma - 1, luma + chroma - 1, pitch as int);
        }
    }
    fill_rows(buf, pitch, width as usize, 0, luma, BLACK_LUMA);
    let ghost middle = buf@;
    fill_rows(buf, pitch, width as usize, luma, chroma, NEUTRAL_CHROMA);
    proof {
        assert forall|i: int| 0 <= i < start.len() implies #[trigger] buf@[i] == if i % (
        pitch as int) >= width || i / (pitch as int) >= plane_rows(height as int) {
            start[i]
        } else if i / (pitch as int) < height {
            BLACK_LUMA
        } else {
            NEUTRAL_CHROMA
        } by {
            lemma_place(pitch as int, i);
            assert(middle[i] == middle[i]);
        }
    }
}

/// How many bytes a picture has when its rows are packed.
pub open spec fn packed_size(width: int, height: int) -> int {
    width * height * 3 / 2
}

/// Whether a byte of the packed picture is the one at the same place of `src`.
pub open spec fn same_byte(
    packed: Seq<u8>,
    width: int,
    src: Seq<u8>,
    pitch: int,
    row: int,
    col: int,
) -> bool {
    &&& 0 <= offset(width, row, col) < packed.len()
    &&& packed[offset(width, row, col)] == src[offset(pitch, row, col)]
}

/// Packs the rows of a picture, without the gaps between them. Where `height`
/// is odd, the bytes behind the last row are 0.
pub fn pack_planes(src: &[u8], pitch: usize, width: u32, height: u32) -> (packed: Vec<u8>)
    requires
        rows_fit(src@.len() as int, pitch as int, width as int, plane_rows(height as int)),
        width * height * 3 <= u32::MAX,
        plane_rows(height as int) <= usize::MAX,
    ensures
        packed@.len() == packed_size(width as int, height as int),
        forall|row: int, col: int|
            0 <= row < plane_rows(height as int) && 0 <= col < width ==> #[trigger] same_byte(
                packed@,
                width as int,
                src@,
                pitch as int,
                row,
                col,
            ),
        forall|i: int|
            plane_rows(height as int) * width <= i < packed@.len() ==> #[trigger] packed@[i] == 0,
{
    let mut packed: Vec<u8> = Vec::new();
    let columns: usize = width as usize;
    let rows: usize = height as usize + (height / 2) as usize;
    let len: usize = src.len();
    let mut row: usize = 0;
    while row < rows
        invariant
            row <= rows,
            len == src@.len(),
            rows_fit(src@.len() as int, pitch as int, columns as int, rows as int),
            packed@.len() == row * columns,
            forall|r: int, c: int|
                0 <= r < row && 0 <= c < columns ==> #[trigger] same_byte(
                    packed@,
                    columns as int,
                    src@,
                    pitch as int,
                    r,
                    c,
                ),
        decreases rows - row,
    {
        let mut col: usize = 0;
        while col < columns
            invariant
                col <= columns,
                row < rows,
                len == src@.len(),
                rows_fit(src@.len() as int, pitch as int, columns as int, rows as int),
                packed@.len() == row * columns + col,
                forall|r: int, c: int|
                    0 <= c < columns && (0 <= r < row || r == row && c < col)
                        ==> #[trigger] same_byte(
                        packed@,
                        columns as int,
                        src@,
                        pitch as int,
                        r,
                        c,
                    ),
            decreases columns - col,
        {
            let ghost before = packed@;
            proof {
                lemma_offset(pitch as int, row as int, col as int);
                lemma_mul_inequality(row as int, rows - 1, pitch as int);
            }
            let at: usize = row * pitch + col;
            packed.push(src[at]);
            col += 1;
            assert forall|r: int, c: int|
                0 <= c < columns && (0 <= r < row || r == row && c < col) implies #[trigger] same_byte(
                packed@,
                columns as int,
                src@,
                pitch as int,
                r,
                c,
            ) by {
                if r == row && c == col - 1 {
                    lemma_mul_inequality(0, row as int, columns as int);
                } else {
                    assert(same_byte(before, columns as int, src@, pitch as int, r, c));
                }
            }
        }
        assert((row + 1) * columns == row * columns + columns) by (nonlinear_arith);
        row += 1;
    }
    let size: u32 = width * height * 3 / 2;
    proof {
        let w = width as int;
        let h = height as int;
        assert(w * (h + h / 2) <= w * h * 3 / 2) by (nonlinear_arith)
            requires
                0 <= w,
                0 <= h,
        ;
        assert(rows * columns == w * (h + h / 2)) by (nonlinear_arith)
            requires
                rows == h + h / 2,
                columns == w,
        ;
    }
    while packed.len() < size as usize
        invariant
            rows * columns <= packed@.len() <= size,
            forall|r: int, c: int|
                0 <= r < rows && 0 <= c < columns ==> #[trigger] same_byte(
                    packed@,
                    columns as int,
                    src@,
                    pitch as int,
                    r,
                    c,
                ),
            forall|i: int| rows * columns <= i < packed@.len() ==> #[trigger] packed@[i] == 0,
        decreases size - packed@.len(),
    {
        let ghost before = packed@;
        packed.push(0);
        assert forall|r: int, c: int| 0 <= r < rows && 0 <= c < columns implies #[trigger] same_byte(
            packed@,
            columns as int,
            src@,
            pitch as int,
            r,
            c,
        ) by {
            assert(same_byte(before, columns as int, src@, pitch as int, r, c));
        }
    }
    packed
}

/// A picture has as many rows of chroma as half its rows of luma, and packed as many
/// bytes as three for every two of its pixels. A byte of a row keeps its row and its
/// column when the rows are packed. Black has luma 16 and chroma 128.
pub proof fn packed_bytes_keep_their_place(
    packed: Seq<u8>,
    width: int,
    height: int,
    src: Seq<u8>,
    pitch: int,
    row: int,
    col: int,
)
    requires
        0 <= width,
        0 <= height,
    ensures
        0 <= 3 * height - 2 * plane_rows(height) <= 1,
        0 <= 3 * (width * height) - 2 * packed_size(width, height) <= 1,
        same_byte(packed, width, src, pitch, row, col) ==> packed[row * width + col] == src[row
            * pitch + col],
        BLACK_LUMA == 16,
        NEUTRAL_CHROMA == 128,
{
    assert(width * height * 3 == 3 * (width * height));
}

} // verus!
