use vstd::prelude::*;
use vstd::arithmetic::power2::pow2;
use vstd::bits::lemma_u8_shr_is_div;
use crate::geometry::{BlockPos, lemma_u32_as_i32, pos_fits, pos_is, u32_as_i32};

verus! {

/// Side of the square image in cells.
pub const IMAGE_SIDE: usize = 28;

/// The fewest bytes that hold the 784 bits of an image.
pub const IMAGE_MIN_BYTES: usize = 98;

/// Bit `i` of an image file: bits are read column by column, and within a
/// byte the most significant bit comes first.
pub open spec fn image_bit(data: Seq<u8>, i: int) -> bool {
    ((data[i / 8] as nat) / pow2((7 - i % 8) as nat)) % 2 == 1
}

/// Bit `i` of a file, counted from the start of the file with the most
/// significant bit of each byte first, is bit `7 - i % 8` (counting from the
/// least significant bit) of byte `i / 8`; `image_bit` reads exactly it.
pub proof fn law_image_bit_is_file_bit(data: Seq<u8>, i: int)
    requires
        0 <= i < data.len() * 8,
    ensures
        image_bit(data, i) == ((data[i / 8] >> ((7 - i % 8) as u8)) & 1u8 == 1u8),
{
    let byte = data[i / 8];
    let shift = (7 - i % 8) as u8;
    lemma_u8_shr_is_div(byte, shift);
    let shifted = byte >> shift;
    assert(shifted & 1 == shifted % 2) by (bit_vector);
}

/// Why an image file cannot be placed.
#[derive(Clone, Copy, Debug, PartialEq, Eq, Structural)]
pub enum ImageError {
    /// Fewer than 98 bytes: not all 784 bits are there.
    TooSmall,
}

/// One image cell: where it goes and whether its bit is set (a set bit is
/// a redstone block, a clear one light gray concrete).
#[derive(Clone, Copy, Debug, PartialEq, Eq, Structural)]
pub struct ImageCell {
    pub pos: BlockPos,
    pub lit: bool,
}

/// The origin of the image position given as three unsigned numbers (each read as i32).
pub fn image_origin(x: u32, y: u32, z: u32) -> (r: BlockPos)
    ensures
        pos_is(r, u32_as_i32(x), u32_as_i32(y), u32_as_i32(z)),
{
    proof {
        lemma_u32_as_i32(x);
        lemma_u32_as_i32(y);
        lemma_u32_as_i32(z);
    }
    BlockPos::new(x as i32, y as i32, z as i32)
}

/// The far corner of the 55 x 55 footprint of an image placed at `origin`.
pub fn image_far_corner(origin: BlockPos) -> (r: BlockPos)
    requires
        pos_fits(origin.x + 54, origin.y + 54, origin.z as int),
    ensures
        pos_is(r, origin.x + 54, origin.y + 54, origin.z as int),
{
    BlockPos::new(origin.x + 54, origin.y + 54, origin.z)
}

/// The 28 x 28 cells of an image file placed at `origin`, column by column:
/// the cell of column `col` and row `row` is at position `col * 28 + row`,
/// sits at `origin + (2 * col, 2 * row, 0)` and shows bit `col * 28 + row`.
pub fn image_cells(origin: BlockPos, data: &[u8]) -> (r: Result<Vec<ImageCell>, ImageError>)
    requires
        pos_fits(origin.x + 54, origin.y + 54, origin.z as int),
    ensures
        data@.len() < 98 ==> r == Err::<Vec<ImageCell>, ImageError>(ImageError::TooSmall),
        data@.len() >= 98 ==> r is Ok && r->Ok_0@.len() == 784 && forall|col: int, row: int|
            #![trigger r->Ok_0@[col * 28 + row]]
            0 <= col < 28 && 0 <= row < 28 ==> {
                let c = r->Ok_0@[col * 28 + row];
                &&& pos_is(c.pos, origin.x + 2 * col, origin.y + 2 * row, origin.z as int)
                &&& c.lit == image_bit(data@, col * 28 + row)
            },
        data@.len() >= 98 ==> forall|col: int, row: int|
            #![trigger r->Ok_0@[col * 28 + row]]
            0 <= col < 28 && 0 <= row < 28 ==>
                r->Ok_0@[col * 28 + row].lit
                    == ((data@[(col * 28 + row) / 8] >> ((7 - (col * 28 + row) % 8) as u8)) & 1u8 == 1u8),
{
    if data.len() < 98 {
        return Err(ImageError::TooSmall);
    }
    let mut cells: Vec<ImageCell> = Vec::new();
    let mut col: i32 = 0;
    while col < 28
        invariant
            pos_fits(origin.x + 54, origin.y + 54, origin.z as int),
            data@.len() >= 98,
            0 <= col <= 28,
            cells@.len() == col * 28,
            forall|c: int, w: int|
                #![trigger cells@[c * 28 + w]]
                0 <= c < col && 0 <= w < 28 ==> {
                    let e = cells@[c * 28 + w];
                    &&& pos_is(e.pos, origin.x + 2 * c, origin.y + 2 * w, origin.z as int)
                    &&& e.lit == image_bit(data@, c * 28 + w)
                },
        decreases 28 - col,
    {
        let mut row: i32 = 0;
        while row < 28
            invariant
                pos_fits(origin.x + 54, origin.y + 54, origin.z as int),
                data@.len() >= 98,
                0 <= col < 28,
                0 <= row <= 28,
                cells@.len() == col * 28 + row,
                forall|c: int, w: int|
                    #![trigger cells@[c * 28 + w]]
                    0 <= c <= col && 0 <= w < 28 && c * 28 + w < cells@.len() ==> {
                        let e = cells@[c * 28 + w];
                        &&& pos_is(e.pos, origin.x + 2 * c, origin.y + 2 * w, origin.z as int)
                        &&& e.lit == image_bit(data@, c * 28 + w)
                    },
            decreases 28 - row,
        {
            let bit_idx = (col * 28 + row) as usize;
            let byte_idx = bit_idx / 8;
            let bit_shift = 7 - (bit_idx % 8);
            let byte = data[byte_idx];
            proof {
                lemma_u8_shr_is_div(byte, bit_shift as u8);
                let shifted = byte >> bit_shift as u8;
                assert(shifted & 1 == shifted % 2) by (bit_vector);
            }
            let is_one = (byte >> bit_shift as u8) & 1 == 1;
            let pos = BlockPos::new(origin.x + col * 2, origin.y + row * 2, origin.z);
            let ghost prev = cells@;
            cells.push(ImageCell { pos, lit: is_one });
            proof {
                assert forall|c: int, w: int|
                    #![trigger cells@[c * 28 + w]]
                    0 <= c <= col && 0 <= w < 28 && c * 28 + w < cells@.len() implies {
                        let e = cells@[c * 28 + w];
                        &&& pos_is(e.pos, origin.x + 2 * c, origin.y + 2 * w, origin.z as int)
                        &&& e.lit == image_bit(data@, c * 28 + w)
                    } by {
                    if c * 28 + w == prev.len() {
                        assert(c == col && w == row);
                    } else {
                        assert(cells@[c * 28 + w] == prev[c * 28 + w]);
                    }
                }
            }
            row = row + 1;
        }
        col = col + 1;
    }
    proof {
        assert forall|c: int, w: int|
            #![trigger cells@[c * 28 + w]]
            0 <= c < 28 && 0 <= w < 28 implies
                cells@[c * 28 + w].lit == ((data@[(c * 28 + w) / 8] >> ((7 - (c * 28 + w) % 8) as u8)) & 1u8 == 1u8) by {
            law_image_bit_is_file_bit(data@, c * 28 + w);
        }
    }
    Ok(cells)
}

/// The position in the gap list of offset `(dx, dy)`: columns come in
/// order of `dx`; an even column holds its 27 odd rows, an odd column all 55.
pub open spec fn gap_index(dx: int, dy: int) -> int {
    ((dx + 1) / 2) * 27 + (dx / 2) * 55 + if dx % 2 == 0 { (dy - 1) / 2 } else { dy }
}

/// `(dx, dy)` lies in the 55 x 55 footprint but is not a cell position.
pub open spec fn is_gap(dx: int, dy: int) -> bool {
    0 <= dx < 55 && 0 <= dy < 55 && !(dx % 2 == 0 && dy % 2 == 0)
}

/// The positions between image cells, cleared to air: every offset of the
/// 55 x 55 footprint that is not even on both axes, column by column, with
/// offset `(dx, dy)` at position `gap_index(dx, dy)`.
pub fn image_gaps(origin: BlockPos) -> (r: Vec<BlockPos>)
    requires
        pos_fits(origin.x + 54, origin.y + 54, origin.z as int),
    ensures
        r@.len() == 55 * 55 - 28 * 28,
        forall|dx: int, dy: int|
            #![trigger gap_index(dx, dy)]
            is_gap(dx, dy) ==> pos_is(r@[gap_index(dx, dy)], origin.x + dx, origin.y + dy, origin.z as int),
{
    let mut gaps: Vec<BlockPos> = Vec::new();
    let mut dx: i32 = 0;
    while dx < 55
        invariant
            pos_fits(origin.x + 54, origin.y + 54, origin.z as int),
            0 <= dx <= 55,
            gaps@.len() == gap_index(dx as int, 0) + (if dx % 2 == 0 { 1int } else { 0int }),
            forall|x: int, y: int|
                #![trigger gap_index(x, y)]
                is_gap(x, y) && x < dx ==> pos_is(gaps@[gap_index(x, y)], origin.x + x, origin.y + y, origin.z as int),
        decreases 55 - dx,
    {
        let mut dy: i32 = 0;
        while dy < 55
            invariant
                pos_fits(origin.x + 54, origin.y + 54, origin.z as int),
                0 <= dx < 55,
                0 <= dy <= 55,
                gaps@.len() == gap_index(dx as int, 0) + (if dx % 2 == 0 { 1int } else { 0int })
                    + (if dx % 2 == 0 { dy / 2 } else { dy as int }),
                forall|x: int, y: int|
                    #![trigger gap_index(x, y)]
                    is_gap(x, y) && (x < dx || (x == dx && y < dy)) ==> pos_is(gaps@[gap_index(x, y)], origin.x + x, origin.y + y, origin.z as int),
            decreases 55 - dy,
        {
            if dx % 2 == 0 && dy % 2 == 0 {
                dy = dy + 1;
                continue;
            }
            let ghost prev = gaps@;
            gaps.push(BlockPos::new(origin.x + dx, origin.y + dy, origin.z));
            proof {
                assert(gap_index(dx as int, dy as int) == prev.len());
                assert forall|x: int, y: int|
                    #![trigger gap_index(x, y)]
                    is_gap(x, y) && (x < dx || (x == dx && y < dy + 1)) implies pos_is(gaps@[gap_index(x, y)], origin.x + x, origin.y + y, origin.z as int) by {
                    if x == dx && y == dy {
                    } else {
                        assert(gap_index(x, y) < prev.len());
                        assert(gaps@[gap_index(x, y)] == prev[gap_index(x, y)]);
                    }
                }
            }
            dy = dy + 1;
        }
        dx = dx + 1;
    }
    gaps
}


/// The gap list and the cell grid split the 55 x 55 footprint: every offset
/// is a cell (even on both axes) or a gap, never both, and distinct gaps have
/// distinct places in the gap list, all within its length.
pub proof fn law_cells_and_gaps_partition(dx: int, dy: int, ex: int, ey: int)
    requires
        0 <= dx < 55,
        0 <= dy < 55,
    ensures
        (dx % 2 == 0 && dy % 2 == 0) != is_gap(dx, dy),
        is_gap(dx, dy) ==> 0 <= gap_index(dx, dy) < 55 * 55 - 28 * 28,
        is_gap(dx, dy) && is_gap(ex, ey) && gap_index(dx, dy) == gap_index(ex, ey) ==> dx == ex && dy == ey,
{
    if is_gap(dx, dy) && is_gap(ex, ey) && gap_index(dx, dy) == gap_index(ex, ey) {
        if dx < ex {
            assert(gap_index(dx, dy) < gap_index(ex, 0) + (if ex % 2 == 0 { 1int } else { 0int }));
        } else if ex < dx {
            assert(gap_index(ex, ey) < gap_index(dx, 0) + (if dx % 2 == 0 { 1int } else { 0int }));
        }
    }
}

} // verus!
