use vstd::prelude::*;
use crate::geometry::{Axis, BlockFacing, BlockPos, pos_fits, pos_is};

verus! {

/// A copied region: its anchor offset, its dimensions and the block state id
/// of every cell. Cell `(x, y, z)` is stored at `y * size_x * size_z + z * size_x + x`.
pub struct Clipboard {
    pub offset_x: i32,
    pub offset_y: i32,
    pub offset_z: i32,
    pub size_x: u32,
    pub size_y: u32,
    pub size_z: u32,
    pub data: Vec<u32>,
}

/// A quarter-turn rotation about the vertical axis.
#[derive(Clone, Copy, Debug, PartialEq, Eq, Structural)]
pub enum RotateAmt {
    Rotate90,
    Rotate180,
    Rotate270,
}

pub open spec fn index_of(sx: int, sz: int, x: int, y: int, z: int) -> int {
    y * sx * sz + z * sx + x
}

pub open spec fn in_box(sx: int, sy: int, sz: int, x: int, y: int, z: int) -> bool {
    0 <= x < sx && 0 <= y < sy && 0 <= z < sz
}

/// A cell position mirrored along `axis` inside a box of the given size.
pub open spec fn flip_coords(axis: Axis, sx: int, sy: int, sz: int, x: int, y: int, z: int) -> (int, int, int) {
    match axis {
        Axis::X => (sx - 1 - x, y, z),
        Axis::Y => (x, sy - 1 - y, z),
        Axis::Z => (x, y, sz - 1 - z),
    }
}

/// What a block id becomes when flipped along `axis`: blocks are mirrored by
/// `table` for horizontal flips and kept as they are for vertical ones.
pub open spec fn flip_block(axis: Axis, table: Seq<u32>, id: u32) -> u32 {
    if axis == Axis::Y { id } else { table[id as int] }
}

pub open spec fn table_covers(table: Seq<u32>, data: Seq<u32>) -> bool {
    forall|i: int| 0 <= i < data.len() ==> (#[trigger] data[i] as int) < table.len()
}

impl Clipboard {
    pub open spec fn wf(&self) -> bool {
        &&& self.size_x * self.size_y <= u32::MAX
        &&& self.size_y * self.size_z <= u32::MAX
        &&& self.size_x * self.size_z <= u32::MAX
        &&& self.size_x * self.size_y * self.size_z <= u32::MAX
        &&& self.data.len() == self.size_x * self.size_y * self.size_z
        &&& self.size_x <= i32::MAX
        &&& self.size_y <= i32::MAX
        &&& self.size_z <= i32::MAX
    }

    pub open spec fn volume(&self) -> int {
        self.size_x * self.size_y * self.size_z
    }

    /// The block id of cell `(x, y, z)`.
    pub open spec fn cell(&self, x: int, y: int, z: int) -> u32 {
        self.data@[index_of(self.size_x as int, self.size_z as int, x, y, z)]
    }

    pub open spec fn in_bounds(&self, x: int, y: int, z: int) -> bool {
        in_box(self.size_x as int, self.size_y as int, self.size_z as int, x, y, z)
    }

    /// The offset that flipping along `axis` gives, as integers.
    pub open spec fn flipped_offset(&self, axis: Axis) -> (int, int, int) {
        flip_coords(axis, self.size_x as int, self.size_y as int, self.size_z as int,
            self.offset_x as int, self.offset_y as int, self.offset_z as int)
    }
}

pub proof fn lemma_index_bounds(sx: int, sy: int, sz: int, x: int, y: int, z: int)
    requires
        in_box(sx, sy, sz, x, y, z),
    ensures
        0 <= z * sx,
        0 <= y * sx,
        0 <= y * sx * sz,
        y * sx <= y * sx * sz,
        y * sx * sz + z * sx + x < sx * sy * sz,
        0 <= index_of(sx, sz, x, y, z) < sx * sy * sz,
{
    assert(0 <= z * sx) by (nonlinear_arith) requires 0 <= z, 0 <= sx;
    assert(0 <= y * sx) by (nonlinear_arith) requires 0 <= y, 0 <= sx;
    assert(0 <= y * sx * sz) by (nonlinear_arith) requires 0 <= y, 0 <= sx, 0 <= sz;
    assert(y * sx <= y * sx * sz) by (nonlinear_arith) requires 0 <= y, 0 <= sx, 1 <= sz;
    assert(z * sx + x < sz * sx) by (nonlinear_arith) requires 0 <= z < sz, 0 <= x < sx;
    assert(y * sx * sz + sx * sz <= sx * sy * sz) by (nonlinear_arith) requires 0 <= y < sy, 0 <= sx, 0 <= sz;
    assert(sz * sx == sx * sz) by (nonlinear_arith);
}

pub proof fn lemma_index_injective(sx: int, sy: int, sz: int, a: (int, int, int), b: (int, int, int))
    requires
        in_box(sx, sy, sz, a.0, a.1, a.2),
        in_box(sx, sy, sz, b.0, b.1, b.2),
        index_of(sx, sz, a.0, a.1, a.2) == index_of(sx, sz, b.0, b.1, b.2),
    ensures
        a == b,
{
    let (ax, ay, az) = a;
    let (bx, by, bz) = b;
    assert(az * sx + ax < sx * sz) by (nonlinear_arith) requires 0 <= az < sz, 0 <= ax < sx;
    assert(bz * sx + bx < sx * sz) by (nonlinear_arith) requires 0 <= bz < sz, 0 <= bx < sx;
    assert(0 <= az * sx && 0 <= bz * sx) by (nonlinear_arith) requires 0 <= az, 0 <= bz, 0 <= sx;
    if ay < by {
        assert(ay * sx * sz + sx * sz <= by * sx * sz) by (nonlinear_arith) requires ay < by, 0 <= sx, 0 <= sz;
    } else if by < ay {
        assert(by * sx * sz + sx * sz <= ay * sx * sz) by (nonlinear_arith) requires by < ay, 0 <= sx, 0 <= sz;
    }
    assert(ay == by);
    assert(az * sx + ax == bz * sx + bx);
    if az < bz {
        assert(az * sx + sx <= bz * sx) by (nonlinear_arith) requires az < bz, 0 <= sx;
    } else if bz < az {
        assert(bz * sx + sx <= az * sx) by (nonlinear_arith) requires bz < az, 0 <= sx;
    }
    assert(az == bz);
}

pub proof fn lemma_nonempty_box(sx: int, sy: int, sz: int)
    requires
        0 <= sx,
        0 <= sy,
        0 <= sz,
        0 < sx * sy * sz,
    ensures
        0 < sx,
        0 < sy,
        0 < sz,
{
    if sx == 0 || sy == 0 || sz == 0 {
        assert(sx * sy * sz == 0) by (nonlinear_arith) requires sx == 0 || sy == 0 || sz == 0;
    }
}

/// Advancing the scan position by one cell (x fastest, then z, then y)
/// advances the linear index by one.
pub proof fn lemma_index_step(sx: int, sy: int, sz: int, x: int, y: int, z: int)
    requires
        in_box(sx, sy, sz, x, y, z),
    ensures
        x + 1 < sx ==> index_of(sx, sz, x + 1, y, z) == index_of(sx, sz, x, y, z) + 1,
        x + 1 == sx && z + 1 < sz ==> index_of(sx, sz, 0, y, z + 1) == index_of(sx, sz, x, y, z) + 1,
        x + 1 == sx && z + 1 == sz ==> index_of(sx, sz, 0, y + 1, 0) == index_of(sx, sz, x, y, z) + 1,
{
    assert((z + 1) * sx == z * sx + sx) by (nonlinear_arith);
    assert((y + 1) * sx * sz == y * sx * sz + sx * sz) by (nonlinear_arith);
    assert((sz - 1) * sx + sx == sx * sz) by (nonlinear_arith);
}

pub proof fn lemma_flip_in_box(axis: Axis, sx: int, sy: int, sz: int, x: int, y: int, z: int)
    requires
        in_box(sx, sy, sz, x, y, z),
    ensures
        ({
            let f = flip_coords(axis, sx, sy, sz, x, y, z);
            &&& in_box(sx, sy, sz, f.0, f.1, f.2)
            &&& flip_coords(axis, sx, sy, sz, f.0, f.1, f.2) == (x, y, z)
        }),
{
}

/// Mirrors one position along `axis` inside a box of the given size.
pub fn flip_pos(axis: Axis, size_x: u32, size_y: u32, size_z: u32, pos: BlockPos) -> (r: BlockPos)
    requires
        size_x <= i32::MAX,
        size_y <= i32::MAX,
        size_z <= i32::MAX,
        ({
            let f = flip_coords(axis, size_x as int, size_y as int, size_z as int, pos.x as int, pos.y as int, pos.z as int);
            pos_fits(f.0, f.1, f.2)
        }),
    ensures
        ({
            let f = flip_coords(axis, size_x as int, size_y as int, size_z as int, pos.x as int, pos.y as int, pos.z as int);
            pos_is(r, f.0, f.1, f.2)
        }),
{
    let mut p = pos;
    match axis {
        Axis::X => p.x = size_x as i32 - 1 - pos.x,
        Axis::Y => p.y = size_y as i32 - 1 - pos.y,
        Axis::Z => p.z = size_z as i32 - 1 - pos.z,
    }
    p
}

/// `r` is `cb` mirrored along `axis`: same size, mirrored offset, and every
/// cell holds the mirrored block of the cell it was mirrored from.
pub open spec fn is_flip_of(r: Clipboard, cb: Clipboard, axis: Axis, table: Seq<u32>) -> bool {
    &&& r.wf()
    &&& r.size_x == cb.size_x
    &&& r.size_y == cb.size_y
    &&& r.size_z == cb.size_z
    &&& ({
        let o = cb.flipped_offset(axis);
        r.offset_x == o.0 && r.offset_y == o.1 && r.offset_z == o.2
    })
    &&& forall|x: int, y: int, z: int| #[trigger] r.in_bounds(x, y, z) ==> {
        let f = flip_coords(axis, cb.size_x as int, cb.size_y as int, cb.size_z as int, x, y, z);
        r.cell(x, y, z) == flip_block(axis, table, cb.cell(f.0, f.1, f.2))
    }
}

/// Mirrors a clipboard along the axis of `direction`. Every cell moves to its
/// mirrored place; for a horizontal flip each block id `b` becomes
/// `block_flip[b]` (the block state mirrored along that axis), for a vertical
/// flip block ids are kept. The offset is mirrored the same way as a cell.
pub fn flip_clipboard(cb: &Clipboard, direction: BlockFacing, block_flip: &Vec<u32>) -> (r: Clipboard)
    requires
        cb.wf(),
        direction.axis_of() != Axis::Y ==> table_covers(block_flip@, cb.data@),
        ({
            let o = cb.flipped_offset(direction.axis_of());
            pos_fits(o.0, o.1, o.2)
        }),
    ensures
        is_flip_of(r, *cb, direction.axis_of(), block_flip@),
{
    let axis = direction.axis();
    let size_x = cb.size_x;
    let size_y = cb.size_y;
    let size_z = cb.size_z;
    let volume = size_x * size_y * size_z;
    let ghost sx = size_x as int;
    let ghost sy = size_y as int;
    let ghost sz = size_z as int;

    let mut newdata: Vec<u32> = vec![0u32; volume as usize];
    proof {
        if 0 < volume {
            lemma_nonempty_box(sx, sy, sz);
            lemma_index_bounds(sx, sy, sz, 0, 0, 0);
        }
    }

    let mut c_x: i32 = 0;
    let mut c_y: i32 = 0;
    let mut c_z: i32 = 0;
    let mut i: u32 = 0;
    while i < volume
        invariant
            cb.wf(),
            axis == direction.axis_of(),
            axis != Axis::Y ==> table_covers(block_flip@, cb.data@),
            size_x == cb.size_x,
            size_y == cb.size_y,
            size_z == cb.size_z,
            sx == size_x,
            sy == size_y,
            sz == size_z,
            volume == sx * sy * sz,
            newdata.len() == volume,
            i <= volume,
            i < volume ==> (0 <= c_x < sx && 0 <= c_z < sz && 0 <= c_y < sy && i == index_of(sx, sz, c_x as int, c_y as int, c_z as int)),
            forall|x: int, y: int, z: int|
                #![trigger cb.in_bounds(x, y, z)]
                cb.in_bounds(x, y, z) && index_of(sx, sz, x, y, z) < i ==> {
                    let f = flip_coords(axis, sx, sy, sz, x, y, z);
                    newdata@[index_of(sx, sz, f.0, f.1, f.2)] == flip_block(axis, block_flip@, cb.data@[index_of(sx, sz, x, y, z)])
                },
        decreases volume - i,
    {
        proof {
            lemma_index_bounds(sx, sy, sz, c_x as int, c_y as int, c_z as int);
            lemma_flip_in_box(axis, sx, sy, sz, c_x as int, c_y as int, c_z as int);
        }
        let n = flip_pos(axis, size_x, size_y, size_z, BlockPos::new(c_x, c_y, c_z));
        proof {
            lemma_index_bounds(sx, sy, sz, n.x as int, n.y as int, n.z as int);
        }
        let n_i = (n.y as u32 * size_x * size_z) + (n.z as u32 * size_x) + n.x as u32;
        let old_id = cb.data[i as usize];
        let block = match axis {
            Axis::Y => old_id,
            _ => block_flip[old_id as usize],
        };
        let ghost prev = newdata@;
        newdata.set(n_i as usize, block);

        proof {
            let c = (c_x as int, c_y as int, c_z as int);
            let fc = flip_coords(axis, sx, sy, sz, c.0, c.1, c.2);
            assert forall|x: int, y: int, z: int|
                #![trigger cb.in_bounds(x, y, z)]
                cb.in_bounds(x, y, z) && index_of(sx, sz, x, y, z) < i + 1 implies {
                    let f = flip_coords(axis, sx, sy, sz, x, y, z);
                    newdata@[index_of(sx, sz, f.0, f.1, f.2)] == flip_block(axis, block_flip@, cb.data@[index_of(sx, sz, x, y, z)])
                } by {
                let f = flip_coords(axis, sx, sy, sz, x, y, z);
                lemma_flip_in_box(axis, sx, sy, sz, x, y, z);
                lemma_index_bounds(sx, sy, sz, f.0, f.1, f.2);
                lemma_index_bounds(sx, sy, sz, x, y, z);
                if index_of(sx, sz, x, y, z) == i as int {
                    lemma_index_injective(sx, sy, sz, (x, y, z), c);
                    assert(f == fc);
                    assert(index_of(sx, sz, f.0, f.1, f.2) == n_i as int);
                } else {
                    if index_of(sx, sz, f.0, f.1, f.2) == n_i as int {
                        lemma_index_injective(sx, sy, sz, f, fc);
                        lemma_flip_in_box(axis, sx, sy, sz, f.0, f.1, f.2);
                        assert(false);
                    }
                    assert(newdata@[index_of(sx, sz, f.0, f.1, f.2)] == prev[index_of(sx, sz, f.0, f.1, f.2)]);
                }
            }
            lemma_index_step(sx, sy, sz, c_x as int, c_y as int, c_z as int);
        }

        c_x = c_x + 1;
        if c_x as u32 == size_x {
            c_x = 0;
            c_z = c_z + 1;
            if c_z as u32 == size_z {
                c_z = 0;
                c_y = c_y + 1;
            }
        }
        i = i + 1;
        proof {
            if i < volume {
                if c_y as int >= sy {
                    lemma_index_bounds(sx, sy, sz, 0, sy - 1, 0);
                    assert(index_of(sx, sz, 0, sy, 0) == sy * sx * sz);
                    assert(sy * sx * sz == sx * sy * sz) by (nonlinear_arith);
                }
            }
        }
    }

    let offset = flip_pos(axis, size_x, size_y, size_z, BlockPos::new(cb.offset_x, cb.offset_y, cb.offset_z));
    let r = Clipboard {
        offset_x: offset.x,
        offset_y: offset.y,
        offset_z: offset.z,
        size_x,
        size_y,
        size_z,
        data: newdata,
    };
    proof {
        assert forall|x: int, y: int, z: int| #[trigger] r.in_bounds(x, y, z) implies {
            let f = flip_coords(axis, sx, sy, sz, x, y, z);
            r.cell(x, y, z) == flip_block(axis, block_flip@, cb.cell(f.0, f.1, f.2))
        } by {
            let f = flip_coords(axis, sx, sy, sz, x, y, z);
            lemma_flip_in_box(axis, sx, sy, sz, x, y, z);
            lemma_index_bounds(sx, sy, sz, f.0, f.1, f.2);
            assert(cb.in_bounds(f.0, f.1, f.2));
        }
    }
    r
}


/// The outcome of reading a rotation amount in degrees.
#[derive(Clone, Copy, Debug, PartialEq, Eq, Structural)]
pub enum RotateRequest {
    /// A whole number of full turns: nothing to do.
    FullTurn,
    /// A quarter-turn multiple to apply.
    Rotate(RotateAmt),
    /// Not a multiple of 90 degrees.
    NotQuarterTurn,
}

/// Reads a rotation amount in degrees.
pub fn rotation_for_degrees(degrees: u32) -> (r: RotateRequest)
    ensures
        degrees % 360 == 0 ==> r == RotateRequest::FullTurn,
        degrees % 360 == 90 ==> r == RotateRequest::Rotate(RotateAmt::Rotate90),
        degrees % 360 == 180 ==> r == RotateRequest::Rotate(RotateAmt::Rotate180),
        degrees % 360 == 270 ==> r == RotateRequest::Rotate(RotateAmt::Rotate270),
        degrees % 90 != 0 ==> r == RotateRequest::NotQuarterTurn,
{
    match degrees % 360 {
        0 => RotateRequest::FullTurn,
        90 => RotateRequest::Rotate(RotateAmt::Rotate90),
        180 => RotateRequest::Rotate(RotateAmt::Rotate180),
        270 => RotateRequest::Rotate(RotateAmt::Rotate270),
        _ => RotateRequest::NotQuarterTurn,
    }
}

/// The horizontal size `(size_x, size_z)` after rotating a box of horizontal size `(sx, sz)`.
pub open spec fn rotated_sizes(amt: RotateAmt, sx: int, sz: int) -> (int, int) {
    match amt {
        RotateAmt::Rotate90 | RotateAmt::Rotate270 => (sz, sx),
        RotateAmt::Rotate180 => (sx, sz),
    }
}

/// Where cell `(x, y, z)` lands when rotated, given the rotated box's horizontal size.
pub open spec fn rotate_coords(amt: RotateAmt, nsx: int, nsz: int, x: int, y: int, z: int) -> (int, int, int) {
    match amt {
        RotateAmt::Rotate90 => (nsx - 1 - z, y, x),
        RotateAmt::Rotate180 => (nsx - 1 - x, y, nsz - 1 - z),
        RotateAmt::Rotate270 => (z, y, nsz - 1 - x),
    }
}

/// The cell of a box of horizontal size `(sx, sz)` that rotation moves to `(x, y, z)`.
pub open spec fn unrotate_coords(amt: RotateAmt, sx: int, sz: int, x: int, y: int, z: int) -> (int, int, int) {
    match amt {
        RotateAmt::Rotate90 => (z, y, sz - 1 - x),
        RotateAmt::Rotate180 => (sx - 1 - x, y, sz - 1 - z),
        RotateAmt::Rotate270 => (sx - 1 - z, y, x),
    }
}

pub proof fn lemma_rotate_in_box(amt: RotateAmt, sx: int, sy: int, sz: int, x: int, y: int, z: int)
    requires
        in_box(sx, sy, sz, x, y, z),
    ensures
        ({
            let n = rotated_sizes(amt, sx, sz);
            let r = rotate_coords(amt, n.0, n.1, x, y, z);
            &&& in_box(n.0, sy, n.1, r.0, r.1, r.2)
            &&& unrotate_coords(amt, sx, sz, r.0, r.1, r.2) == (x, y, z)
        }),
{
}

pub proof fn lemma_unrotate_in_box(amt: RotateAmt, sx: int, sy: int, sz: int, x: int, y: int, z: int)
    requires
        in_box(rotated_sizes(amt, sx, sz).0, sy, rotated_sizes(amt, sx, sz).1, x, y, z),
    ensures
        ({
            let n = rotated_sizes(amt, sx, sz);
            let u = unrotate_coords(amt, sx, sz, x, y, z);
            &&& in_box(sx, sy, sz, u.0, u.1, u.2)
            &&& rotate_coords(amt, n.0, n.1, u.0, u.1, u.2) == (x, y, z)
        }),
{
}

/// Rotates one position, given the rotated box's horizontal size.
pub fn rotate_pos(amt: RotateAmt, n_size_x: u32, n_size_z: u32, pos: BlockPos) -> (r: BlockPos)
    requires
        n_size_x <= i32::MAX,
        n_size_z <= i32::MAX,
        ({
            let c = rotate_coords(amt, n_size_x as int, n_size_z as int, pos.x as int, pos.y as int, pos.z as int);
            pos_fits(c.0, c.1, c.2)
        }),
    ensures
        ({
            let c = rotate_coords(amt, n_size_x as int, n_size_z as int, pos.x as int, pos.y as int, pos.z as int);
            pos_is(r, c.0, c.1, c.2)
        }),
{
    match amt {
        RotateAmt::Rotate90 => BlockPos { x: n_size_x as i32 - 1 - pos.z, y: pos.y, z: pos.x },
        RotateAmt::Rotate180 => BlockPos {
            x: n_size_x as i32 - 1 - pos.x,
            y: pos.y,
            z: n_size_z as i32 - 1 - pos.z,
        },
        RotateAmt::Rotate270 => BlockPos { x: pos.z, y: pos.y, z: n_size_z as i32 - 1 - pos.x },
    }
}

impl Clipboard {
    /// The offset that rotating by `amt` gives, as integers.
    pub open spec fn rotated_offset(&self, amt: RotateAmt) -> (int, int, int) {
        let n = rotated_sizes(amt, self.size_x as int, self.size_z as int);
        rotate_coords(amt, n.0, n.1, self.offset_x as int, self.offset_y as int, self.offset_z as int)
    }
}

/// `r` is `cb` turned by `amt`: horizontal sides swapped for quarter turns,
/// rotated offset, and every cell holds the turned block of the cell that
/// the rotation moved there.
pub open spec fn is_rotation_of(r: Clipboard, cb: Clipboard, amt: RotateAmt, table: Seq<u32>) -> bool {
    &&& r.wf()
    &&& r.size_x == rotated_sizes(amt, cb.size_x as int, cb.size_z as int).0
    &&& r.size_y == cb.size_y
    &&& r.size_z == rotated_sizes(amt, cb.size_x as int, cb.size_z as int).1
    &&& ({
        let o = cb.rotated_offset(amt);
        r.offset_x == o.0 && r.offset_y == o.1 && r.offset_z == o.2
    })
    &&& forall|x: int, y: int, z: int| #[trigger] r.in_bounds(x, y, z) ==> {
        let u = unrotate_coords(amt, cb.size_x as int, cb.size_z as int, x, y, z);
        r.cell(x, y, z) == table[cb.cell(u.0, u.1, u.2) as int]
    }
}

/// Rotates a clipboard about the vertical axis. Every cell moves to its rotated
/// place in a box whose horizontal sides are swapped for quarter turns; each
/// block id `b` becomes `block_rotate[b]` (the block state turned by `amt`).
/// The offset is rotated the same way as a cell.
pub fn rotate_clipboard(cb: &Clipboard, amt: RotateAmt, block_rotate: &Vec<u32>) -> (r: Clipboard)
    requires
        cb.wf(),
        table_covers(block_rotate@, cb.data@),
        ({
            let o = cb.rotated_offset(amt);
            pos_fits(o.0, o.1, o.2)
        }),
    ensures
        is_rotation_of(r, *cb, amt, block_rotate@),
{
    let size_x = cb.size_x;
    let size_y = cb.size_y;
    let size_z = cb.size_z;
    let volume = size_x * size_y * size_z;
    let ghost sx = size_x as int;
    let ghost sy = size_y as int;
    let ghost sz = size_z as int;

    let (n_size_x, n_size_z) = match amt {
        RotateAmt::Rotate90 | RotateAmt::Rotate270 => (size_z, size_x),
        _ => (size_x, size_z),
    };
    let ghost nsx = n_size_x as int;
    let ghost nsz = n_size_z as int;
    proof {
        assert(nsx * sy * nsz == sx * sy * sz) by (nonlinear_arith)
            requires (nsx == sz && nsz == sx) || (nsx == sx && nsz == sz);
        assert(nsx * sy <= u32::MAX && sy * nsz <= u32::MAX && nsx * nsz <= u32::MAX) by (nonlinear_arith)
            requires (nsx == sz && nsz == sx) || (nsx == sx && nsz == sz), sx * sy <= u32::MAX,
                sy * sz <= u32::MAX, sx * sz <= u32::MAX;
    }

    let mut newdata: Vec<u32> = vec![0u32; volume as usize];
    proof {
        if 0 < volume {
            lemma_nonempty_box(sx, sy, sz);
            lemma_index_bounds(sx, sy, sz, 0, 0, 0);
        }
    }

    let mut c_x: i32 = 0;
    let mut c_y: i32 = 0;
    let mut c_z: i32 = 0;
    let mut i: u32 = 0;
    while i < volume
        invariant
            cb.wf(),
            table_covers(block_rotate@, cb.data@),
            size_x == cb.size_x,
            size_y == cb.size_y,
            size_z == cb.size_z,
            sx == size_x,
            sy == size_y,
            sz == size_z,
            nsx == n_size_x,
            nsz == n_size_z,
            (nsx, nsz) == rotated_sizes(amt, sx, sz),
            volume == sx * sy * sz,
            nsx * sy * nsz == sx * sy * sz,
            newdata.len() == volume,
            i <= volume,
            i < volume ==> (0 <= c_x < sx && 0 <= c_z < sz && 0 <= c_y < sy && i == index_of(sx, sz, c_x as int, c_y as int, c_z as int)),
            forall|x: int, y: int, z: int|
                #![trigger cb.in_bounds(x, y, z)]
                cb.in_bounds(x, y, z) && index_of(sx, sz, x, y, z) < i ==> {
                    let t = rotate_coords(amt, nsx, nsz, x, y, z);
                    newdata@[index_of(nsx, nsz, t.0, t.1, t.2)] == block_rotate@[cb.data@[index_of(sx, sz, x, y, z)] as int]
                },
        decreases volume - i,
    {
        proof {
            lemma_index_bounds(sx, sy, sz, c_x as int, c_y as int, c_z as int);
            lemma_rotate_in_box(amt, sx, sy, sz, c_x as int, c_y as int, c_z as int);
        }
        let n = rotate_pos(amt, n_size_x, n_size_z, BlockPos::new(c_x, c_y, c_z));
        proof {
            lemma_index_bounds(nsx, sy, nsz, n.x as int, n.y as int, n.z as int);
        }
        let n_i = (n.y as u32 * n_size_x * n_size_z) + (n.z as u32 * n_size_x) + n.x as u32;
        let old_id = cb.data[i as usize];
        let block = block_rotate[old_id as usize];
        let ghost prev = newdata@;
        newdata.set(n_i as usize, block);

        proof {
            let c = (c_x as int, c_y as int, c_z as int);
            let tc = rotate_coords(amt, nsx, nsz, c.0, c.1, c.2);
            assert forall|x: int, y: int, z: int|
                #![trigger cb.in_bounds(x, y, z)]
                cb.in_bounds(x, y, z) && index_of(sx, sz, x, y, z) < i + 1 implies {
                    let t = rotate_coords(amt, nsx, nsz, x, y, z);
                    newdata@[index_of(nsx, nsz, t.0, t.1, t.2)] == block_rotate@[cb.data@[index_of(sx, sz, x, y, z)] as int]
                } by {
                let t = rotate_coords(amt, nsx, nsz, x, y, z);
                lemma_rotate_in_box(amt, sx, sy, sz, x, y, z);
                lemma_index_bounds(nsx, sy, nsz, t.0, t.1, t.2);
                lemma_index_bounds(sx, sy, sz, x, y, z);
                if index_of(sx, sz, x, y, z) == i as int {
                    lemma_index_injective(sx, sy, sz, (x, y, z), c);
                    assert(t == tc);
                    assert(index_of(nsx, nsz, t.0, t.1, t.2) == n_i as int);
                } else {
                    if index_of(nsx, nsz, t.0, t.1, t.2) == n_i as int {
                        lemma_index_injective(nsx, sy, nsz, t, tc);
                        assert(false);
                    }
                    assert(newdata@[index_of(nsx, nsz, t.0, t.1, t.2)] == prev[index_of(nsx, nsz, t.0, t.1, t.2)]);
                }
            }
            lemma_index_step(sx, sy, sz, c_x as int, c_y as int, c_z as int);
        }

        c_x = c_x + 1;
        if c_x as u32 == size_x {
            c_x = 0;
            c_z = c_z + 1;
            if c_z as u32 == size_z {
                c_z = 0;
                c_y = c_y + 1;
            }
        }
        i = i + 1;
        proof {
            if i < volume {
                if c_y as int >= sy {
                    lemma_index_bounds(sx, sy, sz, 0, sy - 1, 0);
                    assert(index_of(sx, sz, 0, sy, 0) == sy * sx * sz);
                    assert(sy * sx * sz == sx * sy * sz) by (nonlinear_arith);
                }
            }
        }
    }

    let offset = rotate_pos(amt, n_size_x, n_size_z, BlockPos::new(cb.offset_x, cb.offset_y, cb.offset_z));
    let r = Clipboard {
        offset_x: offset.x,
        offset_y: offset.y,
        offset_z: offset.z,
        size_x: n_size_x,
        size_y,
        size_z: n_size_z,
        data: newdata,
    };
    proof {
        assert forall|x: int, y: int, z: int| #[trigger] r.in_bounds(x, y, z) implies {
            let u = unrotate_coords(amt, sx, sz, x, y, z);
            r.cell(x, y, z) == block_rotate@[cb.cell(u.0, u.1, u.2) as int]
        } by {
            let u = unrotate_coords(amt, sx, sz, x, y, z);
            lemma_unrotate_in_box(amt, sx, sy, sz, x, y, z);
            lemma_index_bounds(sx, sy, sz, u.0, u.1, u.2);
            assert(cb.in_bounds(u.0, u.1, u.2));
        }
    }
    r
}


/// Every linear index of a box is the index of exactly one cell.
pub proof fn lemma_index_decompose(sx: int, sy: int, sz: int, k: int) -> (c: (int, int, int))
    requires
        0 <= sx,
        0 <= sy,
        0 <= sz,
        0 <= k < sx * sy * sz,
    ensures
        in_box(sx, sy, sz, c.0, c.1, c.2),
        index_of(sx, sz, c.0, c.1, c.2) == k,
{
    lemma_nonempty_box(sx, sy, sz);
    let q = k / sx;
    let x = k % sx;
    vstd::arithmetic::div_mod::lemma_fundamental_div_mod(k, sx);
    vstd::arithmetic::div_mod::lemma_mod_bound(k, sx);
    let z = q % sz;
    let y = q / sz;
    vstd::arithmetic::div_mod::lemma_fundamental_div_mod(q, sz);
    vstd::arithmetic::div_mod::lemma_mod_bound(q, sz);
    assert(0 <= q) by (nonlinear_arith) requires k == sx * q + x, 0 <= k, x < sx, 0 < sx;
    assert(q < sy * sz) by (nonlinear_arith) requires k == sx * q + x, k < sx * sy * sz, 0 <= x, 0 < sx;
    assert(0 <= y) by (nonlinear_arith) requires q == sz * y + z, 0 <= q, z < sz, 0 < sz;
    assert(y < sy) by (nonlinear_arith) requires q == sz * y + z, q < sy * sz, 0 <= z, 0 < sz;
    assert(k == y * sx * sz + z * sx + x) by (nonlinear_arith) requires k == sx * q + x, q == sz * y + z;
    (x, y, z)
}

/// Two well-formed clipboards of the same size whose cells agree hold the same data.
pub proof fn lemma_cells_equal(a: Clipboard, b: Clipboard)
    requires
        a.wf(),
        b.wf(),
        a.size_x == b.size_x,
        a.size_y == b.size_y,
        a.size_z == b.size_z,
        forall|x: int, y: int, z: int| #[trigger] a.in_bounds(x, y, z) ==> a.cell(x, y, z) == b.cell(x, y, z),
    ensures
        a.data@ == b.data@,
{
    assert forall|k: int| 0 <= k < a.data@.len() implies a.data@[k] == b.data@[k] by {
        let c = lemma_index_decompose(a.size_x as int, a.size_y as int, a.size_z as int, k);
        assert(a.in_bounds(c.0, c.1, c.2));
    }
    assert(a.data@ =~= b.data@);
}

/// Flipping a clipboard twice along the same axis gives the same clipboard
/// back, provided mirroring a block state twice gives that state back.
pub proof fn law_flip_twice_restores(cb: Clipboard, axis: Axis, table: Seq<u32>, once: Clipboard, twice: Clipboard)
    requires
        cb.wf(),
        axis != Axis::Y ==> forall|i: int| 0 <= i < cb.data@.len() ==>
            #[trigger] table[table[cb.data@[i] as int] as int] == cb.data@[i],
        is_flip_of(once, cb, axis, table),
        is_flip_of(twice, once, axis, table),
    ensures
        twice.offset_x == cb.offset_x,
        twice.offset_y == cb.offset_y,
        twice.offset_z == cb.offset_z,
        twice.size_x == cb.size_x,
        twice.size_y == cb.size_y,
        twice.size_z == cb.size_z,
        twice.data@ == cb.data@,
{
    let (sx, sy, sz) = (cb.size_x as int, cb.size_y as int, cb.size_z as int);
    assert forall|x: int, y: int, z: int| #[trigger] twice.in_bounds(x, y, z) implies twice.cell(x, y, z) == cb.cell(x, y, z) by {
        let f = flip_coords(axis, sx, sy, sz, x, y, z);
        lemma_flip_in_box(axis, sx, sy, sz, x, y, z);
        assert(once.in_bounds(f.0, f.1, f.2));
        lemma_index_bounds(sx, sy, sz, x, y, z);
        if axis != Axis::Y {
            let k = index_of(sx, sz, x, y, z);
            assert(table[table[cb.data@[k] as int] as int] == cb.data@[k]);
        }
    }
    lemma_cells_equal(twice, cb);
}

/// Turning a clipboard by 90 degrees and then by 270 degrees gives the same
/// clipboard back, provided the two block-state turns undo each other.
pub proof fn law_rotate_90_then_270_restores(cb: Clipboard, t90: Seq<u32>, t270: Seq<u32>, once: Clipboard, twice: Clipboard)
    requires
        cb.wf(),
        forall|i: int| 0 <= i < cb.data@.len() ==> #[trigger] t270[t90[cb.data@[i] as int] as int] == cb.data@[i],
        is_rotation_of(once, cb, RotateAmt::Rotate90, t90),
        is_rotation_of(twice, once, RotateAmt::Rotate270, t270),
    ensures
        twice.offset_x == cb.offset_x,
        twice.offset_y == cb.offset_y,
        twice.offset_z == cb.offset_z,
        twice.size_x == cb.size_x,
        twice.size_y == cb.size_y,
        twice.size_z == cb.size_z,
        twice.data@ == cb.data@,
{
    let (sx, sy, sz) = (cb.size_x as int, cb.size_y as int, cb.size_z as int);
    assert forall|x: int, y: int, z: int| #[trigger] twice.in_bounds(x, y, z) implies twice.cell(x, y, z) == cb.cell(x, y, z) by {
        let u = unrotate_coords(RotateAmt::Rotate270, sz, sx, x, y, z);
        assert(once.in_bounds(u.0, u.1, u.2));
        lemma_index_bounds(sx, sy, sz, x, y, z);
        let k = index_of(sx, sz, x, y, z);
        assert(t270[t90[cb.data@[k] as int] as int] == cb.data@[k]);
    }
    lemma_cells_equal(twice, cb);
}

/// A clipboard turned by 90 degrees can always be turned back by 270: the
/// second turn's table covers every block of the turned clipboard when it
/// covers the turned blocks of the original, and the offset it would produce
/// is the original offset, which fits.
pub proof fn law_rotate_90_can_be_turned_back(cb: Clipboard, t90: Seq<u32>, t270: Seq<u32>, once: Clipboard)
    requires
        cb.wf(),
        table_covers(t90, cb.data@),
        forall|i: int| 0 <= i < cb.data@.len() ==> (#[trigger] t90[cb.data@[i] as int] as int) < t270.len(),
        is_rotation_of(once, cb, RotateAmt::Rotate90, t90),
    ensures
        once.wf(),
        table_covers(t270, once.data@),
        once.rotated_offset(RotateAmt::Rotate270) == (cb.offset_x as int, cb.offset_y as int, cb.offset_z as int),
        ({
            let o = once.rotated_offset(RotateAmt::Rotate270);
            pos_fits(o.0, o.1, o.2)
        }),
{
    let (sx, sy, sz) = (cb.size_x as int, cb.size_y as int, cb.size_z as int);
    assert forall|k: int| 0 <= k < once.data@.len() implies (#[trigger] once.data@[k] as int) < t270.len() by {
        let c = lemma_index_decompose(once.size_x as int, once.size_y as int, once.size_z as int, k);
        assert(once.in_bounds(c.0, c.1, c.2));
        lemma_unrotate_in_box(RotateAmt::Rotate90, sx, sy, sz, c.0, c.1, c.2);
        let u = unrotate_coords(RotateAmt::Rotate90, sx, sz, c.0, c.1, c.2);
        lemma_index_bounds(sx, sy, sz, u.0, u.1, u.2);
        let j = index_of(sx, sz, u.0, u.1, u.2);
        assert((t90[cb.data@[j] as int] as int) < t270.len());
    }
}

/// A clipboard flipped along an axis can always be flipped back along it: the
/// table covers every block of the flipped clipboard when it covers the
/// mirrored blocks of the original, and the offset it would produce is the
/// original offset, which fits.
pub proof fn law_flip_can_be_flipped_back(cb: Clipboard, axis: Axis, table: Seq<u32>, once: Clipboard)
    requires
        cb.wf(),
        axis != Axis::Y ==> table_covers(table, cb.data@),
        axis != Axis::Y ==> forall|i: int| 0 <= i < cb.data@.len() ==> (#[trigger] table[cb.data@[i] as int] as int) < table.len(),
        is_flip_of(once, cb, axis, table),
    ensures
        once.wf(),
        axis != Axis::Y ==> table_covers(table, once.data@),
        once.flipped_offset(axis) == (cb.offset_x as int, cb.offset_y as int, cb.offset_z as int),
        ({
            let o = once.flipped_offset(axis);
            pos_fits(o.0, o.1, o.2)
        }),
{
    let (sx, sy, sz) = (cb.size_x as int, cb.size_y as int, cb.size_z as int);
    if axis != Axis::Y {
        assert forall|k: int| 0 <= k < once.data@.len() implies (#[trigger] once.data@[k] as int) < table.len() by {
            let c = lemma_index_decompose(sx, sy, sz, k);
            assert(once.in_bounds(c.0, c.1, c.2));
            lemma_flip_in_box(axis, sx, sy, sz, c.0, c.1, c.2);
            let f = flip_coords(axis, sx, sy, sz, c.0, c.1, c.2);
            lemma_index_bounds(sx, sy, sz, f.0, f.1, f.2);
            let j = index_of(sx, sz, f.0, f.1, f.2);
            assert((table[cb.data@[j] as int] as int) < table.len());
        }
    }
}

/// Turning a clipboard by 180 degrees twice gives the same clipboard back,
/// provided turning a block state by 180 degrees twice gives that state back.
pub proof fn law_rotate_180_twice_restores(cb: Clipboard, t180: Seq<u32>, once: Clipboard, twice: Clipboard)
    requires
        cb.wf(),
        forall|i: int| 0 <= i < cb.data@.len() ==> #[trigger] t180[t180[cb.data@[i] as int] as int] == cb.data@[i],
        is_rotation_of(once, cb, RotateAmt::Rotate180, t180),
        is_rotation_of(twice, once, RotateAmt::Rotate180, t180),
    ensures
        twice.offset_x == cb.offset_x,
        twice.offset_y == cb.offset_y,
        twice.offset_z == cb.offset_z,
        twice.size_x == cb.size_x,
        twice.size_y == cb.size_y,
        twice.size_z == cb.size_z,
        twice.data@ == cb.data@,
{
    let (sx, sy, sz) = (cb.size_x as int, cb.size_y as int, cb.size_z as int);
    assert forall|x: int, y: int, z: int| #[trigger] twice.in_bounds(x, y, z) implies twice.cell(x, y, z) == cb.cell(x, y, z) by {
        let u = unrotate_coords(RotateAmt::Rotate180, sx, sz, x, y, z);
        assert(once.in_bounds(u.0, u.1, u.2));
        lemma_index_bounds(sx, sy, sz, x, y, z);
        let k = index_of(sx, sz, x, y, z);
        assert(t180[t180[cb.data@[k] as int] as int] == cb.data@[k]);
    }
    lemma_cells_equal(twice, cb);
}

/// Turning a clipboard by 90 degrees twice gives the same clipboard as one turn
/// by 180 degrees, provided the block-state turns compose the same way.
pub proof fn law_rotate_90_twice_is_180(cb: Clipboard, t90: Seq<u32>, t180: Seq<u32>, once: Clipboard, twice: Clipboard, half: Clipboard)
    requires
        cb.wf(),
        forall|i: int| 0 <= i < cb.data@.len() ==> #[trigger] t90[t90[cb.data@[i] as int] as int] == t180[cb.data@[i] as int],
        is_rotation_of(once, cb, RotateAmt::Rotate90, t90),
        is_rotation_of(twice, once, RotateAmt::Rotate90, t90),
        is_rotation_of(half, cb, RotateAmt::Rotate180, t180),
    ensures
        twice.offset_x == half.offset_x,
        twice.offset_y == half.offset_y,
        twice.offset_z == half.offset_z,
        twice.size_x == half.size_x,
        twice.size_y == half.size_y,
        twice.size_z == half.size_z,
        twice.data@ == half.data@,
{
    let (sx, sy, sz) = (cb.size_x as int, cb.size_y as int, cb.size_z as int);
    assert forall|x: int, y: int, z: int| #[trigger] twice.in_bounds(x, y, z) implies twice.cell(x, y, z) == half.cell(x, y, z) by {
        let u = unrotate_coords(RotateAmt::Rotate90, sz, sx, x, y, z);
        assert(once.in_bounds(u.0, u.1, u.2));
        let v = unrotate_coords(RotateAmt::Rotate90, sx, sz, u.0, u.1, u.2);
        assert(cb.in_bounds(v.0, v.1, v.2));
        assert(half.in_bounds(x, y, z));
        lemma_index_bounds(sx, sy, sz, v.0, v.1, v.2);
        let k = index_of(sx, sz, v.0, v.1, v.2);
        assert(t90[t90[cb.data@[k] as int] as int] == t180[cb.data@[k] as int]);
    }
    lemma_cells_equal(twice, half);
}


/// Mirrors the positions of a clipboard's block entities along `axis`, in order.
pub fn flip_positions(axis: Axis, size_x: u32, size_y: u32, size_z: u32, positions: &Vec<BlockPos>) -> (r: Vec<BlockPos>)
    requires
        size_x <= i32::MAX,
        size_y <= i32::MAX,
        size_z <= i32::MAX,
        forall|k: int| 0 <= k < positions@.len() ==> {
            let p = #[trigger] positions@[k];
            let f = flip_coords(axis, size_x as int, size_y as int, size_z as int, p.x as int, p.y as int, p.z as int);
            pos_fits(f.0, f.1, f.2)
        },
    ensures
        r@.len() == positions@.len(),
        forall|k: int| 0 <= k < positions@.len() ==> {
            let p = #[trigger] positions@[k];
            let f = flip_coords(axis, size_x as int, size_y as int, size_z as int, p.x as int, p.y as int, p.z as int);
            pos_is(r@[k], f.0, f.1, f.2)
        },
{
    let mut out: Vec<BlockPos> = Vec::new();
    let mut i: usize = 0;
    while i < positions.len()
        invariant
            size_x <= i32::MAX,
            size_y <= i32::MAX,
            size_z <= i32::MAX,
            forall|k: int| 0 <= k < positions@.len() ==> {
                let p = #[trigger] positions@[k];
                let f = flip_coords(axis, size_x as int, size_y as int, size_z as int, p.x as int, p.y as int, p.z as int);
                pos_fits(f.0, f.1, f.2)
            },
            i <= positions@.len(),
            out@.len() == i,
            forall|k: int| 0 <= k < i ==> {
                let p = #[trigger] positions@[k];
                let f = flip_coords(axis, size_x as int, size_y as int, size_z as int, p.x as int, p.y as int, p.z as int);
                pos_is(out@[k], f.0, f.1, f.2)
            },
        decreases positions@.len() - i,
    {
        out.push(flip_pos(axis, size_x, size_y, size_z, positions[i]));
        i = i + 1;
    }
    out
}

/// Rotates the positions of a clipboard's block entities, in order, given the
/// rotated box's horizontal size.
pub fn rotate_positions(amt: RotateAmt, n_size_x: u32, n_size_z: u32, positions: &Vec<BlockPos>) -> (r: Vec<BlockPos>)
    requires
        n_size_x <= i32::MAX,
        n_size_z <= i32::MAX,
        forall|k: int| 0 <= k < positions@.len() ==> {
            let p = #[trigger] positions@[k];
            let c = rotate_coords(amt, n_size_x as int, n_size_z as int, p.x as int, p.y as int, p.z as int);
            pos_fits(c.0, c.1, c.2)
        },
    ensures
        r@.len() == positions@.len(),
        forall|k: int| 0 <= k < positions@.len() ==> {
            let p = #[trigger] positions@[k];
            let c = rotate_coords(amt, n_size_x as int, n_size_z as int, p.x as int, p.y as int, p.z as int);
            pos_is(r@[k], c.0, c.1, c.2)
        },
{
    let mut out: Vec<BlockPos> = Vec::new();
    let mut i: usize = 0;
    while i < positions.len()
        invariant
            n_size_x <= i32::MAX,
            n_size_z <= i32::MAX,
            forall|k: int| 0 <= k < positions@.len() ==> {
                let p = #[trigger] positions@[k];
                let c = rotate_coords(amt, n_size_x as int, n_size_z as int, p.x as int, p.y as int, p.z as int);
                pos_fits(c.0, c.1, c.2)
            },
            i <= positions@.len(),
            out@.len() == i,
            forall|k: int| 0 <= k < i ==> {
                let p = #[trigger] positions@[k];
                let c = rotate_coords(amt, n_size_x as int, n_size_z as int, p.x as int, p.y as int, p.z as int);
                pos_is(out@[k], c.0, c.1, c.2)
            },
        decreases positions@.len() - i,
    {
        out.push(rotate_pos(amt, n_size_x, n_size_z, positions[i]));
        i = i + 1;
    }
    out
}


/// `t` has `n` entries, each an id below `n`.
pub open spec fn maps_into(t: Seq<u32>, n: nat) -> bool {
    &&& t.len() == n
    &&& forall|i: int| 0 <= i < n ==> (#[trigger] t[i] as int) < n
}

/// Going by `fwd` and then by `back` gives every id below `n` back.
pub open spec fn undoes(back: Seq<u32>, fwd: Seq<u32>, n: nat) -> bool {
    forall|i: int| 0 <= i < n ==> back[(#[trigger] fwd[i]) as int] == i
}

/// What block state tables must be for flips and turns to be undone: all of
/// the same size, closed under lookup, each flip its own inverse, a turn by
/// 270 degrees undoing one by 90 and the other way round, and a half turn its
/// own inverse.
pub open spec fn tables_consistent(flip_x: Seq<u32>, flip_z: Seq<u32>, rotate_90: Seq<u32>, rotate_180: Seq<u32>, rotate_270: Seq<u32>) -> bool {
    let n = flip_x.len();
    &&& maps_into(flip_x, n)
    &&& maps_into(flip_z, n)
    &&& maps_into(rotate_90, n)
    &&& maps_into(rotate_180, n)
    &&& maps_into(rotate_270, n)
    &&& undoes(flip_x, flip_x, n)
    &&& undoes(flip_z, flip_z, n)
    &&& undoes(rotate_270, rotate_90, n)
    &&& undoes(rotate_90, rotate_270, n)
    &&& undoes(rotate_180, rotate_180, n)
}

fn check_maps_into(t: &Vec<u32>, n: usize) -> (r: bool)
    ensures
        r == maps_into(t@, n as nat),
{
    if t.len() != n {
        return false;
    }
    let mut i: usize = 0;
    while i < n
        invariant
            t@.len() == n,
            i <= n,
            forall|j: int| 0 <= j < i ==> (#[trigger] t@[j] as int) < n,
        decreases n - i,
    {
        if t[i] as usize >= n {
            return false;
        }
        i = i + 1;
    }
    true
}

fn check_undoes(back: &Vec<u32>, fwd: &Vec<u32>, n: usize) -> (r: bool)
    requires
        maps_into(back@, n as nat),
        maps_into(fwd@, n as nat),
    ensures
        r == undoes(back@, fwd@, n as nat),
{
    let mut i: usize = 0;
    while i < n
        invariant
            maps_into(back@, n as nat),
            maps_into(fwd@, n as nat),
            i <= n,
            forall|j: int| 0 <= j < i ==> back@[(#[trigger] fwd@[j]) as int] == j,
        decreases n - i,
    {
        let f = fwd[i] as usize;
        if back[f] as usize != i {
            return false;
        }
        i = i + 1;
    }
    true
}

/// The block state tables that flips and turns go by: for each block state
/// id, the id of the same block mirrored along X or Z, or turned by 90, 180
/// or 270 degrees. The tables are always consistent (`tables_consistent`).
pub struct BlockTables {
    flip_x: Vec<u32>,
    flip_z: Vec<u32>,
    rotate_90: Vec<u32>,
    rotate_180: Vec<u32>,
    rotate_270: Vec<u32>,
}

impl BlockTables {
    /// How many block state ids the tables know.
    pub closed spec fn count(&self) -> nat {
        self.flip_x@.len()
    }

    /// The table a flip along `axis` goes by: the X table for east and west,
    /// the Z table for north and south. A vertical flip keeps block states, so
    /// its table is never read; it is the X table.
    pub closed spec fn flip_for(&self, axis: Axis) -> Seq<u32> {
        match axis {
            Axis::Z => self.flip_z@,
            _ => self.flip_x@,
        }
    }

    /// The table a turn by `amt` goes by.
    pub closed spec fn turn_for(&self, amt: RotateAmt) -> Seq<u32> {
        match amt {
            RotateAmt::Rotate90 => self.rotate_90@,
            RotateAmt::Rotate180 => self.rotate_180@,
            RotateAmt::Rotate270 => self.rotate_270@,
        }
    }

    pub closed spec fn wf(&self) -> bool {
        tables_consistent(self.flip_x@, self.flip_z@, self.rotate_90@, self.rotate_180@, self.rotate_270@)
    }

    /// Every id in `data` is one the tables know.
    pub open spec fn knows(&self, data: Seq<u32>) -> bool {
        forall|i: int| 0 <= i < data.len() ==> (#[trigger] data[i] as int) < self.count()
    }

    /// Takes the five tables when they are consistent; `None` otherwise.
    pub fn new(flip_x: Vec<u32>, flip_z: Vec<u32>, rotate_90: Vec<u32>, rotate_180: Vec<u32>, rotate_270: Vec<u32>) -> (r: Option<BlockTables>)
        ensures
            r is Some <==> tables_consistent(flip_x@, flip_z@, rotate_90@, rotate_180@, rotate_270@),
            r matches Some(t) ==> {
                &&& t.wf()
                &&& t.count() == flip_x@.len()
                &&& t.flip_for(Axis::X) == flip_x@
                &&& t.flip_for(Axis::Z) == flip_z@
                &&& t.turn_for(RotateAmt::Rotate90) == rotate_90@
                &&& t.turn_for(RotateAmt::Rotate180) == rotate_180@
                &&& t.turn_for(RotateAmt::Rotate270) == rotate_270@
            },
    {
        let n = flip_x.len();
        if !(check_maps_into(&flip_x, n) && check_maps_into(&flip_z, n) && check_maps_into(&rotate_90, n)
            && check_maps_into(&rotate_180, n) && check_maps_into(&rotate_270, n)) {
            return None;
        }
        if !(check_undoes(&flip_x, &flip_x, n) && check_undoes(&flip_z, &flip_z, n)
            && check_undoes(&rotate_270, &rotate_90, n) && check_undoes(&rotate_90, &rotate_270, n)
            && check_undoes(&rotate_180, &rotate_180, n)) {
            return None;
        }
        Some(BlockTables { flip_x, flip_z, rotate_90, rotate_180, rotate_270 })
    }

    /// The table a flip in `direction` goes by (see `flip_for`).
    pub fn flip_table(&self, direction: BlockFacing) -> (r: &Vec<u32>)
        ensures
            r@ == self.flip_for(direction.axis_of()),
    {
        match direction {
            BlockFacing::North | BlockFacing::South => &self.flip_z,
            _ => &self.flip_x,
        }
    }

    /// The table a turn by `amt` goes by.
    pub fn rotate_table(&self, amt: RotateAmt) -> (r: &Vec<u32>)
        ensures
            r@ == self.turn_for(amt),
    {
        match amt {
            RotateAmt::Rotate90 => &self.rotate_90,
            RotateAmt::Rotate180 => &self.rotate_180,
            RotateAmt::Rotate270 => &self.rotate_270,
        }
    }

    /// Every table of consistent tables covers the blocks the tables know.
    pub proof fn lemma_tables_cover(&self, data: Seq<u32>)
        requires
            self.wf(),
            self.knows(data),
        ensures
            forall|axis: Axis| table_covers(#[trigger] self.flip_for(axis), data),
            forall|amt: RotateAmt| table_covers(#[trigger] self.turn_for(amt), data),
    {
    }
}

/// Flipping a clipboard twice along the same axis by consistent block tables
/// gives the same clipboard back, and the second flip can always be made: its
/// table covers the flipped blocks and the offset it gives fits.
pub proof fn law_flip_twice_by_tables_restores(cb: Clipboard, axis: Axis, tables: BlockTables, once: Clipboard, twice: Clipboard)
    requires
        cb.wf(),
        tables.wf(),
        tables.knows(cb.data@),
        is_flip_of(once, cb, axis, tables.flip_for(axis)),
        is_flip_of(twice, once, axis, tables.flip_for(axis)),
    ensures
        once.wf(),
        table_covers(tables.flip_for(axis), once.data@) || axis == Axis::Y,
        ({
            let o = once.flipped_offset(axis);
            pos_fits(o.0, o.1, o.2)
        }),
        twice.offset_x == cb.offset_x,
        twice.offset_y == cb.offset_y,
        twice.offset_z == cb.offset_z,
        twice.size_x == cb.size_x,
        twice.size_y == cb.size_y,
        twice.size_z == cb.size_z,
        twice.data@ == cb.data@,
{
    let t = tables.flip_for(axis);
    let n = tables.count();
    assert(maps_into(t, n) && undoes(t, t, n));
    assert forall|i: int| 0 <= i < cb.data@.len() implies (#[trigger] t[cb.data@[i] as int] as int) < t.len() by {
        assert((cb.data@[i] as int) < n);
    }
    law_flip_can_be_flipped_back(cb, axis, t, once);
    if axis != Axis::Y {
        assert forall|i: int| 0 <= i < cb.data@.len() implies #[trigger] t[t[cb.data@[i] as int] as int] == cb.data@[i] by {
            assert((cb.data@[i] as int) < n);
        }
    }
    law_flip_twice_restores(cb, axis, t, once, twice);
}

/// Turning a clipboard by 90 degrees and then by 270 degrees by consistent
/// block tables gives the same clipboard back, and the second turn can always
/// be made: its table covers the turned blocks and the offset it gives fits.
pub proof fn law_rotate_90_then_270_by_tables_restores(cb: Clipboard, tables: BlockTables, once: Clipboard, twice: Clipboard)
    requires
        cb.wf(),
        tables.wf(),
        tables.knows(cb.data@),
        is_rotation_of(once, cb, RotateAmt::Rotate90, tables.turn_for(RotateAmt::Rotate90)),
        is_rotation_of(twice, once, RotateAmt::Rotate270, tables.turn_for(RotateAmt::Rotate270)),
    ensures
        once.wf(),
        table_covers(tables.turn_for(RotateAmt::Rotate270), once.data@),
        ({
            let o = once.rotated_offset(RotateAmt::Rotate270);
            pos_fits(o.0, o.1, o.2)
        }),
        twice.offset_x == cb.offset_x,
        twice.offset_y == cb.offset_y,
        twice.offset_z == cb.offset_z,
        twice.size_x == cb.size_x,
        twice.size_y == cb.size_y,
        twice.size_z == cb.size_z,
        twice.data@ == cb.data@,
{
    let t90 = tables.turn_for(RotateAmt::Rotate90);
    let t270 = tables.turn_for(RotateAmt::Rotate270);
    let n = tables.count();
    assert(maps_into(t90, n) && maps_into(t270, n) && undoes(t270, t90, n));
    assert forall|i: int| 0 <= i < cb.data@.len() implies (#[trigger] t90[cb.data@[i] as int] as int) < t270.len() by {
        assert((cb.data@[i] as int) < n);
    }
    assert forall|i: int| 0 <= i < cb.data@.len() implies #[trigger] t270[t90[cb.data@[i] as int] as int] == cb.data@[i] by {
        assert((cb.data@[i] as int) < n);
    }
    tables.lemma_tables_cover(cb.data@);
    law_rotate_90_can_be_turned_back(cb, t90, t270, once);
    law_rotate_90_then_270_restores(cb, t90, t270, once, twice);
}

} // verus!
