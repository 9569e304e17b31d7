use vstd::prelude::*;

verus! {

/// A block position in the world.
#[derive(Clone, Copy, Debug, PartialEq, Eq, Structural)]
pub struct BlockPos {
    pub x: i32,
    pub y: i32,
    pub z: i32,
}

/// One of the six axis-aligned block faces.
#[derive(Clone, Copy, Debug, PartialEq, Eq, Structural)]
pub enum BlockFacing {
    North,
    South,
    East,
    West,
    Up,
    Down,
}

/// The axis a facing runs along.
#[derive(Clone, Copy, Debug, PartialEq, Eq, Structural)]
pub enum Axis {
    X,
    Y,
    Z,
}

pub open spec fn fits_i32(v: int) -> bool {
    i32::MIN <= v <= i32::MAX
}

pub open spec fn pos_fits(x: int, y: int, z: int) -> bool {
    fits_i32(x) && fits_i32(y) && fits_i32(z)
}

/// `p` holds exactly the coordinates `(x, y, z)`.
pub open spec fn pos_is(p: BlockPos, x: int, y: int, z: int) -> bool {
    p.x == x && p.y == y && p.z == z
}

/// The value that `a as i32` takes for an unsigned 32-bit `a` (two's complement).
pub open spec fn u32_as_i32(a: u32) -> int {
    if a <= i32::MAX { a as int } else { a as int - 0x1_0000_0000 }
}

pub proof fn lemma_u32_as_i32(a: u32)
    ensures
        (a as i32) as int == u32_as_i32(a),
{
    assert((a as i32) as int == if a <= 0x7fff_ffffu32 { a as int } else { a as int - 0x1_0000_0000 }) by (bit_vector);
}

impl BlockFacing {
    /// The unit vector of this facing: North is -Z, South +Z, East +X,
    /// West -X, Up +Y, Down -Y.
    pub open spec fn unit(self) -> (int, int, int) {
        match self {
            BlockFacing::North => (0, 0, -1),
            BlockFacing::South => (0, 0, 1),
            BlockFacing::East => (1, 0, 0),
            BlockFacing::West => (-1, 0, 0),
            BlockFacing::Up => (0, 1, 0),
            BlockFacing::Down => (0, -1, 0),
        }
    }

    pub open spec fn axis_of(self) -> Axis {
        match self {
            BlockFacing::North | BlockFacing::South => Axis::Z,
            BlockFacing::East | BlockFacing::West => Axis::X,
            BlockFacing::Up | BlockFacing::Down => Axis::Y,
        }
    }

    /// `pos` moved `n` blocks in this direction, as integers.
    pub open spec fn spec_offset(self, pos: BlockPos, n: int) -> (int, int, int) {
        (pos.x + self.unit().0 * n, pos.y + self.unit().1 * n, pos.z + self.unit().2 * n)
    }

    pub open spec fn offset_fits(self, pos: BlockPos, n: int) -> bool {
        let o = self.spec_offset(pos, n);
        pos_fits(o.0, o.1, o.2)
    }

    /// The axis this facing runs along.
    pub fn axis(self) -> (r: Axis)
        ensures
            r == self.axis_of(),
    {
        match self {
            BlockFacing::North | BlockFacing::South => Axis::Z,
            BlockFacing::East | BlockFacing::West => Axis::X,
            BlockFacing::Up | BlockFacing::Down => Axis::Y,
        }
    }

    /// Moves `pos` by `n` blocks in this direction.
    pub fn offset_pos(self, pos: BlockPos, n: i32) -> (r: BlockPos)
        requires
            self.offset_fits(pos, n as int),
        ensures
            pos_is(r, self.spec_offset(pos, n as int).0, self.spec_offset(pos, n as int).1,
                self.spec_offset(pos, n as int).2),
    {
        let mut p = pos;
        match self {
            BlockFacing::North => p.z = pos.z - n,
            BlockFacing::South => p.z = pos.z + n,
            BlockFacing::East => p.x = pos.x + n,
            BlockFacing::West => p.x = pos.x - n,
            BlockFacing::Up => p.y = pos.y + n,
            BlockFacing::Down => p.y = pos.y - n,
        }
        p
    }
}

impl BlockPos {
    pub fn new(x: i32, y: i32, z: i32) -> (r: BlockPos)
        ensures
            pos_is(r, x as int, y as int, z as int),
    {
        BlockPos { x, y, z }
    }

    pub fn zero() -> (r: BlockPos)
        ensures
            pos_is(r, 0, 0, 0),
    {
        BlockPos { x: 0, y: 0, z: 0 }
    }

    /// Component-wise minimum of two positions.
    pub fn min(self, other: BlockPos) -> (r: BlockPos)
        ensures
            r.x == if self.x <= other.x { self.x } else { other.x },
            r.y == if self.y <= other.y { self.y } else { other.y },
            r.z == if self.z <= other.z { self.z } else { other.z },
    {
        BlockPos {
            x: if self.x <= other.x { self.x } else { other.x },
            y: if self.y <= other.y { self.y } else { other.y },
            z: if self.z <= other.z { self.z } else { other.z },
        }
    }

    /// Component-wise sum.
    pub fn add(self, other: BlockPos) -> (r: BlockPos)
        requires
            pos_fits(self.x + other.x, self.y + other.y, self.z + other.z),
        ensures
            pos_is(r, self.x + other.x, self.y + other.y, self.z + other.z),
    {
        BlockPos { x: self.x + other.x, y: self.y + other.y, z: self.z + other.z }
    }

    /// Every component multiplied by `k`.
    pub fn scale(self, k: i32) -> (r: BlockPos)
        requires
            pos_fits(self.x * k, self.y * k, self.z * k),
        ensures
            pos_is(r, self.x * k, self.y * k, self.z * k),
    {
        BlockPos { x: self.x * k, y: self.y * k, z: self.z * k }
    }
}

} // verus!
