use vstd::prelude::*;
use crate::geometry::{BlockPos, pos_fits, pos_is};

verus! {

/// The first corner of a schematic pasted at `anchor`: the anchor minus the
/// schematic's offset.
pub open spec fn footprint_first(anchor: BlockPos, offset: BlockPos) -> (int, int, int) {
    (anchor.x - offset.x, anchor.y - offset.y, anchor.z - offset.z)
}

/// The opposite corner: the first corner plus the size, minus one on each axis.
pub open spec fn footprint_second(anchor: BlockPos, offset: BlockPos, sx: int, sy: int, sz: int) -> (int, int, int) {
    let f = footprint_first(anchor, offset);
    (f.0 + sx - 1, f.1 + sy - 1, f.2 + sz - 1)
}

pub open spec fn footprint_fits(anchor: BlockPos, offset: BlockPos, sx: int, sy: int, sz: int) -> bool {
    let f = footprint_first(anchor, offset);
    let s = footprint_second(anchor, offset, sx, sy, sz);
    &&& sx <= i32::MAX && sy <= i32::MAX && sz <= i32::MAX
    &&& pos_fits(f.0, f.1, f.2)
    &&& pos_fits(s.0, s.1, s.2)
    &&& pos_fits(f.0 + sx, f.1 + sy, f.2 + sz)
}

/// The two corners of the region a schematic of the given offset and size
/// covers when pasted at `anchor`.
pub fn footprint(anchor: BlockPos, offset: BlockPos, size_x: u32, size_y: u32, size_z: u32) -> (r: (BlockPos, BlockPos))
    requires
        footprint_fits(anchor, offset, size_x as int, size_y as int, size_z as int),
    ensures
        ({
            let f = footprint_first(anchor, offset);
            let s = footprint_second(anchor, offset, size_x as int, size_y as int, size_z as int);
            pos_is(r.0, f.0, f.1, f.2) && pos_is(r.1, s.0, s.1, s.2)
        }),
{
    let first = BlockPos::new(anchor.x - offset.x, anchor.y - offset.y, anchor.z - offset.z);
    let second = BlockPos::new(
        first.x + size_x as i32 - 1,
        first.y + size_y as i32 - 1,
        first.z + size_z as i32 - 1,
    );
    (first, second)
}

pub open spec fn min_int(a: int, b: int) -> int {
    if a <= b { a } else { b }
}

pub open spec fn max_int(a: int, b: int) -> int {
    if a >= b { a } else { b }
}

/// `lo` is the least of `f(k)` over the first `n` indices (or `i32::MAX` when there are none).
pub open spec fn is_min_of(lo: int, n: int, f: spec_fn(int) -> int) -> bool {
    &&& forall|k: int| 0 <= k < n ==> lo <= #[trigger] f(k)
    &&& (n == 0 ==> lo == i32::MAX)
    &&& (n > 0 ==> exists|k: int| 0 <= k < n && lo == #[trigger] f(k))
}

/// `hi` is the greatest of `f(k)` over the first `n` indices (or `i32::MIN` when there are none).
pub open spec fn is_max_of(hi: int, n: int, f: spec_fn(int) -> int) -> bool {
    &&& forall|k: int| 0 <= k < n ==> #[trigger] f(k) <= hi
    &&& (n == 0 ==> hi == i32::MIN)
    &&& (n > 0 ==> exists|k: int| 0 <= k < n && hi == #[trigger] f(k))
}

/// Per-axis low and high corners of the footprint pasted at anchor number `k`.
pub open spec fn low_corner(anchors: Seq<BlockPos>, offset: BlockPos, sx: int, sy: int, sz: int, k: int) -> (int, int, int) {
    let f = footprint_first(anchors[k], offset);
    let s = footprint_second(anchors[k], offset, sx, sy, sz);
    (min_int(f.0, s.0), min_int(f.1, s.1), min_int(f.2, s.2))
}

pub open spec fn high_corner(anchors: Seq<BlockPos>, offset: BlockPos, sx: int, sy: int, sz: int, k: int) -> (int, int, int) {
    let f = footprint_first(anchors[k], offset);
    let s = footprint_second(anchors[k], offset, sx, sy, sz);
    (max_int(f.0, s.0), max_int(f.1, s.1), max_int(f.2, s.2))
}

/// `lo` and `hi` are, per axis, the least and the greatest corner coordinate
/// of the footprints pasted at `anchors` (`i32::MAX` and `i32::MIN` when there are none).
pub open spec fn is_footprint_bounds(lo: BlockPos, hi: BlockPos, a: Seq<BlockPos>, offset: BlockPos, sx: int, sy: int, sz: int) -> bool {
    let n = a.len() as int;
    &&& is_min_of(lo.x as int, n, |k: int| low_corner(a, offset, sx, sy, sz, k).0)
    &&& is_min_of(lo.y as int, n, |k: int| low_corner(a, offset, sx, sy, sz, k).1)
    &&& is_min_of(lo.z as int, n, |k: int| low_corner(a, offset, sx, sy, sz, k).2)
    &&& is_max_of(hi.x as int, n, |k: int| high_corner(a, offset, sx, sy, sz, k).0)
    &&& is_max_of(hi.y as int, n, |k: int| high_corner(a, offset, sx, sy, sz, k).1)
    &&& is_max_of(hi.z as int, n, |k: int| high_corner(a, offset, sx, sy, sz, k).2)
}

/// The smallest box holding every footprint of a schematic pasted at each
/// anchor: per axis, the least and the greatest corner coordinate. With no
/// anchors the corners stay at `i32::MAX` and `i32::MIN`.
pub fn footprint_bounds(anchors: &Vec<BlockPos>, offset: BlockPos, size_x: u32, size_y: u32, size_z: u32) -> (r: (BlockPos, BlockPos))
    requires
        forall|k: int| 0 <= k < anchors@.len() ==>
            footprint_fits(#[trigger] anchors@[k], offset, size_x as int, size_y as int, size_z as int),
    ensures
        is_footprint_bounds(r.0, r.1, anchors@, offset, size_x as int, size_y as int, size_z as int),
{
    let ghost (sx, sy, sz) = (size_x as int, size_y as int, size_z as int);
    let ghost a = anchors@;
    let ghost lx = |k: int| low_corner(a, offset, sx, sy, sz, k).0;
    let ghost ly = |k: int| low_corner(a, offset, sx, sy, sz, k).1;
    let ghost lz = |k: int| low_corner(a, offset, sx, sy, sz, k).2;
    let ghost hx = |k: int| high_corner(a, offset, sx, sy, sz, k).0;
    let ghost hy = |k: int| high_corner(a, offset, sx, sy, sz, k).1;
    let ghost hz = |k: int| high_corner(a, offset, sx, sy, sz, k).2;
    let mut undo_min_x = i32::MAX;
    let mut undo_min_y = i32::MAX;
    let mut undo_min_z = i32::MAX;
    let mut undo_max_x = i32::MIN;
    let mut undo_max_y = i32::MIN;
    let mut undo_max_z = i32::MIN;
    let mut i: usize = 0;
    while i < anchors.len()
        invariant
            a == anchors@,
            lx == (|k: int| low_corner(a, offset, sx, sy, sz, k).0),
            ly == (|k: int| low_corner(a, offset, sx, sy, sz, k).1),
            lz == (|k: int| low_corner(a, offset, sx, sy, sz, k).2),
            hx == (|k: int| high_corner(a, offset, sx, sy, sz, k).0),
            hy == (|k: int| high_corner(a, offset, sx, sy, sz, k).1),
            hz == (|k: int| high_corner(a, offset, sx, sy, sz, k).2),
            sx == size_x,
            sy == size_y,
            sz == size_z,
            forall|k: int| 0 <= k < anchors@.len() ==>
                footprint_fits(#[trigger] anchors@[k], offset, size_x as int, size_y as int, size_z as int),
            i <= anchors@.len(),
            is_min_of(undo_min_x as int, i as int, lx),
            is_min_of(undo_min_y as int, i as int, ly),
            is_min_of(undo_min_z as int, i as int, lz),
            is_max_of(undo_max_x as int, i as int, hx),
            is_max_of(undo_max_y as int, i as int, hy),
            is_max_of(undo_max_z as int, i as int, hz),
        decreases anchors@.len() - i,
    {
        let (first_pos, second_pos) = footprint(anchors[i], offset, size_x, size_y, size_z);
        let ghost k = i as int;
        assert(lx(k) == min_int(first_pos.x as int, second_pos.x as int));
        assert(ly(k) == min_int(first_pos.y as int, second_pos.y as int));
        assert(lz(k) == min_int(first_pos.z as int, second_pos.z as int));
        assert(hx(k) == max_int(first_pos.x as int, second_pos.x as int));
        assert(hy(k) == max_int(first_pos.y as int, second_pos.y as int));
        assert(hz(k) == max_int(first_pos.z as int, second_pos.z as int));

        undo_min_x = i32_min(i32_min(undo_min_x, first_pos.x), second_pos.x);
        undo_min_y = i32_min(i32_min(undo_min_y, first_pos.y), second_pos.y);
        undo_min_z = i32_min(i32_min(undo_min_z, first_pos.z), second_pos.z);
        undo_max_x = i32_max(i32_max(undo_max_x, first_pos.x), second_pos.x);
        undo_max_y = i32_max(i32_max(undo_max_y, first_pos.y), second_pos.y);
        undo_max_z = i32_max(i32_max(undo_max_z, first_pos.z), second_pos.z);
        i = i + 1;
    }
    (BlockPos::new(undo_min_x, undo_min_y, undo_min_z), BlockPos::new(undo_max_x, undo_max_y, undo_max_z))
}

fn i32_min(a: i32, b: i32) -> (r: i32)
    ensures
        r == min_int(a as int, b as int),
{
    if a <= b { a } else { b }
}

fn i32_max(a: i32, b: i32) -> (r: i32)
    ensures
        r == max_int(a as int, b as int),
{
    if a >= b { a } else { b }
}


/// Grid point `(i, j)`: `origin + i * outer_step + j * inner_step`.
pub open spec fn grid_point(origin: BlockPos, outer_step: BlockPos, inner_step: BlockPos, i: int, j: int) -> (int, int, int) {
    (
        origin.x + i * outer_step.x + j * inner_step.x,
        origin.y + i * outer_step.y + j * inner_step.y,
        origin.z + i * outer_step.z + j * inner_step.z,
    )
}

/// Every point of an `outer_count` x `inner_count` grid, and every partial
/// sum on the way to it, fits in i32.
pub open spec fn grid_fits(origin: BlockPos, outer_count: int, outer_step: BlockPos, inner_count: int, inner_step: BlockPos) -> bool {
    outer_count > 0 && inner_count > 0 ==> {
        let (a, b) = (outer_count - 1, inner_count - 1);
        &&& outer_count <= i32::MAX && inner_count <= i32::MAX
        &&& pos_fits(a * outer_step.x, a * outer_step.y, a * outer_step.z)
        &&& pos_fits(b * inner_step.x, b * inner_step.y, b * inner_step.z)
        &&& pos_fits(grid_point(origin, outer_step, inner_step, 0, 0).0, grid_point(origin, outer_step, inner_step, 0, 0).1, grid_point(origin, outer_step, inner_step, 0, 0).2)
        &&& pos_fits(grid_point(origin, outer_step, inner_step, a, 0).0, grid_point(origin, outer_step, inner_step, a, 0).1, grid_point(origin, outer_step, inner_step, a, 0).2)
        &&& pos_fits(grid_point(origin, outer_step, inner_step, 0, b).0, grid_point(origin, outer_step, inner_step, 0, b).1, grid_point(origin, outer_step, inner_step, 0, b).2)
        &&& pos_fits(grid_point(origin, outer_step, inner_step, a, b).0, grid_point(origin, outer_step, inner_step, a, b).1, grid_point(origin, outer_step, inner_step, a, b).2)
    }
}

proof fn lemma_scaled_between(i: int, n: int, s: int)
    requires
        0 <= i < n,
    ensures
        min_int(0, (n - 1) * s) <= i * s <= max_int(0, (n - 1) * s),
{
    if s >= 0 {
        assert(0 <= i * s <= (n - 1) * s) by (nonlinear_arith) requires 0 <= i <= n - 1, s >= 0;
    } else {
        assert((n - 1) * s <= i * s <= 0) by (nonlinear_arith) requires 0 <= i <= n - 1, s < 0;
    }
}

/// The points of a grid, row by row: point `(i, j)` is at position `i * inner_count + j`.
pub fn grid_origins(origin: BlockPos, outer_count: usize, outer_step: BlockPos, inner_count: usize, inner_step: BlockPos) -> (r: Vec<BlockPos>)
    requires
        grid_fits(origin, outer_count as int, outer_step, inner_count as int, inner_step),
    ensures
        r@.len() == outer_count * inner_count,
        forall|i: int, j: int|
            #![trigger r@[i * inner_count + j]]
            0 <= i < outer_count && 0 <= j < inner_count ==> {
                let g = grid_point(origin, outer_step, inner_step, i, j);
                pos_is(r@[i * inner_count + j], g.0, g.1, g.2)
            },
{
    let ghost n1 = outer_count as int;
    let ghost n2 = inner_count as int;
    let mut points: Vec<BlockPos> = Vec::new();
    let mut i: usize = 0;
    while i < outer_count
        invariant
            grid_fits(origin, n1, outer_step, n2, inner_step),
            n1 == outer_count,
            n2 == inner_count,
            i <= outer_count,
            points@.len() == i * n2,
            forall|a: int, b: int|
                #![trigger points@[a * n2 + b]]
                0 <= a < i && 0 <= b < n2 ==> {
                    let g = grid_point(origin, outer_step, inner_step, a, b);
                    pos_is(points@[a * n2 + b], g.0, g.1, g.2)
                },
        decreases outer_count - i,
    {
        let mut j: usize = 0;
        while j < inner_count
            invariant
                grid_fits(origin, n1, outer_step, n2, inner_step),
                n1 == outer_count,
                n2 == inner_count,
                i < outer_count,
                j <= inner_count,
                points@.len() == i * n2 + j,
                forall|a: int, b: int|
                    #![trigger points@[a * n2 + b]]
                    0 <= a <= i && 0 <= b < n2 && a * n2 + b < points@.len() ==> {
                        let g = grid_point(origin, outer_step, inner_step, a, b);
                        pos_is(points@[a * n2 + b], g.0, g.1, g.2)
                    },
            decreases inner_count - j,
        {
            proof {
                lemma_scaled_between(i as int, n1, outer_step.x as int);
                lemma_scaled_between(i as int, n1, outer_step.y as int);
                lemma_scaled_between(i as int, n1, outer_step.z as int);
                lemma_scaled_between(j as int, n2, inner_step.x as int);
                lemma_scaled_between(j as int, n2, inner_step.y as int);
                lemma_scaled_between(j as int, n2, inner_step.z as int);
            }
            let ii = i as i32;
            let jj = j as i32;
            let p = BlockPos::new(
                origin.x + ii * outer_step.x + jj * inner_step.x,
                origin.y + ii * outer_step.y + jj * inner_step.y,
                origin.z + ii * outer_step.z + jj * inner_step.z,
            );
            let ghost prev = points@;
            points.push(p);
            proof {
                assert forall|a: int, b: int|
                    #![trigger points@[a * n2 + b]]
                    0 <= a <= i && 0 <= b < n2 && a * n2 + b < points@.len() implies {
                        let g = grid_point(origin, outer_step, inner_step, a, b);
                        pos_is(points@[a * n2 + b], g.0, g.1, g.2)
                    } by {
                    if a * n2 + b == prev.len() {
                        if a < i {
                            assert(a * n2 + b < (i as int) * n2) by (nonlinear_arith) requires a < i, b < n2, 0 <= b;
                        }
                        assert(a == i);
                        assert(b == j);
                    } else {
                        assert(points@[a * n2 + b] == prev[a * n2 + b]);
                    }
                }
            }
            j = j + 1;
        }
        proof {
            let ii = i as int;
            assert(ii * n2 + n2 == (ii + 1) * n2) by (nonlinear_arith);
            assert forall|a: int, b: int|
                #![trigger points@[a * n2 + b]]
                0 <= a < ii + 1 && 0 <= b < n2 implies {
                    let g = grid_point(origin, outer_step, inner_step, a, b);
                    pos_is(points@[a * n2 + b], g.0, g.1, g.2)
                } by {
                assert(a * n2 <= ii * n2) by (nonlinear_arith) requires a <= ii, 0 <= n2;
            }
        }
        i = i + 1;
    }
    points
}

/// Why a tiled paste is refused.
#[derive(Clone, Copy, Debug, PartialEq, Eq, Structural)]
pub enum TilingError {
    /// A repeat count is zero.
    EmptyGrid,
}

/// The correction applied to the offset of the yellow addressing and red
/// read-line schematics so that they land relative to their logical origin.
pub fn shifted_module_offset(offset: BlockPos) -> (r: BlockPos)
    requires
        pos_fits(offset.x + 2, offset.y - 4, offset.z + 1),
    ensures
        pos_is(r, offset.x + 2, offset.y - 4, offset.z + 1),
{
    BlockPos::new(offset.x + 2, offset.y - 4, offset.z + 1)
}

/// Paste origins of the bottom addressing base: `width` columns 4 blocks
/// apart along +X, each `depth` copies 4 blocks apart along -Z.
pub fn addressing_part_1_origins(width: usize, depth: usize, origin: BlockPos) -> (r: Result<Vec<BlockPos>, TilingError>)
    requires
        grid_fits(origin, width as int, BlockPos { x: 4, y: 0, z: 0 }, depth as int, BlockPos { x: 0, y: 0, z: -4i32 }),
    ensures
        width == 0 || depth == 0 ==> r == Err::<Vec<BlockPos>, TilingError>(TilingError::EmptyGrid),
        width > 0 && depth > 0 ==> r is Ok && r->Ok_0@.len() == width * depth && forall|i: int, j: int|
            #![trigger r->Ok_0@[i * depth + j]]
            0 <= i < width && 0 <= j < depth ==> pos_is(r->Ok_0@[i * depth + j], origin.x + 4 * i, origin.y as int, origin.z - 4 * j),
{
    if width == 0 || depth == 0 {
        return Err(TilingError::EmptyGrid);
    }
    let g = grid_origins(origin, width, BlockPos { x: 4, y: 0, z: 0 }, depth, BlockPos { x: 0, y: 0, z: -4 });
    Ok(g)
}

/// Paste origins of the second addressing strip: `width` copies 8 blocks apart along +X.
pub fn addressing_part_2_origins(width: usize, origin: BlockPos) -> (r: Result<Vec<BlockPos>, TilingError>)
    requires
        grid_fits(origin, width as int, BlockPos { x: 8, y: 0, z: 0 }, 1, BlockPos { x: 0, y: 0, z: 0 }),
    ensures
        width == 0 ==> r == Err::<Vec<BlockPos>, TilingError>(TilingError::EmptyGrid),
        width > 0 ==> r is Ok && r->Ok_0@.len() == width && forall|i: int|
            #![trigger r->Ok_0@[i]]
            0 <= i < width ==> pos_is(r->Ok_0@[i], origin.x + 8 * i, origin.y as int, origin.z as int),
{
    if width == 0 {
        return Err(TilingError::EmptyGrid);
    }
    let g = grid_origins(origin, width, BlockPos { x: 8, y: 0, z: 0 }, 1, BlockPos { x: 0, y: 0, z: 0 });
    proof {
        assert forall|i: int| 0 <= i < width implies pos_is(#[trigger] g@[i], origin.x + 8 * i, origin.y as int, origin.z as int) by {
            assert(g@[i * 1 + 0] == g@[i]);
        }
    }
    Ok(g)
}

/// Paste origins of the read lines: `width` columns 4 blocks apart along +X,
/// each `length` copies 2 blocks apart upward.
pub fn readline_origins(width: usize, length: usize, origin: BlockPos) -> (r: Result<Vec<BlockPos>, TilingError>)
    requires
        grid_fits(origin, width as int, BlockPos { x: 4, y: 0, z: 0 }, length as int, BlockPos { x: 0, y: 2, z: 0 }),
    ensures
        width == 0 || length == 0 ==> r == Err::<Vec<BlockPos>, TilingError>(TilingError::EmptyGrid),
        width > 0 && length > 0 ==> r is Ok && r->Ok_0@.len() == width * length && forall|i: int, j: int|
            #![trigger r->Ok_0@[i * length + j]]
            0 <= i < width && 0 <= j < length ==> pos_is(r->Ok_0@[i * length + j], origin.x + 4 * i, origin.y + 2 * j, origin.z as int),
{
    if width == 0 || length == 0 {
        return Err(TilingError::EmptyGrid);
    }
    let g = grid_origins(origin, width, BlockPos { x: 4, y: 0, z: 0 }, length, BlockPos { x: 0, y: 2, z: 0 });
    Ok(g)
}

/// Paste origins of the hex-to-binary converters: `layers` copies 2 blocks apart downward.
pub fn hex_2_bin_origins(layers: usize, origin: BlockPos) -> (r: Result<Vec<BlockPos>, TilingError>)
    requires
        grid_fits(origin, layers as int, BlockPos { x: 0, y: -2i32, z: 0 }, 1, BlockPos { x: 0, y: 0, z: 0 }),
    ensures
        layers == 0 ==> r == Err::<Vec<BlockPos>, TilingError>(TilingError::EmptyGrid),
        layers > 0 ==> r is Ok && r->Ok_0@.len() == layers && forall|i: int|
            #![trigger r->Ok_0@[i]]
            0 <= i < layers ==> pos_is(r->Ok_0@[i], origin.x as int, origin.y - 2 * i, origin.z as int),
{
    if layers == 0 {
        return Err(TilingError::EmptyGrid);
    }
    let g = grid_origins(origin, layers, BlockPos { x: 0, y: -2, z: 0 }, 1, BlockPos { x: 0, y: 0, z: 0 });
    proof {
        assert forall|i: int| 0 <= i < layers implies pos_is(#[trigger] g@[i], origin.x as int, origin.y - 2 * i, origin.z as int) by {
            assert(g@[i * 1 + 0] == g@[i]);
        }
    }
    Ok(g)
}

/// Paste origins of the third addressing part: `count` copies 16 blocks apart
/// along +X (one after every four second-part strips). No origins for a count of 0.
pub fn addressing_part_3_origins(count: usize, origin: BlockPos) -> (r: Vec<BlockPos>)
    requires
        grid_fits(origin, count as int, BlockPos { x: 16, y: 0, z: 0 }, 1, BlockPos { x: 0, y: 0, z: 0 }),
    ensures
        r@.len() == count,
        forall|i: int|
            #![trigger r@[i]]
            0 <= i < count ==> pos_is(r@[i], origin.x + 16 * i, origin.y as int, origin.z as int),
{
    let g = grid_origins(origin, count, BlockPos { x: 16, y: 0, z: 0 }, 1, BlockPos { x: 0, y: 0, z: 0 });
    proof {
        assert forall|i: int| 0 <= i < count implies pos_is(#[trigger] g@[i], origin.x + 16 * i, origin.y as int, origin.z as int) by {
            assert(g@[i * 1 + 0] == g@[i]);
        }
    }
    g
}


/// `p` lies in the box from `lo` to `hi`.
pub open spec fn within(p: (int, int, int), lo: BlockPos, hi: BlockPos) -> bool {
    lo.x <= p.0 <= hi.x && lo.y <= p.1 <= hi.y && lo.z <= p.2 <= hi.z
}

/// The undo snapshot box taken before a tiled paste holds both corners of
/// every pasted footprint, so everything the paste changes is restored by undo.
pub proof fn law_undo_box_covers_pastes(lo: BlockPos, hi: BlockPos, anchors: Seq<BlockPos>, offset: BlockPos, sx: int, sy: int, sz: int, k: int)
    requires
        is_footprint_bounds(lo, hi, anchors, offset, sx, sy, sz),
        0 <= k < anchors.len(),
    ensures
        within(footprint_first(anchors[k], offset), lo, hi),
        within(footprint_second(anchors[k], offset, sx, sy, sz), lo, hi),
{
    let lx = |j: int| low_corner(anchors, offset, sx, sy, sz, j).0;
    let ly = |j: int| low_corner(anchors, offset, sx, sy, sz, j).1;
    let lz = |j: int| low_corner(anchors, offset, sx, sy, sz, j).2;
    let hx = |j: int| high_corner(anchors, offset, sx, sy, sz, j).0;
    let hy = |j: int| high_corner(anchors, offset, sx, sy, sz, j).1;
    let hz = |j: int| high_corner(anchors, offset, sx, sy, sz, j).2;
    assert(lo.x <= lx(k) && lo.y <= ly(k) && lo.z <= lz(k));
    assert(hx(k) <= hi.x && hy(k) <= hi.y && hz(k) <= hi.z);
}

} // verus!
