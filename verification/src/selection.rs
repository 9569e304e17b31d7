use vstd::prelude::*;
use crate::geometry::{BlockFacing, BlockPos, Axis, lemma_u32_as_i32, pos_fits, pos_is, u32_as_i32};
use crate::layout::{footprint, footprint_fits, footprint_first, footprint_second};

verus! {

/// `pos` moved by `d` times the unit vector of `dir`.
pub open spec fn moved(pos: BlockPos, dir: BlockFacing, d: int) -> (int, int, int) {
    dir.spec_offset(pos, d)
}

pub open spec fn moved_fits(pos: BlockPos, dir: BlockFacing, d: int) -> bool {
    let m = moved(pos, dir, d);
    pos_fits(m.0, m.1, m.2)
}

/// The vector `amount` blocks in `direction` (the amount read as i32), as
/// used to grow or shrink a selection.
pub fn selection_offset(direction: BlockFacing, amount: u32) -> (r: BlockPos)
    requires
        moved_fits(BlockPos { x: 0, y: 0, z: 0 }, direction, u32_as_i32(amount)),
    ensures
        ({
            let m = moved(BlockPos { x: 0, y: 0, z: 0 }, direction, u32_as_i32(amount));
            pos_is(r, m.0, m.1, m.2)
        }),
{
    proof {
        lemma_u32_as_i32(amount);
    }
    direction.offset_pos(BlockPos::zero(), amount as i32)
}

/// Whether moving in `direction` negates the amount (down, west and north).
pub open spec fn negates_amount(direction: BlockFacing) -> bool {
    direction is Down || direction is West || direction is North
}

/// Both selection corners moved `amount` blocks in `direction`. The amount is
/// read as i32 and negated for the directions that point down, west or north,
/// so there it may not be `i32::MIN`.
pub fn shift_selection(first: BlockPos, second: BlockPos, direction: BlockFacing, amount: u32) -> (r: (BlockPos, BlockPos))
    requires
        negates_amount(direction) ==> u32_as_i32(amount) != i32::MIN,
        moved_fits(first, direction, u32_as_i32(amount)),
        moved_fits(second, direction, u32_as_i32(amount)),
    ensures
        ({
            let a = moved(first, direction, u32_as_i32(amount));
            let b = moved(second, direction, u32_as_i32(amount));
            pos_is(r.0, a.0, a.1, a.2) && pos_is(r.1, b.0, b.1, b.2)
        }),
{
    proof {
        lemma_u32_as_i32(amount);
    }
    let n = amount as i32;
    let (x, y, z): (i32, i32, i32) = match direction {
        BlockFacing::Up => (0, n, 0),
        BlockFacing::Down => (0, -n, 0),
        BlockFacing::East => (n, 0, 0),
        BlockFacing::West => (-n, 0, 0),
        BlockFacing::South => (0, 0, n),
        BlockFacing::North => (0, 0, -n),
    };
    (
        BlockPos::new(first.x + x, first.y + y, first.z + z),
        BlockPos::new(second.x + x, second.y + y, second.z + z),
    )
}

/// What moving a selection does: the undo snapshot is anchored at the
/// selection's minimum corner, the destination corners are the selection
/// moved, and the moved copy is pasted at `paste_offset` from the copy origin.
pub struct MovePlan {
    pub undo_anchor: BlockPos,
    pub dest_first: BlockPos,
    pub dest_second: BlockPos,
    pub paste_offset: BlockPos,
}

/// Plans moving the selection `first`..`second` by `amount` blocks in `direction`.
pub fn move_plan(first: BlockPos, second: BlockPos, direction: BlockFacing, amount: u32) -> (r: MovePlan)
    requires
        moved_fits(first, direction, u32_as_i32(amount)),
        moved_fits(second, direction, u32_as_i32(amount)),
        moved_fits(BlockPos { x: 0, y: 0, z: 0 }, direction, u32_as_i32(amount)),
    ensures
        r.undo_anchor.x == if first.x <= second.x { first.x } else { second.x },
        r.undo_anchor.y == if first.y <= second.y { first.y } else { second.y },
        r.undo_anchor.z == if first.z <= second.z { first.z } else { second.z },
        ({
            let d = u32_as_i32(amount);
            let a = moved(first, direction, d);
            let b = moved(second, direction, d);
            let p = moved(BlockPos { x: 0, y: 0, z: 0 }, direction, d);
            &&& pos_is(r.dest_first, a.0, a.1, a.2)
            &&& pos_is(r.dest_second, b.0, b.1, b.2)
            &&& pos_is(r.paste_offset, p.0, p.1, p.2)
        }),
{
    proof {
        lemma_u32_as_i32(amount);
    }
    let n = amount as i32;
    MovePlan {
        undo_anchor: first.min(second),
        dest_first: direction.offset_pos(first, n),
        dest_second: direction.offset_pos(second, n),
        paste_offset: direction.offset_pos(BlockPos::zero(), n),
    }
}

/// The size of a box along `axis`.
pub open spec fn size_along(axis: Axis, sx: int, sy: int, sz: int) -> int {
    match axis {
        Axis::X => sx,
        Axis::Y => sy,
        Axis::Z => sz,
    }
}

/// One copy of a stack: where it is pasted and the region snapshotted first.
#[derive(Clone, Copy, Debug, PartialEq, Eq, Structural)]
pub struct StackStep {
    pub paste_pos: BlockPos,
    pub undo_first: BlockPos,
    pub undo_second: BlockPos,
}

pub open spec fn stack_fits(pos1: BlockPos, pos2: BlockPos, direction: BlockFacing, step: int, stack_amt: int) -> bool {
    &&& stack_amt + 1 <= u32::MAX
    &&& stack_amt * step <= u32::MAX
    &&& forall|i: int| 1 <= i <= stack_amt ==>
        #[trigger] moved_fits(pos1, direction, u32_as_i32((i * step) as u32)) && moved_fits(pos2, direction, u32_as_i32((i * step) as u32))
}

/// Plans stacking the selection `pos1`..`pos2` (whose copy has the given
/// size) `stack_amt` times in `direction`: copy `i` (from 1) is moved `i`
/// times the selection's size along that axis, and step `i - 1` pastes at the
/// moved `pos1` after snapshotting the moved selection.
pub fn stack_plan(pos1: BlockPos, pos2: BlockPos, size_x: u32, size_y: u32, size_z: u32, direction: BlockFacing, stack_amt: u32) -> (r: Vec<StackStep>)
    requires
        stack_fits(pos1, pos2, direction, size_along(direction.axis_of(), size_x as int, size_y as int, size_z as int), stack_amt as int),
    ensures
        r@.len() == stack_amt,
        forall|k: int| 0 <= k < stack_amt ==> {
            let step = size_along(direction.axis_of(), size_x as int, size_y as int, size_z as int);
            let d = u32_as_i32(((k + 1) * step) as u32);
            let a = moved(pos1, direction, d);
            let b = moved(pos2, direction, d);
            &&& pos_is((#[trigger] r@[k]).paste_pos, a.0, a.1, a.2)
            &&& pos_is(r@[k].undo_first, a.0, a.1, a.2)
            &&& pos_is(r@[k].undo_second, b.0, b.1, b.2)
        },
{
    let ghost step = size_along(direction.axis_of(), size_x as int, size_y as int, size_z as int);
    let stack_offset = match direction {
        BlockFacing::North | BlockFacing::South => size_z,
        BlockFacing::East | BlockFacing::West => size_x,
        BlockFacing::Up | BlockFacing::Down => size_y,
    };
    let mut steps: Vec<StackStep> = Vec::new();
    let mut i: u32 = 1;
    while i < stack_amt + 1
        invariant
            stack_fits(pos1, pos2, direction, step, stack_amt as int),
            stack_offset == step,
            1 <= i <= stack_amt + 1,
            steps@.len() == i - 1,
            forall|k: int| 0 <= k < i - 1 ==> {
                let d = u32_as_i32(((k + 1) * step) as u32);
                let a = moved(pos1, direction, d);
                let b = moved(pos2, direction, d);
                &&& pos_is((#[trigger] steps@[k]).paste_pos, a.0, a.1, a.2)
                &&& pos_is(steps@[k].undo_first, a.0, a.1, a.2)
                &&& pos_is(steps@[k].undo_second, b.0, b.1, b.2)
            },
        decreases stack_amt + 1 - i,
    {
        proof {
            assert(i * step <= stack_amt * step) by (nonlinear_arith) requires i <= stack_amt, step >= 0;
            assert(moved_fits(pos1, direction, u32_as_i32((i * step) as u32)));
        }
        let product = i * stack_offset;
        proof {
            lemma_u32_as_i32(product);
        }
        let offset = product as i32;
        let block_pos = direction.offset_pos(pos1, offset);
        let far = direction.offset_pos(pos2, offset);
        steps.push(StackStep { paste_pos: block_pos, undo_first: block_pos, undo_second: far });
        i = i + 1;
    }
    steps
}

/// Plans stacking the selection `pos1`..`pos2` `stack_amt` times along the
/// vector `direction`, `spacing` blocks apart: step `i - 1` pastes at
/// `pos1 + direction * (i * spacing)` after snapshotting the selection moved
/// by the same vector.
pub fn rstack_plan(pos1: BlockPos, pos2: BlockPos, direction: BlockPos, stack_amt: u32, spacing: u32) -> (r: Vec<StackStep>)
    requires
        stack_amt + 1 <= u32::MAX,
        stack_amt * spacing <= u32::MAX,
        forall|i: int| 1 <= i <= stack_amt ==> {
            let d = #[trigger] u32_as_i32((i * spacing) as u32);
            &&& pos_fits(direction.x * d, direction.y * d, direction.z * d)
            &&& pos_fits(pos1.x + direction.x * d, pos1.y + direction.y * d, pos1.z + direction.z * d)
            &&& pos_fits(pos2.x + direction.x * d, pos2.y + direction.y * d, pos2.z + direction.z * d)
        },
    ensures
        r@.len() == stack_amt,
        forall|k: int| 0 <= k < stack_amt ==> {
            let d = u32_as_i32(((k + 1) * spacing) as u32);
            &&& pos_is((#[trigger] r@[k]).paste_pos, pos1.x + direction.x * d, pos1.y + direction.y * d, pos1.z + direction.z * d)
            &&& pos_is(r@[k].undo_first, pos1.x + direction.x * d, pos1.y + direction.y * d, pos1.z + direction.z * d)
            &&& pos_is(r@[k].undo_second, pos2.x + direction.x * d, pos2.y + direction.y * d, pos2.z + direction.z * d)
        },
{
    let mut steps: Vec<StackStep> = Vec::new();
    let mut i: u32 = 1;
    while i < stack_amt + 1
        invariant
            stack_amt + 1 <= u32::MAX,
            stack_amt * spacing <= u32::MAX,
            forall|i: int| 1 <= i <= stack_amt ==> {
                let d = #[trigger] u32_as_i32((i * spacing) as u32);
                &&& pos_fits(direction.x * d, direction.y * d, direction.z * d)
                &&& pos_fits(pos1.x + direction.x * d, pos1.y + direction.y * d, pos1.z + direction.z * d)
                &&& pos_fits(pos2.x + direction.x * d, pos2.y + direction.y * d, pos2.z + direction.z * d)
            },
            1 <= i <= stack_amt + 1,
            steps@.len() == i - 1,
            forall|k: int| 0 <= k < i - 1 ==> {
                let d = u32_as_i32(((k + 1) * spacing) as u32);
                &&& pos_is((#[trigger] steps@[k]).paste_pos, pos1.x + direction.x * d, pos1.y + direction.y * d, pos1.z + direction.z * d)
                &&& pos_is(steps@[k].undo_first, pos1.x + direction.x * d, pos1.y + direction.y * d, pos1.z + direction.z * d)
                &&& pos_is(steps@[k].undo_second, pos2.x + direction.x * d, pos2.y + direction.y * d, pos2.z + direction.z * d)
            },
        decreases stack_amt + 1 - i,
    {
        proof {
            assert(i * spacing <= stack_amt * spacing) by (nonlinear_arith) requires i <= stack_amt;
        }
        let product = i * spacing;
        proof {
            lemma_u32_as_i32(product);
            let d = u32_as_i32((i as int * spacing) as u32);
            assert(pos_fits(direction.x * d, direction.y * d, direction.z * d));
        }
        let offset = product as i32;
        let shift = direction.scale(offset);
        let block_pos = pos1.add(shift);
        let far = pos2.add(shift);
        steps.push(StackStep { paste_pos: block_pos, undo_first: block_pos, undo_second: far });
        i = i + 1;
    }
    steps
}

/// The undo snapshots of a repeated stack in the order they are stored: the
/// reverse of the order in which they were taken (one per step of
/// `rstack_plan`, each before its paste), so the last copy's snapshot comes
/// first.
pub fn rstack_undo_order<T>(snapshots: Vec<T>) -> (r: Vec<T>)
    ensures
        r@.len() == snapshots@.len(),
        forall|k: int| 0 <= k < snapshots@.len() ==> #[trigger] r@[k] == snapshots@[snapshots@.len() - 1 - k],
        r@ == snapshots@.reverse(),
{
    let ghost n = snapshots@.len();
    let ghost taken = snapshots@;
    let mut rest = snapshots;
    let mut stored: Vec<T> = Vec::new();
    while rest.len() > 0
        invariant
            n == taken.len(),
            rest@ == taken.subrange(0, rest@.len() as int),
            stored@.len() + rest@.len() == n,
            forall|k: int| 0 <= k < stored@.len() ==> #[trigger] stored@[k] == taken[n - 1 - k],
        decreases rest@.len(),
    {
        match rest.pop() {
            Some(item) => stored.push(item),
            None => {},
        }
    }
    proof {
        assert(stored@ =~= taken.reverse());
    }
    stored
}

/// The geometry of a stored clipboard: its offset and size.
#[derive(Clone, Copy, Debug, PartialEq, Eq, Structural)]
pub struct ClipboardShape {
    pub offset: BlockPos,
    pub size_x: u32,
    pub size_y: u32,
    pub size_z: u32,
}

/// The regions to snapshot before restoring clipboards anchored at
/// `anchor`, one per clipboard, in the same order: the footprint of each.
pub fn capture_regions(anchor: BlockPos, shapes: &Vec<ClipboardShape>) -> (r: Vec<(BlockPos, BlockPos)>)
    requires
        forall|k: int| 0 <= k < shapes@.len() ==> {
            let s = #[trigger] shapes@[k];
            footprint_fits(anchor, s.offset, s.size_x as int, s.size_y as int, s.size_z as int)
        },
    ensures
        r@.len() == shapes@.len(),
        forall|k: int| 0 <= k < shapes@.len() ==> {
            let s = #[trigger] shapes@[k];
            let f = footprint_first(anchor, s.offset);
            let e = footprint_second(anchor, s.offset, s.size_x as int, s.size_y as int, s.size_z as int);
            pos_is(r@[k].0, f.0, f.1, f.2) && pos_is(r@[k].1, e.0, e.1, e.2)
        },
{
    let mut regions: Vec<(BlockPos, BlockPos)> = Vec::new();
    let mut i: usize = 0;
    while i < shapes.len()
        invariant
            forall|k: int| 0 <= k < shapes@.len() ==> {
                let s = #[trigger] shapes@[k];
                footprint_fits(anchor, s.offset, s.size_x as int, s.size_y as int, s.size_z as int)
            },
            i <= shapes@.len(),
            regions@.len() == i,
            forall|k: int| 0 <= k < i ==> {
                let s = #[trigger] shapes@[k];
                let f = footprint_first(anchor, s.offset);
                let e = footprint_second(anchor, s.offset, s.size_x as int, s.size_y as int, s.size_z as int);
                pos_is(regions@[k].0, f.0, f.1, f.2) && pos_is(regions@[k].1, e.0, e.1, e.2)
            },
        decreases shapes@.len() - i,
    {
        let s = shapes[i];
        let region = footprint(anchor, s.offset, s.size_x, s.size_y, s.size_z);
        regions.push(region);
        i = i + 1;
    }
    regions
}


/// The facing pointing the other way.
pub open spec fn opposite(f: BlockFacing) -> BlockFacing {
    match f {
        BlockFacing::North => BlockFacing::South,
        BlockFacing::South => BlockFacing::North,
        BlockFacing::East => BlockFacing::West,
        BlockFacing::West => BlockFacing::East,
        BlockFacing::Up => BlockFacing::Down,
        BlockFacing::Down => BlockFacing::Up,
    }
}

/// Shifting a selection by some amount and then by the same amount the other
/// way gives the same selection back.
pub proof fn law_shift_back_restores(first: BlockPos, second: BlockPos, direction: BlockFacing, d: int, moved_first: BlockPos, moved_second: BlockPos)
    requires
        ({
            let a = moved(first, direction, d);
            let b = moved(second, direction, d);
            pos_is(moved_first, a.0, a.1, a.2) && pos_is(moved_second, b.0, b.1, b.2)
        }),
    ensures
        ({
            let a = moved(moved_first, opposite(direction), d);
            let b = moved(moved_second, opposite(direction), d);
            pos_is(first, a.0, a.1, a.2) && pos_is(second, b.0, b.1, b.2)
        }),
{
}


/// The vector a repeated stack grows the selection by: `direction` times the
/// whole stacked distance `stack_amt * spacing` (read as i32).
pub fn rstack_expand_vector(direction: BlockPos, stack_amt: u32, spacing: u32) -> (r: BlockPos)
    requires
        stack_amt * spacing <= u32::MAX,
        ({
            let d = u32_as_i32((stack_amt * spacing) as u32);
            pos_fits(direction.x * d, direction.y * d, direction.z * d)
        }),
    ensures
        ({
            let d = u32_as_i32((stack_amt * spacing) as u32);
            pos_is(r, direction.x * d, direction.y * d, direction.z * d)
        }),
{
    let total = stack_amt * spacing;
    proof {
        lemma_u32_as_i32(total);
    }
    direction.scale(total as i32)
}

/// The region an update covers: the whole plot when asked for, otherwise the
/// selection, which must have both corners.
pub fn update_corners(whole_plot: bool, plot_corners: (BlockPos, BlockPos), first: Option<BlockPos>, second: Option<BlockPos>) -> (r: Option<(BlockPos, BlockPos)>)
    ensures
        whole_plot ==> r == Some(plot_corners),
        !whole_plot && first is Some && second is Some ==> r == Some((first->Some_0, second->Some_0)),
        !whole_plot && (first is None || second is None) ==> r is None,
{
    if whole_plot {
        Some(plot_corners)
    } else {
        match (first, second) {
            (Some(a), Some(b)) => Some((a, b)),
            _ => None,
        }
    }
}

/// The player inventory index of the selected hotbar slot (hotbar slots
/// follow the 36 other inventory slots).
pub fn hotbar_inventory_index(selected_slot: u32) -> (r: usize)
    requires
        selected_slot + 36 <= u32::MAX,
    ensures
        r == selected_slot + 36,
{
    (selected_slot + 36) as usize
}

} // verus!
