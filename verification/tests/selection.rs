use worldedit::geometry::{BlockFacing, BlockPos};
use worldedit::selection::{
    capture_regions, hotbar_inventory_index, move_plan, rstack_expand_vector, rstack_plan, rstack_undo_order, selection_offset,
    shift_selection, stack_plan, update_corners, ClipboardShape,
};

fn p(x: i32, y: i32, z: i32) -> BlockPos {
    BlockPos::new(x, y, z)
}

#[test]
fn shifting() {
    assert_eq!(shift_selection(p(0, 0, 0), p(5, 5, 5), BlockFacing::North, 3), (p(0, 0, -3), p(5, 5, 2)));
    assert_eq!(shift_selection(p(0, 0, 0), p(5, 5, 5), BlockFacing::Down, 2), (p(0, -2, 0), p(5, 3, 5)));
    // the amount is read as i32, so u32::MAX moves one block the other way
    assert_eq!(shift_selection(p(0, 0, 0), p(5, 5, 5), BlockFacing::East, u32::MAX), (p(-1, 0, 0), p(4, 5, 5)));
    let (a, b) = shift_selection(p(1, 2, 3), p(4, 5, 6), BlockFacing::Up, 7);
    assert_eq!(shift_selection(a, b, BlockFacing::Down, 7), (p(1, 2, 3), p(4, 5, 6)));
}

#[test]
fn offsets_and_moves() {
    assert_eq!(selection_offset(BlockFacing::West, 4), p(-4, 0, 0));
    assert_eq!(selection_offset(BlockFacing::Up, 4), p(0, 4, 0));
    let m = move_plan(p(5, 0, 0), p(0, 3, 2), BlockFacing::Up, 2);
    assert_eq!(m.undo_anchor, p(0, 0, 0));
    assert_eq!(m.dest_first, p(5, 2, 0));
    assert_eq!(m.dest_second, p(0, 5, 2));
    assert_eq!(m.paste_offset, p(0, 2, 0));
}

#[test]
fn stacking() {
    let s = stack_plan(p(0, 0, 0), p(1, 1, 1), 2, 3, 4, BlockFacing::East, 2);
    assert_eq!(s.len(), 2);
    assert_eq!((s[0].paste_pos, s[0].undo_first, s[0].undo_second), (p(2, 0, 0), p(2, 0, 0), p(3, 1, 1)));
    assert_eq!((s[1].paste_pos, s[1].undo_second), (p(4, 0, 0), p(5, 1, 1)));
    let n = stack_plan(p(0, 0, 0), p(1, 1, 1), 2, 3, 4, BlockFacing::North, 1);
    assert_eq!(n[0].paste_pos, p(0, 0, -4));
    let u = stack_plan(p(0, 0, 0), p(1, 1, 1), 2, 3, 4, BlockFacing::Down, 1);
    assert_eq!(u[0].paste_pos, p(0, -3, 0));
    assert!(stack_plan(p(0, 0, 0), p(1, 1, 1), 2, 3, 4, BlockFacing::Down, 0).is_empty());
}

#[test]
fn repeated_stacking() {
    let s = rstack_plan(p(0, 0, 0), p(1, 1, 1), p(0, 1, 0), 2, 3);
    assert_eq!(s.len(), 2);
    assert_eq!((s[0].paste_pos, s[0].undo_second), (p(0, 3, 0), p(1, 4, 1)));
    assert_eq!((s[1].paste_pos, s[1].undo_second), (p(0, 6, 0), p(1, 7, 1)));
    assert_eq!(rstack_expand_vector(p(1, 0, -1), 2, 3), p(6, 0, -6));
}

#[test]
fn regions_and_corners() {
    let shapes = vec![
        ClipboardShape { offset: p(1, 1, 1), size_x: 2, size_y: 2, size_z: 2 },
        ClipboardShape { offset: p(0, 0, 0), size_x: 1, size_y: 1, size_z: 1 },
    ];
    assert_eq!(capture_regions(p(10, 10, 10), &shapes), vec![(p(9, 9, 9), p(10, 10, 10)), (p(10, 10, 10), p(10, 10, 10))]);
    let plot = (p(0, 0, 0), p(255, 255, 255));
    assert_eq!(update_corners(true, plot, None, None), Some(plot));
    assert_eq!(update_corners(false, plot, Some(p(1, 1, 1)), Some(p(2, 2, 2))), Some((p(1, 1, 1), p(2, 2, 2))));
    assert_eq!(update_corners(false, plot, Some(p(1, 1, 1)), None), None);
    assert_eq!(hotbar_inventory_index(3), 39);
}

#[test]
fn rstack_undo_snapshots_are_stored_last_first() {
    let plan = rstack_plan(p(0, 0, 0), p(1, 1, 1), p(1, 0, 0), 3, 2);
    let taken: Vec<(BlockPos, BlockPos)> = plan.iter().map(|s| (s.undo_first, s.undo_second)).collect();
    let stored = rstack_undo_order(taken);
    assert_eq!(stored, vec![(p(6, 0, 0), p(7, 1, 1)), (p(4, 0, 0), p(5, 1, 1)), (p(2, 0, 0), p(3, 1, 1))]);
    assert!(rstack_undo_order(Vec::<u8>::new()).is_empty());
}

#[test]
fn shifting_up_by_the_largest_amount() {
    // 2^31 reads as i32::MIN; moving up adds it without negating
    assert_eq!(
        shift_selection(p(0, 0, 0), p(1, 1, 1), BlockFacing::Up, 2_147_483_648),
        (p(0, i32::MIN, 0), p(1, i32::MIN + 1, 1))
    );
}
