use worldedit::clipboard::{
    flip_positions, rotate_positions, flip_clipboard, flip_pos, rotate_clipboard, rotate_pos, rotation_for_degrees, BlockTables, Clipboard, RotateAmt, RotateRequest,
};
use worldedit::geometry::{Axis, BlockFacing, BlockPos};

fn sample() -> Clipboard {
    // size 2 x 1 x 3; cell (x, 0, z) holds 10 * z + x
    Clipboard {
        offset_x: 1,
        offset_y: 2,
        offset_z: 0,
        size_x: 2,
        size_y: 1,
        size_z: 3,
        data: vec![0, 1, 10, 11, 20, 21],
    }
}

fn shifted_table() -> Vec<u32> {
    (0..30u32).map(|i| i + 100).collect()
}

fn identity_table(n: u32) -> Vec<u32> {
    (0..n).collect()
}

#[test]
fn flip_east_west_mirrors_x_and_blocks() {
    let cb = sample();
    let r = flip_clipboard(&cb, BlockFacing::East, &shifted_table());
    assert_eq!(r.data, vec![101, 100, 111, 110, 121, 120]);
    assert_eq!((r.size_x, r.size_y, r.size_z), (2, 1, 3));
    assert_eq!((r.offset_x, r.offset_y, r.offset_z), (0, 2, 0));
}

#[test]
fn flip_north_south_mirrors_z() {
    let cb = sample();
    let r = flip_clipboard(&cb, BlockFacing::North, &identity_table(30));
    assert_eq!(r.data, vec![20, 21, 10, 11, 0, 1]);
    assert_eq!((r.offset_x, r.offset_y, r.offset_z), (1, 2, 2));
}

#[test]
fn flip_up_down_keeps_block_ids() {
    let cb = Clipboard { offset_x: 0, offset_y: 0, offset_z: 0, size_x: 1, size_y: 3, size_z: 1, data: vec![5, 6, 7] };
    // the table would change ids, but a vertical flip keeps them
    let r = flip_clipboard(&cb, BlockFacing::Up, &vec![]);
    assert_eq!(r.data, vec![7, 6, 5]);
    assert_eq!(r.offset_y, 2);
}

#[test]
fn flip_twice_gives_same_clipboard() {
    let cb = sample();
    let mut table = identity_table(30);
    table.swap(0, 1);
    let once = flip_clipboard(&cb, BlockFacing::West, &table);
    let twice = flip_clipboard(&once, BlockFacing::West, &table);
    assert_eq!(twice.data, cb.data);
    assert_eq!((twice.offset_x, twice.offset_y, twice.offset_z), (cb.offset_x, cb.offset_y, cb.offset_z));
}

#[test]
fn rotate_90_moves_cells() {
    let cb = sample();
    let r = rotate_clipboard(&cb, RotateAmt::Rotate90, &identity_table(30));
    assert_eq!((r.size_x, r.size_y, r.size_z), (3, 1, 2));
    assert_eq!(r.data, vec![20, 10, 0, 21, 11, 1]);
    assert_eq!((r.offset_x, r.offset_y, r.offset_z), (2, 2, 1));
}

#[test]
fn rotate_180_moves_cells() {
    let cb = sample();
    let r = rotate_clipboard(&cb, RotateAmt::Rotate180, &shifted_table());
    assert_eq!((r.size_x, r.size_y, r.size_z), (2, 1, 3));
    assert_eq!(r.data, vec![121, 120, 111, 110, 101, 100]);
    assert_eq!((r.offset_x, r.offset_y, r.offset_z), (0, 2, 2));
}

#[test]
fn rotate_270_moves_cells() {
    let cb = sample();
    let r = rotate_clipboard(&cb, RotateAmt::Rotate270, &identity_table(30));
    assert_eq!((r.size_x, r.size_y, r.size_z), (3, 1, 2));
    assert_eq!(r.data, vec![1, 11, 21, 0, 10, 20]);
    assert_eq!((r.offset_x, r.offset_y, r.offset_z), (0, 2, 0));
}

#[test]
fn rotate_90_then_270_gives_same_clipboard() {
    let cb = sample();
    let t = identity_table(30);
    let once = rotate_clipboard(&cb, RotateAmt::Rotate90, &t);
    let back = rotate_clipboard(&once, RotateAmt::Rotate270, &t);
    assert_eq!(back.data, cb.data);
    assert_eq!((back.size_x, back.size_z), (2, 3));
    assert_eq!((back.offset_x, back.offset_y, back.offset_z), (1, 2, 0));
}

#[test]
fn rotate_90_twice_is_180() {
    let cb = sample();
    let t = identity_table(30);
    let a = rotate_clipboard(&rotate_clipboard(&cb, RotateAmt::Rotate90, &t), RotateAmt::Rotate90, &t);
    let b = rotate_clipboard(&cb, RotateAmt::Rotate180, &t);
    assert_eq!(a.data, b.data);
    assert_eq!((a.offset_x, a.offset_z), (b.offset_x, b.offset_z));
}

#[test]
fn rotation_amounts() {
    assert_eq!(rotation_for_degrees(0), RotateRequest::FullTurn);
    assert_eq!(rotation_for_degrees(720), RotateRequest::FullTurn);
    assert_eq!(rotation_for_degrees(90), RotateRequest::Rotate(RotateAmt::Rotate90));
    assert_eq!(rotation_for_degrees(450), RotateRequest::Rotate(RotateAmt::Rotate90));
    assert_eq!(rotation_for_degrees(180), RotateRequest::Rotate(RotateAmt::Rotate180));
    assert_eq!(rotation_for_degrees(270), RotateRequest::Rotate(RotateAmt::Rotate270));
    assert_eq!(rotation_for_degrees(45), RotateRequest::NotQuarterTurn);
}

#[test]
fn single_positions() {
    let p = flip_pos(Axis::Z, 4, 4, 5, BlockPos::new(1, 2, 3));
    assert_eq!(p, BlockPos::new(1, 2, 1));
    let q = rotate_pos(RotateAmt::Rotate90, 5, 4, BlockPos::new(1, 2, 3));
    assert_eq!(q, BlockPos::new(1, 2, 1));
    let r = rotate_pos(RotateAmt::Rotate270, 5, 4, BlockPos::new(1, 2, 3));
    assert_eq!(r, BlockPos::new(3, 2, 2));
}

#[test]
fn entity_positions_follow_the_blocks() {
    let ps = vec![BlockPos::new(0, 0, 0), BlockPos::new(1, 0, 2)];
    assert_eq!(flip_positions(Axis::X, 2, 1, 3, &ps), vec![BlockPos::new(1, 0, 0), BlockPos::new(0, 0, 2)]);
    // rotating a 2 x 1 x 3 box by 90 degrees gives a 3 x 1 x 2 box
    assert_eq!(rotate_positions(RotateAmt::Rotate90, 3, 2, &ps), vec![BlockPos::new(2, 0, 0), BlockPos::new(0, 0, 1)]);
}

fn sample_tables() -> Option<BlockTables> {
    // ids 0..30; flips along X swap 0 and 1, flips along Z swap 10 and 11,
    // quarter turns cycle 20 -> 21 -> 20 (so a 270 turn is the same cycle back)
    let mut flip_x = identity_table(30);
    flip_x.swap(0, 1);
    let mut flip_z = identity_table(30);
    flip_z.swap(10, 11);
    let mut r90 = identity_table(30);
    r90.swap(20, 21);
    let r270 = r90.clone();
    let r180 = identity_table(30);
    BlockTables::new(flip_x, flip_z, r90, r180, r270)
}

#[test]
fn block_tables_choose_by_axis_and_turn() {
    let tables = sample_tables().expect("consistent tables");
    assert_eq!(tables.flip_table(BlockFacing::East)[0], 1);
    assert_eq!(tables.flip_table(BlockFacing::West)[10], 10);
    assert_eq!(tables.flip_table(BlockFacing::North)[10], 11);
    assert_eq!(tables.flip_table(BlockFacing::South)[0], 0);
    assert_eq!(tables.rotate_table(RotateAmt::Rotate90)[20], 21);
    assert_eq!(tables.rotate_table(RotateAmt::Rotate180)[20], 20);
    let cb = sample();
    let once = flip_clipboard(&cb, BlockFacing::North, tables.flip_table(BlockFacing::North));
    assert_eq!(once.data, vec![20, 21, 11, 10, 0, 1]);
    let twice = flip_clipboard(&once, BlockFacing::South, tables.flip_table(BlockFacing::South));
    assert_eq!(twice.data, cb.data);
    let turned = rotate_clipboard(&cb, RotateAmt::Rotate90, tables.rotate_table(RotateAmt::Rotate90));
    let back = rotate_clipboard(&turned, RotateAmt::Rotate270, tables.rotate_table(RotateAmt::Rotate270));
    assert_eq!(back.data, cb.data);
    assert_eq!((back.offset_x, back.offset_y, back.offset_z), (cb.offset_x, cb.offset_y, cb.offset_z));
}

#[test]
fn inconsistent_block_tables_are_refused() {
    let n = 4;
    let id = identity_table(n);
    // a flip that is not its own inverse
    assert!(BlockTables::new(vec![1, 2, 3, 0], id.clone(), id.clone(), id.clone(), id.clone()).is_none());
    // a table with an id out of range
    assert!(BlockTables::new(id.clone(), vec![0, 1, 2, 9], id.clone(), id.clone(), id.clone()).is_none());
    // a table of another size
    assert!(BlockTables::new(id.clone(), id.clone(), vec![0, 1, 2], id.clone(), id.clone()).is_none());
    // a 270 turn that does not undo the 90 turn
    assert!(BlockTables::new(id.clone(), id.clone(), vec![1, 2, 3, 0], id.clone(), vec![1, 2, 3, 0]).is_none());
    assert!(BlockTables::new(id.clone(), id.clone(), vec![1, 2, 3, 0], id.clone(), vec![3, 0, 1, 2]).is_some());
}
