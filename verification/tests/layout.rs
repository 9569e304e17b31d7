use worldedit::geometry::BlockPos;
use worldedit::layout::{
    addressing_part_1_origins, addressing_part_2_origins, addressing_part_3_origins, footprint, footprint_bounds,
    hex_2_bin_origins, readline_origins, shifted_module_offset, TilingError,
};

fn p(x: i32, y: i32, z: i32) -> BlockPos {
    BlockPos::new(x, y, z)
}

#[test]
fn footprint_corners() {
    assert_eq!(footprint(p(10, 10, 10), p(2, 3, 4), 3, 4, 5), (p(8, 7, 6), p(10, 10, 10)));
    // a zero-width schematic ends one block before it starts
    assert_eq!(footprint(p(0, 0, 0), p(0, 0, 0), 0, 1, 1), (p(0, 0, 0), p(-1, 0, 0)));
}

#[test]
fn bounds_hold_every_footprint() {
    let anchors = vec![p(0, 0, 0), p(10, 0, -5)];
    assert_eq!(footprint_bounds(&anchors, p(0, 0, 0), 2, 2, 2), (p(0, 0, -5), p(11, 1, 1)));
    assert_eq!(footprint_bounds(&vec![p(3, 3, 3)], p(0, 0, 0), 0, 1, 1), (p(2, 3, 3), p(3, 3, 3)));
    assert_eq!(
        footprint_bounds(&vec![], p(0, 0, 0), 2, 2, 2),
        (p(i32::MAX, i32::MAX, i32::MAX), p(i32::MIN, i32::MIN, i32::MIN))
    );
}

#[test]
fn addressing_grids() {
    assert_eq!(
        addressing_part_1_origins(2, 2, p(0, 0, 0)),
        Ok(vec![p(0, 0, 0), p(0, 0, -4), p(4, 0, 0), p(4, 0, -4)])
    );
    assert_eq!(addressing_part_1_origins(0, 1, p(0, 0, 0)), Err(TilingError::EmptyGrid));
    assert_eq!(addressing_part_1_origins(1, 0, p(0, 0, 0)), Err(TilingError::EmptyGrid));
    assert_eq!(addressing_part_2_origins(3, p(1, 2, 3)), Ok(vec![p(1, 2, 3), p(9, 2, 3), p(17, 2, 3)]));
    assert_eq!(addressing_part_2_origins(0, p(1, 2, 3)), Err(TilingError::EmptyGrid));
    assert_eq!(addressing_part_3_origins(0, p(0, 0, 0)), vec![]);
    assert_eq!(addressing_part_3_origins(2, p(0, 0, 0)), vec![p(0, 0, 0), p(16, 0, 0)]);
}

#[test]
fn readline_and_converter_grids() {
    assert_eq!(readline_origins(2, 2, p(0, 0, 0)), Ok(vec![p(0, 0, 0), p(0, 2, 0), p(4, 0, 0), p(4, 2, 0)]));
    assert_eq!(readline_origins(2, 0, p(0, 0, 0)), Err(TilingError::EmptyGrid));
    assert_eq!(hex_2_bin_origins(3, p(0, 10, 0)), Ok(vec![p(0, 10, 0), p(0, 8, 0), p(0, 6, 0)]));
    assert_eq!(hex_2_bin_origins(0, p(0, 10, 0)), Err(TilingError::EmptyGrid));
    assert_eq!(shifted_module_offset(p(1, 1, 1)), p(3, -3, 2));
}
