use worldedit::geometry::BlockPos;
use worldedit::image::{image_cells, image_far_corner, image_gaps, image_origin, ImageError};

#[test]
fn cells_follow_the_bits() {
    let mut data = vec![0u8; 98];
    data[0] = 0b1000_0000;
    data[3] = 0b0000_0100; // bit 29: column 1, row 1
    let origin = BlockPos::new(5, 6, 7);
    let cells = image_cells(origin, &data).ok().expect("enough bytes");
    assert_eq!(cells.len(), 784);
    assert!(cells[0].lit);
    assert_eq!(cells[0].pos, origin);
    assert!(!cells[1].lit);
    assert_eq!(cells[1].pos, BlockPos::new(5, 8, 7));
    assert!(cells[29].lit);
    assert_eq!(cells[29].pos, BlockPos::new(7, 8, 7));
    assert_eq!(cells.iter().filter(|c| c.lit).count(), 2);
    assert_eq!(cells[783].pos, BlockPos::new(5 + 54, 6 + 54, 7));
}

#[test]
fn short_file_is_refused() {
    assert_eq!(image_cells(BlockPos::new(0, 0, 0), &[0u8; 97]).err(), Some(ImageError::TooSmall));
}

#[test]
fn gaps_fill_the_rest_of_the_square() {
    let origin = BlockPos::new(0, 0, 0);
    let gaps = image_gaps(origin);
    assert_eq!(gaps.len(), 55 * 55 - 784);
    assert_eq!(gaps[0], BlockPos::new(0, 1, 0));
    assert_eq!(gaps[27], BlockPos::new(1, 0, 0));
    assert_eq!(*gaps.last().unwrap(), BlockPos::new(54, 53, 0));
    assert!(gaps.iter().all(|g| !(g.x % 2 == 0 && g.y % 2 == 0)));
    assert_eq!(image_far_corner(origin), BlockPos::new(54, 54, 0));
    assert_eq!(image_origin(1, 2, u32::MAX), BlockPos::new(1, 2, -1));
}
