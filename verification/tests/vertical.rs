use worldedit::vertical::{ascend_target, descend_target, VerticalMove};

#[test]
fn ascending() {
    // air[j] is the block j above the start
    let mut air = vec![true; 13];
    air[0] = false;
    air[3] = false;
    assert_eq!(ascend_target(0, 10, 1, &air), VerticalMove { y: 1, levels_moved: 1 });
    assert_eq!(ascend_target(0, 10, 2, &air), VerticalMove { y: 4, levels_moved: 2 });
    assert_eq!(ascend_target(0, 10, 5, &air), VerticalMove { y: 4, levels_moved: 2 });
    assert_eq!(ascend_target(0, 10, 0, &air), VerticalMove { y: 0, levels_moved: 0 });
    // above the top there is nothing to scan
    assert_eq!(ascend_target(11, 10, 3, &vec![]), VerticalMove { y: 11, levels_moved: 0 });
}

#[test]
fn descending() {
    // air[j] is the block j below the start
    let mut air = vec![true; 11];
    air[2] = false;
    air[6] = false;
    assert_eq!(descend_target(10, 1, &air), VerticalMove { y: 9, levels_moved: 1 });
    assert_eq!(descend_target(10, 2, &air), VerticalMove { y: 5, levels_moved: 2 });
    assert_eq!(descend_target(10, 3, &air), VerticalMove { y: 5, levels_moved: 2 });
    assert_eq!(descend_target(1, 3, &vec![]), VerticalMove { y: 1, levels_moved: 0 });
}

#[test]
fn no_spot_without_solid_floor() {
    let air = vec![true; 13];
    assert_eq!(ascend_target(0, 10, 1, &air), VerticalMove { y: 0, levels_moved: 0 });
}
