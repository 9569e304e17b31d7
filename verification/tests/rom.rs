use worldedit::geometry::BlockPos;
use worldedit::rom::{
    check_rom_request, is_safe_file_name, parse_rom_weights, plan_rom_tiles, read_bits_lsb_first, rom_barrel_placements,
    rom_system_layout, rom_tile_origins, rom_undo_end, romtile_barrel_offset, RomPlanError, RomTilePlan, WeightFileError,
    checked_rom_system_layout, rom_system_after, rom_system_start, RomSystemAction, RomSystemDone, RomSystemModule,
};

#[test]
fn bits_are_read_least_significant_first() {
    let bytes = [0b1010_0101u8, 0xFF];
    assert_eq!(read_bits_lsb_first(&bytes, 0, 8), 0xA5);
    assert_eq!(read_bits_lsb_first(&bytes, 4, 8), 0xFA);
    assert_eq!(read_bits_lsb_first(&bytes, 1, 3), 0b010);
    assert_eq!(read_bits_lsb_first(&bytes, 0, 0), 0);
    assert_eq!(read_bits_lsb_first(&[0xFF, 0xFF, 0xFF, 0xFF], 0, 32), u32::MAX);
}

#[test]
fn weights_split_into_layers() {
    let bytes = [0x21u8, 0x43];
    assert_eq!(parse_rom_weights(&bytes, 8), Ok(vec![vec![1, 2], vec![3, 4]]));
    assert_eq!(parse_rom_weights(&bytes, 4), Ok(vec![vec![1], vec![2], vec![3], vec![4]]));
    assert_eq!(parse_rom_weights(&bytes, 16), Ok(vec![vec![1, 2, 3, 4]]));
    // 6-bit weights take two layers, the second holding two bits
    assert_eq!(parse_rom_weights(&[0xFFu8, 0x0F, 0x00], 6), Ok(vec![vec![15, 3], vec![15, 3], vec![0, 0], vec![0, 0]]));
    assert_eq!(parse_rom_weights(&[], 8), Ok(vec![]));
}

#[test]
fn weight_file_errors() {
    let bytes = [0x21u8, 0x43];
    assert_eq!(parse_rom_weights(&bytes, 0), Err(WeightFileError::ZeroWeightBits));
    assert_eq!(parse_rom_weights(&bytes, 33), Err(WeightFileError::WeightBitsTooLarge));
    assert_eq!(parse_rom_weights(&bytes, 12), Err(WeightFileError::PartialWeight { weight_bits: 12, total_bits: 16 }));
}

#[test]
fn request_checks() {
    assert_eq!(check_rom_request(0, 4, "w.bin"), Err(RomPlanError::ZeroWeightBits));
    assert_eq!(check_rom_request(40, 4, "w.bin"), Err(RomPlanError::WeightBitsTooLarge));
    assert_eq!(check_rom_request(8, 0, "w.bin"), Err(RomPlanError::ZeroBuildDepth));
    assert_eq!(check_rom_request(8, 6, "w.bin"), Err(RomPlanError::BuildDepthNotMultipleOf4));
    assert_eq!(check_rom_request(8, 4, "../w.bin"), Err(RomPlanError::InvalidFileName));
    assert_eq!(check_rom_request(8, 4, "a/w.bin"), Err(RomPlanError::InvalidFileName));
    assert_eq!(check_rom_request(8, 4, "a\\w.bin"), Err(RomPlanError::InvalidFileName));
    assert_eq!(check_rom_request(8, 4, "w.bin"), Ok(()));
    assert!(is_safe_file_name("a.b.c"));
    assert!(!is_safe_file_name("a..b"));
}

#[test]
fn plan_errors() {
    let eight = [0x10u8, 0x32, 0x54, 0x76];
    assert_eq!(plan_rom_tiles(4, 4, "w", &[]).err(), Some(RomPlanError::EmptyWeights));
    assert_eq!(plan_rom_tiles(4, 4, "w", &[1, 2, 3]).err(), Some(RomPlanError::WeightCountNotMultipleOf4 { count: 6 }));
    assert_eq!(
        plan_rom_tiles(4, 8, "w", &eight).err(),
        Some(RomPlanError::DepthMismatch { romtile_count: 2, z_count: 4 })
    );
    assert_eq!(
        plan_rom_tiles(12, 4, "w", &eight).err(),
        Some(RomPlanError::WeightFile(WeightFileError::PartialWeight { weight_bits: 12, total_bits: 32 }))
    );
    assert_eq!(plan_rom_tiles(4, 4, "..", &eight).err(), Some(RomPlanError::InvalidFileName));
}

#[test]
fn plan_and_barrels() {
    let eight = [0x10u8, 0x32, 0x54, 0x76];
    let plan = plan_rom_tiles(4, 4, "w.bin", &eight).ok().expect("a valid plan");
    assert_eq!((plan.address_count, plan.vertical_stacks, plan.x_count, plan.z_count), (8, 1, 1, 2));
    let barrels = rom_barrel_placements(BlockPos::new(0, 0, 0), &plan);
    let got: Vec<(i32, i32, i32, u8)> = barrels.iter().map(|b| (b.pos.x, b.pos.y, b.pos.z, b.signal)).collect();
    assert_eq!(
        got,
        vec![
            (-1, 3, -4, 15),
            (-1, 2, -6, 14),
            (-1, 3, -8, 13),
            (-1, 2, -10, 12),
            (1, 3, -4, 11),
            (1, 2, -6, 10),
            (1, 3, -8, 9),
            (1, 2, -10, 8),
        ]
    );
}

#[test]
fn barrels_of_a_wider_rom_never_collide() {
    // 8-bit weights (two layers), 32 weights, depth 8: 2 tile columns of 4
    let bytes: Vec<u8> = (0..32u8).collect();
    let plan = plan_rom_tiles(8, 8, "w", &bytes).ok().expect("a valid plan");
    assert_eq!((plan.x_count, plan.z_count, plan.vertical_stacks), (2, 4, 2));
    let barrels = rom_barrel_placements(BlockPos::new(100, 64, -20), &plan);
    assert_eq!(barrels.len(), 64);
    for i in 0..barrels.len() {
        for j in 0..i {
            assert_ne!(barrels[i].pos, barrels[j].pos);
        }
    }
}

#[test]
fn tile_origins_and_offsets() {
    let o = rom_tile_origins(BlockPos::new(0, 0, 0), 2, 1, 2);
    assert_eq!(o, vec![BlockPos::new(0, 0, 0), BlockPos::new(0, 0, -4), BlockPos::new(0, 2, 0), BlockPos::new(0, 2, -4)]);
    assert_eq!(romtile_barrel_offset(0), BlockPos::new(-1, 3, -4));
    assert_eq!(romtile_barrel_offset(1), BlockPos::new(-1, 2, -6));
    assert_eq!(romtile_barrel_offset(2), BlockPos::new(1, 2, -6));
    assert_eq!(romtile_barrel_offset(3), BlockPos::new(1, 3, -4));
    assert_eq!(rom_undo_end(BlockPos::new(0, 0, 0), 2, 3, 2, 5, 4, 7), BlockPos::new(12, 5, 2));
}

#[test]
fn system_layout() {
    let l = rom_system_layout(BlockPos::new(10, 20, 30), 4, 2);
    assert_eq!(l.addr_origin, BlockPos::new(8, 26, 12));
    assert_eq!(l.addr2_origin, BlockPos::new(8, 23, 17));
    assert_eq!(l.addr2_count, 3);
    assert_eq!(l.rom_origin, BlockPos::new(10, 30, 13));
    assert_eq!(l.readline_origin, BlockPos::new(12, 29, 15));
    assert_eq!(l.hex_2_bin_origin, BlockPos::new(23, 35, 15));
    assert_eq!(l.addr3_count, 2);
    assert_eq!(l.addr3_origin, BlockPos::new(5, 21, 31));
    assert_eq!(l.addr4_origin, BlockPos::new(3, 29, 31));
}

#[test]
fn layer_counts_follow_weight_width() {
    // an 18-bit weight needs five 4-bit layers, the last holding two bits
    let bytes = [0xFFu8, 0xFF, 0x03, 0x00, 0x00, 0x00, 0x00, 0x00, 0x00];
    let w = parse_rom_weights(&bytes, 18).ok().expect("whole weights");
    assert_eq!(w.len(), 4);
    assert_eq!(w[0], vec![15, 15, 15, 15, 3]);
    assert_eq!(w[1], vec![0, 0, 0, 0, 0]);
    // an 8-bit weight needs two
    assert_eq!(parse_rom_weights(&[0xAB], 8), Ok(vec![vec![0xB, 0xA]]));
}

#[test]
fn layers_recompose_the_weight() {
    // two 12-bit weights 0xABC and 0x123, least significant bit first
    let bytes = [0xBCu8, 0x3A, 0x12];
    let w = parse_rom_weights(&bytes, 12).ok().expect("whole weights");
    let value = |layers: &Vec<u8>| layers.iter().rev().fold(0u32, |acc, d| acc * 16 + *d as u32);
    assert_eq!(value(&w[0]), 0xABC);
    assert_eq!(value(&w[1]), 0x123);
    assert_eq!(read_bits_lsb_first(&bytes, 0, 12), 0xABC);
    assert_eq!(read_bits_lsb_first(&bytes, 12, 12), 0x123);
}

#[test]
fn a_one_deep_plan_places_its_barrels() {
    let plan = RomTilePlan {
        weights: vec![vec![0], vec![15], vec![1], vec![2]],
        address_count: 4,
        vertical_stacks: 1,
        x_count: 1,
        z_count: 1,
    };
    let barrels = rom_barrel_placements(BlockPos::new(0, 0, 0), &plan);
    let got: Vec<(i32, i32, i32, u8)> = barrels.iter().map(|b| (b.pos.x, b.pos.y, b.pos.z, b.signal)).collect();
    assert_eq!(got, vec![(-1, 3, -4, 15), (-1, 2, -6, 0), (1, 3, -4, 14), (1, 2, -6, 13)]);
    assert_eq!(rom_tile_origins(BlockPos::new(0, 0, 0), 1, 1, 1).len(), 1);
}

#[test]
fn rom_system_needs_a_first_position() {
    assert_eq!(rom_system_start(None), RomSystemAction::RefuseNoFirstPosition);
    assert_eq!(rom_system_start(Some(BlockPos::new(1, 2, 3))), RomSystemAction::BuildPlan);
}

#[test]
fn rom_system_places_modules_in_order_and_stops_at_a_failure() {
    let mut placed = Vec::new();
    let mut action = rom_system_after(RomSystemDone::Plan, true);
    while let RomSystemAction::Place(m) = action {
        placed.push(m);
        action = rom_system_after(RomSystemDone::Placed(m), true);
    }
    assert_eq!(action, RomSystemAction::Report);
    assert_eq!(placed, vec![
            RomSystemModule::AddressingPart1,
            RomSystemModule::AddressingPart2,
            RomSystemModule::RomTiles,
            RomSystemModule::Readline,
            RomSystemModule::HexToBin,
            RomSystemModule::AddressingPart3,
            RomSystemModule::AddressingPart4,
        ]);
    assert_eq!(rom_system_after(RomSystemDone::Placed(RomSystemModule::RomTiles), false), RomSystemAction::Stop);
    assert_eq!(rom_system_after(RomSystemDone::Plan, false), RomSystemAction::Stop);
}

#[test]
fn checked_layout_refuses_what_does_not_fit() {
    let l = checked_rom_system_layout(BlockPos::new(10, 20, 30), 3, 2).expect("fits");
    assert_eq!(l.addr_origin, BlockPos::new(8, 26, 12));
    assert_eq!(l.hex_2_bin_origin, BlockPos::new(19, 35, 15));
    assert!(checked_rom_system_layout(BlockPos::new(i32::MAX, 0, 0), 1, 1).is_none());
    assert!(checked_rom_system_layout(BlockPos::new(0, 0, 0), 0, 1).is_none());
}

#[test]
fn decoded_weights_give_back_the_file() {
    let bytes = [0x5Au8, 0xC3, 0x7E];
    let weights = parse_rom_weights(&bytes, 12).expect("whole weights");
    assert_eq!(weights.len(), 2);
    for (i, w) in weights.iter().enumerate() {
        assert_eq!(w.len(), 3);
        let value: u32 = w.iter().enumerate().map(|(l, d)| (*d as u32) << (4 * l)).sum();
        assert_eq!(value, read_bits_lsb_first(&bytes, i * 12, 12));
    }
}
