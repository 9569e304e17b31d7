use worldedit::container::{
    container_block, container_items_needed, container_replacement, inventory_for_signal, redstone_inventory,
    ContainerType,
};
use worldedit::geometry::BlockFacing;

fn float_items(slots: u32, ss: u8) -> usize {
    (match ss {
        0 => 0,
        15 => slots * 64,
        _ => ((32 * slots * ss as u32) as f32 / 7.0 - 1.0).ceil() as u32,
    }) as usize
}

#[test]
fn items_match_float_formula() {
    for slots in [3u32, 5, 27] {
        for ss in 0..=255u8 {
            assert_eq!(container_items_needed(slots, ss), float_items(slots, ss), "slots {} signal {}", slots, ss);
        }
    }
}

#[test]
fn items_exact_values() {
    assert_eq!(container_items_needed(27, 0), 0);
    assert_eq!(container_items_needed(27, 1), 123);
    assert_eq!(container_items_needed(27, 7), 863);
    assert_eq!(container_items_needed(27, 14), 1727);
    assert_eq!(container_items_needed(27, 15), 1728);
    assert_eq!(container_items_needed(3, 1), 13);
}

fn comparator(items: usize, slots: usize) -> usize {
    if items == 0 { 0 } else { 1 + (14 * items) / (64 * slots) }
}

#[test]
fn items_give_the_signal() {
    for slots in [3usize, 5, 27] {
        for s in 0..=15u8 {
            let items = container_items_needed(slots as u32, s);
            assert_eq!(comparator(items, slots), s as usize);
        }
    }
}

#[test]
fn inventory_stacks() {
    let inv = redstone_inventory(130, 7);
    assert_eq!(inv.len(), 3);
    assert_eq!((inv[0].id, inv[0].slot, inv[0].count), (7, 0, 64));
    assert_eq!((inv[1].slot, inv[1].count), (1, 64));
    assert_eq!((inv[2].slot, inv[2].count), (2, 2));
    assert!(redstone_inventory(0, 7).is_empty());
    let total: i32 = inventory_for_signal(9, 1).iter().map(|e| e.count as i32).sum();
    assert_eq!(total as usize, container_items_needed(27, 9));
    let full = inventory_for_signal(15, 1);
    assert_eq!(full.len(), 27);
    assert!(full.iter().all(|e| e.count == 64));
}

#[test]
fn replacement_rules() {
    let rep = container_replacement(true, Some((ContainerType::Barrel, 5)), ContainerType::Barrel, ContainerType::Hopper, 9)
        .expect("a barrel is converted");
    assert_eq!(rep.ty, ContainerType::Hopper);
    assert_eq!(rep.comparator_override, 5);
    assert_eq!(rep.block, container_block(ContainerType::Hopper));
    assert_eq!(rep.block.facing, BlockFacing::Down);
    let total: usize = rep.inventory.iter().map(|e| e.count as usize).sum();
    assert_eq!(total, container_items_needed(5, 5));
    assert!(container_replacement(true, Some((ContainerType::Furnace, 5)), ContainerType::Barrel, ContainerType::Hopper, 9).is_none());
    assert!(container_replacement(false, Some((ContainerType::Barrel, 5)), ContainerType::Barrel, ContainerType::Hopper, 9).is_none());
    assert!(container_replacement(true, None, ContainerType::Barrel, ContainerType::Hopper, 9).is_none());
    assert_eq!(container_block(ContainerType::Furnace).facing, BlockFacing::North);
    assert_eq!(container_block(ContainerType::Barrel).facing, BlockFacing::Up);
}
