use vstd::prelude::*;
use crate::geometry::BlockFacing;

verus! {

/// The kinds of item container whose fill level a comparator reads.
#[derive(Clone, Copy, Debug, PartialEq, Eq, Structural)]
pub enum ContainerType {
    Furnace,
    Barrel,
    Hopper,
}

impl ContainerType {
    pub open spec fn slot_count(self) -> int {
        match self {
            ContainerType::Furnace => 3,
            ContainerType::Barrel => 27,
            ContainerType::Hopper => 5,
        }
    }

    /// The number of inventory slots of this container.
    pub fn num_slots(self) -> (n: u8)
        ensures
            n == self.slot_count(),
    {
        match self {
            ContainerType::Furnace => 3,
            ContainerType::Barrel => 27,
            ContainerType::Hopper => 5,
        }
    }
}

/// One stack in a container inventory.
#[derive(Clone, Copy, Debug, PartialEq, Eq, Structural)]
pub struct InventoryEntry {
    pub id: u32,
    pub slot: i8,
    pub count: i8,
}

/// `ceil(a / b)` for a positive `b`.
pub open spec fn ceil_div(a: int, b: int) -> int {
    (a + b - 1) / b
}

/// The number of redstone dust items a container of `slots` slots must hold
/// for a comparator to read `signal`: none for 0, full for 15, and otherwise
/// `ceil(32 * slots * signal / 7 - 1)`.
pub open spec fn items_for_signal(slots: int, signal: int) -> int {
    if signal == 0 {
        0
    } else if signal == 15 {
        slots * 64
    } else {
        ceil_div(32 * slots * signal, 7) - 1
    }
}

/// The comparator output for a container of `slots` slots holding `items`
/// items that stack to 64: 0 when empty, else `1 + floor(14 * fullness)`.
pub open spec fn comparator_signal(items: int, slots: int) -> int {
    if items == 0 { 0 } else { 1 + (14 * items) / (64 * slots) }
}

/// The number of redstone dust items that makes a comparator read `signal`
/// from a container of `slots` slots.
pub fn container_items_needed(slots: u32, signal: u8) -> (n: usize)
    requires
        32 * slots * signal <= u32::MAX,
        slots * 64 <= u32::MAX,
        signal != 0 && signal != 15 ==> slots > 0,
    ensures
        n == items_for_signal(slots as int, signal as int),
        signal <= 15 ==> n <= slots * 64,
{
    let n: u32 = match signal {
        0 => 0,
        15 => slots * 64,
        _ => {
            let x = 32 * slots * signal as u32;
            proof {
                assert(x >= 32) by (nonlinear_arith) requires x == 32 * slots * signal, slots >= 1, signal >= 1;
            }
            proof {
                if signal < 15 {
                    assert(x <= 32 * slots * 14) by (nonlinear_arith) requires x == 32 * slots * signal, signal < 15, slots >= 0;
                }
            }
            if x % 7 == 0 {
                x / 7 - 1
            } else {
                x / 7
            }
        },
    };
    n as usize
}

/// The stacks of redstone dust (item id `redstone_id`) that make up `items`
/// items: full stacks of 64 in slots 0, 1, 2, ... and the remainder in the last one.
pub fn redstone_inventory(items: usize, redstone_id: u32) -> (inv: Vec<InventoryEntry>)
    requires
        items + 64 <= usize::MAX,
    ensures
        inv@.len() == ceil_div(items as int, 64),
        forall|k: int| 0 <= k < inv@.len() ==> {
            &&& (#[trigger] inv@[k]).id == redstone_id
            &&& inv@[k].slot == k as i8
            &&& inv@[k].count as int == if items - 64 * k < 64 { items - 64 * k } else { 64 }
        },
{
    let mut inventory: Vec<InventoryEntry> = Vec::new();
    let mut slot: usize = 0;
    let mut items_added: usize = 0;
    while items_added < items
        invariant
            items + 64 <= usize::MAX,
            items_added == 64 * slot,
            items_added < items + 64,
            slot <= ceil_div(items as int, 64),
            items_added < items ==> slot < ceil_div(items as int, 64),
            items_added >= items ==> slot == ceil_div(items as int, 64),
            inventory@.len() == slot,
            forall|k: int| 0 <= k < slot ==> {
                &&& (#[trigger] inventory@[k]).id == redstone_id
                &&& inventory@[k].slot == k as i8
                &&& inventory@[k].count as int == if items - 64 * k < 64 { items - 64 * k } else { 64 }
            },
        decreases items + 64 - items_added,
    {
        let remaining = items - items_added;
        let count = if remaining < 64 { remaining } else { 64 };
        inventory.push(InventoryEntry { id: redstone_id, slot: slot as i8, count: count as i8 });
        items_added = items_added + 64;
        slot = slot + 1;
    }
    inventory
}

/// The barrel inventory that makes a comparator read `signal`: redstone dust
/// for a 27-slot container.
pub fn inventory_for_signal(signal: u8, redstone_id: u32) -> (inv: Vec<InventoryEntry>)
    requires
        signal <= 15,
    ensures
        ({
            let items = items_for_signal(27, signal as int);
            &&& inv@.len() == ceil_div(items, 64)
            &&& forall|k: int| 0 <= k < inv@.len() ==> {
                &&& (#[trigger] inv@[k]).id == redstone_id
                &&& inv@[k].slot == k as i8
                &&& inv@[k].count as int == if items - 64 * k < 64 { items - 64 * k } else { 64 }
            }
        }),
{
    let slots = 27u32;
    let items_needed = container_items_needed(slots, signal);
    redstone_inventory(items_needed, redstone_id)
}


/// The block placed for a replaced container: furnaces face north and are
/// unlit, barrels face up and are closed, hoppers face down and are disabled.
#[derive(Clone, Copy, Debug, PartialEq, Eq, Structural)]
pub struct ContainerBlock {
    pub kind: ContainerType,
    pub facing: BlockFacing,
    /// Lit for a furnace, open for a barrel, enabled for a hopper.
    pub active: bool,
}

pub open spec fn spec_container_block(kind: ContainerType) -> ContainerBlock {
    match kind {
        ContainerType::Furnace => ContainerBlock { kind, facing: BlockFacing::North, active: false },
        ContainerType::Barrel => ContainerBlock { kind, facing: BlockFacing::Up, active: false },
        ContainerType::Hopper => ContainerBlock { kind, facing: BlockFacing::Down, active: false },
    }
}

/// The block that replaces a container by one of kind `kind`.
pub fn container_block(kind: ContainerType) -> (b: ContainerBlock)
    ensures
        b == spec_container_block(kind),
{
    match kind {
        ContainerType::Furnace => ContainerBlock { kind, facing: BlockFacing::North, active: false },
        ContainerType::Barrel => ContainerBlock { kind, facing: BlockFacing::Up, active: false },
        ContainerType::Hopper => ContainerBlock { kind, facing: BlockFacing::Down, active: false },
    }
}

/// A container converted to another kind with the same comparator reading.
pub struct ContainerReplacement {
    pub block: ContainerBlock,
    pub ty: ContainerType,
    pub comparator_override: u8,
    pub inventory: Vec<InventoryEntry>,
}

/// `inv` is the redstone dust inventory of `items` items.
pub open spec fn is_redstone_inventory(inv: Seq<InventoryEntry>, items: int, redstone_id: u32) -> bool {
    &&& inv.len() == ceil_div(items, 64)
    &&& forall|k: int| 0 <= k < inv.len() ==> {
        &&& (#[trigger] inv[k]).id == redstone_id
        &&& inv[k].slot == k as i8
        &&& inv[k].count as int == if items - 64 * k < 64 { items - 64 * k } else { 64 }
    }
}

/// Decides what becomes of one block when containers of kind `from` are
/// converted to kind `to`. Only a furnace, barrel or hopper block whose block
/// entity is a container of kind `from` is converted; it keeps its comparator
/// reading and is refilled with the redstone dust that gives that reading in
/// a container of kind `to`.
pub fn container_replacement(
    is_container_block: bool,
    entity: Option<(ContainerType, u8)>,
    from: ContainerType,
    to: ContainerType,
    redstone_id: u32,
) -> (r: Option<ContainerReplacement>)
    ensures
        r is Some <==> (is_container_block && entity is Some && entity->Some_0.0 == from),
        r matches Some(rep) ==> {
            let ss = entity->Some_0.1;
            &&& rep.block == spec_container_block(to)
            &&& rep.ty == to
            &&& rep.comparator_override == ss
            &&& is_redstone_inventory(rep.inventory@, items_for_signal(to.slot_count(), ss as int), redstone_id)
        },
{
    if !is_container_block {
        return None;
    }
    match entity {
        Some((ty, ss)) => {
            if ty != from {
                return None;
            }
            let slots = to.num_slots() as u32;
            proof {
                assert(32 * slots * ss <= 32 * 27 * 255) by (nonlinear_arith) requires slots <= 27, ss <= 255;
            }
            let items_needed = container_items_needed(slots, ss);
            proof {
                assert(items_needed <= 32 * 27 * 255) by (nonlinear_arith)
                    requires items_needed == items_for_signal(slots as int, ss as int), 1 <= slots <= 27, ss <= 255;
            }
            let inventory = redstone_inventory(items_needed, redstone_id);
            Some(ContainerReplacement {
                block: container_block(to),
                ty: to,
                comparator_override: ss,
                inventory,
            })
        },
        None => None,
    }
}

/// A container holding the redstone dust chosen for `signal` makes a
/// comparator read exactly `signal`.
pub proof fn law_items_give_signal(slots: int, signal: int)
    requires
        1 <= slots,
        0 <= signal <= 15,
    ensures
        comparator_signal(items_for_signal(slots, signal), slots) == signal,
{
    let d = 64 * slots;
    if signal == 15 {
        assert(14 * (64 * slots) == (14 * d));
        vstd::arithmetic::div_mod::lemma_div_by_multiple(14, d);
        assert(64 * slots > 0) by (nonlinear_arith) requires slots >= 1;
    } else if signal > 0 {
        let x = 32 * slots * signal;
        let q = (x + 6) / 7;
        let r = (x + 6) % 7;
        vstd::arithmetic::div_mod::lemma_fundamental_div_mod(x + 6, 7);
        let items = q - 1;
        assert(items == items_for_signal(slots, signal));
        assert(x >= 32) by (nonlinear_arith) requires x == 32 * slots * signal, slots >= 1, signal >= 1;
        assert(items > 0);
        let v = 14 * items;
        assert(d * (signal - 1) <= v < d * signal) by (nonlinear_arith)
            requires v == 14 * items, items == q - 1, x + 6 == 7 * q + r, 0 <= r < 7,
                x == 32 * slots * signal, d == 64 * slots, slots >= 1;
        assert(d > 0) by (nonlinear_arith) requires d == 64 * slots, slots >= 1;
        assert(d * signal == d * (signal - 1) + d) by (nonlinear_arith);
        vstd::arithmetic::div_mod::lemma_div_multiples_vanish_fancy(signal - 1, v - d * (signal - 1), d);
        assert(d * (signal - 1) + (v - d * (signal - 1)) == v);
    }
}

pub open spec fn total_count(inv: Seq<InventoryEntry>) -> int
    decreases inv.len(),
{
    if inv.len() == 0 { 0 } else { total_count(inv.drop_last()) + inv.last().count }
}

proof fn lemma_prefix_total(inv: Seq<InventoryEntry>, items: int, redstone_id: u32, m: int)
    requires
        0 <= m <= inv.len(),
        0 <= items,
        is_redstone_inventory(inv, items, redstone_id),
        64 * (inv.len() - 1) < items,
    ensures
        total_count(inv.take(m)) == if items < 64 * m { items } else { 64 * m },
    decreases m,
{
    if m > 0 {
        lemma_prefix_total(inv, items, redstone_id, m - 1);
        assert(inv.take(m).drop_last() =~= inv.take(m - 1));
        assert(inv.take(m).last() == inv[m - 1]);
        let e = inv[m - 1];
        assert(e.count as int == if items - 64 * (m - 1) < 64 { items - 64 * (m - 1) } else { 64 });
        assert(64 * (m - 1) < items);
    }
}

/// The redstone dust inventory for `items` items holds exactly `items` items.
pub proof fn law_inventory_holds_items(inv: Seq<InventoryEntry>, items: int, redstone_id: u32)
    requires
        0 <= items,
        is_redstone_inventory(inv, items, redstone_id),
    ensures
        total_count(inv) == items,
{
    let n = inv.len() as int;
    vstd::arithmetic::div_mod::lemma_fundamental_div_mod(items + 63, 64);
    vstd::arithmetic::div_mod::lemma_mod_bound(items + 63, 64);
    if n > 0 {
        lemma_prefix_total(inv, items, redstone_id, n);
        assert(inv.take(n) =~= inv);
    }
}

} // verus!
