//! Atomic inventory transfers between a player's equipment slots and containers. Every transfer
//! is prepared on copies; any refusal leaves the world unchanged.

use vstd::prelude::*;
use crate::error::CoreError;
use crate::items::{
    EquipmentSlot, ItemInstance, ItemView, ItemContainerView, ContainerView, ContainersView, EquipmentView,
    PlayerEquipment, PlayerContainers, slot_code, with_count, content_view, content_of, ItemContent, merge_or_insert_model,
    consume_unit_model, stack_compatible, MAX_PLAYER_CONTAINERS, MAX_ITEM_STACK_COUNT,
};
use crate::world::{WorldState, WorldModel, bumped};

verus! {

broadcast use {vstd::std_specs::btree::group_btree_axioms, vstd::laws_cmp::group_laws_cmp};

#[derive(Debug, Clone, PartialEq, Eq)]
pub struct PlayerEquipmentToContainerOutcome {
    pub player_id: u64,
    pub from_slot: EquipmentSlot,
    pub container_id: u8,
    pub item: ItemInstance,
}

#[derive(Debug, Clone, PartialEq, Eq)]
pub struct PlayerContainerToEquipmentOutcome {
    pub player_id: u64,
    pub container_id: u8,
    pub item_index: usize,
    pub to_slot: EquipmentSlot,
    pub item: ItemInstance,
}

#[derive(Debug, Clone, PartialEq, Eq)]
pub struct PlayerContainerToEquipmentSwapOutcome {
    pub player_id: u64,
    pub container_id: u8,
    pub item_index: usize,
    pub to_slot: EquipmentSlot,
    pub equipped_item: ItemInstance,
    pub container_item: ItemInstance,
}

#[derive(Debug, Clone, PartialEq, Eq)]
pub struct PlayerEquipmentSlotSwapOutcome {
    pub player_id: u64,
    pub from_slot: EquipmentSlot,
    pub to_slot: EquipmentSlot,
    pub from_item: ItemInstance,
    pub to_item: ItemInstance,
}

#[derive(Debug, Clone, PartialEq, Eq)]
pub struct PlayerEquipmentStackToContainerOutcome {
    pub player_id: u64,
    pub from_slot: EquipmentSlot,
    pub container_id: u8,
    pub destination_index: usize,
    pub moved_item: ItemInstance,
    pub source_remaining_count: Option<u16>,
    pub destination_count: u16,
}

#[derive(Debug, Clone, PartialEq, Eq)]
pub struct PlayerContainerStackToEquipmentOutcome {
    pub player_id: u64,
    pub container_id: u8,
    pub item_index: usize,
    pub to_slot: EquipmentSlot,
    pub moved_item: ItemInstance,
    pub source_remaining_count: Option<u16>,
    pub destination_count: u16,
}

#[derive(Debug, Clone, PartialEq, Eq)]
pub struct PlayerContainerStackToContainerOutcome {
    pub player_id: u64,
    pub from_container_id: u8,
    pub item_index: usize,
    pub to_container_id: u8,
    pub destination_index: usize,
    pub moved_item: ItemInstance,
    pub source_remaining_count: Option<u16>,
    pub destination_count: u16,
}

/// The inventory location a ground drop takes its stack from.
#[derive(Debug, Clone, Copy, PartialEq, Eq, Structural)]
pub enum PlayerGroundDropSource {
    EquipmentSlot(EquipmentSlot),
    ContainerItem { container_id: u8, item_index: usize },
    ContainerContent { container_id: u8, item_index: usize, content_index: usize },
}

#[derive(Debug, Clone, PartialEq, Eq)]
pub struct PlayerGroundDropOutcome {
    pub player_id: u64,
    pub source: PlayerGroundDropSource,
    pub moved_item: ItemInstance,
    pub source_remaining_count: Option<u16>,
}

#[derive(Debug, Clone, PartialEq, Eq)]
pub struct GenericMoveSource {
    pub kind: GenericMoveSourceKind,
    /// Whole-stack moves leave this empty; partial moves give the exact unit count.
    pub count: Option<u16>,
}

#[derive(Debug, Clone, Copy, PartialEq, Eq, Structural)]
pub enum GenericMoveSourceKind {
    Equipment { slot: EquipmentSlot },
    Container { container_id: u8, index: usize },
}

/// Destination of a generic inventory move.
#[derive(Debug, Clone, Copy, PartialEq, Eq, Structural)]
pub enum GenericMoveTargetKind {
    /// `allow_swap` permits displacing the item of an occupied slot back into the vacated source:
    /// the source container, or the source equipment slot when the whole stack left it (a source
    /// slot that still holds a remainder refuses the swap).
    Equipment { slot: EquipmentSlot, allow_swap: bool },
    Container { container_id: u8 },
}

/// A fully resolved one-shot inventory move.
#[derive(Debug, Clone, Copy, PartialEq, Eq, Structural)]
pub struct GenericInventoryMove {
    pub source_kind: GenericMoveSourceKind,
    pub source_count: Option<u16>,
    pub target: GenericMoveTargetKind,
}

/// How the destination took the moved item.
#[derive(Debug, Clone, PartialEq, Eq)]
pub enum GenericPlacement {
    Placed,
    MergedOrInserted,
    Swapped { displaced: ItemInstance },
}

/// Outcome of a successful generic inventory move.
#[derive(Debug, Clone, PartialEq, Eq)]
pub struct GenericInventoryMoveOutcome {
    pub player_id: u64,
    pub moved_item: ItemInstance,
    pub placement: GenericPlacement,
    /// Units left at the source after a partial split (zero for whole moves).
    pub remaining_source_count: u32,
}

/// The model of a placement.
pub enum PlacementView {
    Placed,
    MergedOrInserted,
    Swapped(ItemView),
}

pub open spec fn placement_view(p: GenericPlacement) -> PlacementView {
    match p {
        GenericPlacement::Placed => PlacementView::Placed,
        GenericPlacement::MergedOrInserted => PlacementView::MergedOrInserted,
        GenericPlacement::Swapped { displaced } => PlacementView::Swapped(displaced@),
    }
}

/// Detaching the moved units from the source: moved stack, units left, new inventory.
pub open spec fn detach_source(eq: EquipmentView, cs: ContainersView, p: u64, kind: GenericMoveSourceKind, amount: Option<u16>)
    -> Result<(ItemView, u32, EquipmentView, ContainersView), CoreError> {
    match kind {
        GenericMoveSourceKind::Equipment { slot } => {
            let k = slot_code(slot);
            if !eq.contains_key(k) {
                Err(CoreError::EmptyEquipmentSlot { player_id: p, slot })
            } else {
                let item = eq[k];
                let take = match amount { Some(t) => t, None => item.count };
                if take == 0 || take > item.count {
                    Err(CoreError::InvalidItemTransferCount { requested: take, available: item.count })
                } else if take == item.count {
                    Ok((item, 0u32, eq.remove(k), cs))
                } else {
                    Ok((with_count(item, take), (item.count - take) as u32, eq.insert(k, with_count(item, (item.count - take) as u16)), cs))
                }
            }
        },
        GenericMoveSourceKind::Container { container_id, index } => {
            if !cs.contains_key(container_id) {
                Err(CoreError::UnknownPlayerContainer { player_id: p, container_id })
            } else if index >= cs[container_id].items.items.len() {
                Err(CoreError::UnknownPlayerContainerItem { player_id: p, container_id, item_index: index })
            } else {
                let c = cs[container_id];
                let item = c.items.items[index as int];
                let take = match amount { Some(t) => t, None => item.count };
                if take == 0 || take > item.count {
                    Err(CoreError::InvalidItemTransferCount { requested: take, available: item.count })
                } else if take == item.count {
                    Ok((item, 0u32, eq, cs.insert(container_id, with_items(c, c.items.items.remove(index as int)))))
                } else {
                    Ok((with_count(item, take), (item.count - take) as u32, eq, cs.insert(container_id,
                        with_items(c, c.items.items.update(index as int, with_count(item, (item.count - take) as u16))))))
                }
            }
        },
    }
}

/// The error a failed placement reports: putting the moved stack back into a full source
/// container fails first.
pub open spec fn placement_failure(cs: ContainersView, kind: GenericMoveSourceKind, e: CoreError) -> CoreError {
    match kind {
        GenericMoveSourceKind::Equipment { .. } => e,
        GenericMoveSourceKind::Container { container_id, .. } => {
            let c = cs[container_id];
            if c.items.items.len() >= c.items.capacity { CoreError::ContainerFull { capacity: c.items.capacity } } else { e }
        },
    }
}

/// Placing the moved stack at the destination of the plan.
pub open spec fn place_moved(eq: EquipmentView, cs: ContainersView, p: u64, plan: GenericInventoryMove, moved: ItemView)
    -> Result<(PlacementView, EquipmentView, ContainersView), CoreError> {
    match plan.target {
        GenericMoveTargetKind::Equipment { slot, allow_swap } => {
            let k = slot_code(slot);
            if !eq.contains_key(k) {
                Ok((PlacementView::Placed, eq.insert(k, moved), cs))
            } else if allow_swap && plan.source_kind != (GenericMoveSourceKind::Equipment { slot }) {
                let displaced = eq[k];
                match plan.source_kind {
                    GenericMoveSourceKind::Container { container_id, .. } => {
                        let c = cs[container_id];
                        if c.items.items.len() >= c.items.capacity {
                            Err(CoreError::ContainerFull { capacity: c.items.capacity })
                        } else {
                            Ok((PlacementView::Swapped(displaced), eq.insert(k, moved),
                                cs.insert(container_id, with_items(c, c.items.items.push(displaced)))))
                        }
                    },
                    GenericMoveSourceKind::Equipment { slot: from } => {
                        if eq.contains_key(slot_code(from)) {
                            Err(CoreError::OccupiedEquipmentSlot { player_id: p, slot })
                        } else {
                            Ok((PlacementView::Swapped(displaced), eq.insert(k, moved).insert(slot_code(from), displaced), cs))
                        }
                    },
                }
            } else {
                Err(placement_failure(cs, plan.source_kind, CoreError::OccupiedEquipmentSlot { player_id: p, slot }))
            }
        },
        GenericMoveTargetKind::Container { container_id } => {
            if !cs.contains_key(container_id) {
                Err(placement_failure(cs, plan.source_kind, CoreError::UnknownPlayerContainer { player_id: p, container_id }))
            } else {
                match merge_or_insert_model(cs[container_id].items, moved) {
                    Ok((items, _)) => Ok((PlacementView::MergedOrInserted, eq,
                        cs.insert(container_id, ContainerView { items, ..cs[container_id] }))),
                    Err(e) => Err(placement_failure(cs, plan.source_kind, e)),
                }
            }
        },
    }
}

/// The whole generic move on an inventory.
pub open spec fn generic_move(eq: EquipmentView, cs: ContainersView, p: u64, plan: GenericInventoryMove)
    -> Result<(ItemView, PlacementView, u32, EquipmentView, ContainersView), CoreError> {
    match detach_source(eq, cs, p, plan.source_kind, plan.source_count) {
        Err(e) => Err(e),
        Ok((moved, remaining, eq1, cs1)) => match place_moved(eq1, cs1, p, plan, moved) {
            Err(e) => Err(e),
            Ok((placement, eq2, cs2)) => Ok((moved, placement, remaining, eq2, cs2)),
        },
    }
}

/// A container window with its stacks replaced.
pub open spec fn with_items(c: ContainerView, items: Seq<ItemView>) -> ContainerView {
    ContainerView { items: ItemContainerView { items, ..c.items }, ..c }
}

/// A window taken out under `id` and inserted again under its own identifier.
pub open spec fn reinserted(cs: ContainersView, id: u8, c: ContainerView) -> Result<ContainersView, CoreError> {
    let rest = cs.remove(id);
    if !rest.contains_key(c.container_id) && rest.len() >= MAX_PLAYER_CONTAINERS {
        Err(CoreError::TooManyPlayerContainers(MAX_PLAYER_CONTAINERS))
    } else {
        Ok(rest.insert(c.container_id, c))
    }
}

/// Taking a window out and inserting it again is refused only when more windows than the bound
/// were open: within the bound that `PlayerContainers::insert` keeps, it always succeeds.
pub proof fn law_reinsert_within_bound(cs: ContainersView, id: u8, c: ContainerView)
    requires
        cs.dom().finite(),
        cs.len() <= MAX_PLAYER_CONTAINERS,
        cs.contains_key(id),
    ensures
        reinserted(cs, id, c) == Ok::<ContainersView, CoreError>(cs.remove(id).insert(c.container_id, c)),
{
}

/// The world after the inventory of player `p` becomes `eq` and `cs`.
pub open spec fn with_inventory(m: WorldModel, p: u64, eq: EquipmentView, cs: ContainersView) -> WorldModel {
    WorldModel {
        equipments: m.equipments.insert(p, eq),
        containers: m.containers.insert(p, cs),
        revision: bumped(m.revision),
        ..m
    }
}

/// The remaining count of a source stack, when any remains.
pub open spec fn remaining_of(count: u16, taken: u16) -> Option<u16> {
    if count > taken { Some((count - taken) as u16) } else { None }
}

pub open spec fn has_inventory(m: WorldModel, p: u64) -> bool {
    m.equipments.contains_key(p) && m.containers.contains_key(p)
}

/// Moving one equipped item into a container: the item, then the new inventory.
pub open spec fn equipment_to_container(eq: EquipmentView, cs: ContainersView, p: u64, slot: EquipmentSlot, cid: u8)
    -> Result<(ItemView, EquipmentView, ContainersView), CoreError> {
    let k = slot_code(slot);
    if !eq.contains_key(k) {
        Err(CoreError::EmptyEquipmentSlot { player_id: p, slot })
    } else if !cs.contains_key(cid) {
        Err(CoreError::UnknownPlayerContainer { player_id: p, container_id: cid })
    } else {
        let c = cs[cid];
        let item = eq[k];
        if c.items.items.len() >= c.items.capacity {
            Err(CoreError::ContainerFull { capacity: c.items.capacity })
        } else {
            match reinserted(cs, cid, with_items(c, c.items.items.push(item))) {
                Err(e) => Err(e),
                Ok(cs2) => Ok((item, eq.remove(k), cs2)),
            }
        }
    }
}

/// Moving one container stack into an empty equipment slot.
pub open spec fn container_to_equipment(eq: EquipmentView, cs: ContainersView, p: u64, cid: u8, index: usize,
    slot: EquipmentSlot) -> Result<(ItemView, EquipmentView, ContainersView), CoreError> {
    let k = slot_code(slot);
    if eq.contains_key(k) {
        Err(CoreError::OccupiedEquipmentSlot { player_id: p, slot })
    } else if !cs.contains_key(cid) {
        Err(CoreError::UnknownPlayerContainer { player_id: p, container_id: cid })
    } else if index >= cs[cid].items.items.len() {
        Err(CoreError::UnknownPlayerContainerItem { player_id: p, container_id: cid, item_index: index })
    } else {
        let c = cs[cid];
        let item = c.items.items[index as int];
        match reinserted(cs, cid, with_items(c, c.items.items.remove(index as int))) {
            Err(e) => Err(e),
            Ok(cs2) => Ok((item, eq.insert(k, item), cs2)),
        }
    }
}

/// Moving one content item out of a container stack into an empty equipment slot.
pub open spec fn content_to_equipment(eq: EquipmentView, cs: ContainersView, p: u64, cid: u8, index: usize,
    content: usize, slot: EquipmentSlot) -> Result<(ItemView, EquipmentView, ContainersView), CoreError> {
    let k = slot_code(slot);
    if eq.contains_key(k) {
        Err(CoreError::OccupiedEquipmentSlot { player_id: p, slot })
    } else if !cs.contains_key(cid) {
        Err(CoreError::UnknownPlayerContainer { player_id: p, container_id: cid })
    } else if !(index < cs[cid].items.items.len() && content < cs[cid].items.items[index as int].contents.len()) {
        Err(CoreError::UnknownPlayerContainerItem { player_id: p, container_id: cid, item_index: index })
    } else {
        let c = cs[cid];
        let host = c.items.items[index as int];
        let item = content_view(host.contents[content as int]);
        let c2 = with_items(c, c.items.items.update(index as int, ItemView { contents: host.contents.remove(content as int), ..host }));
        match reinserted(cs, cid, c2) {
            Err(e) => Err(e),
            Ok(cs2) => Ok((item, eq.insert(k, item), cs2)),
        }
    }
}

/// Moving one content item into another top-level container by merging or appending.
pub open spec fn content_to_container(cs: ContainersView, p: u64, cid: u8, index: usize, content: usize, target: u8)
    -> Result<ContainersView, CoreError> {
    if !cs.contains_key(cid) {
        Err(CoreError::UnknownPlayerContainer { player_id: p, container_id: cid })
    } else if !(index < cs[cid].items.items.len() && content < cs[cid].items.items[index as int].contents.len()) {
        Err(CoreError::UnknownPlayerContainerItem { player_id: p, container_id: cid, item_index: index })
    } else {
        let c = cs[cid];
        let host = c.items.items[index as int];
        let moved = content_view(host.contents[content as int]);
        let c2 = with_items(c, c.items.items.update(index as int, ItemView { contents: host.contents.remove(content as int), ..host }));
        match reinserted(cs, cid, c2) {
            Err(e) => Err(e),
            Ok(cs2) => if !cs2.contains_key(target) {
                Err(CoreError::UnknownPlayerContainer { player_id: p, container_id: target })
            } else if cs2[target].has_parent {
                Err(CoreError::UnknownPlayerContainer { player_id: p, container_id: target })
            } else {
                match merge_or_insert_model(cs2[target].items, moved) {
                    Err(e) => Err(e),
                    Ok((items, _)) => reinserted(cs2, target, ContainerView { items, ..cs2[target] }),
                }
            },
        }
    }
}

/// Exchanging a container stack with an occupied equipment slot.
pub open spec fn container_equipment_swap(eq: EquipmentView, cs: ContainersView, p: u64, cid: u8, index: usize,
    slot: EquipmentSlot) -> Result<(ItemView, ItemView, EquipmentView, ContainersView), CoreError> {
    let k = slot_code(slot);
    if !eq.contains_key(k) {
        Err(CoreError::EmptyEquipmentSlot { player_id: p, slot })
    } else if !cs.contains_key(cid) {
        Err(CoreError::UnknownPlayerContainer { player_id: p, container_id: cid })
    } else if index >= cs[cid].items.items.len() {
        Err(CoreError::UnknownPlayerContainerItem { player_id: p, container_id: cid, item_index: index })
    } else {
        let c = cs[cid];
        let equipped = eq[k];
        let stored = c.items.items[index as int];
        match reinserted(cs, cid, with_items(c, c.items.items.update(index as int, equipped))) {
            Err(e) => Err(e),
            Ok(cs2) => Ok((equipped, stored, eq.insert(k, stored), cs2)),
        }
    }
}

/// Splitting `count` units off an equipped stack into a container: moved stack, remaining count,
/// destination index and count, and the new inventory.
pub open spec fn equipment_stack_to_container(eq: EquipmentView, cs: ContainersView, p: u64, slot: EquipmentSlot, cid: u8,
    count: u16) -> Result<(ItemView, Option<u16>, (usize, u16), EquipmentView, ContainersView), CoreError> {
    let k = slot_code(slot);
    if !eq.contains_key(k) {
        Err(CoreError::EmptyEquipmentSlot { player_id: p, slot })
    } else if count == 0 || count > eq[k].count {
        Err(CoreError::InvalidItemTransferCount { requested: count, available: eq[k].count })
    } else {
        let source = eq[k];
        let moved = with_count(source, count);
        let eq2 = if source.count > count { eq.insert(k, with_count(source, (source.count - count) as u16)) } else { eq.remove(k) };
        if !cs.contains_key(cid) {
            Err(CoreError::UnknownPlayerContainer { player_id: p, container_id: cid })
        } else {
            match merge_or_insert_model(cs[cid].items, moved) {
                Err(e) => Err(e),
                Ok((items, out)) => match reinserted(cs, cid, ContainerView { items, ..cs[cid] }) {
                    Err(e) => Err(e),
                    Ok(cs2) => Ok((moved, remaining_of(source.count, count), out, eq2, cs2)),
                },
            }
        }
    }
}

/// Splitting `count` units off a container stack into an equipment slot (merging with a
/// compatible equipped stack when the slot is occupied).
pub open spec fn container_stack_to_equipment(eq: EquipmentView, cs: ContainersView, p: u64, cid: u8, index: usize,
    slot: EquipmentSlot, count: u16) -> Result<(ItemView, Option<u16>, u16, EquipmentView, ContainersView), CoreError> {
    let k = slot_code(slot);
    if !cs.contains_key(cid) {
        Err(CoreError::UnknownPlayerContainer { player_id: p, container_id: cid })
    } else if index >= cs[cid].items.items.len() {
        Err(CoreError::UnknownPlayerContainerItem { player_id: p, container_id: cid, item_index: index })
    } else {
        let c = cs[cid];
        let source = c.items.items[index as int];
        if count == 0 || count > source.count {
            Err(CoreError::InvalidItemTransferCount { requested: count, available: source.count })
        } else {
            let moved = with_count(source, count);
            let placed: Result<(u16, EquipmentView), CoreError> = if eq.contains_key(k) {
                let d = eq[k];
                if !stack_compatible(d, moved) {
                    Err(CoreError::IncompatibleItemStacks)
                } else if d.count + moved.count > MAX_ITEM_STACK_COUNT {
                    Err(CoreError::ItemStackCountOverflow { existing: d.count, incoming: moved.count })
                } else {
                    Ok(((d.count + moved.count) as u16, eq.insert(k, with_count(d, (d.count + moved.count) as u16))))
                }
            } else {
                Ok((moved.count, eq.insert(k, moved)))
            };
            match placed {
                Err(e) => Err(e),
                Ok((destination_count, eq2)) => {
                    let rest = c.items.items.remove(index as int);
                    let items = if source.count > count {
                        rest.insert(index as int, with_count(source, (source.count - count) as u16)) } else { rest };
                    match reinserted(cs, cid, with_items(c, items)) {
                        Err(e) => Err(e),
                        Ok(cs2) => Ok((moved, remaining_of(source.count, count), destination_count, eq2, cs2)),
                    }
                },
            }
        }
    }
}

/// Splitting `count` units off a stack in one container into another container.
pub open spec fn container_stack_to_container(cs: ContainersView, p: u64, from: u8, index: usize, to: u8, count: u16)
    -> Result<(ItemView, Option<u16>, (usize, u16), ContainersView), CoreError> {
    if from == to {
        Err(CoreError::SamePlayerContainerTransfer { player_id: p, container_id: from })
    } else if !cs.contains_key(from) {
        Err(CoreError::UnknownPlayerContainer { player_id: p, container_id: from })
    } else if !cs.contains_key(to) {
        Err(CoreError::UnknownPlayerContainer { player_id: p, container_id: to })
    } else if index >= cs[from].items.items.len() {
        Err(CoreError::UnknownPlayerContainerItem { player_id: p, container_id: from, item_index: index })
    } else {
        let source = cs[from].items.items[index as int];
        if count == 0 || count > source.count {
            Err(CoreError::InvalidItemTransferCount { requested: count, available: source.count })
        } else {
            let moved = with_count(source, count);
            match merge_or_insert_model(cs[to].items, moved) {
                Err(e) => Err(e),
                Ok((items, out)) => {
                    let rest = cs[from].items.items.remove(index as int);
                    let source_items = if source.count > count {
                        rest.insert(index as int, with_count(source, (source.count - count) as u16)) } else { rest };
                    let without = cs.remove(from).remove(to);
                    let src = with_items(cs[from], source_items);
                    let dst = ContainerView { items, ..cs[to] };
                    if !without.contains_key(src.container_id) && without.len() >= MAX_PLAYER_CONTAINERS {
                        Err(CoreError::TooManyPlayerContainers(MAX_PLAYER_CONTAINERS))
                    } else {
                        let with_src = without.insert(src.container_id, src);
                        if !with_src.contains_key(dst.container_id) && with_src.len() >= MAX_PLAYER_CONTAINERS {
                            Err(CoreError::TooManyPlayerContainers(MAX_PLAYER_CONTAINERS))
                        } else {
                            Ok((moved, remaining_of(source.count, count), out, with_src.insert(dst.container_id, dst)))
                        }
                    }
                },
            }
        }
    }
}

/// Taking `count` units off an inventory stack for a ground drop; only those units leave, and
/// the rest of the stack stays where it was.
pub open spec fn ground_drop(eq: EquipmentView, cs: ContainersView, p: u64, source: PlayerGroundDropSource, count: u16)
    -> Result<(ItemView, Option<u16>, EquipmentView, ContainersView), CoreError> {
    match source {
        PlayerGroundDropSource::EquipmentSlot(slot) => {
            let k = slot_code(slot);
            if !eq.contains_key(k) {
                Err(CoreError::EmptyEquipmentSlot { player_id: p, slot })
            } else if count == 0 || count > eq[k].count {
                Err(CoreError::InvalidItemTransferCount { requested: count, available: eq[k].count })
            } else {
                let s = eq[k];
                let eq2 = if s.count > count { eq.insert(k, with_count(s, (s.count - count) as u16)) } else { eq.remove(k) };
                Ok((with_count(s, count), remaining_of(s.count, count), eq2, cs))
            }
        },
        PlayerGroundDropSource::ContainerItem { container_id, item_index } => {
            if !cs.contains_key(container_id) {
                Err(CoreError::UnknownPlayerContainer { player_id: p, container_id })
            } else if item_index >= cs[container_id].items.items.len() {
                Err(CoreError::UnknownPlayerContainerItem { player_id: p, container_id, item_index })
            } else {
                let c = cs[container_id];
                let s = c.items.items[item_index as int];
                if count == 0 || count > s.count {
                    Err(CoreError::InvalidItemTransferCount { requested: count, available: s.count })
                } else {
                    let rest = c.items.items.remove(item_index as int);
                    let items = if s.count > count { rest.insert(item_index as int, with_count(s, (s.count - count) as u16)) } else { rest };
                    match reinserted(cs, container_id, with_items(c, items)) {
                        Err(e) => Err(e),
                        Ok(cs2) => Ok((with_count(s, count), remaining_of(s.count, count), eq, cs2)),
                    }
                }
            }
        },
        PlayerGroundDropSource::ContainerContent { container_id, item_index, content_index } => {
            if !cs.contains_key(container_id) {
                Err(CoreError::UnknownPlayerContainer { player_id: p, container_id })
            } else if !(item_index < cs[container_id].items.items.len()
                && content_index < cs[container_id].items.items[item_index as int].contents.len()) {
                Err(CoreError::UnknownPlayerContainerItem { player_id: p, container_id, item_index })
            } else {
                let c = cs[container_id];
                let host = c.items.items[item_index as int];
                let s = content_view(host.contents[content_index as int]);
                if count == 0 || count > s.count {
                    Err(CoreError::InvalidItemTransferCount { requested: count, available: s.count })
                } else {
                    let entry = host.contents[content_index as int];
                    let rest = if s.count > count {
                        host.contents.update(content_index as int, ItemContent { count: (s.count - count) as u16, ..entry })
                    } else {
                        host.contents.remove(content_index as int)
                    };
                    let c2 = with_items(c, c.items.items.update(item_index as int, ItemView { contents: rest, ..host }));
                    match reinserted(cs, container_id, c2) {
                        Err(e) => Err(e),
                        Ok(cs2) => Ok((with_count(s, count), remaining_of(s.count, count), eq, cs2)),
                    }
                }
            }
        },
    }
}

impl WorldState {
    fn inventory_copies(&self, player_id: u64) -> (r: Result<(PlayerEquipment, PlayerContainers), CoreError>)
        ensures
            !has_inventory(self@, player_id) ==> r == Err::<(PlayerEquipment, PlayerContainers), CoreError>(CoreError::UnknownPlayer(player_id)),
            has_inventory(self@, player_id) ==> r is Ok && r->Ok_0.0@ == self@.equipments[player_id]
                && r->Ok_0.1@ == self@.containers[player_id],
    {
        let equipment = self.player_equipment(player_id)?.duplicate();
        let containers = self.player_containers(player_id)?.duplicate();
        Ok((equipment, containers))
    }

    fn commit_inventory(&mut self, player_id: u64, equipment: PlayerEquipment, containers: PlayerContainers)
        ensures
            final(self)@ == with_inventory(old(self)@, player_id, equipment@, containers@),
    {
        let ghost m = self@;
        self.player_equipments.insert(player_id, equipment);
        self.player_containers.insert(player_id, containers);
        proof {
            assert(self@.equipments =~= m.equipments.insert(player_id, equipment@));
            assert(self@.containers =~= m.containers.insert(player_id, containers@));
        }
        self.mark_changed();
    }

    /// Moves one complete equipped item into one of the player's containers.
    pub fn move_equipment_item_to_container(&mut self, player_id: u64, from_slot: EquipmentSlot, container_id: u8)
        -> (r: Result<PlayerEquipmentToContainerOutcome, CoreError>)
        ensures
            !has_inventory(old(self)@, player_id) ==> r == Err::<PlayerEquipmentToContainerOutcome, CoreError>(CoreError::UnknownPlayer(player_id)),
            r is Err ==> final(self)@ == old(self)@,
            has_inventory(old(self)@, player_id) ==> match equipment_to_container(old(self)@.equipments[player_id],
                old(self)@.containers[player_id], player_id, from_slot, container_id) {
                Err(e) => r == Err::<PlayerEquipmentToContainerOutcome, CoreError>(e),
                Ok((item, eq, cs)) => r is Ok && r->Ok_0.item@ == item && r->Ok_0.player_id == player_id
                    && r->Ok_0.from_slot == from_slot && r->Ok_0.container_id == container_id
                    && final(self)@ == with_inventory(old(self)@, player_id, eq, cs),
            },
    {
        let (mut equipment, mut containers) = self.inventory_copies(player_id)?;
        let item = match equipment.unequip(from_slot) {
            Some(i) => i,
            None => { return Err(CoreError::EmptyEquipmentSlot { player_id, slot: from_slot }); },
        };
        let mut container = match containers.remove(container_id) {
            Some(c) => c,
            None => { return Err(CoreError::UnknownPlayerContainer { player_id, container_id }); },
        };
        container.items.insert(item.duplicate())?;
        containers.insert(container)?;
        self.commit_inventory(player_id, equipment, containers);
        Ok(PlayerEquipmentToContainerOutcome { player_id, from_slot, container_id, item })
    }

    /// Moves one complete container stack into an empty equipment slot.
    pub fn move_container_item_to_equipment(&mut self, player_id: u64, container_id: u8, item_index: usize,
        to_slot: EquipmentSlot) -> (r: Result<PlayerContainerToEquipmentOutcome, CoreError>)
        ensures
            !has_inventory(old(self)@, player_id) ==> r == Err::<PlayerContainerToEquipmentOutcome, CoreError>(CoreError::UnknownPlayer(player_id)),
            r is Err ==> final(self)@ == old(self)@,
            has_inventory(old(self)@, player_id) ==> match container_to_equipment(old(self)@.equipments[player_id],
                old(self)@.containers[player_id], player_id, container_id, item_index, to_slot) {
                Err(e) => r == Err::<PlayerContainerToEquipmentOutcome, CoreError>(e),
                Ok((item, eq, cs)) => r is Ok && r->Ok_0.item@ == item && r->Ok_0.to_slot == to_slot
                    && final(self)@ == with_inventory(old(self)@, player_id, eq, cs),
            },
    {
        let (mut equipment, mut containers) = self.inventory_copies(player_id)?;
        if equipment.item(to_slot).is_some() {
            return Err(CoreError::OccupiedEquipmentSlot { player_id, slot: to_slot });
        }
        let mut container = match containers.remove(container_id) {
            Some(c) => c,
            None => { return Err(CoreError::UnknownPlayerContainer { player_id, container_id }); },
        };
        let item = match container.items.remove(item_index) {
            Some(i) => i,
            None => { return Err(CoreError::UnknownPlayerContainerItem { player_id, container_id, item_index }); },
        };
        equipment.equip(to_slot, item.duplicate());
        containers.insert(container)?;
        self.commit_inventory(player_id, equipment, containers);
        Ok(PlayerContainerToEquipmentOutcome { player_id, container_id, item_index, to_slot, item })
    }

    /// Moves one content item out of a container stack into an empty equipment slot.
    pub fn move_content_item_to_equipment(&mut self, player_id: u64, container_id: u8, item_index: usize,
        content_index: usize, to_slot: EquipmentSlot) -> (r: Result<PlayerContainerToEquipmentOutcome, CoreError>)
        ensures
            !has_inventory(old(self)@, player_id) ==> r == Err::<PlayerContainerToEquipmentOutcome, CoreError>(CoreError::UnknownPlayer(player_id)),
            r is Err ==> final(self)@ == old(self)@,
            has_inventory(old(self)@, player_id) ==> match content_to_equipment(old(self)@.equipments[player_id],
                old(self)@.containers[player_id], player_id, container_id, item_index, content_index, to_slot) {
                Err(e) => r == Err::<PlayerContainerToEquipmentOutcome, CoreError>(e),
                Ok((item, eq, cs)) => r is Ok && r->Ok_0.item@ == item && r->Ok_0.to_slot == to_slot
                    && final(self)@ == with_inventory(old(self)@, player_id, eq, cs),
            },
    {
        let (mut equipment, mut containers) = self.inventory_copies(player_id)?;
        if equipment.item(to_slot).is_some() {
            return Err(CoreError::OccupiedEquipmentSlot { player_id, slot: to_slot });
        }
        let mut container = match containers.remove(container_id) {
            Some(c) => c,
            None => { return Err(CoreError::UnknownPlayerContainer { player_id, container_id }); },
        };
        let item = match container.items.take_content(item_index, content_index) {
            Some(i) => i,
            None => { return Err(CoreError::UnknownPlayerContainerItem { player_id, container_id, item_index }); },
        };
        equipment.equip(to_slot, item.duplicate());
        containers.insert(container)?;
        self.commit_inventory(player_id, equipment, containers);
        Ok(PlayerContainerToEquipmentOutcome { player_id, container_id, item_index, to_slot, item })
    }

    /// Consumes one unit of an equipped stack; the last unit empties the slot. `Ok(false)` when empty.
    pub fn consume_player_equipment_item_unit(&mut self, player_id: u64, slot: EquipmentSlot) -> (r: Result<bool, CoreError>)
        ensures
            !old(self)@.equipments.contains_key(player_id) ==> r == Err::<bool, CoreError>(CoreError::UnknownPlayer(player_id))
                && final(self)@ == old(self)@,
            old(self)@.equipments.contains_key(player_id) ==> {
                let eq = old(self)@.equipments[player_id];
                let k = slot_code(slot);
                &&& r == Ok::<bool, CoreError>(eq.contains_key(k))
                &&& !eq.contains_key(k) ==> final(self)@ == old(self)@
                &&& eq.contains_key(k) ==> final(self)@ == (WorldModel {
                    equipments: old(self)@.equipments.insert(player_id, if eq[k].count > 1 {
                        eq.insert(k, with_count(eq[k], (eq[k].count - 1) as u16)) } else { eq.remove(k) }),
                    revision: bumped(old(self)@.revision),
                    ..old(self)@
                })
            },
    {
        let mut equipment = self.player_equipment(player_id)?.duplicate();
        let mut item = match equipment.unequip(slot) {
            Some(i) => i,
            None => { return Ok(false); },
        };
        if item.count > 1 {
            item.count = item.count - 1;
            equipment.equip(slot, item);
        }
        let ghost m = self@;
        self.player_equipments.insert(player_id, equipment);
        proof {
            assert(self@.equipments =~= m.equipments.insert(player_id, equipment@));
            let eq = m.equipments[player_id];
            let k = slot_code(slot);
            if eq[k].count > 1 {
                assert(equipment@ =~= eq.insert(k, with_count(eq[k], (eq[k].count - 1) as u16)));
            }
        }
        self.mark_changed();
        Ok(true)
    }

    /// Consumes one unit of a container stack; the last unit removes the entry. `Ok(false)` when
    /// the stack does not exist.
    pub fn consume_player_container_item_unit(&mut self, player_id: u64, container_id: u8, item_index: usize)
        -> (r: Result<bool, CoreError>)
        ensures
            !old(self)@.containers.contains_key(player_id) ==> r == Err::<bool, CoreError>(CoreError::UnknownPlayer(player_id)),
            old(self)@.containers.contains_key(player_id) && !old(self)@.containers[player_id].contains_key(container_id)
                ==> r == Err::<bool, CoreError>(CoreError::UnknownPlayerContainer { player_id, container_id }),
            r is Err || r == Ok::<bool, CoreError>(false) ==> final(self)@ == old(self)@,
            old(self)@.containers.contains_key(player_id) && old(self)@.containers[player_id].contains_key(container_id) ==> {
                let cs = old(self)@.containers[player_id];
                let c = cs[container_id];
                if item_index >= c.items.items.len() {
                    r == Ok::<bool, CoreError>(false)
                } else {
                    match reinserted(cs, container_id, ContainerView { items: consume_unit_model(c.items, item_index as int), ..c }) {
                        Err(e) => r == Err::<bool, CoreError>(e),
                        Ok(cs2) => r == Ok::<bool, CoreError>(true) && final(self)@ == (WorldModel {
                            containers: old(self)@.containers.insert(player_id, cs2),
                            revision: bumped(old(self)@.revision),
                            ..old(self)@
                        }),
                    }
                }
            },
    {
        let mut containers = self.player_containers(player_id)?.duplicate();
        let mut container = match containers.remove(container_id) {
            Some(c) => c,
            None => { return Err(CoreError::UnknownPlayerContainer { player_id, container_id }); },
        };
        let consumed = container.items.consume_item_unit(item_index);
        if consumed {
            containers.insert(container)?;
            let ghost m = self@;
            self.player_containers.insert(player_id, containers);
            proof { assert(self@.containers =~= m.containers.insert(player_id, containers@)); }
            self.mark_changed();
        }
        Ok(consumed)
    }

    /// Exchanges the items of two distinct occupied equipment slots.
    pub fn swap_equipment_items(&mut self, player_id: u64, from_slot: EquipmentSlot, to_slot: EquipmentSlot)
        -> (r: Result<PlayerEquipmentSlotSwapOutcome, CoreError>)
        ensures
            from_slot == to_slot ==> r == Err::<PlayerEquipmentSlotSwapOutcome, CoreError>(CoreError::SameEquipmentSlotTransfer {
                player_id, slot: from_slot }),
            from_slot != to_slot && !old(self)@.equipments.contains_key(player_id)
                ==> r == Err::<PlayerEquipmentSlotSwapOutcome, CoreError>(CoreError::UnknownPlayer(player_id)),
            r is Err ==> final(self)@ == old(self)@,
            from_slot != to_slot && old(self)@.equipments.contains_key(player_id) ==> {
                let eq = old(self)@.equipments[player_id];
                let a = slot_code(from_slot);
                let b = slot_code(to_slot);
                if !eq.contains_key(a) {
                    r == Err::<PlayerEquipmentSlotSwapOutcome, CoreError>(CoreError::EmptyEquipmentSlot { player_id, slot: from_slot })
                } else if !eq.contains_key(b) {
                    r == Err::<PlayerEquipmentSlotSwapOutcome, CoreError>(CoreError::EmptyEquipmentSlot { player_id, slot: to_slot })
                } else {
                    &&& r is Ok
                    &&& r->Ok_0.from_item@ == eq[a]
                    &&& r->Ok_0.to_item@ == eq[b]
                    &&& final(self)@ == (WorldModel {
                        equipments: old(self)@.equipments.insert(player_id, eq.insert(a, eq[b]).insert(b, eq[a])),
                        revision: bumped(old(self)@.revision),
                        ..old(self)@
                    })
                }
            },
    {
        if from_slot == to_slot {
            return Err(CoreError::SameEquipmentSlotTransfer { player_id, slot: from_slot });
        }
        let mut equipment = self.player_equipment(player_id)?.duplicate();
        let from_item = match equipment.unequip(from_slot) {
            Some(i) => i,
            None => { return Err(CoreError::EmptyEquipmentSlot { player_id, slot: from_slot }); },
        };
        let to_item = match equipment.unequip(to_slot) {
            Some(i) => i,
            None => { return Err(CoreError::EmptyEquipmentSlot { player_id, slot: to_slot }); },
        };
        proof { crate::items::lemma_slot_code_roundtrip(from_slot, slot_code(from_slot)); crate::items::lemma_slot_code_roundtrip(to_slot, slot_code(to_slot)); }
        equipment.equip(from_slot, to_item.duplicate());
        equipment.equip(to_slot, from_item.duplicate());
        let ghost m = self@;
        self.player_equipments.insert(player_id, equipment);
        proof {
            let eq = m.equipments[player_id];
            assert(equipment@ =~= eq.insert(slot_code(from_slot), eq[slot_code(to_slot)]).insert(slot_code(to_slot), eq[slot_code(from_slot)]));
            assert(self@.equipments =~= m.equipments.insert(player_id, equipment@));
        }
        self.mark_changed();
        Ok(PlayerEquipmentSlotSwapOutcome { player_id, from_slot, to_slot, from_item, to_item })
    }
    /// Moves one content item out of a container stack into another top-level container.
    pub fn move_content_item_to_container(&mut self, player_id: u64, container_id: u8, item_index: usize,
        content_index: usize, to_container_id: u8) -> (r: Result<(), CoreError>)
        ensures
            !old(self)@.containers.contains_key(player_id) ==> r == Err::<(), CoreError>(CoreError::UnknownPlayer(player_id)),
            r is Err ==> final(self)@ == old(self)@,
            old(self)@.containers.contains_key(player_id) ==> match content_to_container(old(self)@.containers[player_id],
                player_id, container_id, item_index, content_index, to_container_id) {
                Err(e) => r == Err::<(), CoreError>(e),
                Ok(cs) => r is Ok && final(self)@ == (WorldModel {
                    containers: old(self)@.containers.insert(player_id, cs),
                    revision: bumped(old(self)@.revision),
                    ..old(self)@
                }),
            },
    {
        let mut containers = self.player_containers(player_id)?.duplicate();
        let mut source = match containers.remove(container_id) {
            Some(c) => c,
            None => { return Err(CoreError::UnknownPlayerContainer { player_id, container_id }); },
        };
        let moved = match source.items.take_content(item_index, content_index) {
            Some(i) => i,
            None => { return Err(CoreError::UnknownPlayerContainerItem { player_id, container_id, item_index }); },
        };
        containers.insert(source)?;
        let mut target = match containers.remove(to_container_id) {
            Some(c) => c,
            None => { return Err(CoreError::UnknownPlayerContainer { player_id, container_id: to_container_id }); },
        };
        if target.has_parent {
            return Err(CoreError::UnknownPlayerContainer { player_id, container_id: to_container_id });
        }
        target.items.merge_or_insert_stack(moved)?;
        containers.insert(target)?;
        let ghost m = self@;
        self.player_containers.insert(player_id, containers);
        proof { assert(self@.containers =~= m.containers.insert(player_id, containers@)); }
        self.mark_changed();
        Ok(())
    }

    /// Exchanges one container stack with the item of an occupied equipment slot.
    pub fn swap_container_item_with_equipment(&mut self, player_id: u64, container_id: u8, item_index: usize,
        to_slot: EquipmentSlot) -> (r: Result<PlayerContainerToEquipmentSwapOutcome, CoreError>)
        ensures
            !old(self)@.equipments.contains_key(player_id) ==> r == Err::<PlayerContainerToEquipmentSwapOutcome, CoreError>(
                CoreError::UnknownPlayer(player_id)),
            old(self)@.equipments.contains_key(player_id) && !old(self)@.containers.contains_key(player_id)
                ==> r == Err::<PlayerContainerToEquipmentSwapOutcome, CoreError>(
                if old(self)@.equipments[player_id].contains_key(slot_code(to_slot)) { CoreError::UnknownPlayer(player_id) }
                else { CoreError::EmptyEquipmentSlot { player_id, slot: to_slot } }),
            r is Err ==> final(self)@ == old(self)@,
            has_inventory(old(self)@, player_id) ==> match container_equipment_swap(old(self)@.equipments[player_id],
                old(self)@.containers[player_id], player_id, container_id, item_index, to_slot) {
                Err(e) => r == Err::<PlayerContainerToEquipmentSwapOutcome, CoreError>(e),
                Ok((equipped, stored, eq, cs)) => r is Ok && r->Ok_0.equipped_item@ == equipped
                    && r->Ok_0.container_item@ == stored && final(self)@ == with_inventory(old(self)@, player_id, eq, cs),
            },
    {
        let mut equipment = self.player_equipment(player_id)?.duplicate();
        let equipped_item = match equipment.unequip(to_slot) {
            Some(i) => i,
            None => { return Err(CoreError::EmptyEquipmentSlot { player_id, slot: to_slot }); },
        };
        let mut containers = self.player_containers(player_id)?.duplicate();
        let mut container = match containers.remove(container_id) {
            Some(c) => c,
            None => { return Err(CoreError::UnknownPlayerContainer { player_id, container_id }); },
        };
        let container_item = match container.items.remove(item_index) {
            Some(i) => i,
            None => { return Err(CoreError::UnknownPlayerContainerItem { player_id, container_id, item_index }); },
        };
        equipment.equip(to_slot, container_item.duplicate());
        container.items.insert_at(item_index, equipped_item.duplicate());
        proof {
            let c = old(self)@.containers[player_id][container_id];
            assert(container@.items.items =~= c.items.items.update(item_index as int, equipped_item@));
            assert(equipment@ =~= old(self)@.equipments[player_id].insert(slot_code(to_slot), container_item@));
        }
        containers.insert(container)?;
        self.commit_inventory(player_id, equipment, containers);
        Ok(PlayerContainerToEquipmentSwapOutcome { player_id, container_id, item_index, to_slot, equipped_item, container_item })
    }

    /// Moves `count` units of an equipped stack into a container (merging or appending).
    pub fn move_equipment_stack_to_container(&mut self, player_id: u64, from_slot: EquipmentSlot, container_id: u8,
        count: u16) -> (r: Result<PlayerEquipmentStackToContainerOutcome, CoreError>)
        ensures
            !old(self)@.equipments.contains_key(player_id) ==> r == Err::<PlayerEquipmentStackToContainerOutcome, CoreError>(
                CoreError::UnknownPlayer(player_id)),
            !has_inventory(old(self)@, player_id) ==> r is Err,
            r is Err ==> final(self)@ == old(self)@,
            has_inventory(old(self)@, player_id) ==> match equipment_stack_to_container(old(self)@.equipments[player_id],
                old(self)@.containers[player_id], player_id, from_slot, container_id, count) {
                Err(e) => r == Err::<PlayerEquipmentStackToContainerOutcome, CoreError>(e),
                Ok((moved, remaining, out, eq, cs)) => r is Ok && r->Ok_0.moved_item@ == moved
                    && r->Ok_0.source_remaining_count == remaining && r->Ok_0.destination_index == out.0
                    && r->Ok_0.destination_count == out.1 && final(self)@ == with_inventory(old(self)@, player_id, eq, cs),
            },
    {
        let mut equipment = self.player_equipment(player_id)?.duplicate();
        let mut source = match equipment.unequip(from_slot) {
            Some(i) => i,
            None => { return Err(CoreError::EmptyEquipmentSlot { player_id, slot: from_slot }); },
        };
        let moved_item = source.split_off(count)?;
        let source_remaining_count = if source.count > 0 { Some(source.count) } else { None };
        if source.count > 0 {
            let ghost before = equipment@;
            equipment.equip(from_slot, source);
            proof {
                let eq = old(self)@.equipments[player_id];
                assert(equipment@ =~= eq.insert(slot_code(from_slot), source@));
            }
        }
        let mut containers = self.player_containers(player_id)?.duplicate();
        let mut container = match containers.remove(container_id) {
            Some(c) => c,
            None => { return Err(CoreError::UnknownPlayerContainer { player_id, container_id }); },
        };
        let (destination_index, destination_count) = container.items.merge_or_insert_stack(moved_item.duplicate())?;
        containers.insert(container)?;
        self.commit_inventory(player_id, equipment, containers);
        Ok(PlayerEquipmentStackToContainerOutcome { player_id, from_slot, container_id, destination_index, moved_item,
            source_remaining_count, destination_count })
    }

    /// Moves `count` units of a container stack into an equipment slot, merging with a compatible
    /// equipped stack when the slot is occupied.
    pub fn move_container_stack_to_equipment(&mut self, player_id: u64, container_id: u8, item_index: usize,
        to_slot: EquipmentSlot, count: u16) -> (r: Result<PlayerContainerStackToEquipmentOutcome, CoreError>)
        ensures
            !has_inventory(old(self)@, player_id) ==> r == Err::<PlayerContainerStackToEquipmentOutcome, CoreError>(
                CoreError::UnknownPlayer(player_id)),
            r is Err ==> final(self)@ == old(self)@,
            has_inventory(old(self)@, player_id) ==> match container_stack_to_equipment(old(self)@.equipments[player_id],
                old(self)@.containers[player_id], player_id, container_id, item_index, to_slot, count) {
                Err(e) => r == Err::<PlayerContainerStackToEquipmentOutcome, CoreError>(e),
                Ok((moved, remaining, destination_count, eq, cs)) => r is Ok && r->Ok_0.moved_item@ == moved
                    && r->Ok_0.source_remaining_count == remaining && r->Ok_0.destination_count == destination_count
                    && final(self)@ == with_inventory(old(self)@, player_id, eq, cs),
            },
    {
        let (mut equipment, mut containers) = self.inventory_copies(player_id)?;
        let mut container = match containers.remove(container_id) {
            Some(c) => c,
            None => { return Err(CoreError::UnknownPlayerContainer { player_id, container_id }); },
        };
        let mut remaining = match container.items.remove(item_index) {
            Some(i) => i,
            None => { return Err(CoreError::UnknownPlayerContainerItem { player_id, container_id, item_index }); },
        };
        let moved_item = remaining.split_off(count)?;
        let destination_count = match equipment.item(to_slot) {
            Some(d) => {
                let mut destination = d.duplicate();
                destination.merge_stack(&moved_item)?;
                let c = destination.count;
                equipment.equip(to_slot, destination);
                c
            },
            None => {
                equipment.equip(to_slot, moved_item.duplicate());
                moved_item.count
            },
        };
        let source_remaining_count = if remaining.count > 0 { Some(remaining.count) } else { None };
        if remaining.count > 0 {
            container.items.insert_at(item_index, remaining);
        }
        containers.insert(container)?;
        self.commit_inventory(player_id, equipment, containers);
        Ok(PlayerContainerStackToEquipmentOutcome { player_id, container_id, item_index, to_slot, moved_item,
            source_remaining_count, destination_count })
    }

    /// Moves `count` units of a stack between two distinct containers (merging or appending).
    pub fn move_container_stack_to_container(&mut self, player_id: u64, from_container_id: u8, item_index: usize,
        to_container_id: u8, count: u16) -> (r: Result<PlayerContainerStackToContainerOutcome, CoreError>)
        ensures
            from_container_id != to_container_id && !old(self)@.containers.contains_key(player_id)
                ==> r == Err::<PlayerContainerStackToContainerOutcome, CoreError>(CoreError::UnknownPlayer(player_id)),
            r is Err ==> final(self)@ == old(self)@,
            from_container_id == to_container_id ==> r == Err::<PlayerContainerStackToContainerOutcome, CoreError>(
                CoreError::SamePlayerContainerTransfer { player_id, container_id: from_container_id }),
            from_container_id != to_container_id && old(self)@.containers.contains_key(player_id)
                ==> match container_stack_to_container(old(self)@.containers[player_id], player_id, from_container_id,
                    item_index, to_container_id, count) {
                Err(e) => r == Err::<PlayerContainerStackToContainerOutcome, CoreError>(e),
                Ok((moved, remaining, out, cs)) => r is Ok && r->Ok_0.moved_item@ == moved
                    && r->Ok_0.source_remaining_count == remaining && r->Ok_0.destination_index == out.0
                    && r->Ok_0.destination_count == out.1 && final(self)@ == (WorldModel {
                        containers: old(self)@.containers.insert(player_id, cs),
                        revision: bumped(old(self)@.revision),
                        ..old(self)@
                    }),
            },
    {
        if from_container_id == to_container_id {
            return Err(CoreError::SamePlayerContainerTransfer { player_id, container_id: from_container_id });
        }
        let mut containers = self.player_containers(player_id)?.duplicate();
        let mut source_container = match containers.remove(from_container_id) {
            Some(c) => c,
            None => { return Err(CoreError::UnknownPlayerContainer { player_id, container_id: from_container_id }); },
        };
        let mut destination_container = match containers.remove(to_container_id) {
            Some(c) => c,
            None => { return Err(CoreError::UnknownPlayerContainer { player_id, container_id: to_container_id }); },
        };
        let mut remaining = match source_container.items.remove(item_index) {
            Some(i) => i,
            None => { return Err(CoreError::UnknownPlayerContainerItem { player_id, container_id: from_container_id, item_index }); },
        };
        let moved_item = remaining.split_off(count)?;
        let (destination_index, destination_count) = destination_container.items.merge_or_insert_stack(moved_item.duplicate())?;
        let source_remaining_count = if remaining.count > 0 { Some(remaining.count) } else { None };
        if remaining.count > 0 {
            source_container.items.insert_at(item_index, remaining);
        }
        containers.insert(source_container)?;
        containers.insert(destination_container)?;
        let ghost m = self@;
        self.player_containers.insert(player_id, containers);
        proof { assert(self@.containers =~= m.containers.insert(player_id, containers@)); }
        self.mark_changed();
        Ok(PlayerContainerStackToContainerOutcome { player_id, from_container_id, item_index, to_container_id,
            destination_index, moved_item, source_remaining_count, destination_count })
    }
    /// Takes `count` units off an equipment slot, a container stack or a container item's content
    /// so the caller can place them on the ground.
    pub fn take_player_stack_for_ground_drop(&mut self, player_id: u64, source: PlayerGroundDropSource, count: u16)
        -> (r: Result<PlayerGroundDropOutcome, CoreError>)
        ensures
            !has_inventory(old(self)@, player_id) ==> r == Err::<PlayerGroundDropOutcome, CoreError>(CoreError::UnknownPlayer(player_id)),
            r is Err ==> final(self)@ == old(self)@,
            has_inventory(old(self)@, player_id) ==> match ground_drop(old(self)@.equipments[player_id],
                old(self)@.containers[player_id], player_id, source, count) {
                Err(e) => r == Err::<PlayerGroundDropOutcome, CoreError>(e),
                Ok((moved, remaining, eq, cs)) => r is Ok && r->Ok_0.moved_item@ == moved && r->Ok_0.source == source
                    && r->Ok_0.player_id == player_id && r->Ok_0.source_remaining_count == remaining
                    && final(self)@ == with_inventory(old(self)@, player_id, eq, cs),
            },
    {
        let (mut equipment, mut containers) = self.inventory_copies(player_id)?;
        let ghost eq0 = equipment@;
        let (moved_item, source_remaining_count) = match source {
            PlayerGroundDropSource::EquipmentSlot(slot) => {
                let mut stack = match equipment.unequip(slot) {
                    Some(i) => i,
                    None => { return Err(CoreError::EmptyEquipmentSlot { player_id, slot }); },
                };
                let moved = stack.split_off(count)?;
                let remaining = if stack.count > 0 { Some(stack.count) } else { None };
                if stack.count > 0 {
                    equipment.equip(slot, stack);
                    proof { assert(equipment@ =~= eq0.insert(slot_code(slot), stack@)); }
                }
                (moved, remaining)
            },
            PlayerGroundDropSource::ContainerItem { container_id, item_index } => {
                let mut container = match containers.remove(container_id) {
                    Some(c) => c,
                    None => { return Err(CoreError::UnknownPlayerContainer { player_id, container_id }); },
                };
                let mut stack = match container.items.remove(item_index) {
                    Some(i) => i,
                    None => { return Err(CoreError::UnknownPlayerContainerItem { player_id, container_id, item_index }); },
                };
                let moved = stack.split_off(count)?;
                let remaining = if stack.count > 0 { Some(stack.count) } else { None };
                if stack.count > 0 {
                    container.items.insert_at(item_index, stack);
                }
                containers.insert(container)?;
                (moved, remaining)
            },
            PlayerGroundDropSource::ContainerContent { container_id, item_index, content_index } => {
                let mut container = match containers.remove(container_id) {
                    Some(c) => c,
                    None => { return Err(CoreError::UnknownPlayerContainer { player_id, container_id }); },
                };
                let ghost c0 = container@;
                let ghost host = container.items@.items[item_index as int];
                let mut stack = match container.items.take_content(item_index, content_index) {
                    Some(i) => i,
                    None => { return Err(CoreError::UnknownPlayerContainerItem { player_id, container_id, item_index }); },
                };
                let moved = stack.split_off(count)?;
                let remaining = if stack.count > 0 { Some(stack.count) } else { None };
                if stack.count > 0 {
                    container.items.insert_content_at(item_index, content_index, &stack);
                    proof {
                        assert(host.contents.remove(content_index as int).insert(content_index as int, content_of(stack@))
                            =~= host.contents.update(content_index as int,
                                ItemContent { count: stack.count, ..host.contents[content_index as int] }));
                    }
                }
                proof {
                    let entry = host.contents[content_index as int];
                    let rest = if stack.count > 0 {
                        host.contents.update(content_index as int, ItemContent { count: stack.count, ..entry })
                    } else {
                        host.contents.remove(content_index as int)
                    };
                    assert(container@.items.items =~= c0.items.items.update(item_index as int, ItemView { contents: rest, ..host }));
                    assert(container@ == with_items(c0, c0.items.items.update(item_index as int, ItemView { contents: rest, ..host })));
                }
                containers.insert(container)?;
                (moved, remaining)
            },
        };
        self.commit_inventory(player_id, equipment, containers);
        Ok(PlayerGroundDropOutcome { player_id, source, moved_item, source_remaining_count })
    }
    /// Puts a moved stack back at its source on a working copy; only its failure matters.
    fn restore_moved_item(player_id: u64, equipment: &mut PlayerEquipment, containers: &mut PlayerContainers,
        source: GenericMoveSourceKind, item: &ItemInstance) -> (r: Result<(), CoreError>)
        requires
            match source {
                GenericMoveSourceKind::Container { container_id, .. } => old(containers)@.contains_key(container_id),
                _ => true,
            },
        ensures
            match source {
                GenericMoveSourceKind::Equipment { .. } => r is Ok,
                GenericMoveSourceKind::Container { container_id, .. } => {
                    let c = old(containers)@[container_id];
                    if c.items.items.len() >= c.items.capacity {
                        r == Err::<(), CoreError>(CoreError::ContainerFull { capacity: c.items.capacity })
                    } else {
                        r is Ok
                    }
                },
            },
    {
        match source {
            GenericMoveSourceKind::Equipment { slot } => {
                equipment.equip(slot, item.duplicate());
                Ok(())
            },
            GenericMoveSourceKind::Container { container_id, index: _ } => {
                let mut container = containers.container(container_id).unwrap().duplicate();
                container.items.insert(item.duplicate())?;
                containers.replace_window(container_id, container);
                Ok(())
            },
        }
    }

    /// Executes one resolved inventory move atomically: the source is detached (whole or split),
    /// then the item is placed, merged, or swapped with the destination's item; any refusal leaves
    /// the world unchanged.
    pub fn execute_generic_inventory_move(&mut self, player_id: u64, plan: GenericInventoryMove)
        -> (r: Result<GenericInventoryMoveOutcome, CoreError>)
        ensures
            !old(self)@.players.contains_key(player_id) ==> r == Err::<GenericInventoryMoveOutcome, CoreError>(CoreError::UnknownPlayer(player_id)),
            r is Err ==> final(self)@ == old(self)@,
            old(self)@.players.contains_key(player_id) ==> {
                if (match (plan.source_kind, plan.target) {
                    (GenericMoveSourceKind::Equipment { slot: a }, GenericMoveTargetKind::Equipment { slot: b, .. }) => a == b,
                    _ => false,
                }) {
                    r == Err::<GenericInventoryMoveOutcome, CoreError>(CoreError::SameEquipmentSlotTransfer { player_id,
                        slot: plan.source_kind->slot })
                } else if !has_inventory(old(self)@, player_id) {
                    r == Err::<GenericInventoryMoveOutcome, CoreError>(CoreError::UnknownPlayer(player_id))
                } else {
                    match generic_move(old(self)@.equipments[player_id], old(self)@.containers[player_id], player_id, plan) {
                        Err(e) => r == Err::<GenericInventoryMoveOutcome, CoreError>(e),
                        Ok((moved, placement, remaining, eq, cs)) => {
                            &&& r is Ok
                            &&& r->Ok_0.player_id == player_id
                            &&& r->Ok_0.moved_item@ == moved
                            &&& placement_view(r->Ok_0.placement) == placement
                            &&& r->Ok_0.remaining_source_count == remaining
                            &&& final(self)@ == with_inventory(old(self)@, player_id, eq, cs)
                        },
                    }
                }
            },
    {
        if !self.players.contains_key(&player_id) {
            return Err(CoreError::UnknownPlayer(player_id));
        }
        match (plan.source_kind, plan.target) {
            (GenericMoveSourceKind::Equipment { slot: a }, GenericMoveTargetKind::Equipment { slot: b, .. }) => {
                if a == b {
                    return Err(CoreError::SameEquipmentSlotTransfer { player_id, slot: a });
                }
            },
            _ => {},
        }
        let (mut equipment, mut containers) = self.inventory_copies(player_id)?;
        let ghost eq0 = equipment@;
        let ghost cs0 = containers@;
        let (moved_item, remaining_source_count) = match plan.source_kind {
            GenericMoveSourceKind::Equipment { slot } => {
                let item = match equipment.item(slot) {
                    Some(i) => i.duplicate(),
                    None => { return Err(CoreError::EmptyEquipmentSlot { player_id, slot }); },
                };
                let take = match plan.source_count { Some(t) => t, None => item.count };
                if take == 0 || take > item.count {
                    return Err(CoreError::InvalidItemTransferCount { requested: take, available: item.count });
                }
                let original_count = item.count;
                let moved = if take == item.count {
                    equipment.unequip(slot);
                    item
                } else {
                    let mut whole = item;
                    let split = whole.split_off(take)?;
                    equipment.equip(slot, whole);
                    split
                };
                (moved, (original_count - take) as u32)
            },
            GenericMoveSourceKind::Container { container_id, index } => {
                let mut container = match containers.container(container_id) {
                    Some(c) => c.duplicate(),
                    None => { return Err(CoreError::UnknownPlayerContainer { player_id, container_id }); },
                };
                let item = match container.items.item(index) {
                    Some(i) => i.duplicate(),
                    None => { return Err(CoreError::UnknownPlayerContainerItem { player_id, container_id, item_index: index }); },
                };
                let take = match plan.source_count { Some(t) => t, None => item.count };
                if take == 0 || take > item.count {
                    return Err(CoreError::InvalidItemTransferCount { requested: take, available: item.count });
                }
                let original_count = item.count;
                let moved = if take == item.count {
                    container.items.remove(index);
                    item
                } else {
                    let mut whole = item;
                    let split = whole.split_off(take)?;
                    container.items.replace_item(index, whole);
                    split
                };
                containers.replace_window(container_id, container);
                (moved, (original_count - take) as u32)
            },
        };
        proof {
            match detach_source(eq0, cs0, player_id, plan.source_kind, plan.source_count) {
                Ok((m, rem, e1, c1)) => {
                    assert(equipment@ =~= e1);
                    assert(containers@ =~= c1);
                },
                Err(_) => {},
            }
        }
        let ghost eq1 = equipment@;
        let ghost cs1 = containers@;
        let placement = match plan.target {
            GenericMoveTargetKind::Equipment { slot, allow_swap } => {
                let existing = match equipment.item(slot) {
                    Some(i) => Some(i.duplicate()),
                    None => None,
                };
                match existing {
                    None => {
                        equipment.equip(slot, moved_item.duplicate());
                        GenericPlacement::Placed
                    },
                    Some(current) => {
                        if allow_swap && plan.source_kind != (GenericMoveSourceKind::Equipment { slot }) {
                            let source_held = match plan.source_kind {
                                GenericMoveSourceKind::Equipment { slot: from } => equipment.item(from).is_some(),
                                GenericMoveSourceKind::Container { .. } => false,
                            };
                            if source_held {
                                return Err(CoreError::OccupiedEquipmentSlot { player_id, slot });
                            }
                            equipment.equip(slot, moved_item.duplicate());
                            match plan.source_kind {
                                GenericMoveSourceKind::Container { container_id, .. } => {
                                    let mut container = containers.container(container_id).unwrap().duplicate();
                                    container.items.insert(current.duplicate())?;
                                    containers.replace_window(container_id, container);
                                },
                                GenericMoveSourceKind::Equipment { slot: from } => {
                                    equipment.equip(from, current.duplicate());
                                },
                            }
                            GenericPlacement::Swapped { displaced: current }
                        } else {
                            Self::restore_moved_item(player_id, &mut equipment, &mut containers, plan.source_kind, &moved_item)?;
                            return Err(CoreError::OccupiedEquipmentSlot { player_id, slot });
                        }
                    },
                }
            },
            GenericMoveTargetKind::Container { container_id } => {
                let mut container = match containers.container(container_id) {
                    Some(c) => c.duplicate(),
                    None => {
                        Self::restore_moved_item(player_id, &mut equipment, &mut containers, plan.source_kind, &moved_item)?;
                        return Err(CoreError::UnknownPlayerContainer { player_id, container_id });
                    },
                };
                match container.items.merge_or_insert_stack(moved_item.duplicate()) {
                    Ok(_) => {
                        containers.replace_window(container_id, container);
                        GenericPlacement::MergedOrInserted
                    },
                    Err(error) => {
                        Self::restore_moved_item(player_id, &mut equipment, &mut containers, plan.source_kind, &moved_item)?;
                        return Err(error);
                    },
                }
            },
        };
        proof {
            match place_moved(eq1, cs1, player_id, plan, moved_item@) {
                Ok((pl, e2, c2)) => {
                    assert(equipment@ =~= e2);
                    assert(containers@ =~= c2);
                },
                Err(_) => {},
            }
        }
        self.commit_inventory(player_id, equipment, containers);
        Ok(GenericInventoryMoveOutcome { player_id, moved_item, placement, remaining_source_count })
    }
}

} // verus!
