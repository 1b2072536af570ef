//! Item instances, ordered containers, equipment and player-owned container windows.

use vstd::prelude::*;
use crate::keys::map_entry_mut;
use std::collections::BTreeMap;
use crate::error::CoreError;
use vstd::string::StringSliceAdditionalSpecFns;

verus! {

broadcast use {vstd::std_specs::btree::group_btree_axioms, vstd::laws_cmp::group_laws_cmp};

pub const MAX_ITEM_STACK_COUNT: u16 = 100;
pub const MAX_CONTAINER_CAPACITY: u16 = 100;
pub const MAX_PLAYER_CONTAINERS: usize = 16;
pub const MAX_PLAYER_CONTAINER_NAME_BYTES: usize = 64;
/// Maximum number of direct content slots per container item instance.
pub const MAX_CONTENT_SLOTS: usize = 20;

/// The fixed equipment locations of a player inventory.
#[derive(Debug, Clone, Copy, PartialEq, Eq, PartialOrd, Ord, Hash, Structural)]
pub enum EquipmentSlot {
    Head,
    Neck,
    Backpack,
    Armor,
    RightHand,
    LeftHand,
    Legs,
    Feet,
    Ring,
    Ammo,
}

pub open spec fn slot_code(slot: EquipmentSlot) -> u8 {
    match slot {
        EquipmentSlot::Head => 1,
        EquipmentSlot::Neck => 2,
        EquipmentSlot::Backpack => 3,
        EquipmentSlot::Armor => 4,
        EquipmentSlot::RightHand => 5,
        EquipmentSlot::LeftHand => 6,
        EquipmentSlot::Legs => 7,
        EquipmentSlot::Feet => 8,
        EquipmentSlot::Ring => 9,
        EquipmentSlot::Ammo => 10,
    }
}

pub open spec fn slot_from_code(code: u8) -> Option<EquipmentSlot> {
    if code == 1 { Some(EquipmentSlot::Head) }
    else if code == 2 { Some(EquipmentSlot::Neck) }
    else if code == 3 { Some(EquipmentSlot::Backpack) }
    else if code == 4 { Some(EquipmentSlot::Armor) }
    else if code == 5 { Some(EquipmentSlot::RightHand) }
    else if code == 6 { Some(EquipmentSlot::LeftHand) }
    else if code == 7 { Some(EquipmentSlot::Legs) }
    else if code == 8 { Some(EquipmentSlot::Feet) }
    else if code == 9 { Some(EquipmentSlot::Ring) }
    else if code == 10 { Some(EquipmentSlot::Ammo) }
    else { None }
}

impl EquipmentSlot {
    pub fn code(self) -> (r: u8)
        ensures
            r == slot_code(self),
    {
        match self {
            EquipmentSlot::Head => 1,
            EquipmentSlot::Neck => 2,
            EquipmentSlot::Backpack => 3,
            EquipmentSlot::Armor => 4,
            EquipmentSlot::RightHand => 5,
            EquipmentSlot::LeftHand => 6,
            EquipmentSlot::Legs => 7,
            EquipmentSlot::Feet => 8,
            EquipmentSlot::Ring => 9,
            EquipmentSlot::Ammo => 10,
        }
    }

    pub fn from_code(code: u8) -> (r: Option<EquipmentSlot>)
        ensures
            r == slot_from_code(code),
    {
        match code {
            1 => Some(EquipmentSlot::Head),
            2 => Some(EquipmentSlot::Neck),
            3 => Some(EquipmentSlot::Backpack),
            4 => Some(EquipmentSlot::Armor),
            5 => Some(EquipmentSlot::RightHand),
            6 => Some(EquipmentSlot::LeftHand),
            7 => Some(EquipmentSlot::Legs),
            8 => Some(EquipmentSlot::Feet),
            9 => Some(EquipmentSlot::Ring),
            10 => Some(EquipmentSlot::Ammo),
            _ => None,
        }
    }
}

/// Every slot's code decodes back to the slot, and the codes are exactly 1 through 10.
pub proof fn lemma_slot_code_roundtrip(slot: EquipmentSlot, code: u8)
    ensures
        slot_from_code(slot_code(slot)) == Some(slot),
        1 <= slot_code(slot) <= 10,
        slot_from_code(code) is Some <==> 1 <= code <= 10,
        slot_from_code(code) is Some ==> slot_code(slot_from_code(code)->0) == code,
{
}

/// The persistent attributes of one nested content item. Content items hold no contents of
/// their own, so nesting is always exactly one level deep.
#[derive(Debug, Clone, Copy, PartialEq, Eq, Structural)]
pub struct ItemContent {
    pub server_id: u16,
    pub count: u16,
    pub action_id: Option<u16>,
    pub unique_id: Option<u16>,
}

/// The model of an item instance: its attributes and its direct contents.
pub struct ItemView {
    pub server_id: u16,
    pub count: u16,
    pub action_id: Option<u16>,
    pub unique_id: Option<u16>,
    pub contents: Seq<ItemContent>,
}

/// A bounded runtime instance of an operator-supplied item type.
#[derive(Debug, Clone, PartialEq, Eq)]
pub struct ItemInstance {
    pub server_id: u16,
    pub count: u16,
    pub action_id: Option<u16>,
    pub unique_id: Option<u16>,
    /// Direct contents when this instance is used as a container.
    pub contents: Vec<ItemContent>,
}

pub open spec fn content_of(item: ItemView) -> ItemContent {
    ItemContent { server_id: item.server_id, count: item.count, action_id: item.action_id, unique_id: item.unique_id }
}

pub open spec fn content_view(c: ItemContent) -> ItemView {
    ItemView { server_id: c.server_id, count: c.count, action_id: c.action_id, unique_id: c.unique_id, contents: Seq::empty() }
}

/// Item views of a sequence of instances.
pub open spec fn item_views(s: Seq<ItemInstance>) -> Seq<ItemView> {
    s.map_values(|i: ItemInstance| i@)
}

impl View for ItemInstance {
    type V = ItemView;

    open spec fn view(&self) -> ItemView {
        ItemView {
            server_id: self.server_id,
            count: self.count,
            action_id: self.action_id,
            unique_id: self.unique_id,
            contents: self.contents@,
        }
    }
}

/// Same type and persistent attributes: the stack-merge compatibility relation.
pub open spec fn stack_compatible(a: ItemView, b: ItemView) -> bool {
    a.server_id == b.server_id && a.action_id == b.action_id && a.unique_id == b.unique_id
}

pub open spec fn with_count(item: ItemView, count: u16) -> ItemView {
    ItemView { count, ..item }
}

pub fn opt_u16_eq(a: Option<u16>, b: Option<u16>) -> (r: bool)
    ensures
        r == (a == b),
{
    match (a, b) {
        (Some(x), Some(y)) => x == y,
        (None, None) => true,
        _ => false,
    }
}

impl ItemInstance {
    /// Nesting depth accepted by `insert_content`: a container inside a container.
    pub const MAX_CONTENT_DEPTH: u8 = 1;
    /// Direct content slots of one container instance.
    pub const MAX_CONTENT_SLOTS: usize = MAX_CONTENT_SLOTS;

    pub fn new(server_id: u16, count: u16) -> (r: Result<ItemInstance, CoreError>)
        ensures
            server_id == 0 ==> r == Err::<ItemInstance, CoreError>(CoreError::InvalidItemId(server_id)),
            server_id != 0 && !(1 <= count <= MAX_ITEM_STACK_COUNT) ==> r == Err::<ItemInstance, CoreError>(CoreError::InvalidItemStackCount(count)),
            server_id != 0 && 1 <= count <= MAX_ITEM_STACK_COUNT ==> r is Ok && r->Ok_0@ == (ItemView {
                server_id, count, action_id: None, unique_id: None, contents: Seq::empty() }),
    {
        if server_id == 0 {
            return Err(CoreError::InvalidItemId(server_id));
        }
        if count < 1 || count > MAX_ITEM_STACK_COUNT {
            return Err(CoreError::InvalidItemStackCount(count));
        }
        let r = ItemInstance { server_id, count, action_id: None, unique_id: None, contents: Vec::new() };
        assert(r@.contents =~= Seq::<ItemContent>::empty());
        Ok(r)
    }

    /// An instance holding exactly the attributes of one content item.
    pub fn from_content(c: ItemContent) -> (r: ItemInstance)
        ensures
            r@ == content_view(c),
    {
        let r = ItemInstance { server_id: c.server_id, count: c.count, action_id: c.action_id, unique_id: c.unique_id, contents: Vec::new() };
        assert(r@.contents =~= Seq::<ItemContent>::empty());
        r
    }

    /// A copy with the same model.
    pub fn duplicate(&self) -> (r: ItemInstance)
        ensures
            r@ == self@,
    {
        let mut contents: Vec<ItemContent> = Vec::new();
        let mut i: usize = 0;
        while i < self.contents.len()
            invariant
                i <= self.contents@.len(),
                contents@ =~= self.contents@.subrange(0, i as int),
            decreases self.contents@.len() - i,
        {
            contents.push(self.contents[i]);
            i += 1;
        }
        assert(self.contents@.subrange(0, i as int) =~= self.contents@);
        ItemInstance { server_id: self.server_id, count: self.count, action_id: self.action_id, unique_id: self.unique_id, contents }
    }

    /// Model equality of two instances.
    pub fn same_as(&self, other: &ItemInstance) -> (r: bool)
        ensures
            r == (self@ == other@),
    {
        if self.server_id != other.server_id || self.count != other.count
            || !opt_u16_eq(self.action_id, other.action_id) || !opt_u16_eq(self.unique_id, other.unique_id)
            || self.contents.len() != other.contents.len() {
            proof {
                if self.contents.len() != other.contents.len() {
                    assert(self@.contents.len() != other@.contents.len());
                }
            }
            return false;
        }
        let mut i: usize = 0;
        while i < self.contents.len()
            invariant
                i <= self.contents@.len(),
                self.contents@.len() == other.contents@.len(),
                forall|j: int| 0 <= j < i ==> (#[trigger] self.contents@[j]) == other.contents@[j],
            decreases self.contents@.len() - i,
        {
            if self.contents[i] != other.contents[i] {
                assert(self@.contents[i as int] != other@.contents[i as int]);
                return false;
            }
            i += 1;
        }
        assert(self@.contents =~= other@.contents);
        true
    }

    /// Read-only view of the direct contents.
    pub fn contents(&self) -> (r: &[ItemContent])
        ensures
            r@ == self@.contents,
    {
        self.contents.as_slice()
    }

    /// Inserts one item without contents of its own as direct content of this instance.
    pub fn insert_content(&mut self, item: ItemInstance) -> (r: Result<(), CoreError>)
        ensures
            item.server_id == 0 ==> r == Err::<(), CoreError>(CoreError::InvalidItemId(item.server_id)),
            item.server_id != 0 && old(self)@.contents.len() >= MAX_CONTENT_SLOTS
                ==> r == Err::<(), CoreError>(CoreError::ContainerFull { capacity: 20 }),
            item.server_id != 0 && old(self)@.contents.len() < MAX_CONTENT_SLOTS && item@.contents.len() > 0
                ==> r == Err::<(), CoreError>(CoreError::InvalidItemContentDepth),
            r is Err ==> final(self)@ == old(self)@,
            r is Ok <==> (item.server_id != 0 && old(self)@.contents.len() < MAX_CONTENT_SLOTS && item@.contents.len() == 0),
            r is Ok ==> final(self)@ == (ItemView { contents: old(self)@.contents.push(content_of(item@)), ..old(self)@ }),
    {
        if item.server_id == 0 {
            return Err(CoreError::InvalidItemId(item.server_id));
        }
        if self.contents.len() >= MAX_CONTENT_SLOTS {
            return Err(CoreError::ContainerFull { capacity: 20 });
        }
        if item.contents.len() > 0 {
            return Err(CoreError::InvalidItemContentDepth);
        }
        self.contents.push(ItemContent { server_id: item.server_id, count: item.count, action_id: item.action_id, unique_id: item.unique_id });
        assert(self@.contents =~= old(self)@.contents.push(content_of(item@)));
        Ok(())
    }

    /// Removes and returns one direct content item by index.
    pub fn take_content(&mut self, index: usize) -> (r: Option<ItemInstance>)
        ensures
            index < old(self)@.contents.len() ==> r is Some && r->0@ == content_view(old(self)@.contents[index as int])
                && final(self)@ == (ItemView { contents: old(self)@.contents.remove(index as int), ..old(self)@ }),
            index >= old(self)@.contents.len() ==> r is None && final(self)@ == old(self)@,
    {
        if index < self.contents.len() {
            let taken = self.contents.remove(index);
            assert(self@.contents =~= old(self)@.contents.remove(index as int));
            Some(ItemInstance::from_content(taken))
        } else {
            None
        }
    }

    /// Same type and persistent attributes.
    pub fn is_stack_compatible_with(&self, other: &ItemInstance) -> (r: bool)
        ensures
            r == stack_compatible(self@, other@),
    {
        self.server_id == other.server_id && opt_u16_eq(self.action_id, other.action_id)
            && opt_u16_eq(self.unique_id, other.unique_id)
    }

    /// Splits `count` units off this stack into a new instance with the same attributes.
    pub fn split_off(&mut self, count: u16) -> (r: Result<ItemInstance, CoreError>)
        ensures
            (count == 0 || count > old(self).count) ==> r == Err::<ItemInstance, CoreError>(
                CoreError::InvalidItemTransferCount { requested: count, available: old(self).count })
                && final(self)@ == old(self)@,
            !(count == 0 || count > old(self).count) ==> r is Ok
                && r->Ok_0@ == with_count(old(self)@, count)
                && final(self)@ == with_count(old(self)@, (old(self).count - count) as u16),
    {
        if count == 0 || count > self.count {
            return Err(CoreError::InvalidItemTransferCount { requested: count, available: self.count });
        }
        self.count = self.count - count;
        let mut split = self.duplicate();
        split.count = count;
        Ok(split)
    }

    /// Merges one compatible complete stack while enforcing the bounded stack count.
    pub fn merge_stack(&mut self, incoming: &ItemInstance) -> (r: Result<(), CoreError>)
        ensures
            !stack_compatible(old(self)@, incoming@) ==> r == Err::<(), CoreError>(CoreError::IncompatibleItemStacks),
            stack_compatible(old(self)@, incoming@) && old(self).count + incoming.count > MAX_ITEM_STACK_COUNT
                ==> r == Err::<(), CoreError>(CoreError::ItemStackCountOverflow { existing: old(self).count, incoming: incoming.count }),
            r is Err ==> final(self)@ == old(self)@,
            r is Ok <==> stack_compatible(old(self)@, incoming@) && old(self).count + incoming.count <= MAX_ITEM_STACK_COUNT,
            r is Ok ==> final(self)@ == with_count(old(self)@, (old(self).count + incoming.count) as u16),
    {
        if !self.is_stack_compatible_with(incoming) {
            return Err(CoreError::IncompatibleItemStacks);
        }
        if self.count as u32 + incoming.count as u32 > MAX_ITEM_STACK_COUNT as u32 {
            return Err(CoreError::ItemStackCountOverflow { existing: self.count, incoming: incoming.count });
        }
        self.count = self.count + incoming.count;
        Ok(())
    }
}

/// Splitting a stack and merging the split part back restores the stack as it was.
pub proof fn lemma_split_then_merge_restores(item: ItemView, count: u16)
    requires
        0 < count <= item.count,
    ensures
        ({
            let rest = with_count(item, (item.count - count) as u16);
            let part = with_count(item, count);
            &&& stack_compatible(rest, part)
            &&& rest.count + part.count == item.count
            &&& with_count(rest, (rest.count + part.count) as u16) == item
        }),
{
}

/// The model of an ordered bounded container.
pub struct ItemContainerView {
    pub capacity: u16,
    pub items: Seq<ItemView>,
}

/// Ordered bounded storage for validated item instances.
#[derive(Debug, Clone, PartialEq, Eq)]
pub struct ItemContainer {
    capacity: u16,
    items: Vec<ItemInstance>,
}

impl View for ItemContainer {
    type V = ItemContainerView;

    open spec fn view(&self) -> ItemContainerView {
        ItemContainerView { capacity: self.spec_capacity(), items: self.item_seq() }
    }
}

/// The index of the first stack that can absorb `item` completely, scanning from `start`.
pub open spec fn first_mergeable(items: Seq<ItemView>, item: ItemView, start: int) -> int
    decreases items.len() - start,
{
    if start >= items.len() || start < 0 {
        items.len() as int
    } else if stack_compatible(items[start], item) && items[start].count + item.count <= MAX_ITEM_STACK_COUNT {
        start
    } else {
        first_mergeable(items, item, start + 1)
    }
}

/// The index of the first compatible stack, scanning from `start`.
pub open spec fn first_compatible(items: Seq<ItemView>, item: ItemView, start: int) -> int
    decreases items.len() - start,
{
    if start >= items.len() || start < 0 {
        items.len() as int
    } else if stack_compatible(items[start], item) {
        start
    } else {
        first_compatible(items, item, start + 1)
    }
}

/// Result model of merging `item` into the first stack with room, or appending it.
pub open spec fn merge_or_insert_model(c: ItemContainerView, item: ItemView) -> Result<(ItemContainerView, (usize, u16)), CoreError> {
    let m = first_mergeable(c.items, item, 0);
    let f = first_compatible(c.items, item, 0);
    if m < c.items.len() {
        let merged = with_count(c.items[m], (c.items[m].count + item.count) as u16);
        Ok((ItemContainerView { items: c.items.update(m, merged), ..c }, (m as usize, merged.count)))
    } else if f < c.items.len() {
        Err(CoreError::ItemStackCountOverflow { existing: c.items[f].count, incoming: item.count })
    } else if c.items.len() >= c.capacity {
        Err(CoreError::ContainerFull { capacity: c.capacity })
    } else {
        Ok((ItemContainerView { items: c.items.push(item), ..c }, (c.items.len() as usize, item.count)))
    }
}

pub proof fn lemma_first_mergeable_bounds(items: Seq<ItemView>, item: ItemView, start: int)
    requires
        0 <= start <= items.len(),
    ensures
        start <= first_mergeable(items, item, start) <= items.len(),
        first_mergeable(items, item, start) < items.len() ==> stack_compatible(items[first_mergeable(items, item, start)], item)
            && items[first_mergeable(items, item, start)].count + item.count <= MAX_ITEM_STACK_COUNT,
    decreases items.len() - start,
{
    if start < items.len() {
        lemma_first_mergeable_bounds(items, item, start + 1);
    }
}

pub proof fn lemma_first_compatible_bounds(items: Seq<ItemView>, item: ItemView, start: int)
    requires
        0 <= start <= items.len(),
    ensures
        start <= first_compatible(items, item, start) <= items.len(),
    decreases items.len() - start,
{
    if start < items.len() {
        lemma_first_compatible_bounds(items, item, start + 1);
    }
}

impl ItemContainer {
    pub closed spec fn spec_capacity(&self) -> u16 {
        self.capacity
    }

    pub closed spec fn item_seq(&self) -> Seq<ItemView> {
        item_views(self.items@)
    }

    pub fn new(capacity: u16) -> (r: Result<ItemContainer, CoreError>)
        ensures
            (capacity == 0 || capacity > MAX_CONTAINER_CAPACITY) ==> r == Err::<ItemContainer, CoreError>(CoreError::InvalidContainerCapacity(capacity)),
            !(capacity == 0 || capacity > MAX_CONTAINER_CAPACITY) ==> r is Ok && r->Ok_0@ == (ItemContainerView { capacity, items: Seq::empty() }),
    {
        if capacity == 0 || capacity > MAX_CONTAINER_CAPACITY {
            return Err(CoreError::InvalidContainerCapacity(capacity));
        }
        let r = ItemContainer { capacity, items: Vec::new() };
        assert(r@.items =~= Seq::<ItemView>::empty());
        Ok(r)
    }

    pub fn capacity(&self) -> (r: u16)
        ensures
            r == self@.capacity,
    {
        self.capacity
    }

    pub fn len(&self) -> (r: usize)
        ensures
            r == self@.items.len(),
    {
        self.items.len()
    }

    pub fn is_empty(&self) -> (r: bool)
        ensures
            r == (self@.items.len() == 0),
    {
        self.items.len() == 0
    }

    pub fn item(&self, index: usize) -> (r: Option<&ItemInstance>)
        ensures
            index < self@.items.len() ==> r is Some && r->0@ == self@.items[index as int],
            index >= self@.items.len() ==> r is None,
    {
        if index < self.items.len() {
            Some(&self.items[index])
        } else {
            None
        }
    }

    /// Mutable access to the stack at `index`.
    pub fn item_mut(&mut self, index: usize) -> (r: Option<&mut ItemInstance>)
        ensures
            index < old(self)@.items.len() <==> r is Some,
            r is None ==> final(self)@ == old(self)@,
            r is Some ==> (*r->0)@ == old(self)@.items[index as int]
                && final(self)@ == (ItemContainerView { items: old(self)@.items.update(index as int, (*final(r->0))@), ..old(self)@ }),
    {
        let ghost before = self.items@;
        if index < self.items.len() {
            let e = &mut self.items[index];
            proof {
                assert(item_views(before.update(index as int, *final(e))) =~= item_views(before).update(index as int, (*final(e))@));
            }
            Some(e)
        } else {
            None
        }
    }

    /// The stored stacks in order.
    pub fn iter(&self) -> (r: &[ItemInstance])
        ensures
            item_views(r@) == self@.items,
    {
        self.items.as_slice()
    }

    pub fn insert(&mut self, item: ItemInstance) -> (r: Result<(), CoreError>)
        ensures
            old(self)@.items.len() >= old(self)@.capacity ==> r == Err::<(), CoreError>(CoreError::ContainerFull { capacity: old(self)@.capacity })
                && final(self)@ == old(self)@,
            old(self)@.items.len() < old(self)@.capacity ==> r is Ok
                && final(self)@ == (ItemContainerView { items: old(self)@.items.push(item@), ..old(self)@ }),
    {
        if self.items.len() >= self.capacity as usize {
            return Err(CoreError::ContainerFull { capacity: self.capacity });
        }
        self.items.push(item);
        assert(self@.items =~= old(self)@.items.push(item@));
        Ok(())
    }

    /// Places `item` back at `index`, shifting later stacks.
    pub fn insert_at(&mut self, index: usize, item: ItemInstance)
        requires
            index <= old(self)@.items.len(),
        ensures
            final(self)@ == (ItemContainerView { items: old(self)@.items.insert(index as int, item@), ..old(self)@ }),
    {
        self.items.insert(index, item);
        assert(self@.items =~= old(self)@.items.insert(index as int, item@));
    }

    /// Merges into the first compatible stack with room, or appends a new stack. When compatible
    /// stacks exist but none has room, nothing is created.
    pub fn merge_or_insert_stack(&mut self, item: ItemInstance) -> (r: Result<(usize, u16), CoreError>)
        ensures
            match merge_or_insert_model(old(self)@, item@) {
                Ok((c, out)) => r == Ok::<(usize, u16), CoreError>(out) && final(self)@ == c,
                Err(e) => r == Err::<(usize, u16), CoreError>(e) && final(self)@ == old(self)@,
            },
    {
        let ghost items0 = self@.items;
        let mut i: usize = 0;
        while i < self.items.len()
            invariant
                i <= self.items@.len(),
                self@ == old(self)@,
                items0 == self@.items,
                first_mergeable(items0, item@, 0) == first_mergeable(items0, item@, i as int),
            decreases self.items@.len() - i,
        {
            let candidate = &self.items[i];
            if candidate.is_stack_compatible_with(&item) && candidate.count as u32 + item.count as u32 <= MAX_ITEM_STACK_COUNT as u32 {
                let mut existing = self.items.remove(i);
                let merged = existing.merge_stack(&item);
                assert(merged is Ok);
                let count = existing.count;
                self.items.insert(i, existing);
                assert(self@.items =~= items0.update(i as int, with_count(items0[i as int], (items0[i as int].count + item.count) as u16)));
                return Ok((i, count));
            }
            i += 1;
        }
        proof { lemma_first_compatible_bounds(items0, item@, 0); }
        assert(first_mergeable(items0, item@, 0) == items0.len());
        let mut j: usize = 0;
        while j < self.items.len()
            invariant
                j <= self.items@.len(),
                self@ == old(self)@,
                items0 == self@.items,
                first_mergeable(items0, item@, 0) == items0.len(),
                first_compatible(items0, item@, 0) == first_compatible(items0, item@, j as int),
            decreases self.items@.len() - j,
        {
            if self.items[j].is_stack_compatible_with(&item) {
                return Err(CoreError::ItemStackCountOverflow { existing: self.items[j].count, incoming: item.count });
            }
            j += 1;
        }
        let count = item.count;
        assert(first_compatible(items0, item@, 0) == items0.len());
        self.insert(item)?;
        assert(self@.items.len() == items0.len() + 1);
        assert(self.items@.len() == self@.items.len());
        Ok((self.items.len() - 1, count))
    }

    /// Replaces the stack at `index`.
    pub fn replace_item(&mut self, index: usize, item: ItemInstance)
        requires
            index < old(self)@.items.len(),
        ensures
            final(self)@ == (ItemContainerView { items: old(self)@.items.update(index as int, item@), ..old(self)@ }),
    {
        self.items.set(index, item);
        assert(self@.items =~= old(self)@.items.update(index as int, item@));
    }

    pub fn remove(&mut self, index: usize) -> (r: Option<ItemInstance>)
        ensures
            index < old(self)@.items.len() ==> r is Some && r->0@ == old(self)@.items[index as int]
                && final(self)@ == (ItemContainerView { items: old(self)@.items.remove(index as int), ..old(self)@ }),
            index >= old(self)@.items.len() ==> r is None && final(self)@ == old(self)@,
    {
        if index < self.items.len() {
            let r = self.items.remove(index);
            assert(self@.items =~= old(self)@.items.remove(index as int));
            Some(r)
        } else {
            None
        }
    }

    /// Puts a stack back as depth-one content of the container item at `item_index`, at
    /// `content_index`.
    pub(crate) fn insert_content_at(&mut self, item_index: usize, content_index: usize, item: &ItemInstance)
        requires
            item_index < old(self)@.items.len(),
            content_index <= old(self)@.items[item_index as int].contents.len(),
        ensures
            ({
                let host = old(self)@.items[item_index as int];
                final(self)@ == (ItemContainerView { items: old(self)@.items.update(item_index as int,
                    ItemView { contents: host.contents.insert(content_index as int, content_of(item@)), ..host }), ..old(self)@ })
            }),
    {
        let mut host = self.items.remove(item_index);
        let ghost h0 = host@;
        host.contents.insert(content_index, ItemContent { server_id: item.server_id, count: item.count,
            action_id: item.action_id, unique_id: item.unique_id });
        proof { assert(host@ == (ItemView { contents: h0.contents.insert(content_index as int, content_of(item@)), ..h0 })); }
        self.items.insert(item_index, host);
        proof { assert(self@.items =~= old(self)@.items.update(item_index as int, host@)); }
    }

    /// Removes one depth-one content item from the container item at `item_index`.
    pub fn take_content(&mut self, item_index: usize, content_index: usize) -> (r: Option<ItemInstance>)
        ensures
            (item_index < old(self)@.items.len() && content_index < old(self)@.items[item_index as int].contents.len()) ==> {
                let host = old(self)@.items[item_index as int];
                &&& r is Some
                &&& r->0@ == content_view(host.contents[content_index as int])
                &&& final(self)@ == (ItemContainerView { items: old(self)@.items.update(item_index as int,
                    ItemView { contents: host.contents.remove(content_index as int), ..host }), ..old(self)@ })
            },
            !(item_index < old(self)@.items.len() && content_index < old(self)@.items[item_index as int].contents.len())
                ==> r is None && final(self)@ == old(self)@,
    {
        if item_index >= self.items.len() {
            return None;
        }
        let mut host = self.items.remove(item_index);
        let taken = host.take_content(content_index);
        self.items.insert(item_index, host);
        assert(self@.items =~= old(self)@.items.update(item_index as int, host@));
        if taken.is_none() {
            assert(self@.items =~= old(self)@.items);
        }
        taken
    }

    /// Consumes one unit of the stack at `index`, removing the entry when the last unit is used.
    pub fn consume_item_unit(&mut self, index: usize) -> (r: bool)
        ensures
            r == (index < old(self)@.items.len()),
            !r ==> final(self)@ == old(self)@,
            r ==> final(self)@ == consume_unit_model(old(self)@, index as int),
    {
        if index >= self.items.len() {
            return false;
        }
        let mut item = self.items.remove(index);
        if item.count > 1 {
            item.count = item.count - 1;
            self.items.insert(index, item);
            assert(self@.items =~= old(self)@.items.update(index as int, with_count(old(self)@.items[index as int], (old(self)@.items[index as int].count - 1) as u16)));
        } else {
            assert(self@.items =~= old(self)@.items.remove(index as int));
        }
        true
    }

    /// Takes up to `units` units from the stack at `index`; returns how many were taken.
    pub fn take_item_units(&mut self, index: usize, units: u16) -> (r: u16)
        ensures
            index >= old(self)@.items.len() ==> r == 0 && final(self)@ == old(self)@,
            index < old(self)@.items.len() ==> {
                let item = old(self)@.items[index as int];
                let taken = if item.count <= units { item.count } else { units };
                &&& r == taken
                &&& final(self)@ == (if item.count == taken {
                        ItemContainerView { items: old(self)@.items.remove(index as int), ..old(self)@ }
                    } else {
                        ItemContainerView { items: old(self)@.items.update(index as int, with_count(item, (item.count - taken) as u16)), ..old(self)@ }
                    })
            },
    {
        if index >= self.items.len() {
            return 0;
        }
        let mut item = self.items.remove(index);
        let available = if item.count <= units { item.count } else { units };
        item.count = item.count - available;
        if item.count == 0 {
            assert(self@.items =~= old(self)@.items.remove(index as int));
        } else {
            self.items.insert(index, item);
            assert(self@.items =~= old(self)@.items.update(index as int, with_count(old(self)@.items[index as int], (old(self)@.items[index as int].count - available) as u16)));
        }
        available
    }

    /// A copy with the same model.
    pub fn duplicate(&self) -> (r: ItemContainer)
        ensures
            r@ == self@,
    {
        let mut items: Vec<ItemInstance> = Vec::new();
        let mut i: usize = 0;
        while i < self.items.len()
            invariant
                i <= self.items@.len(),
                items@.len() == i,
                forall|j: int| 0 <= j < i ==> (#[trigger] items@[j])@ == self.items@[j]@,
            decreases self.items@.len() - i,
        {
            items.push(self.items[i].duplicate());
            i += 1;
        }
        assert(item_views(items@) =~= item_views(self.items@));
        ItemContainer { capacity: self.capacity, items }
    }

    /// Model equality of two containers.
    pub fn same_as(&self, other: &ItemContainer) -> (r: bool)
        ensures
            r == (self@ == other@),
    {
        if self.capacity != other.capacity || self.items.len() != other.items.len() {
            proof {
                if self.items.len() != other.items.len() {
                    assert(self@.items.len() != other@.items.len());
                }
            }
            return false;
        }
        let mut i: usize = 0;
        while i < self.items.len()
            invariant
                i <= self.items@.len(),
                self.items@.len() == other.items@.len(),
                forall|j: int| 0 <= j < i ==> (#[trigger] self@.items[j]) == other@.items[j],
            decreases self.items@.len() - i,
        {
            if !self.items[i].same_as(&other.items[i]) {
                assert(self@.items[i as int] != other@.items[i as int]);
                return false;
            }
            i += 1;
        }
        assert(self@.items =~= other@.items);
        true
    }
}

/// Result model of consuming one unit at a valid index.
pub open spec fn consume_unit_model(c: ItemContainerView, index: int) -> ItemContainerView {
    let item = c.items[index];
    if item.count > 1 {
        ItemContainerView { items: c.items.update(index, with_count(item, (item.count - 1) as u16)), ..c }
    } else {
        ItemContainerView { items: c.items.remove(index), ..c }
    }
}


/// The model of a player's equipment: item views keyed by slot code.
pub type EquipmentView = Map<u8, ItemView>;

/// Fixed equipment slots of one player.
#[derive(Debug, Clone, PartialEq, Eq)]
pub struct PlayerEquipment {
    items: BTreeMap<u8, ItemInstance>,
}

impl View for PlayerEquipment {
    type V = EquipmentView;

    open spec fn view(&self) -> EquipmentView {
        self.slot_map()
    }
}

impl PlayerEquipment {
    pub closed spec fn slot_map(&self) -> EquipmentView {
        self.items@.map_values(|i: ItemInstance| i@)
    }

    pub fn new() -> (r: PlayerEquipment)
        ensures
            r@ == Map::<u8, ItemView>::empty(),
    {
        let r = PlayerEquipment { items: BTreeMap::new() };
        assert(r@ =~= Map::<u8, ItemView>::empty());
        r
    }

    pub fn item(&self, slot: EquipmentSlot) -> (r: Option<&ItemInstance>)
        ensures
            match r {
                Some(i) => self@.contains_key(slot_code(slot)) && i@ == self@[slot_code(slot)],
                None => !self@.contains_key(slot_code(slot)),
            },
    {
        self.items.get(&slot.code())
    }

    /// Mutable access to the item in `slot`.
    pub fn item_mut(&mut self, slot: EquipmentSlot) -> (r: Option<&mut ItemInstance>)
        ensures
            old(self)@.contains_key(slot_code(slot)) <==> r is Some,
            r is None ==> final(self)@ == old(self)@,
            r is Some ==> (*r->0)@ == old(self)@[slot_code(slot)]
                && final(self)@ == old(self)@.insert(slot_code(slot), (*final(r->0))@),
    {
        let ghost before = self.items@;
        let code = slot.code();
        let r = map_entry_mut(&mut self.items, &code);
        proof {
            if r is Some {
                assert(before.insert(code, *final(r->0)).map_values(|i: ItemInstance| i@)
                    =~= before.map_values(|i: ItemInstance| i@).insert(code, (*final(r->0))@));
            }
        }
        r
    }

    /// Places `item` in `slot`, returning the previously equipped item.
    pub fn equip(&mut self, slot: EquipmentSlot, item: ItemInstance) -> (r: Option<ItemInstance>)
        ensures
            final(self)@ == old(self)@.insert(slot_code(slot), item@),
            match r {
                Some(p) => old(self)@.contains_key(slot_code(slot)) && p@ == old(self)@[slot_code(slot)],
                None => !old(self)@.contains_key(slot_code(slot)),
            },
    {
        let r = self.items.insert(slot.code(), item);
        assert(self@ =~= old(self)@.insert(slot_code(slot), item@));
        r
    }

    pub fn unequip(&mut self, slot: EquipmentSlot) -> (r: Option<ItemInstance>)
        ensures
            final(self)@ == old(self)@.remove(slot_code(slot)),
            match r {
                Some(p) => old(self)@.contains_key(slot_code(slot)) && p@ == old(self)@[slot_code(slot)],
                None => !old(self)@.contains_key(slot_code(slot)),
            },
    {
        let r = self.items.remove(&slot.code());
        assert(self@ =~= old(self)@.remove(slot_code(slot)));
        r
    }

    pub fn len(&self) -> (r: usize)
        ensures
            r == self@.len(),
    {
        assert(self@.dom() =~= self.items@.dom());
        self.items.len()
    }

    pub fn is_empty(&self) -> (r: bool)
        ensures
            r == (self@.len() == 0),
    {
        self.len() == 0
    }

    /// Equipped items in slot order.
    pub fn iter(&self) -> (r: Vec<(EquipmentSlot, &ItemInstance)>)
        ensures
            forall|i: int| 0 <= i < r@.len() ==> self@.contains_key(slot_code((#[trigger] r@[i]).0))
                && r@[i].1@ == self@[slot_code(r@[i].0)],
            forall|i: int, j: int| 0 <= i < j < r@.len() ==> slot_code(r@[i].0) < slot_code(r@[j].0),
            forall|code: u8| #[trigger] self@.contains_key(code) ==> 1 <= code <= 10
                ==> exists|i: int| 0 <= i < r@.len() && slot_code(r@[i].0) == code,
    {
        let mut out: Vec<(EquipmentSlot, &ItemInstance)> = Vec::new();
        let mut code: u8 = 1;
        while code <= 10
            invariant
                1 <= code <= 11,
                forall|i: int| 0 <= i < out@.len() ==> self@.contains_key(slot_code((#[trigger] out@[i]).0))
                    && out@[i].1@ == self@[slot_code(out@[i].0)] && slot_code(out@[i].0) < code,
                forall|i: int, j: int| 0 <= i < j < out@.len() ==> slot_code(out@[i].0) < slot_code(out@[j].0),
                forall|c: u8| 1 <= c < code && #[trigger] self@.contains_key(c)
                    ==> exists|i: int| 0 <= i < out@.len() && slot_code(out@[i].0) == c,
            decreases 11 - code,
        {
            let slot = EquipmentSlot::from_code(code).unwrap();
            proof { lemma_slot_code_roundtrip(slot, code); }
            if let Some(item) = self.items.get(&code) {
                let ghost before = out@;
                out.push((slot, item));
                assert forall|c: u8| 1 <= c < code + 1 && #[trigger] self@.contains_key(c)
                    implies exists|i: int| 0 <= i < out@.len() && slot_code(out@[i].0) == c by {
                    if c < code {
                        let i = choose|i: int| 0 <= i < before.len() && slot_code(before[i].0) == c;
                        assert(out@[i] == before[i]);
                    } else {
                        assert(slot_code(out@[before.len() as int].0) == c);
                    }
                }
            }
            code = code + 1;
        }
        out
    }

    /// A copy with the same model.
    pub fn duplicate(&self) -> (r: PlayerEquipment)
        ensures
            r@ == self@,
    {
        let mut out = PlayerEquipment::new();
        let mut code: u16 = 0;
        while code < 256
            invariant
                code <= 256,
                out@ == self@.restrict(Set::new(|c: u8| c < code)),
            decreases 256 - code,
        {
            let c = code as u8;
            assert(c == code);
            let ghost before = out@;
            if let Some(item) = self.items.get(&c) {
                let copy = item.duplicate();
                out.items.insert(c, copy);
                assert(self@.contains_key(c) && self@[c] == item@);
                assert(out@ =~= before.insert(c, item@));
            } else {
                assert(!self@.contains_key(c));
            }
            assert(out@ =~= self@.restrict(Set::new(|x: u8| x < code + 1)));
            code = code + 1;
        }
        assert(out@ =~= self@);
        out
    }

    /// Model equality of two equipment sets.
    pub fn same_as(&self, other: &PlayerEquipment) -> (r: bool)
        ensures
            r == (self@ == other@),
    {
        let mut code: u16 = 0;
        while code < 256
            invariant
                code <= 256,
                forall|c: u8| c < code ==> (#[trigger] self@.contains_key(c)) == other@.contains_key(c)
                    && (self@.contains_key(c) ==> self@[c] == other@[c]),
            decreases 256 - code,
        {
            let c = code as u8;
            assert(c == code);
            match (self.items.get(&c), other.items.get(&c)) {
                (Some(a), Some(b)) => {
                    if !a.same_as(b) {
                        assert(self@[c] != other@[c]);
                        return false;
                    }
                },
                (None, None) => {},
                _ => {
                    assert(self@.contains_key(c) != other@.contains_key(c));
                    return false;
                },
            }
            code = code + 1;
        }
        assert(self@ =~= other@);
        true
    }
}

impl Default for PlayerEquipment {
    fn default() -> (r: PlayerEquipment)
        ensures
            r@ == Map::<u8, ItemView>::empty(),
    {
        PlayerEquipment::new()
    }
}

/// The model of one player-owned container window.
pub struct ContainerView {
    pub container_id: u8,
    pub container_item: ItemView,
    pub name: Seq<char>,
    pub has_parent: bool,
    pub items: ItemContainerView,
}

/// One player-owned, non-recursive container window.
#[derive(Debug, Clone, PartialEq, Eq)]
pub struct PlayerContainer {
    pub container_id: u8,
    pub container_item: ItemInstance,
    pub name: String,
    pub has_parent: bool,
    pub items: ItemContainer,
}

impl View for PlayerContainer {
    type V = ContainerView;

    open spec fn view(&self) -> ContainerView {
        ContainerView {
            container_id: self.container_id,
            container_item: self.container_item@,
            name: self.name@,
            has_parent: self.has_parent,
            items: self.items@,
        }
    }
}

impl PlayerContainer {
    pub fn new(container_id: u8, container_item: ItemInstance, name: &str, has_parent: bool, capacity: u16)
        -> (r: Result<PlayerContainer, CoreError>)
        ensures
            (name@.len() == 0 || name.len() > MAX_PLAYER_CONTAINER_NAME_BYTES)
                ==> r == Err::<PlayerContainer, CoreError>(CoreError::InvalidContainerName(name.len())),
            !(name@.len() == 0 || name.len() > MAX_PLAYER_CONTAINER_NAME_BYTES)
                && (capacity == 0 || capacity > MAX_CONTAINER_CAPACITY)
                ==> r == Err::<PlayerContainer, CoreError>(CoreError::InvalidContainerCapacity(capacity)),
            r is Ok <==> !(name@.len() == 0 || name.len() > MAX_PLAYER_CONTAINER_NAME_BYTES)
                && !(capacity == 0 || capacity > MAX_CONTAINER_CAPACITY),
            r is Ok ==> r->Ok_0@ == (ContainerView {
                container_id,
                container_item: container_item@,
                name: name@,
                has_parent,
                items: ItemContainerView { capacity, items: Seq::empty() },
            }),
    {
        if name.is_empty() || name.len() > MAX_PLAYER_CONTAINER_NAME_BYTES {
            return Err(CoreError::InvalidContainerName(name.len()));
        }
        let items = ItemContainer::new(capacity)?;
        Ok(PlayerContainer { container_id, container_item, name: name.to_owned(), has_parent, items })
    }

    /// A copy with the same model.
    pub fn duplicate(&self) -> (r: PlayerContainer)
        ensures
            r@ == self@,
    {
        PlayerContainer {
            container_id: self.container_id,
            container_item: self.container_item.duplicate(),
            name: self.name.clone(),
            has_parent: self.has_parent,
            items: self.items.duplicate(),
        }
    }

    /// Model equality of two container windows.
    pub fn same_as(&self, other: &PlayerContainer) -> (r: bool)
        ensures
            r == (self@ == other@),
    {
        self.container_id == other.container_id && self.container_item.same_as(&other.container_item)
            && self.name == other.name && self.has_parent == other.has_parent && self.items.same_as(&other.items)
    }
}

/// The model of a player's container windows, keyed by window identifier.
pub type ContainersView = Map<u8, ContainerView>;

/// Bounded player-owned container windows keyed by their client window identifier.
#[derive(Debug, Clone, PartialEq, Eq)]
pub struct PlayerContainers {
    containers: BTreeMap<u8, PlayerContainer>,
}

impl View for PlayerContainers {
    type V = ContainersView;

    open spec fn view(&self) -> ContainersView {
        self.window_map()
    }
}

impl PlayerContainers {
    pub closed spec fn window_map(&self) -> ContainersView {
        self.containers@.map_values(|c: PlayerContainer| c@)
    }

    pub fn new() -> (r: PlayerContainers)
        ensures
            r@ == Map::<u8, ContainerView>::empty(),
    {
        let r = PlayerContainers { containers: BTreeMap::new() };
        assert(r@ =~= Map::<u8, ContainerView>::empty());
        r
    }

    pub fn len(&self) -> (r: usize)
        ensures
            r == self@.len(),
    {
        assert(self@.dom() =~= self.containers@.dom());
        self.containers.len()
    }

    pub fn is_empty(&self) -> (r: bool)
        ensures
            r == (self@.len() == 0),
    {
        self.len() == 0
    }

    pub fn container(&self, container_id: u8) -> (r: Option<&PlayerContainer>)
        ensures
            match r {
                Some(c) => self@.contains_key(container_id) && c@ == self@[container_id],
                None => !self@.contains_key(container_id),
            },
    {
        self.containers.get(&container_id)
    }

    /// Mutable access to one window.
    pub fn container_mut(&mut self, container_id: u8) -> (r: Option<&mut PlayerContainer>)
        ensures
            old(self)@.contains_key(container_id) <==> r is Some,
            r is None ==> final(self)@ == old(self)@,
            r is Some ==> (*r->0)@ == old(self)@[container_id]
                && final(self)@ == old(self)@.insert(container_id, (*final(r->0))@),
    {
        let ghost before = self.containers@;
        let r = map_entry_mut(&mut self.containers, &container_id);
        proof {
            if r is Some {
                assert(before.insert(container_id, *final(r->0)).map_values(|c: PlayerContainer| c@)
                    =~= before.map_values(|c: PlayerContainer| c@).insert(container_id, (*final(r->0))@));
            }
        }
        r
    }

    /// Inserts a window under its identifier, replacing and returning a window with the same
    /// identifier. A new identifier beyond the window limit is refused.
    pub fn insert(&mut self, container: PlayerContainer) -> (r: Result<Option<PlayerContainer>, CoreError>)
        ensures
            (!old(self)@.contains_key(container.container_id) && old(self)@.len() >= MAX_PLAYER_CONTAINERS)
                ==> r == Err::<Option<PlayerContainer>, CoreError>(CoreError::TooManyPlayerContainers(MAX_PLAYER_CONTAINERS))
                && final(self)@ == old(self)@,
            !(!old(self)@.contains_key(container.container_id) && old(self)@.len() >= MAX_PLAYER_CONTAINERS) ==> {
                &&& r is Ok
                &&& final(self)@ == old(self)@.insert(container.container_id, container@)
                &&& match r->Ok_0 {
                    Some(p) => old(self)@.contains_key(container.container_id) && p@ == old(self)@[container.container_id],
                    None => !old(self)@.contains_key(container.container_id),
                }
            },
    {
        let ghost id = container.container_id;
        let ghost cv = container@;
        assert(self@.dom() =~= self.containers@.dom());
        if !self.containers.contains_key(&container.container_id) && self.containers.len() >= MAX_PLAYER_CONTAINERS {
            return Err(CoreError::TooManyPlayerContainers(MAX_PLAYER_CONTAINERS));
        }
        let r = self.containers.insert(container.container_id, container);
        assert(self@ =~= old(self)@.insert(id, cv));
        Ok(r)
    }

    /// Replaces the window stored under `container_id` in place.
    pub fn replace_window(&mut self, container_id: u8, container: PlayerContainer)
        requires
            old(self)@.contains_key(container_id),
        ensures
            final(self)@ == old(self)@.insert(container_id, container@),
    {
        let ghost cv = container@;
        self.containers.insert(container_id, container);
        assert(self@ =~= old(self)@.insert(container_id, cv));
    }

    pub fn remove(&mut self, container_id: u8) -> (r: Option<PlayerContainer>)
        ensures
            final(self)@ == old(self)@.remove(container_id),
            match r {
                Some(c) => old(self)@.contains_key(container_id) && c@ == old(self)@[container_id],
                None => !old(self)@.contains_key(container_id),
            },
    {
        let r = self.containers.remove(&container_id);
        assert(self@ =~= old(self)@.remove(container_id));
        r
    }

    /// Windows in identifier order.
    pub fn iter(&self) -> (r: Vec<(u8, &PlayerContainer)>)
        ensures
            forall|i: int| 0 <= i < r@.len() ==> self@.contains_key((#[trigger] r@[i]).0) && r@[i].1@ == self@[r@[i].0],
            forall|c: u8| #[trigger] self@.contains_key(c) ==> exists|i: int| 0 <= i < r@.len() && r@[i].0 == c,
            forall|i: int, j: int| 0 <= i < j < r@.len() ==> r@[i].0 < r@[j].0,
    {
        let mut out: Vec<(u8, &PlayerContainer)> = Vec::new();
        let mut code: u16 = 0;
        while code < 256
            invariant
                code <= 256,
                forall|i: int| 0 <= i < out@.len() ==> self@.contains_key((#[trigger] out@[i]).0)
                    && out@[i].1@ == self@[out@[i].0] && out@[i].0 < code,
                forall|i: int, j: int| 0 <= i < j < out@.len() ==> out@[i].0 < out@[j].0,
                forall|c: u8| c < code && #[trigger] self@.contains_key(c) ==> exists|i: int| 0 <= i < out@.len() && out@[i].0 == c,
            decreases 256 - code,
        {
            let c = code as u8;
            assert(c == code);
            let ghost before = out@;
            if let Some(container) = self.containers.get(&c) {
                out.push((c, container));
                assert forall|x: u8| x < code + 1 && #[trigger] self@.contains_key(x)
                    implies exists|i: int| 0 <= i < out@.len() && out@[i].0 == x by {
                    if x < code {
                        let i = choose|i: int| 0 <= i < before.len() && before[i].0 == x;
                        assert(out@[i] == before[i]);
                    } else {
                        assert(out@[before.len() as int].0 == x);
                    }
                }
            }
            code = code + 1;
        }
        out
    }

    /// A copy with the same model.
    pub fn duplicate(&self) -> (r: PlayerContainers)
        ensures
            r@ == self@,
    {
        let mut out = PlayerContainers::new();
        let mut code: u16 = 0;
        while code < 256
            invariant
                code <= 256,
                out@ == self@.restrict(Set::new(|c: u8| c < code)),
            decreases 256 - code,
        {
            let c = code as u8;
            assert(c == code);
            let ghost before = out@;
            if let Some(container) = self.containers.get(&c) {
                let copy = container.duplicate();
                out.containers.insert(c, copy);
                assert(self@.contains_key(c) && self@[c] == container@);
                assert(out@ =~= before.insert(c, container@));
            } else {
                assert(!self@.contains_key(c));
            }
            assert(out@ =~= self@.restrict(Set::new(|x: u8| x < code + 1)));
            code = code + 1;
        }
        assert(out@ =~= self@);
        out
    }

    /// Model equality of two window collections.
    pub fn same_as(&self, other: &PlayerContainers) -> (r: bool)
        ensures
            r == (self@ == other@),
    {
        let mut code: u16 = 0;
        while code < 256
            invariant
                code <= 256,
                forall|c: u8| c < code ==> (#[trigger] self@.contains_key(c)) == other@.contains_key(c)
                    && (self@.contains_key(c) ==> self@[c] == other@[c]),
            decreases 256 - code,
        {
            let c = code as u8;
            assert(c == code);
            match (self.containers.get(&c), other.containers.get(&c)) {
                (Some(a), Some(b)) => {
                    if !a.same_as(b) {
                        assert(self@[c] != other@[c]);
                        return false;
                    }
                },
                (None, None) => {},
                _ => {
                    assert(self@.contains_key(c) != other@.contains_key(c));
                    return false;
                },
            }
            code = code + 1;
        }
        assert(self@ =~= other@);
        true
    }
}

impl Default for PlayerContainers {
    fn default() -> (r: PlayerContainers)
        ensures
            r@ == Map::<u8, ContainerView>::empty(),
    {
        PlayerContainers::new()
    }
}

/// Presentation metadata validated from an operator-supplied item catalog.
#[derive(Debug, Clone, Copy, PartialEq, Eq, Structural)]
pub struct NativeItemPresentation {
    pub client_thing_id: u16,
    pub requires_classic_740_subtype: bool,
}

#[derive(Debug, Clone, PartialEq, Eq)]
pub struct NativeItemPresentationCatalog {
    entries: BTreeMap<u16, NativeItemPresentation>,
}

impl View for NativeItemPresentationCatalog {
    type V = Map<u16, NativeItemPresentation>;

    open spec fn view(&self) -> Map<u16, NativeItemPresentation> {
        self.entry_map()
    }
}

/// The server items presented with one client thing identifier.
pub open spec fn servers_presented_as(m: Map<u16, NativeItemPresentation>, client_thing_id: u16) -> Set<u16> {
    m.dom().filter(|s: u16| m[s].client_thing_id == client_thing_id)
}

impl NativeItemPresentationCatalog {
    pub closed spec fn entry_map(&self) -> Map<u16, NativeItemPresentation> {
        self.entries@
    }

    pub fn new() -> (r: NativeItemPresentationCatalog)
        ensures
            r@ == Map::<u16, NativeItemPresentation>::empty(),
    {
        NativeItemPresentationCatalog { entries: BTreeMap::new() }
    }

    pub fn insert(&mut self, server_id: u16, presentation: NativeItemPresentation) -> (r: Result<(), CoreError>)
        ensures
            server_id == 0 ==> r == Err::<(), CoreError>(CoreError::InvalidItemId(server_id)),
            server_id != 0 && presentation.client_thing_id == 0 ==> r == Err::<(), CoreError>(CoreError::InvalidClientThingId(server_id)),
            server_id != 0 && presentation.client_thing_id != 0 && old(self)@.contains_key(server_id)
                ==> r == Err::<(), CoreError>(CoreError::DuplicateItemPresentation(server_id)),
            r is Err ==> final(self)@ == old(self)@,
            r is Ok <==> server_id != 0 && presentation.client_thing_id != 0 && !old(self)@.contains_key(server_id),
            r is Ok ==> final(self)@ == old(self)@.insert(server_id, presentation),
    {
        if server_id == 0 {
            return Err(CoreError::InvalidItemId(server_id));
        }
        if presentation.client_thing_id == 0 {
            return Err(CoreError::InvalidClientThingId(server_id));
        }
        if self.entries.contains_key(&server_id) {
            return Err(CoreError::DuplicateItemPresentation(server_id));
        }
        self.entries.insert(server_id, presentation);
        Ok(())
    }

    pub fn presentation(&self, server_id: u16) -> (r: Option<NativeItemPresentation>)
        ensures
            r == (if self@.contains_key(server_id) { Some(self@[server_id]) } else { None::<NativeItemPresentation> }),
    {
        match self.entries.get(&server_id) {
            Some(p) => Some(*p),
            None => None,
        }
    }

    /// The server item presented with `client_thing_id`, only when exactly one item is.
    pub fn unique_server_id_for_client_thing_id(&self, client_thing_id: u16) -> (r: Option<u16>)
        ensures
            match r {
                Some(s) => servers_presented_as(self@, client_thing_id) == set![s],
                None => !(exists|s: u16| servers_presented_as(self@, client_thing_id) == set![s]),
            },
    {
        let mut found: Option<u16> = None;
        let mut server: u32 = 0;
        let ghost target = servers_presented_as(self@, client_thing_id);
        while server < 65536
            invariant
                server <= 65536,
                target == servers_presented_as(self@, client_thing_id),
                match found {
                    Some(s) => s < server && target.filter(|x: u16| x < server) == set![s],
                    None => target.filter(|x: u16| x < server) == Set::<u16>::empty(),
                },
            decreases 65536 - server,
        {
            let sid = server as u16;
            assert(sid == server);
            let ghost before = target.filter(|x: u16| x < server);
            let ghost after = target.filter(|x: u16| x < server + 1);
            match self.entries.get(&sid) {
                Some(p) => {
                    if p.client_thing_id == client_thing_id {
                        assert(target.contains(sid));
                        assert(after =~= before.insert(sid));
                        if found.is_some() {
                            let s0 = found.unwrap();
                            assert(after.contains(s0) && after.contains(sid) && s0 != sid);
                            assert forall|s: u16| target != set![s] by {
                                assert(target.contains(s0) && target.contains(sid));
                                if target == set![s] {
                                    assert(s0 == s && sid == s);
                                }
                            }
                            return None;
                        }
                        found = Some(sid);
                    } else {
                        assert(!target.contains(sid));
                        assert(after =~= before);
                    }
                },
                None => {
                    assert(!target.contains(sid));
                    assert(after =~= before);
                },
            }
            server = server + 1;
        }
        assert(target.filter(|x: u16| x < 65536) =~= target);
        match found {
            Some(s) => Some(s),
            None => {
                assert forall|s: u16| target != set![s] by {
                    if target == set![s] {
                        assert(target.contains(s));
                    }
                }
                None
            },
        }
    }

    pub fn len(&self) -> (r: usize)
        ensures
            r == self@.len(),
    {
        self.entries.len()
    }

    pub fn is_empty(&self) -> (r: bool)
        ensures
            r == (self@.len() == 0),
    {
        self.entries.len() == 0
    }
}

impl Default for NativeItemPresentationCatalog {
    fn default() -> (r: NativeItemPresentationCatalog)
        ensures
            r@ == Map::<u16, NativeItemPresentation>::empty(),
    {
        NativeItemPresentationCatalog::new()
    }
}


/// Two stacks share their persistent attributes: server id, action id and unique id.
pub open spec fn same_attributes(a: ItemView, b: ItemView) -> bool {
    a.server_id == b.server_id && a.action_id == b.action_id && a.unique_id == b.unique_id
}

proof fn lemma_first_compatible_found(items: Seq<ItemView>, item: ItemView, start: int)
    requires
        0 <= start <= items.len(),
    ensures
        first_compatible(items, item, start) < items.len()
            ==> stack_compatible(items[first_compatible(items, item, start)], item),
        (forall|j: int| start <= j < items.len() ==> !stack_compatible(#[trigger] items[j], item))
            ==> first_compatible(items, item, start) == items.len(),
    decreases items.len() - start,
{
    if start < items.len() {
        lemma_first_compatible_found(items, item, start + 1);
    }
}

proof fn lemma_first_mergeable_none(items: Seq<ItemView>, item: ItemView, start: int)
    requires
        0 <= start <= items.len(),
        forall|j: int| start <= j < items.len() ==> !stack_compatible(#[trigger] items[j], item),
    ensures
        first_mergeable(items, item, start) == items.len(),
    decreases items.len() - start,
{
    if start < items.len() {
        lemma_first_mergeable_none(items, item, start + 1);
    }
}

/// Stacks are compatible exactly when they share their persistent attributes, and a merge never
/// combines stacks whose attributes differ: an item merges only into a stack with the same
/// server id, action id and unique id, adding its count there; an item that no stack matches on
/// all three is appended as a stack of its own, unchanged, when the container has room.
pub proof fn law_merge_keeps_attributes_apart(c: ItemContainerView, item: ItemView)
    requires
        c.items.len() <= c.capacity,
    ensures
        forall|a: ItemView, b: ItemView| #[trigger] stack_compatible(a, b) <==> same_attributes(a, b),
        match merge_or_insert_model(c, item) {
            Ok((c2, (i, n))) => if (i as int) < c.items.len() {
                &&& same_attributes(c.items[i as int], item)
                &&& n == c.items[i as int].count + item.count
                &&& c2.items == c.items.update(i as int, with_count(c.items[i as int], n))
            } else {
                &&& i == c.items.len()
                &&& n == item.count
                &&& c2.items == c.items.push(item)
            },
            Err(_) => true,
        },
        (forall|j: int| 0 <= j < c.items.len() ==> !same_attributes(#[trigger] c.items[j], item))
            && c.items.len() < c.capacity ==> merge_or_insert_model(c, item)
            == Ok::<(ItemContainerView, (usize, u16)), CoreError>((ItemContainerView { items: c.items.push(item), ..c },
                (c.items.len() as usize, item.count))),
{
    lemma_first_mergeable_bounds(c.items, item, 0);
    lemma_first_compatible_found(c.items, item, 0);
    lemma_first_compatible_bounds(c.items, item, 0);
    let m = first_mergeable(c.items, item, 0);
    if m < c.items.len() {
        assert((m as usize) as int == m);
        assert(c.items[m].count + item.count <= MAX_ITEM_STACK_COUNT);
    }
    if forall|j: int| 0 <= j < c.items.len() ==> !same_attributes(#[trigger] c.items[j], item) {
        assert forall|j: int| 0 <= j < c.items.len() implies !stack_compatible(#[trigger] c.items[j], item) by {
            assert(!same_attributes(c.items[j], item));
        }
        lemma_first_mergeable_none(c.items, item, 0);
    }
}

} // verus!
