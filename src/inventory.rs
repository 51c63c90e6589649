//! The player's inventory, filled by materials picked up from broken tiles.
use vstd::prelude::*;

verus! {

/// Number of inventory slots.
pub const INVENTORY_SLOTS: usize = 5;

/// A stack of identical items.
#[derive(Clone, Copy, Debug, PartialEq, Eq, Structural)]
pub struct ItemStack {
    pub count: usize,
    pub item_id: usize,
}

/// One item of the given material was picked up.
#[derive(Clone, Copy, Debug, PartialEq, Eq, Structural)]
pub struct ItemPickedUp(pub usize);

/// Fixed slots, each empty or holding one stack.
pub struct Inventory {
    pub slots: [Option<ItemStack>; 5],
}

/// Slot `i` holds a stack of `id`.
pub open spec fn holds(slots: Seq<Option<ItemStack>>, i: int, id: usize) -> bool {
    match slots[i] {
        Some(s) => s.item_id == id,
        None => false,
    }
}

/// The slot that a pickup of `id` goes to: the first stack of `id`, or else
/// the first empty slot; none when the inventory is full of other items.
pub open spec fn target_slot(slots: Seq<Option<ItemStack>>, id: usize) -> Option<int> {
    if exists|i: int| 0 <= i < slots.len() && #[trigger] holds(slots, i, id) {
        Some(choose|i: int| 0 <= i < slots.len() && #[trigger] holds(slots, i, id)
            && forall|j: int| 0 <= j < i ==> !holds(slots, j, id))
    } else if exists|i: int| 0 <= i < slots.len() && #[trigger] slots[i] is None {
        Some(choose|i: int| 0 <= i < slots.len() && #[trigger] slots[i] is None
            && forall|j: int| 0 <= j < i ==> slots[j] is Some)
    } else {
        None
    }
}

/// The slots after a pickup of `id`: the target stack grows by one (a full
/// counter stays full), or an empty target gets a new stack of one.
pub open spec fn picked_up(slots: Seq<Option<ItemStack>>, id: usize) -> Seq<Option<ItemStack>> {
    match target_slot(slots, id) {
        None => slots,
        Some(i) => slots.update(
            i,
            Some(
                match slots[i] {
                    Some(s) => ItemStack {
                        count: if s.count < usize::MAX { (s.count + 1) as usize } else { s.count },
                        item_id: id,
                    },
                    None => ItemStack { count: 1, item_id: id },
                },
            ),
        ),
    }
}

impl Inventory {
    /// An inventory with every slot empty.
    pub fn new() -> (r: Inventory)
        ensures
            forall|i: int| 0 <= i < 5 ==> #[trigger] r.slots@[i] is None,
    {
        Inventory { slots: [None, None, None, None, None] }
    }

    /// Adds one picked-up item and returns the slot it went to, or `None`
    /// when no slot could take it.
    pub fn pick_up(&mut self, event: ItemPickedUp) -> (r: Option<usize>)
        ensures
            final(self).slots@ == picked_up(old(self).slots@, event.0),
            r == (match target_slot(old(self).slots@, event.0) {
                Some(i) => Some(i as usize),
                None => None::<usize>,
            }),
    {
        let id = event.0;
        let mut first_empty: Option<usize> = None;
        let mut i: usize = 0;
        while i < INVENTORY_SLOTS
            invariant
                self.slots@ == old(self).slots@,
                self.slots@.len() == 5,
                id == event.0,
                0 <= i <= 5,
                forall|j: int| 0 <= j < i ==> !holds(self.slots@, j, id),
                first_empty matches Some(e) ==> e < i && self.slots@[e as int] is None && forall|j: int|
                    0 <= j < e ==> self.slots@[j] is Some,
                first_empty is None ==> forall|j: int| 0 <= j < i ==> self.slots@[j] is Some,
            decreases 5 - i,
        {
            match self.slots[i] {
                Some(s) => {
                    if s.item_id == id {
                        let count = if s.count < usize::MAX { s.count + 1 } else { s.count };
                        proof {
                            let sl = self.slots@;
                            assert(holds(sl, i as int, id));
                            assert(0 <= i < sl.len() && holds(sl, i as int, id) && forall|j: int|
                                0 <= j < i ==> !holds(sl, j, id));
                            let k = choose|k: int| 0 <= k < sl.len() && #[trigger] holds(sl, k, id)
                                && forall|j: int| 0 <= j < k ==> !holds(sl, j, id);
                            if k < i {
                                assert(!holds(sl, k, id));
                            } else if k > i {
                                assert(!holds(sl, i as int, id));
                            }
                            assert(k == i);
                            assert(target_slot(sl, id) == Some(i as int));
                        }
                        self.slots[i] = Some(ItemStack { count, item_id: id });
                        return Some(i);
                    }
                },
                None => {
                    if first_empty.is_none() {
                        first_empty = Some(i);
                    }
                },
            }
            i = i + 1;
        }
        proof {
            assert(!exists|k: int| 0 <= k < self.slots@.len() && #[trigger] holds(self.slots@, k, id));
        }
        match first_empty {
            Some(e) => {
                proof {
                    let sl = self.slots@;
                    assert(0 <= e < sl.len() && sl[e as int] is None && forall|j: int|
                        0 <= j < e ==> sl[j] is Some);
                    let k = choose|k: int| 0 <= k < sl.len() && #[trigger] sl[k] is None
                        && forall|j: int| 0 <= j < k ==> sl[j] is Some;
                    if k < e {
                        assert(sl[k] is Some);
                    } else if k > e {
                        assert(sl[e as int] is Some);
                    }
                    assert(target_slot(sl, id) == Some(e as int));
                }
                self.slots[e] = Some(ItemStack { count: 1, item_id: id });
                Some(e)
            },
            None => None,
        }
    }

    /// The stack in slot `i`, if any.
    pub fn slot(&self, i: usize) -> (r: Option<ItemStack>)
        requires
            i < 5,
        ensures
            r == self.slots@[i as int],
    {
        self.slots[i]
    }
}

} // verus!
