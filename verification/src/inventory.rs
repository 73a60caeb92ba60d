//! Items and the weight-limited inventory of the player.
use vstd::prelude::*;

verus! {

/// Something the player can carry.
#[derive(Clone, Copy, PartialEq, Eq, Structural, Debug)]
pub enum Item {
    Berry,
    Twig,
    FishingRod,
    Fish,
}

/// Weight of one unit of an item.
pub open spec fn item_weight(item: Item) -> int {
    match item {
        Item::Berry => 1,
        Item::Twig => 1,
        Item::FishingRod => 2,
        Item::Fish => 3,
    }
}

/// Display name of an item.
pub open spec fn item_name(item: Item) -> Seq<char> {
    match item {
        Item::Berry => "Fresh Berry"@,
        Item::Twig => "Twig"@,
        Item::FishingRod => "Fishing Rod"@,
        Item::Fish => "Raw Fish"@,
    }
}

/// Hunger points that eating one unit of an item takes away.
pub open spec fn item_nutrition(item: Item) -> int {
    match item {
        Item::Berry => 15,
        Item::Twig => 0,
        Item::FishingRod => 0,
        Item::Fish => 35,
    }
}

impl Item {
    pub fn weight(&self) -> (w: u32)
        ensures
            w == item_weight(*self),
    {
        match self {
            Item::Berry => 1,
            Item::Twig => 1,
            Item::FishingRod => 2,
            Item::Fish => 3,
        }
    }

    pub fn name(&self) -> (n: &'static str)
        ensures
            n@ == item_name(*self),
    {
        match self {
            Item::Berry => "Fresh Berry",
            Item::Twig => "Twig",
            Item::FishingRod => "Fishing Rod",
            Item::Fish => "Raw Fish",
        }
    }

    /// Hunger points restored by eating the item; zero for what cannot be eaten.
    pub fn nutrition(&self) -> (n: u32)
        ensures
            n == item_nutrition(*self),
    {
        match self {
            Item::Berry => 15,
            Item::Twig => 0,
            Item::FishingRod => 0,
            Item::Fish => 35,
        }
    }
}

/// Weight of one slot: the item's weight times its count.
pub open spec fn slot_weight(slot: (Item, u32)) -> int {
    item_weight(slot.0) * slot.1
}

/// Total weight of a list of slots.
pub open spec fn total_weight(slots: Seq<(Item, u32)>) -> int
    decreases slots.len(),
{
    if slots.len() == 0 {
        0
    } else {
        total_weight(slots.drop_last()) + slot_weight(slots.last())
    }
}

/// Index of the first slot that holds `item`, or the number of slots when none does.
pub open spec fn find_slot(slots: Seq<(Item, u32)>, item: Item) -> int
    decreases slots.len(),
{
    if slots.len() == 0 {
        0
    } else if slots[0].0 == item {
        0
    } else {
        1 + find_slot(slots.drop_first(), item)
    }
}

/// What `count_item` reports: the count of the first slot holding `item`, or 0.
pub open spec fn slot_count(slots: Seq<(Item, u32)>, item: Item) -> int {
    let i = find_slot(slots, item);
    if i < slots.len() {
        slots[i].1 as int
    } else {
        0
    }
}

/// The slots after one more `item` has been stored: the first slot holding it
/// grows by one, or a new slot with a count of one is appended.
pub open spec fn slots_after_add(slots: Seq<(Item, u32)>, item: Item) -> Seq<(Item, u32)> {
    let i = find_slot(slots, item);
    if i < slots.len() {
        slots.update(i, (item, (slots[i].1 + 1) as u32))
    } else {
        slots.push((item, 1u32))
    }
}

/// The slots after an attempt to store `item` in an inventory of capacity `cap`:
/// stored when the weight stays within the capacity, else unchanged.
pub open spec fn slots_after_try_add(slots: Seq<(Item, u32)>, item: Item, cap: u32) -> Seq<(Item, u32)> {
    if total_weight(slots) + item_weight(item) <= cap {
        slots_after_add(slots, item)
    } else {
        slots
    }
}

/// The slots after one unit is taken from slot `index`; an emptied slot is removed.
pub open spec fn slots_after_consume(slots: Seq<(Item, u32)>, index: int) -> Seq<(Item, u32)> {
    if slots[index].1 == 1 {
        slots.remove(index)
    } else {
        slots.update(index, (slots[index].0, (slots[index].1 - 1) as u32))
    }
}

/// The slots after `amount` units of `item` are removed, walking the slots from
/// the last to the first: a slot holding more than what is left to remove is
/// reduced and the walk stops; any other slot of that item is removed.
pub open spec fn slots_after_remove(slots: Seq<(Item, u32)>, item: Item, amount: int) -> Seq<(Item, u32)>
    decreases slots.len(),
{
    if slots.len() == 0 {
        slots
    } else {
        let last = slots.last();
        let rest = slots.drop_last();
        if last.0 == item {
            if last.1 > amount {
                rest.push((item, (last.1 - amount) as u32))
            } else {
                slots_after_remove(rest, item, amount - last.1)
            }
        } else {
            slots_after_remove(rest, item, amount).push(last)
        }
    }
}

/// Every item occupies at most one slot.
pub open spec fn unique_items(slots: Seq<(Item, u32)>) -> bool {
    forall|i: int, j: int| 0 <= i < j < slots.len() ==> slots[i].0 != slots[j].0
}

/// No slot is empty.
pub open spec fn positive_counts(slots: Seq<(Item, u32)>) -> bool {
    forall|i: int| 0 <= i < slots.len() ==> slots[i].1 > 0
}

pub struct Inventory {
    pub slots: Vec<(Item, u32)>,
    pub max_capacity: u32,
    pub equipped: Option<Item>,
}

impl Inventory {
    /// The state the inventory operations keep: within capacity, one slot per
    /// item, no empty slot.
    pub open spec fn wf(&self) -> bool {
        &&& total_weight(self.slots@) <= self.max_capacity
        &&& unique_items(self.slots@)
        &&& positive_counts(self.slots@)
    }

    pub open spec fn total(&self) -> int {
        total_weight(self.slots@)
    }

    pub fn new() -> (inv: Self)
        ensures
            inv.slots@ == Seq::<(Item, u32)>::empty(),
            inv.max_capacity == 30,
            inv.equipped == None::<Item>,
            inv.wf(),
    {
        Inventory { slots: Vec::new(), max_capacity: 30, equipped: None }
    }

    pub fn current_weight(&self) -> (w: u32)
        requires
            self.total() <= u32::MAX,
        ensures
            w == self.total(),
    {
        let mut total: u32 = 0;
        let mut i: usize = 0;
        while i < self.slots.len()
            invariant
                i <= self.slots.len(),
                total == total_weight(self.slots@.take(i as int)),
                total_weight(self.slots@) <= u32::MAX,
            decreases self.slots.len() - i,
        {
            proof {
                lemma_total_weight_take_step(self.slots@, i as int);
                lemma_total_weight_take_bound(self.slots@, i as int + 1);
                lemma_total_weight_nonneg(self.slots@.take(i as int));
            }
            let (item, count) = self.slots[i];
            total = total + item.weight() * count;
            i = i + 1;
        }
        proof {
            assert(self.slots@.take(i as int) =~= self.slots@);
        }
        total
    }

    pub fn try_add_item(&mut self, item: Item) -> (added: bool)
        requires
            old(self).total() + item_weight(item) <= u32::MAX,
        ensures
            added == (old(self).total() + item_weight(item) <= old(self).max_capacity),
            final(self).slots@ == slots_after_try_add(old(self).slots@, item, old(self).max_capacity),
            added ==> final(self).slots@ == slots_after_add(old(self).slots@, item),
            !added ==> final(self).slots@ == old(self).slots@,
            added ==> final(self).total() == old(self).total() + item_weight(item),
            final(self).max_capacity == old(self).max_capacity,
            final(self).equipped == old(self).equipped,
            old(self).wf() ==> final(self).wf(),
    {
        proof {
            lemma_total_weight_nonneg(self.slots@);
        }
        if self.current_weight() + item.weight() <= self.max_capacity {
            let ghost old_slots = self.slots@;
            proof {
                lemma_find_slot(old_slots, item);
            }
            let mut i: usize = 0;
            while i < self.slots.len()
                invariant
                    self.slots@ == old_slots,
                    i <= old_slots.len(),
                    forall|j: int| 0 <= j < i ==> old_slots[j].0 != item,
                    total_weight(old_slots) + item_weight(item) <= self.max_capacity,
                    old(self).slots@ == old_slots,
                    self.max_capacity == old(self).max_capacity,
                    self.equipped == old(self).equipped,
                    0 <= find_slot(old_slots, item) <= old_slots.len(),
                    find_slot(old_slots, item) < old_slots.len() ==> old_slots[find_slot(old_slots, item)].0 == item,
                    forall|j: int| 0 <= j < find_slot(old_slots, item) ==> old_slots[j].0 != item,
                decreases self.slots.len() - i,
            {
                if self.slots[i].0 == item {
                    let count = self.slots[i].1;
                    proof {
                        assert(find_slot(old_slots, item) == i as int);
                        lemma_slot_weight_bound(old_slots, i as int);
                        assert(item_weight(item) >= 1);
                        assert(count as int <= item_weight(item) * count as int) by (nonlinear_arith)
                            requires item_weight(item) >= 1, count >= 0;
                        lemma_total_weight_update(old_slots, i as int, (item, (count + 1) as u32));
                    }
                    self.slots.set(i, (item, count + 1));
                    proof {
                        assert(item_weight(item) * (count + 1) == item_weight(item) * count + item_weight(item)) by (nonlinear_arith);
                        if unique_items(old_slots) {
                            assert(unique_items(self.slots@));
                        }
                    }
                    return true;
                }
                i = i + 1;
            }
            proof {
                assert(find_slot(old_slots, item) == old_slots.len());
                lemma_total_weight_push(old_slots, (item, 1u32));
            }
            self.slots.push((item, 1));
            true
        } else {
            false
        }
    }

    pub fn consume_item(&mut self, index: usize) -> (eaten: Option<Item>)
        requires
            index < old(self).slots.len() ==> old(self).slots@[index as int].1 > 0,
        ensures
            index < old(self).slots.len() ==> eaten == Some(old(self).slots@[index as int].0)
                && final(self).slots@ == slots_after_consume(old(self).slots@, index as int),
            index >= old(self).slots.len() ==> eaten == None::<Item> && final(self).slots@
                == old(self).slots@,
            final(self).max_capacity == old(self).max_capacity,
            final(self).equipped == old(self).equipped,
            old(self).wf() ==> final(self).wf(),
    {
        if index < self.slots.len() {
            let ghost old_slots = self.slots@;
            let (item, count) = self.slots[index];
            self.slots.set(index, (item, count - 1));
            if count - 1 == 0 {
                self.slots.remove(index);
            }
            proof {
                assert(self.slots@ =~= slots_after_consume(old_slots, index as int));
                lemma_consume_preserves(old_slots, index as int);
            }
            Some(item)
        } else {
            None
        }
    }

    pub fn count_item(&self, item_type: Item) -> (count: u32)
        ensures
            count == slot_count(self.slots@, item_type),
    {
        proof {
            lemma_find_slot(self.slots@, item_type);
        }
        let mut i: usize = 0;
        while i < self.slots.len()
            invariant
                i <= self.slots.len(),
                forall|j: int| 0 <= j < i ==> self.slots@[j].0 != item_type,
                0 <= find_slot(self.slots@, item_type) <= self.slots@.len(),
                find_slot(self.slots@, item_type) < self.slots@.len() ==> self.slots@[find_slot(
                    self.slots@,
                    item_type,
                )].0 == item_type,
                forall|j: int| 0 <= j < find_slot(self.slots@, item_type) ==> self.slots@[j].0 != item_type,
            decreases self.slots.len() - i,
        {
            if self.slots[i].0 == item_type {
                assert(find_slot(self.slots@, item_type) == i as int);
                return self.slots[i].1;
            }
            i = i + 1;
        }
        assert(find_slot(self.slots@, item_type) == self.slots@.len());
        0
    }

    pub fn remove_items(&mut self, item_type: Item, amount: u32)
        ensures
            final(self).slots@ == slots_after_remove(old(self).slots@, item_type, amount as int),
            final(self).max_capacity == old(self).max_capacity,
            final(self).equipped == old(self).equipped,
            old(self).wf() ==> final(self).wf(),
    {
        let ghost old_slots = self.slots@;
        let ghost target = slots_after_remove(old_slots, item_type, amount as int);
        let ghost mut tail: Seq<(Item, u32)> = Seq::empty();
        let mut remaining: u32 = amount;
        let mut i: usize = self.slots.len();
        proof {
            assert(old_slots.take(i as int) =~= old_slots);
            assert(self.slots@ =~= old_slots.take(i as int) + tail);
            lemma_remove_preserves(old_slots, item_type, amount as int);
        }
        while i > 0
            invariant
                i <= old_slots.len(),
                self.slots@ == old_slots.take(i as int) + tail,
                target == slots_after_remove(old_slots.take(i as int), item_type, remaining as int)
                    + tail,
                target == slots_after_remove(old_slots, item_type, amount as int),
                old_slots == old(self).slots@,
                self.max_capacity == old(self).max_capacity,
                self.equipped == old(self).equipped,
            decreases i,
        {
            i = i - 1;
            let ghost prefix = old_slots.take(i as int);
            proof {
                assert(old_slots.take(i as int + 1).drop_last() =~= prefix);
                assert(old_slots.take(i as int + 1).last() == old_slots[i as int]);
                assert(self.slots@[i as int] == old_slots[i as int]);
            }
            if self.slots[i].0 == item_type {
                let count = self.slots[i].1;
                if count > remaining {
                    self.slots.set(i, (item_type, count - remaining));
                    proof {
                        let y = (item_type, (count - remaining) as u32);
                        assert(slots_after_remove(old_slots.take(i as int + 1), item_type, remaining as int) == prefix.push(y));
                        assert(self.slots@ =~= prefix.push(y) + tail);
                        lemma_remove_preserves(old_slots, item_type, amount as int);
                    }
                    return;
                } else {
                    remaining = remaining - count;
                    self.slots.remove(i);
                    proof {
                        assert(self.slots@ =~= prefix + tail);
                    }
                }
            } else {
                proof {
                    let x = old_slots[i as int];
                    assert(self.slots@ =~= prefix + (seq![x] + tail));
                    assert(slots_after_remove(prefix, item_type, remaining as int).push(x) + tail
                        =~= slots_after_remove(prefix, item_type, remaining as int) + (seq![x]
                        + tail));
                    tail = seq![x] + tail;
                }
            }
        }
        proof {
            assert(old_slots.take(0) =~= Seq::<(Item, u32)>::empty());
            assert(self.slots@ =~= tail);
            lemma_remove_preserves(old_slots, item_type, amount as int);
        }
    }
}

// ---------------------------------------------------------------------------
// Lemmas about the slot model
// ---------------------------------------------------------------------------

proof fn lemma_total_weight_nonneg(s: Seq<(Item, u32)>)
    ensures
        total_weight(s) >= 0,
    decreases s.len(),
{
    if s.len() > 0 {
        lemma_total_weight_nonneg(s.drop_last());
        assert(slot_weight(s.last()) >= 0) by (nonlinear_arith)
            requires item_weight(s.last().0) >= 0, s.last().1 >= 0;
    }
}

proof fn lemma_slot_weight_nonneg(x: (Item, u32))
    ensures
        slot_weight(x) >= 0,
{
    assert(item_weight(x.0) * x.1 >= 0) by (nonlinear_arith)
        requires item_weight(x.0) >= 0, x.1 >= 0;
}

proof fn lemma_total_weight_take_step(s: Seq<(Item, u32)>, i: int)
    requires
        0 <= i < s.len(),
    ensures
        total_weight(s.take(i + 1)) == total_weight(s.take(i)) + slot_weight(s[i]),
{
    assert(s.take(i + 1).drop_last() =~= s.take(i));
}

proof fn lemma_total_weight_take_bound(s: Seq<(Item, u32)>, i: int)
    requires
        0 <= i <= s.len(),
    ensures
        total_weight(s.take(i)) <= total_weight(s),
    decreases s.len() - i,
{
    if i < s.len() {
        lemma_total_weight_take_bound(s, i + 1);
        lemma_total_weight_take_step(s, i);
        lemma_slot_weight_nonneg(s[i]);
    } else {
        assert(s.take(i) =~= s);
    }
}

/// A slot weighs no more than the whole list.
proof fn lemma_slot_weight_bound(s: Seq<(Item, u32)>, i: int)
    requires
        0 <= i < s.len(),
    ensures
        slot_weight(s[i]) <= total_weight(s),
{
    lemma_total_weight_take_step(s, i);
    lemma_total_weight_take_bound(s, i + 1);
    lemma_total_weight_nonneg(s.take(i));
}

proof fn lemma_total_weight_push(s: Seq<(Item, u32)>, x: (Item, u32))
    ensures
        total_weight(s.push(x)) == total_weight(s) + slot_weight(x),
{
    assert(s.push(x).drop_last() =~= s);
}

proof fn lemma_total_weight_update(s: Seq<(Item, u32)>, i: int, x: (Item, u32))
    requires
        0 <= i < s.len(),
    ensures
        total_weight(s.update(i, x)) == total_weight(s) - slot_weight(s[i]) + slot_weight(x),
    decreases s.len(),
{
    if i == s.len() - 1 {
        assert(s.update(i, x).drop_last() =~= s.drop_last());
    } else {
        lemma_total_weight_update(s.drop_last(), i, x);
        assert(s.update(i, x).drop_last() =~= s.drop_last().update(i, x));
    }
}

proof fn lemma_total_weight_remove(s: Seq<(Item, u32)>, i: int)
    requires
        0 <= i < s.len(),
    ensures
        total_weight(s.remove(i)) == total_weight(s) - slot_weight(s[i]),
    decreases s.len(),
{
    if i == s.len() - 1 {
        assert(s.remove(i) =~= s.drop_last());
    } else {
        lemma_total_weight_remove(s.drop_last(), i);
        assert(s.remove(i).drop_last() =~= s.drop_last().remove(i));
    }
}

/// `find_slot` is the first index holding the item, or the length.
pub proof fn lemma_find_slot(s: Seq<(Item, u32)>, item: Item)
    ensures
        0 <= find_slot(s, item) <= s.len(),
        find_slot(s, item) < s.len() ==> s[find_slot(s, item)].0 == item,
        forall|j: int| 0 <= j < find_slot(s, item) ==> s[j].0 != item,
    decreases s.len(),
{
    if s.len() > 0 && s[0].0 != item {
        lemma_find_slot(s.drop_first(), item);
        assert forall|j: int| 0 <= j < find_slot(s, item) implies s[j].0 != item by {
            if j > 0 {
                assert(s[j] == s.drop_first()[j - 1]);
            }
        }
    }
}

proof fn lemma_consume_preserves(s: Seq<(Item, u32)>, i: int)
    requires
        0 <= i < s.len(),
        s[i].1 > 0,
    ensures
        total_weight(slots_after_consume(s, i)) == total_weight(s) - item_weight(s[i].0),
        unique_items(s) ==> unique_items(slots_after_consume(s, i)),
        positive_counts(s) ==> positive_counts(slots_after_consume(s, i)),
{
    let x = s[i];
    assert(item_weight(x.0) * x.1 == item_weight(x.0) * (x.1 - 1) + item_weight(x.0)) by (nonlinear_arith);
    if x.1 == 1 {
        lemma_total_weight_remove(s, i);
        assert(item_weight(x.0) * 1 == item_weight(x.0));
        let r = s.remove(i);
        if unique_items(s) {
            assert forall|a: int, b: int| 0 <= a < b < r.len() implies r[a].0 != r[b].0 by {
                let a2 = if a < i { a } else { a + 1 };
                let b2 = if b < i { b } else { b + 1 };
                assert(r[a] == s[a2]);
                assert(r[b] == s[b2]);
            }
        }
    } else {
        lemma_total_weight_update(s, i, (x.0, (x.1 - 1) as u32));
    }
}

/// Removing keeps the weight from growing and keeps the slots well formed.
proof fn lemma_remove_preserves(s: Seq<(Item, u32)>, item: Item, amount: int)
    requires
        amount >= 0,
    ensures
        total_weight(slots_after_remove(s, item, amount)) <= total_weight(s),
        unique_items(s) ==> unique_items(slots_after_remove(s, item, amount)),
        positive_counts(s) ==> positive_counts(slots_after_remove(s, item, amount)),
        forall|x: (Item, u32)| slots_after_remove(s, item, amount).contains(x) ==> exists|k: int|
            0 <= k < s.len() && s[k].0 == x.0 && x.1 <= s[k].1,
    decreases s.len(),
{
    if s.len() > 0 {
        let last = s.last();
        let rest = s.drop_last();
        lemma_total_weight_nonneg(rest);
        lemma_slot_weight_nonneg(last);
        let r = slots_after_remove(s, item, amount);
        if last.0 == item {
            if last.1 > amount {
                let y = (item, (last.1 - amount) as u32);
                assert(y.1 > 0 && y.1 <= last.1);
                lemma_total_weight_push(rest, y);
                assert(item_weight(item) * y.1 <= item_weight(item) * last.1) by (nonlinear_arith)
                    requires y.1 <= last.1, item_weight(item) >= 0;
                assert(s =~= rest.push(last));
                if unique_items(s) {
                    assert forall|a: int, b: int| 0 <= a < b < r.len() implies r[a].0 != r[b].0 by {
                        assert(r[a] == s[a] || a == r.len() - 1);
                        if b == r.len() - 1 {
                            assert(s[a].0 != s[s.len() - 1].0);
                        } else {
                            assert(r[b] == s[b]);
                        }
                    }
                }
                assert forall|x: (Item, u32)| r.contains(x) implies exists|k: int|
                    0 <= k < s.len() && s[k].0 == x.0 && x.1 <= s[k].1 by {
                    let m = choose|m: int| 0 <= m < r.len() && r[m] == x;
                    if m == r.len() - 1 {
                        assert(s[s.len() - 1] == last);
                    } else {
                        assert(r[m] == s[m]);
                    }
                }
            } else {
                lemma_remove_preserves(rest, item, amount - last.1);
                if unique_items(s) {
                    assert(unique_items(rest));
                }
                assert forall|x: (Item, u32)| r.contains(x) implies exists|k: int|
                    0 <= k < s.len() && s[k].0 == x.0 && x.1 <= s[k].1 by {
                    let k = choose|k: int| 0 <= k < rest.len() && rest[k].0 == x.0 && x.1 <= rest[k].1;
                    assert(s[k] == rest[k]);
                }
            }
        } else {
            lemma_remove_preserves(rest, item, amount);
            let p = slots_after_remove(rest, item, amount);
            lemma_total_weight_push(p, last);
            assert(r == p.push(last));
            if unique_items(s) {
                assert(unique_items(rest));
                assert forall|a: int, b: int| 0 <= a < b < r.len() implies r[a].0 != r[b].0 by {
                    if b == r.len() - 1 {
                        assert(r[b] == last);
                        assert(p.contains(r[a]));
                        let k = choose|k: int| 0 <= k < rest.len() && rest[k].0 == r[a].0 && r[a].1 <= rest[k].1;
                        assert(s[k] == rest[k]);
                        assert(s[k].0 != s[s.len() - 1].0);
                    } else {
                        assert(r[a] == p[a]);
                        assert(r[b] == p[b]);
                    }
                }
            }
            if positive_counts(s) {
                assert(positive_counts(rest));
            }
            assert forall|x: (Item, u32)| r.contains(x) implies exists|k: int|
                0 <= k < s.len() && s[k].0 == x.0 && x.1 <= s[k].1 by {
                let m = choose|m: int| 0 <= m < r.len() && r[m] == x;
                if m == r.len() - 1 {
                    assert(s[s.len() - 1] == last);
                } else {
                    assert(p[m] == x);
                    assert(p.contains(x));
                    let k = choose|k: int| 0 <= k < rest.len() && rest[k].0 == x.0 && x.1 <= rest[k].1;
                    assert(s[k] == rest[k]);
                }
            }
        }
        if positive_counts(s) {
            assert(positive_counts(rest));
        }
    }
}

/// `find_slot` is pinned by its characterisation: the first index holding the
/// item, or the length when no slot holds it.
proof fn lemma_find_slot_is(s: Seq<(Item, u32)>, item: Item, f: int)
    requires
        0 <= f <= s.len(),
        f < s.len() ==> s[f].0 == item,
        forall|j: int| 0 <= j < f ==> s[j].0 != item,
    ensures
        find_slot(s, item) == f,
{
    lemma_find_slot(s, item);
    let g = find_slot(s, item);
    if g < f {
        assert(s[g].0 == item);
    } else if f < g {
        assert(s[f].0 != item);
    }
}

/// Removing never adds weight.
pub proof fn lemma_remove_weight(slots: Seq<(Item, u32)>, item: Item, amount: int)
    requires
        amount >= 0,
    ensures
        total_weight(slots_after_remove(slots, item, amount)) <= total_weight(slots),
{
    lemma_remove_preserves(slots, item, amount);
}

/// Storing an item never adds more than its weight.
pub proof fn law_store_weight_bound(slots: Seq<(Item, u32)>, item: Item)
    ensures
        forall|cap: u32| total_weight(#[trigger] slots_after_try_add(slots, item, cap)) <= total_weight(slots) + item_weight(item),
{
    lemma_find_slot(slots, item);
    let f = find_slot(slots, item);
    lemma_total_weight_nonneg(slots);
    if f < slots.len() {
        lemma_total_weight_update(slots, f, (item, (slots[f].1 + 1) as u32));
        assert(item_weight(item) * ((slots[f].1 + 1) as u32) <= item_weight(item) * slots[f].1 + item_weight(item)) by (nonlinear_arith)
            requires item_weight(item) >= 0, (slots[f].1 + 1) as u32 <= slots[f].1 + 1;
    } else {
        lemma_total_weight_push(slots, (item, 1u32));
    }
}

/// Storing an item adds exactly one to what `count_item` reports for it and
/// leaves the count of every other item as it was.
pub proof fn law_add_then_count(slots: Seq<(Item, u32)>, item: Item, other: Item)
    requires
        slot_count(slots, item) < u32::MAX,
        other != item,
    ensures
        slot_count(slots_after_add(slots, item), item) == slot_count(slots, item) + 1,
        slot_count(slots_after_add(slots, item), other) == slot_count(slots, other),
{
    lemma_find_slot(slots, item);
    lemma_find_slot(slots, other);
    let f = find_slot(slots, item);
    let g = find_slot(slots, other);
    let t = slots_after_add(slots, item);
    if f < slots.len() {
        lemma_find_slot_is(t, item, f);
        lemma_find_slot_is(t, other, g);
        if g < slots.len() {
            assert(g != f);
        }
    } else {
        lemma_find_slot_is(t, item, f);
        if g < slots.len() {
            lemma_find_slot_is(t, other, g);
        } else {
            lemma_find_slot_is(t, other, t.len() as int);
        }
    }
}

/// Eating or using one unit of a slot takes exactly one from what `count_item`
/// reports for that slot's item and leaves every other item's count as it was,
/// as long as each item has one slot.
pub proof fn law_consume_then_count(slots: Seq<(Item, u32)>, index: int, other: Item)
    requires
        0 <= index < slots.len(),
        slots[index].1 > 0,
        unique_items(slots),
        other != slots[index].0,
    ensures
        slot_count(slots_after_consume(slots, index), slots[index].0) == slots[index].1 - 1,
        slot_count(slots_after_consume(slots, index), other) == slot_count(slots, other),
{
    let item = slots[index].0;
    let t = slots_after_consume(slots, index);
    lemma_find_slot(slots, other);
    let g = find_slot(slots, other);
    lemma_find_slot_is(slots, item, index);
    if slots[index].1 == 1 {
        assert forall|j: int| 0 <= j < t.len() implies t[j].0 != item by {
            if j < index {
                assert(t[j] == slots[j]);
            } else {
                assert(t[j] == slots[j + 1]);
            }
        }
        lemma_find_slot_is(t, item, t.len() as int);
        if g < index {
            assert(t[g] == slots[g]);
            lemma_find_slot_is(t, other, g);
        } else if g < slots.len() {
            assert(g != index);
            assert(t[g - 1] == slots[g]);
            assert forall|j: int| 0 <= j < g - 1 implies t[j].0 != other by {
                if j < index {
                    assert(t[j] == slots[j]);
                } else {
                    assert(t[j] == slots[j + 1]);
                }
            }
            lemma_find_slot_is(t, other, g - 1);
        } else {
            assert forall|j: int| 0 <= j < t.len() implies t[j].0 != other by {
                if j < index {
                    assert(t[j] == slots[j]);
                } else {
                    assert(t[j] == slots[j + 1]);
                }
            }
            lemma_find_slot_is(t, other, t.len() as int);
        }
    } else {
        lemma_find_slot_is(t, item, index);
        if g < slots.len() {
            assert(g != index);
        }
        lemma_find_slot_is(t, other, g);
    }
}

/// Removing from slots that do not hold the item changes nothing.
proof fn lemma_remove_absent(s: Seq<(Item, u32)>, item: Item, amount: int)
    requires
        forall|j: int| 0 <= j < s.len() ==> s[j].0 != item,
    ensures
        slots_after_remove(s, item, amount) == s,
    decreases s.len(),
{
    if s.len() > 0 {
        lemma_remove_absent(s.drop_last(), item, amount);
        assert(s.drop_last().push(s.last()) =~= s);
    }
}

/// What `count_item` reports after appending a slot.
proof fn lemma_count_push(p: Seq<(Item, u32)>, x: (Item, u32), k: Item)
    ensures
        find_slot(p, k) < p.len() ==> find_slot(p.push(x), k) == find_slot(p, k) && slot_count(p.push(x), k) == slot_count(p, k),
        find_slot(p, k) == p.len() && x.0 == k ==> find_slot(p.push(x), k) == p.len() && slot_count(p.push(x), k) == x.1,
        find_slot(p, k) == p.len() && x.0 != k ==> find_slot(p.push(x), k) == p.len() + 1 && slot_count(p.push(x), k) == 0,
{
    lemma_find_slot(p, k);
    let f = find_slot(p, k);
    let t = p.push(x);
    if f < p.len() {
        lemma_find_slot_is(t, k, f);
    } else if x.0 == k {
        lemma_find_slot_is(t, k, f);
    } else {
        lemma_find_slot_is(t, k, t.len() as int);
    }
}

/// Removing `amount` units of an item leaves `count_item` reporting what was
/// there less `amount`, and never less than zero; every other item keeps its
/// count. This holds as long as each item has one slot.
pub proof fn law_remove_then_count(slots: Seq<(Item, u32)>, item: Item, amount: int, other: Item)
    requires
        amount >= 0,
        unique_items(slots),
        other != item,
    ensures
        slot_count(slots_after_remove(slots, item, amount), item) == if slot_count(slots, item) > amount {
            slot_count(slots, item) - amount
        } else {
            0
        },
        slot_count(slots_after_remove(slots, item, amount), other) == slot_count(slots, other),
        (find_slot(slots_after_remove(slots, item, amount), other) < slots_after_remove(slots, item, amount).len())
            == (find_slot(slots, other) < slots.len()),
    decreases slots.len(),
{
    let r = slots_after_remove(slots, item, amount);
    if slots.len() == 0 {
    } else {
        let last = slots.last();
        let rest = slots.drop_last();
        assert(rest.push(last) =~= slots);
        lemma_find_slot(rest, item);
        lemma_find_slot(rest, other);
        if last.0 == item {
            assert forall|j: int| 0 <= j < rest.len() implies rest[j].0 != item by {
                assert(slots[j] == rest[j]);
            }
            lemma_find_slot_is(rest, item, rest.len() as int);
            lemma_count_push(rest, last, item);
            lemma_count_push(rest, last, other);
            if last.1 > amount {
                let y = (item, (last.1 - amount) as u32);
                lemma_count_push(rest, y, item);
                lemma_count_push(rest, y, other);
            } else {
                lemma_remove_absent(rest, item, amount - last.1);
                lemma_find_slot_is(rest, item, rest.len() as int);
            }
        } else {
            assert(unique_items(rest));
            law_remove_then_count(rest, item, amount, other);
            let p = slots_after_remove(rest, item, amount);
            lemma_count_push(rest, last, item);
            lemma_count_push(rest, last, other);
            lemma_count_push(p, last, item);
            lemma_count_push(p, last, other);
            lemma_find_slot(p, item);
            lemma_find_slot(p, other);
        }
    }
}

/// Storing an item that fits adds exactly its weight.
pub proof fn lemma_add_weight_exact(slots: Seq<(Item, u32)>, item: Item)
    requires
        slot_count(slots, item) < u32::MAX,
    ensures
        total_weight(slots_after_add(slots, item)) == total_weight(slots) + item_weight(item),
{
    lemma_find_slot(slots, item);
    let f = find_slot(slots, item);
    if f < slots.len() {
        lemma_total_weight_update(slots, f, (item, (slots[f].1 + 1) as u32));
        assert(item_weight(item) * (slots[f].1 + 1) == item_weight(item) * slots[f].1 + item_weight(item)) by (nonlinear_arith);
    } else {
        lemma_total_weight_push(slots, (item, 1u32));
    }
}

/// Removing no more units than the slots hold takes exactly their weight, as
/// long as each item has one slot.
pub proof fn lemma_remove_weight_exact(slots: Seq<(Item, u32)>, item: Item, amount: int)
    requires
        unique_items(slots),
        0 <= amount <= slot_count(slots, item),
    ensures
        total_weight(slots_after_remove(slots, item, amount)) == total_weight(slots) - item_weight(item) * amount,
    decreases slots.len(),
{
    if slots.len() > 0 {
        let last = slots.last();
        let rest = slots.drop_last();
        assert(rest.push(last) =~= slots);
        assert(slots.drop_last() == rest);
        lemma_find_slot(rest, item);
        lemma_count_push(rest, last, item);
        if last.0 == item {
            assert forall|j: int| 0 <= j < rest.len() implies rest[j].0 != item by {
                assert(slots[j] == rest[j]);
            }
            lemma_find_slot_is(rest, item, rest.len() as int);
            if last.1 > amount {
                let y = (item, (last.1 - amount) as u32);
                lemma_total_weight_push(rest, y);
                assert(item_weight(item) * (last.1 - amount) == item_weight(item) * last.1 - item_weight(item) * amount) by (nonlinear_arith);
            } else {
                lemma_remove_absent(rest, item, amount - last.1);
            }
        } else {
            assert(unique_items(rest));
            lemma_remove_weight_exact(rest, item, amount);
            lemma_total_weight_push(slots_after_remove(rest, item, amount), last);
        }
    } else {
        assert(item_weight(item) * amount == 0) by (nonlinear_arith)
            requires amount == 0;
    }
}

} // verus!
