//! Equipment and the slots it is worn in.

use crate::colors::Color;
use crate::objects::game::{Game, GameView};
use crate::objects::item::UseResult;
use crate::objects::object::{world, Object, ObjectView};
use vstd::prelude::*;

verus! {

/// A place on the body where one piece of equipment can be worn.
#[derive(Clone, Copy, Debug, PartialEq, Eq, Structural)]
pub enum Slot {
    LeftHand,
    RightHand,
    Head,
}

/// The equipment facet of an entity: where it is worn, whether it is worn
/// now, and what it adds to its wearer's statistics.
#[derive(Clone, Copy, Debug, PartialEq, Eq, Structural)]
pub struct Equipment {
    pub slot: Slot,
    pub equipped: bool,
    pub power_bonus: i32,
    pub defense_bonus: i32,
    pub hp_bonus: i32,
}

impl Slot {
    /// The slot's name in running text.
    pub open spec fn spec_name(self) -> Seq<char> {
        match self {
            Slot::LeftHand => "left hand"@,
            Slot::RightHand => "right hand"@,
            Slot::Head => "head"@,
        }
    }

    /// The slot's name in running text.
    pub fn name(&self) -> (s: &'static str)
        ensures
            s@ == self.spec_name(),
    {
        match self {
            Slot::LeftHand => "left hand",
            Slot::RightHand => "right hand",
            Slot::Head => "head",
        }
    }
}

impl ObjectView {
    /// Whether the entity is worn in `slot`.
    pub open spec fn occupies(self, slot: Slot) -> bool {
        self.equipment matches Some(e) && e.equipped && e.slot == slot
    }
}

/// Whether `i` is the first position of `inventory` whose entity is worn in
/// `slot`.
pub open spec fn first_occupant(inventory: Seq<ObjectView>, slot: Slot, i: int) -> bool {
    &&& 0 <= i < inventory.len()
    &&& inventory[i].occupies(slot)
    &&& forall|j: int| 0 <= j < i ==> !(#[trigger] inventory[j]).occupies(slot)
}

/// Whether nothing in `inventory` is worn in `slot`.
pub open spec fn slot_free(inventory: Seq<ObjectView>, slot: Slot) -> bool {
    forall|j: int| 0 <= j < inventory.len() ==> !(#[trigger] inventory[j]).occupies(slot)
}

/// Whether no two entities of `inventory` are worn in the same slot.
pub open spec fn one_per_slot(inventory: Seq<ObjectView>) -> bool {
    forall|i: int, j: int, slot: Slot|
        0 <= i < j < inventory.len() ==> !(#[trigger] inventory[i].occupies(slot)
            && #[trigger] inventory[j].occupies(slot))
}

/// Whether every piece of equipment in `inventory` is an item.
pub open spec fn equipment_is_item(inventory: Seq<ObjectView>) -> bool {
    forall|i: int|
        0 <= i < inventory.len() ==> ((#[trigger] inventory[i]).equipment is Some
            ==> inventory[i].item is Some)
}

/// The inventory after whatever is worn in `slot` first was taken off.
pub open spec fn slot_cleared(inventory: Seq<ObjectView>, slot: Slot) -> Seq<ObjectView> {
    if exists|i: int| first_occupant(inventory, slot, i) {
        let i = choose|i: int| first_occupant(inventory, slot, i);
        inventory.update(i, inventory[i].after_dequip())
    } else {
        inventory
    }
}

/// The lines that taking off whatever is worn in `slot` first adds to the
/// log.
pub open spec fn slot_cleared_lines(inventory: Seq<ObjectView>, slot: Slot) -> Seq<
    (Seq<char>, Color),
> {
    if exists|i: int| first_occupant(inventory, slot, i) {
        let i = choose|i: int| first_occupant(inventory, slot, i);
        inventory[i].dequip_lines()
    } else {
        Seq::empty()
    }
}

/// The inventory after the piece of equipment at `id` was toggled: first
/// whatever is worn in its slot is taken off; then the piece is taken off if
/// it was worn before, and put on if it was not.
pub open spec fn toggled(inventory: Seq<ObjectView>, id: int) -> Seq<ObjectView> {
    match inventory[id].equipment {
        None => inventory,
        Some(e) => {
            let cleared = slot_cleared(inventory, e.slot);
            if e.equipped {
                cleared.update(id, cleared[id].after_dequip())
            } else {
                cleared.update(id, cleared[id].after_equip())
            }
        },
    }
}

/// The lines that toggling the piece of equipment at `id` adds to the log.
pub open spec fn toggle_lines(inventory: Seq<ObjectView>, id: int) -> Seq<(Seq<char>, Color)> {
    match inventory[id].equipment {
        None => Seq::empty(),
        Some(e) => {
            let cleared = slot_cleared(inventory, e.slot);
            slot_cleared_lines(inventory, e.slot) + if e.equipped {
                cleared[id].dequip_lines()
            } else {
                cleared[id].equip_lines()
            }
        },
    }
}

/// At most one position is the first occupant of a slot.
pub proof fn lemma_first_occupant_unique(inventory: Seq<ObjectView>, slot: Slot, i: int, j: int)
    requires
        first_occupant(inventory, slot, i),
        first_occupant(inventory, slot, j),
    ensures
        i == j,
{
    if i < j {
        assert(!inventory[i].occupies(slot));
    } else if j < i {
        assert(!inventory[j].occupies(slot));
    }
}

/// Finds the first entity of `inventory` that is worn in `slot`.
pub fn get_equipped_in_slot(slot: Slot, inventory: &Vec<Object>) -> (found: Option<usize>)
    ensures
        match found {
            Some(i) => first_occupant(world(inventory@), slot, i as int),
            None => slot_free(world(inventory@), slot),
        },
{
    let mut i: usize = 0;
    while i < inventory.len()
        invariant
            i <= inventory@.len(),
            forall|j: int| 0 <= j < i ==> !(#[trigger] world(inventory@)[j]).occupies(slot),
        decreases inventory@.len() - i,
    {
        let worn = match inventory[i].equipment {
            Some(equipment) => equipment.equipped && equipment.slot == slot,
            None => false,
        };
        if worn {
            assert(world(inventory@)[i as int].occupies(slot));
            return Some(i);
        }
        i += 1;
    }
    None
}

/// Toggles the piece of equipment at `inventory_id`: puts it on if it is
/// not worn, takes it off if it is. Whatever else is worn in its slot is
/// taken off first. An entity that is no equipment cancels the action.
///
/// Where no two pieces were worn in one slot, and the pieces concerned are
/// items, no two are worn in one slot afterwards.
pub fn toggle_equipment(inventory_id: usize, game: &mut Game) -> (result: UseResult)
    requires
        inventory_id < old(game)@.inventory.len(),
    ensures
        result == if old(game)@.inventory[inventory_id as int].equipment is Some {
            UseResult::UsedAndKept
        } else {
            UseResult::Cancelled
        },
        final(game)@ == (GameView {
            inventory: toggled(old(game)@.inventory, inventory_id as int),
            messages: old(game)@.messages + toggle_lines(old(game)@.inventory, inventory_id as int),
            ..old(game)@
        }),
        final(game)@.inventory.len() == old(game)@.inventory.len(),
        (one_per_slot(old(game)@.inventory) && old(game)@.inventory[inventory_id as int].equipment
            is Some && toggle_can_work(old(game)@.inventory, inventory_id as int)) ==> one_per_slot(
            final(game)@.inventory,
        ),
{
    let ghost before = game@.inventory;
    proof {
        if before[inventory_id as int].equipment is Some {
            lemma_toggle_touches_one_slot(before, inventory_id as int);
            if one_per_slot(before) && toggle_can_work(before, inventory_id as int) {
                lemma_toggle_keeps_one_per_slot(before, inventory_id as int);
            }
        }
    }
    let equipment = match game.inventory[inventory_id].equipment {
        Some(equipment) => equipment,
        None => {
            assert(game@.messages =~= old(game)@.messages + toggle_lines(
                before,
                inventory_id as int,
            ));
            return UseResult::Cancelled;
        },
    };
    let current = get_equipped_in_slot(equipment.slot, &game.inventory);
    if let Some(current) = current {
        proof {
            let chosen = choose|i: int| first_occupant(before, equipment.slot, i);
            lemma_first_occupant_unique(before, equipment.slot, current as int, chosen);
        }
        game.inventory[current].dequip(&mut game.messages);
        assert(world(game.inventory@) =~= slot_cleared(before, equipment.slot));
    } else {
        assert(!exists|i: int| first_occupant(before, equipment.slot, i));
    }
    let ghost cleared = world(game.inventory@);
    assert(cleared == slot_cleared(before, equipment.slot));
    assert(game.messages@ =~= old(game)@.messages + slot_cleared_lines(before, equipment.slot));
    if equipment.equipped {
        game.inventory[inventory_id].dequip(&mut game.messages);
        assert(world(game.inventory@) =~= cleared.update(
            inventory_id as int,
            cleared[inventory_id as int].after_dequip(),
        ));
    } else {
        game.inventory[inventory_id].equip(&mut game.messages);
        assert(world(game.inventory@) =~= cleared.update(
            inventory_id as int,
            cleared[inventory_id as int].after_equip(),
        ));
    }
    assert(game@.messages =~= old(game)@.messages + toggle_lines(before, inventory_id as int));
    UseResult::UsedAndKept
}

/// Toggling touches one slot only: the inventory keeps its length and
/// order, nothing about any entity changes but whether it is worn, and an
/// entity other than the one toggled that was not worn in its slot is as it
/// was.
pub proof fn lemma_toggle_touches_one_slot(inventory: Seq<ObjectView>, id: int)
    requires
        0 <= id < inventory.len(),
        inventory[id].equipment is Some,
    ensures
        toggled(inventory, id).len() == inventory.len(),
        forall|j: int|
            0 <= j < inventory.len() ==> #[trigger] toggled(inventory, id)[j] == inventory[j]
                || toggled(inventory, id)[j] == inventory[j].with_equipped(true) || toggled(
                inventory,
                id,
            )[j] == inventory[j].with_equipped(false),
        forall|j: int|
            0 <= j < inventory.len() && j != id && !inventory[j].occupies(
                inventory[id].equipment->0.slot,
            ) ==> #[trigger] toggled(inventory, id)[j] == inventory[j],
{
    let slot = inventory[id].equipment->0.slot;
    let cleared = slot_cleared(inventory, slot);
    assert forall|j: int| 0 <= j < inventory.len() implies #[trigger] cleared[j] == inventory[j]
        || (inventory[j].occupies(slot) && cleared[j] == inventory[j].with_equipped(false)) by {}
    assert forall|j: int| 0 <= j < inventory.len() implies #[trigger] toggled(inventory, id)[j]
        == inventory[j] || toggled(inventory, id)[j] == inventory[j].with_equipped(true)
        || toggled(inventory, id)[j] == inventory[j].with_equipped(false) by {
        assert(cleared[j] == inventory[j] || cleared[j] == inventory[j].with_equipped(false));
        if j == id {
            assert(cleared[j].with_equipped(true) == inventory[j].with_equipped(true));
            assert(cleared[j].with_equipped(false) == inventory[j].with_equipped(false));
        }
    }
}

/// Whether toggling the piece at `id` can work at all: the piece is an
/// item, and so is whatever is worn in its slot. What is no item refuses to
/// be put on or taken off.
pub open spec fn toggle_can_work(inventory: Seq<ObjectView>, id: int) -> bool {
    &&& inventory[id].item is Some
    &&& forall|j: int|
        0 <= j < inventory.len() && (#[trigger] inventory[j]).occupies(
            inventory[id].equipment->0.slot,
        ) ==> inventory[j].item is Some
}

/// Toggling keeps the inventory in order: where no two pieces are worn in
/// one slot, the same holds afterwards. A piece that was not worn is worn
/// afterwards, and nothing else is worn in its slot; a piece that was worn
/// is not worn afterwards. Where every piece of equipment is an item, it
/// still is.
pub proof fn lemma_toggle_keeps_one_per_slot(inventory: Seq<ObjectView>, id: int)
    requires
        0 <= id < inventory.len(),
        one_per_slot(inventory),
        inventory[id].equipment is Some,
        toggle_can_work(inventory, id),
    ensures
        toggled(inventory, id).len() == inventory.len(),
        equipment_is_item(inventory) ==> equipment_is_item(toggled(inventory, id)),
        one_per_slot(toggled(inventory, id)),
        toggled(inventory, id)[id].is_equipped() == !inventory[id].is_equipped(),
        forall|j: int|
            0 <= j < inventory.len() && j != id ==> !(#[trigger] toggled(
                inventory,
                id,
            )[j]).occupies(inventory[id].equipment->0.slot),
{
    let e = inventory[id].equipment->0;
    let slot = e.slot;
    let cleared = slot_cleared(inventory, slot);
    let after = toggled(inventory, id);
    assert(inventory[id].item is Some);
    assert forall|j: int| 0 <= j < cleared.len() implies !(#[trigger] cleared[j]).occupies(
        slot,
    ) by {
        if exists|i: int| first_occupant(inventory, slot, i) {
            let i = choose|i: int| first_occupant(inventory, slot, i);
            assert(inventory[i].occupies(slot));
            assert(inventory[i].item is Some);
            if j != i && inventory[j].occupies(slot) {
                if i < j {
                    assert(!(inventory[i].occupies(slot) && inventory[j].occupies(slot)));
                } else {
                    assert(!(inventory[j].occupies(slot) && inventory[i].occupies(slot)));
                }
            }
        } else {
            if inventory[j].occupies(slot) {
                lemma_some_first_occupant(inventory, slot, j);
            }
        }
    }
    assert forall|j: int| 0 <= j < cleared.len() implies (#[trigger] cleared[j]).equipment
        is Some == inventory[j].equipment is Some && cleared[j].item == inventory[j].item
        && forall|other: Slot| cleared[j].occupies(other) ==> inventory[j].occupies(other) by {}
    assert forall|i: int, j: int, other: Slot| 0 <= i < j < after.len() implies !(
    #[trigger] after[i].occupies(other) && #[trigger] after[j].occupies(other)) by {
        if after[i].occupies(other) && after[j].occupies(other) {
            if other == slot {
                assert(!cleared[i].occupies(slot));
                assert(!cleared[j].occupies(slot));
            } else {
                assert(cleared[i].occupies(other) ==> inventory[i].occupies(other));
                assert(cleared[j].occupies(other) ==> inventory[j].occupies(other));
                assert(!(inventory[i].occupies(other) && inventory[j].occupies(other)));
            }
        }
    }
    assert forall|j: int| 0 <= j < inventory.len() && j != id implies !(#[trigger] after[j])
        .occupies(slot) by {
        assert(!cleared[j].occupies(slot));
    }
    if equipment_is_item(inventory) {
        assert forall|i: int| 0 <= i < after.len() && (#[trigger] after[i]).equipment
            is Some implies after[i].item is Some by {
            assert(cleared[i].equipment is Some == inventory[i].equipment is Some);
            assert(inventory[i].equipment is Some ==> inventory[i].item is Some);
        }
    }
}

/// Where something is worn in a slot, something is worn in it first.
proof fn lemma_some_first_occupant(inventory: Seq<ObjectView>, slot: Slot, j: int)
    requires
        0 <= j < inventory.len(),
        inventory[j].occupies(slot),
    ensures
        exists|i: int| first_occupant(inventory, slot, i),
    decreases j,
{
    if forall|k: int| 0 <= k < j ==> !(#[trigger] inventory[k]).occupies(slot) {
        assert(first_occupant(inventory, slot, j));
    } else {
        let k = choose|k: int| 0 <= k < j && (#[trigger] inventory[k]).occupies(slot);
        lemma_some_first_occupant(inventory, slot, k);
    }
}

} // verus!
