use vstd::prelude::*;
use vstd::string::StringExecFns;

use crate::color;
use crate::game::Game;
use crate::magic::{
    cast_confuse, cast_fireball, cast_heal, cast_lightning, fireball_msgs_upto, fireball_name,
    fireball_one, fireball_player_final, in_blast, CONFUSE_NUM_TURNS, HEAL_AMOUNT,
    LIGHTNING_DAMAGE, LIGHTNING_RANGE,
};
use crate::map::{on_map, Fov};
use crate::monster_ai::Ai;
use crate::object::{
    after_damage, after_damage_name, dies_from, eq_except_ai, eq_except_name, equip_msg_count,
    equip_result, first_match, heal_result, hostile_candidate, lemma_first_match, objects_ok,
    spec_dist2, spec_max_hp, unequip_msg_count, unequip_result, xp_sum, DeathCallback, Fighter,
    Object, XP_LIMIT,
};

verus! {

/// Inventory capacity: one slot per alphabetic menu key.
pub const MAX_INVENTORY_SIZE: usize = 26;

/// What an entity does when used from the inventory.
#[derive(Clone, Copy, Debug, PartialEq, Eq, Structural)]
pub enum Item {
    Heal,
    Lightning,
    Confuse,
    Fireball,
    Sword,
    Shield,
}

/// Outcome of using an inventory entry: consumed, kept (gear toggles), or
/// cancelled with no state change.
#[derive(Clone, Copy, Debug, PartialEq, Eq, Structural)]
pub enum UseResult {
    UsedUp,
    UsedAndKept,
    Cancelled,
}

/// Body locations; at most one equipped item per slot is enforced by the
/// equip logic, not by the data model.
#[derive(Clone, Copy, Debug, PartialEq, Eq, Structural)]
pub enum Slot {
    LeftHand,
    RightHand,
    Head,
    Chest,
    Legs,
    Feet,
    Hands,
    Back,
    LeftFinger,
    RightFinger,
}

impl Slot {
    pub open spec fn name_spec(self) -> Seq<char> {
        match self {
            Slot::LeftHand => "left hand"@,
            Slot::RightHand => "right hand"@,
            Slot::Head => "head"@,
            Slot::Chest => "chest"@,
            Slot::Legs => "legs"@,
            Slot::Feet => "feet"@,
            Slot::Hands => "hands"@,
            Slot::Back => "back"@,
            Slot::LeftFinger => "left finger"@,
            Slot::RightFinger => "right finger"@,
        }
    }

    /// Human-readable slot name for menus and messages.
    pub fn name(&self) -> (s: String)
        ensures
            s@ == self.name_spec(),
    {
        match *self {
            Slot::LeftHand => "left hand".to_owned(),
            Slot::RightHand => "right hand".to_owned(),
            Slot::Head => "head".to_owned(),
            Slot::Chest => "chest".to_owned(),
            Slot::Legs => "legs".to_owned(),
            Slot::Feet => "feet".to_owned(),
            Slot::Hands => "hands".to_owned(),
            Slot::Back => "back".to_owned(),
            Slot::LeftFinger => "left finger".to_owned(),
            Slot::RightFinger => "right finger".to_owned(),
        }
    }
}

/// The equipment capability of an item entity: where it sits and which
/// stat bonuses it grants while equipped.
#[derive(Clone, Copy, Debug, PartialEq, Eq, Structural)]
pub struct Equipment {
    pub slot: Slot,
    pub equipped: bool,
    pub max_hp_bonus: i32,
    pub power_bonus: i32,
    pub defense_bonus: i32,
    pub magic_bonus: i32,
}

/// Whether an inventory entry occupies `slot` right now.
pub open spec fn equipped_in_slot(o: Object, slot: Slot) -> bool {
    o.equipment matches Option::Some(e) && e.equipped && e.slot == slot
}

/// The first inventory entry currently equipped in `slot`, if any.
pub fn get_equipped_in_slot(slot: Slot, inventory: &Vec<Object>) -> (r: Option<usize>)
    ensures
        (match r {
            Option::Some(i) => {
                &&& i < inventory@.len()
                &&& equipped_in_slot(inventory@[i as int], slot)
                &&& forall|j: int|
                    0 <= j < i ==> !equipped_in_slot(#[trigger] inventory@[j], slot)
            },
            Option::None => forall|j: int|
                0 <= j < inventory@.len() ==> !equipped_in_slot(#[trigger] inventory@[j], slot),
        }),
{
    let mut i: usize = 0;
    while i < inventory.len()
        invariant
            i <= inventory@.len(),
            forall|j: int| 0 <= j < i ==> !equipped_in_slot(#[trigger] inventory@[j], slot),
        decreases inventory@.len() - i,
    {
        let entry = &inventory[i];
        match &entry.equipment {
            Option::Some(e) => {
                if e.equipped && e.slot == slot {
                    return Option::Some(i);
                }
            },
            Option::None => {},
        }
        i = i + 1;
    }
    Option::None
}

/// Move an entity from the free roster into the inventory. Rejected with
/// only a log line when the inventory holds `MAX_INVENTORY_SIZE` entries;
/// otherwise the entity leaves the roster (the roster's last entry takes
/// its index) and, when it is gear whose slot is free, it is equipped on
/// the spot.
pub fn pick_item_up(object_id: usize, game: &mut Game, objects: &mut Vec<Object>)
    requires
        object_id < old(objects)@.len(),
    ensures
        final(game).map == old(game).map,
        final(game).dungeon_level == old(game).dungeon_level,
        ({
            let inv0 = old(game).inventory@;
            let s = old(objects)@;
            if inv0.len() >= MAX_INVENTORY_SIZE {
                &&& final(objects)@ == s
                &&& final(game).inventory@ == inv0
                &&& final(game).messages@.len() == old(game).messages@.len() + 1
            } else {
                let item = s[object_id as int];
                let inv1 = inv0.push(item);
                &&& final(objects)@ == s.update(object_id as int, s.last()).drop_last()
                &&& (match item.equipment {
                    Option::Some(e) => {
                        if first_match(inv1, |o: Object| equipped_in_slot(o, e.slot)) is None {
                            &&& final(game).inventory@ == inv1.update(
                                inv0.len() as int,
                                equip_result(item),
                            )
                            &&& final(game).messages@.len() == old(game).messages@.len() + 1
                                + equip_msg_count(item)
                        } else {
                            &&& final(game).inventory@ == inv1
                            &&& final(game).messages@.len() == old(game).messages@.len() + 1
                        }
                    },
                    Option::None => final(game).inventory@ == inv1 && final(game).messages@.len()
                        == old(game).messages@.len() + 1,
                })
            }
        }),
{
    if game.inventory.len() >= MAX_INVENTORY_SIZE {
        let mut m = "Your inventory is full! cannot pick up ".to_owned();
        m.append(objects[object_id].name.as_str());
        m.append("!");
        game.messages.add(m, color::red());
    } else {
        let item = objects.swap_remove(object_id);
        let mut m = "You picked up ".to_owned();
        m.append(item.name.as_str());
        m.append("!");
        game.messages.add(m, color::green());
        let index = game.inventory.len();
        let slot_opt = match &item.equipment {
            Option::Some(e) => Option::Some(e.slot),
            Option::None => Option::None,
        };
        let ghost item_g = item;
        game.inventory.push(item);
        match slot_opt {
            Option::Some(slot) => {
                let found = get_equipped_in_slot(slot, &game.inventory);
                proof {
                    lemma_first_match(
                        game.inventory@,
                        |o: Object| equipped_in_slot(o, slot),
                    );
                }
                match found {
                    Option::None => {
                        let ghost inv1 = game.inventory@;
                        let mut it = game.inventory.remove(index);
                        it.equip(&mut game.messages);
                        game.inventory.insert(index, it);
                        proof {
                            assert(game.inventory@ =~= inv1.update(
                                index as int,
                                equip_result(item_g),
                            ));
                        }
                    },
                    Option::Some(_) => {},
                }
            },
            Option::None => {},
        }
    }
}

/// Remove an inventory entry and re-materialize it on the map at the
/// player's feet, unequipping it first when it is equipped gear.
pub fn drop_item(inventory_id: usize, game: &mut Game, objects: &mut Vec<Object>)
    requires
        inventory_id < old(game).inventory@.len(),
        old(objects)@.len() > 0,
    ensures
        final(game).map == old(game).map,
        final(game).dungeon_level == old(game).dungeon_level,
        final(game).inventory@ == old(game).inventory@.remove(inventory_id as int),
        ({
            let item = old(game).inventory@[inventory_id as int];
            let bare = match item.equipment {
                Option::Some(_) => unequip_result(item),
                Option::None => item,
            };
            &&& final(objects)@ == old(objects)@.push(
                Object { x: old(objects)@[0].x, y: old(objects)@[0].y, ..bare },
            )
            &&& final(game).messages@.len() == old(game).messages@.len() + 1 + (
            match item.equipment {
                Option::Some(_) => unequip_msg_count(item),
                Option::None => 0int,
            })
        }),
{
    let mut item = game.inventory.remove(inventory_id);
    if item.equipment.is_some() {
        item.unequip(&mut game.messages);
    }
    let px = objects[0].x;
    let py = objects[0].y;
    item.set_pos(px, py);
    let mut m = "You dropped a ".to_owned();
    m.append(item.name.as_str());
    m.append(".");
    game.messages.add(m, color::yellow());
    objects.push(item);
}

/// The inventory after one equip-toggle at `id`: whatever currently
/// occupies the same slot is unequipped first, then the entry itself is
/// equipped or unequipped, mirroring its prior state. An entry without an
/// equipment component leaves the inventory untouched.
pub open spec fn toggle_result(inv: Seq<Object>, id: int) -> Seq<Object> {
    match inv[id].equipment {
        Option::None => inv,
        Option::Some(e) => {
            let inv1 = match first_match(inv, |o: Object| equipped_in_slot(o, e.slot)) {
                Option::Some(cur) => inv.update(cur, unequip_result(inv[cur])),
                Option::None => inv,
            };
            if e.equipped {
                inv1.update(id, unequip_result(inv1[id]))
            } else {
                inv1.update(id, equip_result(inv1[id]))
            }
        },
    }
}

/// Log lines one equip-toggle produces.
pub open spec fn toggle_msg_count(inv: Seq<Object>, id: int) -> int {
    match inv[id].equipment {
        Option::None => 0,
        Option::Some(e) => {
            let first = first_match(inv, |o: Object| equipped_in_slot(o, e.slot));
            let n1 = match first {
                Option::Some(cur) => unequip_msg_count(inv[cur]),
                Option::None => 0int,
            };
            let inv1 = match first {
                Option::Some(cur) => inv.update(cur, unequip_result(inv[cur])),
                Option::None => inv,
            };
            n1 + (if e.equipped {
                unequip_msg_count(inv1[id])
            } else {
                equip_msg_count(inv1[id])
            })
        },
    }
}

/// Toggle the equipped state of an inventory entry, unequipping whatever
/// else occupies its slot first; gear is never consumed by use.
pub fn toggle_equipment(inventory_id: usize, game: &mut Game) -> (r: UseResult)
    requires
        inventory_id < old(game).inventory@.len(),
    ensures
        final(game).map == old(game).map,
        final(game).dungeon_level == old(game).dungeon_level,
        final(game).inventory@ == toggle_result(old(game).inventory@, inventory_id as int),
        final(game).messages@.len() == old(game).messages@.len() + toggle_msg_count(
            old(game).inventory@,
            inventory_id as int,
        ),
        r == (match old(game).inventory@[inventory_id as int].equipment {
            Option::Some(_) => UseResult::UsedAndKept,
            Option::None => UseResult::Cancelled,
        }),
{
    let equipment = match &game.inventory[inventory_id].equipment {
        Option::Some(e) => *e,
        Option::None => {
            return UseResult::Cancelled;
        },
    };
    let found = get_equipped_in_slot(equipment.slot, &game.inventory);
    proof {
        lemma_first_match(
            game.inventory@,
            |o: Object| equipped_in_slot(o, equipment.slot),
        );
    }
    match found {
        Option::Some(current) => {
            let mut cur = game.inventory.remove(current);
            cur.unequip(&mut game.messages);
            game.inventory.insert(current, cur);
            proof {
                assert(game.inventory@ =~= old(game).inventory@.update(
                    current as int,
                    unequip_result(old(game).inventory@[current as int]),
                ));
            }
        },
        Option::None => {},
    }
    let ghost inv1 = game.inventory@;
    let mut entry = game.inventory.remove(inventory_id);
    if equipment.equipped {
        entry.unequip(&mut game.messages);
    } else {
        entry.equip(&mut game.messages);
    }
    game.inventory.insert(inventory_id, entry);
    proof {
        if equipment.equipped {
            assert(game.inventory@ =~= inv1.update(
                inventory_id as int,
                unequip_result(inv1[inventory_id as int]),
            ));
        } else {
            assert(game.inventory@ =~= inv1.update(
                inventory_id as int,
                equip_result(inv1[inventory_id as int]),
            ));
        }
    }
    UseResult::UsedAndKept
}

/// The target the front end picked for a use: nothing, a map tile, or a
/// monster's roster index. Which form an item wants depends on its tag;
/// the interactive targeting loops live entirely in the front end.
#[derive(Clone, Copy, Debug, PartialEq, Eq, Structural)]
pub enum UseTarget {
    Nothing,
    Tile(i32, i32),
    Monster(usize),
}

/// Use one inventory entry: dispatch on its item tag to the matching
/// consumable effect or to the equip toggle. A consuming success removes
/// the entry from the inventory; gear is kept; a cancelled use leaves
/// every entry in place and logs a cancellation. An entry without an
/// item tag only logs that it cannot be used.
pub fn use_item(
    inventory_id: usize,
    target: UseTarget,
    game: &mut Game,
    objects: &mut Vec<Object>,
    fov: &Fov,
) -> (r: UseResult)
    requires
        inventory_id < old(game).inventory@.len(),
        old(objects)@.len() > 0,
        objects_ok(old(objects)@),
        crate::object::inv_ok(old(game).inventory@),
        old(objects)@[0].fighter is Some,
        old(objects)@[0].fighter->Some_0.on_death == DeathCallback::Player,
        xp_sum(old(objects)@) <= XP_LIMIT,
        fov.wf(),
        forall|i: int|
            0 <= i < old(objects)@.len() ==> on_map(
                (#[trigger] old(objects)@[i]).x as int,
                old(objects)@[i].y as int,
            ),
        (match old(game).inventory@[inventory_id as int].item {
            Option::Some(Item::Confuse) => (match target {
                UseTarget::Monster(m) => 0 < m < old(objects)@.len(),
                UseTarget::Nothing => true,
                UseTarget::Tile(_, _) => false,
            }),
            Option::Some(Item::Fireball) => (match target {
                UseTarget::Tile(tx, ty) => on_map(tx as int, ty as int),
                UseTarget::Nothing => true,
                UseTarget::Monster(_) => false,
            }),
            _ => target is Nothing,
        }),
    ensures
        final(game).map == old(game).map,
        final(game).dungeon_level == old(game).dungeon_level,
        ({
            let inv0 = old(game).inventory@;
            let s = old(objects)@;
            let id = inventory_id as int;
            match inv0[id].item {
                Option::None => {
                    &&& r == UseResult::Cancelled
                    &&& final(game).inventory@ == inv0
                    &&& final(objects)@ == s
                    &&& final(game).messages@.len() == old(game).messages@.len() + 1
                },
                Option::Some(Item::Heal) => if s[0].fighter->Some_0.hp == spec_max_hp(
                    s[0],
                    inv0,
                ) {
                    &&& r == UseResult::Cancelled
                    &&& final(game).inventory@ == inv0
                    &&& final(objects)@ == s
                    &&& final(game).messages@.len() == old(game).messages@.len() + 2
                } else {
                    &&& r == UseResult::UsedUp
                    &&& final(game).inventory@ == inv0.remove(id)
                    &&& final(objects)@ == s.update(0, heal_result(s[0], HEAL_AMOUNT, inv0))
                    &&& final(game).messages@.len() == old(game).messages@.len() + 1
                },
                Option::Some(Item::Lightning) => if exists|j: int|
                    0 < j < s.len() && hostile_candidate(#[trigger] s[j], *fov) && spec_dist2(
                        s[0],
                        s[j],
                    ) < (LIGHTNING_RANGE + 1) * (LIGHTNING_RANGE + 1) {
                    &&& r == UseResult::UsedUp
                    &&& final(game).inventory@ == inv0.remove(id)
                    &&& final(objects)@.len() == s.len()
                    &&& exists|mid: int|
                        {
                            &&& 0 < mid < s.len()
                            &&& hostile_candidate(#[trigger] s[mid], *fov)
                            &&& forall|j: int|
                                0 < j < s.len() && hostile_candidate(#[trigger] s[j], *fov)
                                    ==> spec_dist2(s[0], s[mid]) <= spec_dist2(s[0], s[j])
                            &&& eq_except_name(
                                final(objects)@[mid],
                                after_damage(s[mid], LIGHTNING_DAMAGE),
                            )
                            &&& final(objects)@[mid].name@ == after_damage_name(
                                s[mid],
                                LIGHTNING_DAMAGE,
                            )
                            &&& forall|j: int|
                                0 <= j < s.len() && j != 0 && j != mid ==> final(objects)@[j]
                                    == s[j]
                        }
                } else {
                    &&& r == UseResult::Cancelled
                    &&& final(game).inventory@ == inv0
                    &&& final(objects)@ == s
                    &&& final(game).messages@.len() == old(game).messages@.len() + 2
                },
                Option::Some(Item::Confuse) => (match target {
                    UseTarget::Monster(m) => {
                        &&& r == UseResult::UsedUp
                        &&& final(game).inventory@ == inv0.remove(id)
                        &&& final(objects)@.len() == s.len()
                        &&& eq_except_ai(final(objects)@[m as int], s[m as int])
                        &&& (final(objects)@[m as int].ai matches Option::Some(a) && (a matches
                        Ai::Confused { previous_ai, num_turns } && {
                            &&& num_turns == CONFUSE_NUM_TURNS
                            &&& *previous_ai == (match s[m as int].ai {
                                Option::Some(prev) => prev,
                                Option::None => Ai::Basic,
                            })
                        }))
                        &&& forall|j: int|
                            0 <= j < s.len() && j != m ==> final(objects)@[j] == s[j]
                        &&& final(game).messages@.len() == old(game).messages@.len() + 1
                    },
                    _ => {
                        &&& r == UseResult::Cancelled
                        &&& final(game).inventory@ == inv0
                        &&& final(objects)@ == s
                        &&& final(game).messages@.len() == old(game).messages@.len() + 2
                    },
                }),
                Option::Some(Item::Fireball) => (match target {
                    UseTarget::Tile(tx, ty) => {
                        &&& r == UseResult::UsedUp
                        &&& final(game).inventory@ == inv0.remove(id)
                        &&& final(objects)@.len() == s.len()
                        &&& final(objects)@[0] == fireball_player_final(s, tx as int, ty as int)
                        &&& forall|j: int|
                            0 < j < s.len() ==> eq_except_name(
                                #[trigger] final(objects)@[j],
                                fireball_one(s[j], tx as int, ty as int),
                            )
                        &&& forall|j: int|
                            0 < j < s.len() ==> (#[trigger] final(objects)@[j]).name@
                                == fireball_name(s[j], tx as int, ty as int)
                        &&& final(game).messages@.len() == old(game).messages@.len() + 1
                            + fireball_msgs_upto(s, tx as int, ty as int, s.len() as int)
                    },
                    _ => {
                        &&& r == UseResult::Cancelled
                        &&& final(game).inventory@ == inv0
                        &&& final(objects)@ == s
                        &&& final(game).messages@.len() == old(game).messages@.len() + 1
                    },
                }),
                Option::Some(Item::Sword) | Option::Some(Item::Shield) => {
                    &&& r == (match inv0[id].equipment {
                        Option::Some(_) => UseResult::UsedAndKept,
                        Option::None => UseResult::Cancelled,
                    })
                    &&& final(objects)@ == s
                    &&& final(game).inventory@ == toggle_result(inv0, id)
                    &&& final(game).messages@.len() == old(game).messages@.len()
                        + toggle_msg_count(inv0, id) + (match inv0[id].equipment {
                        Option::Some(_) => 0int,
                        Option::None => 1int,
                    })
                },
            }
        }),
{
    let item_tag = match &game.inventory[inventory_id].item {
        Option::Some(it) => Option::Some(*it),
        Option::None => Option::None,
    };
    let r = match item_tag {
        Option::Some(it) => {
            let result = match it {
                Item::Heal => cast_heal(game, objects),
                Item::Lightning => cast_lightning(game, objects, fov),
                Item::Confuse => {
                    let chosen = match target {
                        UseTarget::Monster(m) => Option::Some(m),
                        _ => Option::None,
                    };
                    cast_confuse(chosen, game, objects)
                },
                Item::Fireball => {
                    let chosen = match target {
                        UseTarget::Tile(tx, ty) => Option::Some((tx, ty)),
                        _ => Option::None,
                    };
                    cast_fireball(chosen, game, objects)
                },
                Item::Sword => toggle_equipment(inventory_id, game),
                Item::Shield => toggle_equipment(inventory_id, game),
            };
            match result {
                UseResult::UsedUp => {
                    game.inventory.remove(inventory_id);
                },
                UseResult::UsedAndKept => {},
                UseResult::Cancelled => {
                    game.messages.add("Cancelled".to_owned(), color::white());
                },
            }
            result
        },
        Option::None => {
            let mut m = "The ".to_owned();
            m.append(game.inventory[inventory_id].name.as_str());
            m.append(" cannot be used!");
            game.messages.add(m, color::white());
            UseResult::Cancelled
        },
    };
    r
}

} // verus!
