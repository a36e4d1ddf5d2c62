use vstd::prelude::*;

use crate::color;
use crate::map::{in_room_interior, map_wf, room_in_bounds, spawned_core, GameMap, Rect, Tile};
use crate::monster_ai::Ai;
use crate::object::{
    from_dungeon_level, is_blocked, table_value, DeathCallback, Fighter, Object, Transition,
};
use crate::rng::{rand_range_i32, rand_upto_u32, sum_weights, weighted_pick};

verus! {

/// The monster taxonomy the generator can draw from.
#[derive(Clone, Copy, Debug, PartialEq, Eq, Structural)]
pub enum Monster {
    Orc,
    Troll,
    Bandit,
    Warrior,
    Zombie,
    Demon,
}

/// Stat block of a freshly spawned orc.
pub open spec fn orc_stats() -> Fighter {
    Fighter {
        base_max_hp: 20,
        hp: 20,
        base_defense: 0,
        base_power: 4,
        base_magic: 0,
        xp: 35,
        on_death: DeathCallback::Monster,
    }
}

/// Stat block of a freshly spawned troll.
pub open spec fn troll_stats() -> Fighter {
    Fighter {
        base_max_hp: 30,
        hp: 30,
        base_defense: 2,
        base_power: 8,
        base_magic: 0,
        xp: 100,
        on_death: DeathCallback::Monster,
    }
}

/// Stat block of a freshly spawned bandit.
pub open spec fn bandit_stats() -> Fighter {
    Fighter {
        base_max_hp: 45,
        hp: 45,
        base_defense: 3,
        base_power: 10,
        base_magic: 0,
        xp: 175,
        on_death: DeathCallback::Monster,
    }
}

/// Stat block of a freshly spawned warrior.
pub open spec fn warrior_stats() -> Fighter {
    Fighter {
        base_max_hp: 60,
        hp: 60,
        base_defense: 5,
        base_power: 12,
        base_magic: 0,
        xp: 250,
        on_death: DeathCallback::Monster,
    }
}

/// The monster-count threshold table of the deeper-dungeon roster.
pub open spec fn deep_monster_count_table() -> Seq<Transition> {
    seq![
        Transition { level: 1, value: 2 },
        Transition { level: 4, value: 3 },
        Transition { level: 6, value: 5 },
        Transition { level: 11, value: 2 },
        Transition { level: 15, value: 3 },
        Transition { level: 18, value: 5 },
        Transition { level: 21, value: 3 },
        Transition { level: 24, value: 4 },
        Transition { level: 27, value: 6 },
    ]
}

pub open spec fn orc_weight_table() -> Seq<Transition> {
    seq![
        Transition { level: 1, value: 100 },
        Transition { level: 3, value: 85 },
        Transition { level: 5, value: 70 },
        Transition { level: 7, value: 40 },
        Transition { level: 11, value: 0 },
    ]
}

pub open spec fn troll_weight_table() -> Seq<Transition> {
    seq![
        Transition { level: 3, value: 15 },
        Transition { level: 5, value: 30 },
        Transition { level: 7, value: 60 },
        Transition { level: 11, value: 50 },
        Transition { level: 14, value: 10 },
        Transition { level: 17, value: 0 },
    ]
}

pub open spec fn bandit_weight_table() -> Seq<Transition> {
    seq![
        Transition { level: 11, value: 50 },
        Transition { level: 14, value: 60 },
        Transition { level: 17, value: 55 },
        Transition { level: 21, value: 10 },
    ]
}

pub open spec fn warrior_weight_table() -> Seq<Transition> {
    seq![
        Transition { level: 14, value: 30 },
        Transition { level: 17, value: 45 },
        Transition { level: 21, value: 70 },
    ]
}

/// Depth gating of the deeper-dungeon roster: each kind appears only at
/// depths where its spawn weight is positive (orcs fade out from depth
/// eleven, trolls from seventeen; bandits and warriors arrive late), and
/// this policy never places item entities.
pub open spec fn deep_spawn_kind(o: Object, level: u32) -> bool {
    &&& o.ai is Some
    &&& o.item is None
    &&& (o.name@ == "orc"@ ==> table_value(orc_weight_table(), level) > 0)
    &&& (o.name@ == "troll"@ ==> table_value(troll_weight_table(), level) > 0)
    &&& (o.name@ == "bandit"@ ==> table_value(bandit_weight_table(), level) > 0)
    &&& (o.name@ == "warrior"@ ==> table_value(warrior_weight_table(), level) > 0)
}

/// What the deeper-dungeon roster may add: a monster of one of the four
/// kinds with its fresh stat block, strictly inside the room, on a tile
/// the map does not block, and only of a kind the depth admits.
pub open spec fn deep_spawned_entity(o: Object, room: Rect, m: Seq<Vec<Tile>>, level: u32) -> bool {
    &&& in_room_interior(room, o.x as int, o.y as int)
    &&& !m[o.x as int]@[o.y as int].blocked
    &&& spawned_core(o)
    &&& deep_spawn_kind(o, level)
}

/// Populate one room from the deeper-dungeon monster roster: the same
/// placement policy as `place_objects`, with four monster kinds whose
/// spawn weights shift with depth (orcs fade out, bandits and warriors
/// take over), and no items.
pub fn monster_table(room: Rect, map: &GameMap, objects: &mut Vec<Object>, level: u32)
    requires
        map_wf(map@),
        room_in_bounds(room),
        level >= 1,
    ensures
        final(objects)@.len() >= old(objects)@.len(),
        final(objects)@.len() <= old(objects)@.len() + table_value(
            deep_monster_count_table(),
            level,
        ),
        forall|j: int|
            0 <= j < old(objects)@.len() ==> #[trigger] final(objects)@[j] == old(objects)@[j],
        forall|j: int|
            old(objects)@.len() <= j < final(objects)@.len() ==> deep_spawned_entity(
                #[trigger] final(objects)@[j],
                room,
                map@,
                level,
            ),
{
    let mut count_table: Vec<Transition> = Vec::new();
    count_table.push(Transition { level: 1, value: 2 });
    count_table.push(Transition { level: 4, value: 3 });
    count_table.push(Transition { level: 6, value: 5 });
    count_table.push(Transition { level: 11, value: 2 });
    count_table.push(Transition { level: 15, value: 3 });
    count_table.push(Transition { level: 18, value: 5 });
    count_table.push(Transition { level: 21, value: 3 });
    count_table.push(Transition { level: 24, value: 4 });
    count_table.push(Transition { level: 27, value: 6 });
    let max_monsters = from_dungeon_level(count_table.as_slice(), level);
    let num_monsters = rand_upto_u32(max_monsters);

    let mut orc_table: Vec<Transition> = Vec::new();
    orc_table.push(Transition { level: 1, value: 100 });
    orc_table.push(Transition { level: 3, value: 85 });
    orc_table.push(Transition { level: 5, value: 70 });
    orc_table.push(Transition { level: 7, value: 40 });
    orc_table.push(Transition { level: 11, value: 0 });
    let orc_chance = from_dungeon_level(orc_table.as_slice(), level);

    let mut troll_table: Vec<Transition> = Vec::new();
    troll_table.push(Transition { level: 3, value: 15 });
    troll_table.push(Transition { level: 5, value: 30 });
    troll_table.push(Transition { level: 7, value: 60 });
    troll_table.push(Transition { level: 11, value: 50 });
    troll_table.push(Transition { level: 14, value: 10 });
    troll_table.push(Transition { level: 17, value: 0 });
    let troll_chance = from_dungeon_level(troll_table.as_slice(), level);

    let mut bandit_table: Vec<Transition> = Vec::new();
    bandit_table.push(Transition { level: 11, value: 50 });
    bandit_table.push(Transition { level: 14, value: 60 });
    bandit_table.push(Transition { level: 17, value: 55 });
    bandit_table.push(Transition { level: 21, value: 10 });
    let bandit_chance = from_dungeon_level(bandit_table.as_slice(), level);

    let mut warrior_table: Vec<Transition> = Vec::new();
    warrior_table.push(Transition { level: 14, value: 30 });
    warrior_table.push(Transition { level: 17, value: 45 });
    warrior_table.push(Transition { level: 21, value: 70 });
    let warrior_chance = from_dungeon_level(warrior_table.as_slice(), level);

    let mut weights: Vec<u32> = Vec::new();
    weights.push(orc_chance);
    weights.push(troll_chance);
    weights.push(bandit_chance);
    weights.push(warrior_chance);
    proof {
        assert(count_table@ =~= deep_monster_count_table());
        assert(orc_table@ =~= orc_weight_table());
        assert(troll_table@ =~= troll_weight_table());
        assert(bandit_table@ =~= bandit_weight_table());
        assert(warrior_table@ =~= warrior_weight_table());
        assert(orc_chance <= 100 && troll_chance <= 60 && bandit_chance <= 60 && warrior_chance
            <= 70);
        let w4 = weights@;
        let w3 = w4.drop_last();
        let w2 = w3.drop_last();
        let w1 = w2.drop_last();
        assert(w1.drop_last() =~= Seq::<u32>::empty());
        assert(sum_weights(w1.drop_last()) == 0);
        assert(sum_weights(w1) == orc_chance);
        assert(sum_weights(w2) == sum_weights(w1) + troll_chance);
        assert(sum_weights(w3) == sum_weights(w2) + bandit_chance);
        assert(sum_weights(w4) == sum_weights(w3) + warrior_chance);
        crate::object::lemma_table_value_follows_table(orc_table@, level);
        crate::object::lemma_table_value_follows_table(bandit_table@, level);
        if level < 11 {
            assert(orc_chance > 0);
        } else {
            assert(bandit_chance > 0);
        }
    }

    let mut k: u32 = 0;
    while k < num_monsters
        invariant
            map_wf(map@),
            room_in_bounds(room),
            weights@.len() == 4,
            weights@[0] == orc_chance,
            weights@[1] == troll_chance,
            weights@[2] == bandit_chance,
            weights@[3] == warrior_chance,
            orc_chance == table_value(orc_weight_table(), level),
            troll_chance == table_value(troll_weight_table(), level),
            bandit_chance == table_value(bandit_weight_table(), level),
            warrior_chance == table_value(warrior_weight_table(), level),
            sum_weights(weights@) >= 1,
            sum_weights(weights@) <= 290,
            k <= num_monsters,
            num_monsters <= table_value(deep_monster_count_table(), level),
            objects@.len() >= old(objects)@.len(),
            objects@.len() <= old(objects)@.len() + k,
            forall|j: int|
                0 <= j < old(objects)@.len() ==> #[trigger] objects@[j] == old(objects)@[j],
            forall|j: int|
                old(objects)@.len() <= j < objects@.len() ==> deep_spawned_entity(
                    #[trigger] objects@[j],
                    room,
                    map@,
                    level,
                ),
        decreases num_monsters - k,
    {
        let x = rand_range_i32(room.x1 + 1, room.x2);
        let y = rand_range_i32(room.y1 + 1, room.y2);
        let pick = weighted_pick(&weights);
        let idx = pick.unwrap();
        let mut monster = if idx == 0 {
            let mut orc = Object::new(x, y, 'o', "orc", color::desaturated_green(), true);
            orc.fighter = Option::Some(
                Fighter {
                    base_max_hp: 20,
                    hp: 20,
                    base_defense: 0,
                    base_power: 4,
                    base_magic: 0,
                    xp: 35,
                    on_death: DeathCallback::Monster,
                },
            );
            orc.ai = Option::Some(Ai::Basic);
            orc
        } else if idx == 1 {
            let mut troll = Object::new(x, y, 'T', "troll", color::darker_green(), true);
            troll.fighter = Option::Some(
                Fighter {
                    base_max_hp: 30,
                    hp: 30,
                    base_defense: 2,
                    base_power: 8,
                    base_magic: 0,
                    xp: 100,
                    on_death: DeathCallback::Monster,
                },
            );
            troll.ai = Option::Some(Ai::Basic);
            troll
        } else if idx == 2 {
            let mut bandit = Object::new(x, y, 'B', "bandit", color::light_green(), true);
            bandit.fighter = Option::Some(
                Fighter {
                    base_max_hp: 45,
                    hp: 45,
                    base_defense: 3,
                    base_power: 10,
                    base_magic: 0,
                    xp: 175,
                    on_death: DeathCallback::Monster,
                },
            );
            bandit.ai = Option::Some(Ai::Basic);
            bandit
        } else {
            let mut warrior = Object::new(x, y, 'W', "warrior", color::white(), true);
            warrior.fighter = Option::Some(
                Fighter {
                    base_max_hp: 60,
                    hp: 60,
                    base_defense: 5,
                    base_power: 12,
                    base_magic: 0,
                    xp: 250,
                    on_death: DeathCallback::Monster,
                },
            );
            warrior.ai = Option::Some(Ai::Basic);
            warrior
        };
        if !is_blocked(x, y, map, objects) {
            monster.alive = true;
            proof {
                reveal_strlit("orc");
                reveal_strlit("troll");
                reveal_strlit("bandit");
                reveal_strlit("warrior");
                reveal_strlit("player");
                reveal_strlit("stairs");
                assert("orc"@.len() == 3 && "troll"@.len() == 5 && "player"@.len() == 6
                    && "stairs"@.len() == 6);
                assert("bandit"@[0] != "player"@[0]);
                assert("bandit"@[0] != "stairs"@[0]);
                assert("warrior"@.len() == 7);
                assert(weights@[idx as int] > 0);
                assert(!map@[x as int]@[y as int].blocked);
                assert(deep_spawned_entity(monster, room, map@, level));
            }
            objects.push(monster);
        }
        k = k + 1;
    }
}

} // verus!
