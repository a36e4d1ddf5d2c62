use vstd::prelude::*;
use vstd::string::StringExecFns;

use crate::color;
use crate::item::{Equipment, Item, Slot};
use crate::map::{
    border_walls, generated_level, generated_roster, map_wf, on_map, tiles_wall_or_empty, Fov,
    GameMap, Rect, Tile,
};
use crate::message::Messages;
use crate::monster_ai::{
    ai_step_roster, ai_take_turn, ai_transition, fighter_xp, phase_ok, phase_trace,
    player_hp_pos,
};
use crate::object::{
    heal_result, inv_ok, is_player, object_ok, spec_max_hp, DeathCallback, Fighter, Object,
};

verus! {

/// One running session: the unit of play and of save/load. The entity
/// roster travels beside it; the player entity is always roster index 0.
pub struct Game {
    pub map: GameMap,
    pub messages: Messages,
    pub inventory: Vec<Object>,
    pub dungeon_level: u32,
}

/// The fresh player's combat record.
pub open spec fn new_player_stats() -> Fighter {
    Fighter {
        base_max_hp: 100,
        hp: 100,
        base_defense: 1,
        base_power: 2,
        base_magic: 0,
        xp: 0,
        on_death: DeathCallback::Player,
    }
}

/// The starting dagger's equipment record: equipped on pickup, granting
/// two points of power.
pub open spec fn dagger_equipment() -> Equipment {
    Equipment {
        slot: Slot::LeftHand,
        equipped: true,
        max_hp_bonus: 0,
        power_bonus: 2,
        defense_bonus: 0,
        magic_bonus: 0,
    }
}

/// Start a fresh session at depth one: a single player entity (always
/// roster index 0) standing at the first room's centroid of a freshly
/// generated level, an equipped dagger in the inventory, and a welcome
/// line in the log.
pub fn new_game() -> (r: (Game, Vec<Object>))
    ensures
        ({
            let game = r.0;
            let objects = r.1;
            &&& map_wf(game.map@)
            &&& game.dungeon_level == 1
            &&& game.messages@.len() == 1
            &&& game.inventory@.len() == 1
            &&& game.inventory@[0].name@ == "dagger"@
            &&& game.inventory@[0].item == Option::Some(Item::Sword)
            &&& game.inventory@[0].equipment == Option::Some(dagger_equipment())
            &&& objects@.len() >= 2
            &&& is_player(objects@[0])
            &&& objects@[0].alive
            &&& objects@[0].blocks
            &&& objects@[0].level == 1
            &&& objects@[0].fighter == Option::Some(new_player_stats())
            &&& objects@[0].ai is None
            &&& objects@[0].item is None
            &&& objects@[0].equipment is None
            &&& on_map(objects@[0].x as int, objects@[0].y as int)
            &&& game.map@[objects@[0].x as int]@[objects@[0].y as int] == Tile::empty_spec()
            &&& exists|rooms: Seq<Rect>|
                #[trigger] generated_level(game.map@, objects@, seq![objects@[0]], rooms)
        }),
{
    let mut player = Object::new(0, 0, '@', "player", color::white(), true);
    player.alive = true;
    player.fighter = Option::Some(
        Fighter {
            base_max_hp: 100,
            hp: 100,
            base_defense: 1,
            base_power: 2,
            base_magic: 0,
            xp: 0,
            on_death: DeathCallback::Player,
        },
    );
    let mut objects: Vec<Object> = Vec::new();
    objects.push(player);

    let ghost pre = objects@;
    let map = crate::map::make_map(&mut objects, 1);
    proof {
        let rooms = choose|rooms: Seq<Rect>|
            #[trigger] generated_level(map@, objects@, pre, rooms);
        assert(objects@[0] =~= (Object { x: objects@[0].x, y: objects@[0].y, ..objects@[0] }));
        assert(seq![objects@[0]].len() == 1);
        assert(generated_roster(objects@, seq![objects@[0]], rooms));
        assert(generated_level(map@, objects@, seq![objects@[0]], rooms));
    }

    let mut game = Game {
        map,
        messages: Messages::new(),
        inventory: Vec::new(),
        dungeon_level: 1,
    };

    let mut dagger = Object::new(0, 0, '-', "dagger", color::cyan(), false);
    dagger.item = Option::Some(Item::Sword);
    dagger.equipment = Option::Some(
        Equipment {
            slot: Slot::LeftHand,
            equipped: true,
            max_hp_bonus: 0,
            power_bonus: 2,
            defense_bonus: 0,
            magic_bonus: 0,
        },
    );
    game.inventory.push(dagger);

    game.messages.add(
        "Welcome stranger! Prepare to perish in the Tombs of the Ancient Kings!".to_owned(),
        color::red(),
    );
    proof {
        reveal_strlit("player");
        reveal_strlit("dagger");
    }
    (game, objects)
}

/// Descend the stairs: the player rests (healing half of its effective
/// hit-point ceiling), the depth counter rises, every entity but the
/// player is discarded, and a fresh level is generated at the new depth.
/// The player must be at roster index 0, as always.
pub fn next_level(game: &mut Game, objects: &mut Vec<Object>)
    requires
        old(objects)@.len() >= 1,
        object_ok(old(objects)@[0]),
        inv_ok(old(game).inventory@),
        old(game).dungeon_level < u32::MAX,
    ensures
        final(game).dungeon_level == old(game).dungeon_level + 1,
        final(game).inventory == old(game).inventory,
        final(game).messages@.len() == old(game).messages@.len() + 2,
        map_wf(final(game).map@),
        tiles_wall_or_empty(final(game).map@),
        border_walls(final(game).map@),
        final(game).map@[final(objects)@[0].x as int]@[final(objects)@[0].y as int]
            == Tile::empty_spec(),
        ({
            let healed = heal_result(
                old(objects)@[0],
                (spec_max_hp(old(objects)@[0], old(game).inventory@) / 2) as i32,
                old(game).inventory@,
            );
            exists|rooms: Seq<Rect>|
                #[trigger] generated_level(
                    final(game).map@,
                    final(objects)@,
                    seq![healed],
                    rooms,
                )
        }),
{
    game.messages.add(
        "You take a moment to rest and recover your strength.".to_owned(),
        color::violet(),
    );
    let max_hp = objects[0].max_hp(game);
    let heal_hp = max_hp / 2;
    proof {
        crate::object::lemma_bonus_sums_in_range(game.inventory@);
    }
    let mut player = objects.remove(0);
    player.heal(heal_hp, game);
    objects.insert(0, player);

    game.messages.add(
        "After a moment of rest, you venture deeper into the dungeon...".to_owned(),
        color::red(),
    );
    game.dungeon_level = game.dungeon_level + 1;
    objects.truncate(1);
    proof {
        assert(objects@ =~= seq![
            heal_result(
                old(objects)@[0],
                (spec_max_hp(old(objects)@[0], old(game).inventory@) / 2) as i32,
                old(game).inventory@,
            ),
        ]);
    }
    let new_map = crate::map::make_map(objects, game.dungeon_level);
    game.map = new_map;
}

/// Run the monster phase of one world turn: every entity that currently
/// carries a decision component takes its turn, in roster order, against
/// the live roster. The per-entity decision contract is `ai_take_turn`'s;
/// across the phase every decision state makes exactly one transition.
pub fn monster_phase(game: &mut Game, objects: &mut Vec<Object>, fov: &Fov)
    requires
        old(objects)@.len() >= 1,
        phase_ok(old(objects)@),
        inv_ok(old(game).inventory@),
        map_wf(old(game).map@),
        fov.wf(),
        old(objects)@[0].ai is None,
        (old(objects)@[0].fighter matches Option::Some(f) ==> f.on_death
            == DeathCallback::Player),
        forall|i: int|
            0 <= i < old(objects)@.len() ==> on_map(
                (#[trigger] old(objects)@[i]).x as int,
                old(objects)@[i].y as int,
            ),
        forall|j: int|
            0 <= j < old(objects)@.len() ==> ((#[trigger] old(objects)@[j]).ai is Some ==> old(
                objects,
            )@[j].fighter is Some),
        forall|j: int| 1 <= j < old(objects)@.len() ==> !is_player(#[trigger] old(objects)@[j]),
    ensures
        final(game).map == old(game).map,
        final(game).inventory == old(game).inventory,
        final(game).dungeon_level == old(game).dungeon_level,
        final(objects)@.len() == old(objects)@.len(),
        phase_ok(final(objects)@),
        forall|i: int|
            0 <= i < final(objects)@.len() ==> on_map(
                (#[trigger] final(objects)@[i]).x as int,
                final(objects)@[i].y as int,
            ),
        final(objects)@[0].ai is None,
        (final(objects)@[0].fighter matches Option::Some(f) ==> f.on_death
            == DeathCallback::Player),
        forall|j: int|
            1 <= j < old(objects)@.len() ==> ai_transition(
                old(objects)@[j].ai,
                (#[trigger] final(objects)@[j]).ai,
            ),
        forall|j: int|
            0 <= j < old(objects)@.len() ==> ((#[trigger] final(objects)@[j]).fighter is Some) == (
            old(objects)@[j].fighter is Some),
        player_hp_pos(final(objects)@) ==> (forall|j: int|
            0 <= j < old(objects)@.len() ==> fighter_xp(#[trigger] final(objects)@[j])
                == fighter_xp(old(objects)@[j])),
        exists|trace: Seq<Seq<Object>>|
            #[trigger] phase_trace(
                trace,
                old(objects)@,
                final(objects)@,
                old(game).inventory@,
                old(game).map@,
                *fov,
            ),
{
    let ghost s = old(objects)@;
    let ghost mut trace: Seq<Seq<Object>> = seq![s];
    let mut id: usize = 0;
    while id < objects.len()
        invariant
            objects@.len() == s.len(),
            s.len() >= 1,
            id <= s.len(),
            phase_ok(objects@),
            inv_ok(game.inventory@),
            map_wf(game.map@),
            fov.wf(),
            game.map == old(game).map,
            game.inventory == old(game).inventory,
            game.dungeon_level == old(game).dungeon_level,
            objects@[0].ai is None,
            s[0].ai is None,
            (objects@[0].fighter matches Option::Some(f) ==> f.on_death
                == DeathCallback::Player),
            forall|i: int|
                0 <= i < objects@.len() ==> on_map(
                    (#[trigger] objects@[i]).x as int,
                    objects@[i].y as int,
                ),
            forall|j: int|
                0 <= j < objects@.len() ==> ((#[trigger] objects@[j]).ai is Some) == (s[j].ai
                    is Some),
            forall|j: int|
                0 <= j < objects@.len() ==> ((#[trigger] objects@[j]).fighter is Some) == (
                s[j].fighter is Some),
            forall|j: int|
                0 <= j < objects@.len() ==> ((#[trigger] objects@[j]).ai is Some
                    ==> objects@[j].fighter is Some),
            forall|j: int| 1 <= j < objects@.len() ==> !is_player(#[trigger] objects@[j]),
            forall|j: int| id <= j < objects@.len() && j >= 1 ==> #[trigger] objects@[j] == s[j],
            forall|j: int|
                1 <= j < id && j < objects@.len() ==> ai_transition(
                    s[j].ai,
                    (#[trigger] objects@[j]).ai,
                ),
            player_hp_pos(objects@) ==> (forall|j: int|
                0 <= j < objects@.len() ==> fighter_xp(#[trigger] objects@[j]) == fighter_xp(
                    s[j],
                )),
            trace.len() == id + 1,
            trace[0] == s,
            trace[id as int] == objects@,
            forall|t: int|
                0 <= t < id ==> (if t >= 1 && (#[trigger] trace[t])[t].ai is Some {
                    ai_step_roster(
                        trace[t],
                        trace[t + 1],
                        old(game).inventory@,
                        old(game).map@,
                        *fov,
                        t,
                    )
                } else {
                    trace[t + 1] == trace[t]
                }),
        decreases objects@.len() - id,
    {
        let ghost step_pre = objects@;
        let has_ai = objects[id].ai.is_some();
        if has_ai && id > 0 {
            ai_take_turn(id, game, objects, fov);
        }
        proof {
            if id >= 1 && !(has_ai && id > 0) {
                assert(s[id as int].ai is None);
                assert(ai_transition(s[id as int].ai, objects@[id as int].ai));
            }
            trace = trace.push(objects@);
            if has_ai && id > 0 {
                assert(ai_step_roster(
                    step_pre,
                    objects@,
                    old(game).inventory@,
                    old(game).map@,
                    *fov,
                    id as int,
                ));
            } else {
                assert(objects@ == step_pre);
            }
            assert(trace[id as int] == step_pre);
            assert(trace[id as int + 1] == objects@);
        }
        id = id + 1;
    }
    proof {
        assert(trace[s.len() as int] == objects@);
        assert(phase_trace(trace, s, objects@, old(game).inventory@, old(game).map@, *fov));
    }
}

/// The first roster entity with an item component standing on the
/// player's tile, if any: what a pick-up keystroke acts on.
pub fn item_at_player(objects: &Vec<Object>) -> (r: Option<usize>)
    requires
        objects@.len() >= 1,
    ensures
        (match r {
            Option::Some(i) => {
                &&& i < objects@.len()
                &&& objects@[i as int].item is Some
                &&& objects@[i as int].x == objects@[0].x
                &&& objects@[i as int].y == objects@[0].y
                &&& forall|j: int|
                    0 <= j < i ==> !((#[trigger] objects@[j]).item is Some && objects@[j].x
                        == objects@[0].x && objects@[j].y == objects@[0].y)
            },
            Option::None => forall|j: int|
                0 <= j < objects@.len() ==> !((#[trigger] objects@[j]).item is Some
                    && objects@[j].x == objects@[0].x && objects@[j].y == objects@[0].y),
        }),
{
    let px = objects[0].x;
    let py = objects[0].y;
    let mut i: usize = 0;
    while i < objects.len()
        invariant
            i <= objects@.len(),
            objects@.len() >= 1,
            px == objects@[0].x,
            py == objects@[0].y,
            forall|j: int|
                0 <= j < i ==> !((#[trigger] objects@[j]).item is Some && objects@[j].x == px
                    && objects@[j].y == py),
        decreases objects@.len() - i,
    {
        let o = &objects[i];
        if o.item.is_some() && o.x == px && o.y == py {
            return Option::Some(i);
        }
        i = i + 1;
    }
    Option::None
}

/// Whether the player currently shares a tile with the stairs marker:
/// the condition for descending.
pub fn player_on_stairs(objects: &Vec<Object>) -> (r: bool)
    requires
        objects@.len() >= 1,
    ensures
        r == exists|j: int|
            0 <= j < objects@.len() && (#[trigger] objects@[j]).name@ == "stairs"@
                && objects@[j].x == objects@[0].x && objects@[j].y == objects@[0].y,
{
    let px = objects[0].x;
    let py = objects[0].y;
    let stairs_name: String = "stairs".to_owned();
    let mut i: usize = 0;
    while i < objects.len()
        invariant
            i <= objects@.len(),
            objects@.len() >= 1,
            px == objects@[0].x,
            py == objects@[0].y,
            stairs_name@ == "stairs"@,
            forall|j: int|
                0 <= j < i ==> !((#[trigger] objects@[j]).name@ == "stairs"@ && objects@[j].x
                    == px && objects@[j].y == py),
        decreases objects@.len() - i,
    {
        let o = &objects[i];
        if o.name == stairs_name && o.x == px && o.y == py {
            return true;
        }
        i = i + 1;
    }
    false
}

} // verus!
