use vstd::prelude::*;
use vstd::string::StringExecFns;

use crate::color;
use crate::game::Game;
use crate::item::UseResult;
use crate::map::{on_map, Fov};
use crate::object::{
    after_damage, after_damage_name, dies_from, eq_except_ai, eq_except_name, heal_result,
    hostile_candidate, inv_ok, object_ok, objects_ok, spec_dist2, spec_max_hp, xp_sum,
    DeathCallback, Fighter, Object, XP_LIMIT,
};
use crate::monster_ai::Ai;
use crate::textfmt;

verus! {

pub const HEAL_AMOUNT: i32 = 40;

pub const LIGHTNING_RANGE: i32 = 5;

pub const LIGHTNING_DAMAGE: i32 = 40;

pub const CONFUSE_RANGE: i32 = 8;

pub const CONFUSE_NUM_TURNS: i32 = 10;

pub const FIREBALL_RADIUS: i32 = 3;

pub const FIREBALL_DAMAGE: i32 = 25;

/// `FIREBALL_RADIUS` squared, for the squared-distance comparisons.
pub const FIREBALL_RADIUS_SQ: i32 = 9;

/// Restore the player from a healing potion. Refused, with nothing
/// consumed and nothing changed, when already at the effective hit-point
/// ceiling; otherwise restores `HEAL_AMOUNT`, clamped to that ceiling.
pub fn cast_heal(game: &mut Game, objects: &mut Vec<Object>) -> (r: UseResult)
    requires
        old(objects)@.len() > 0,
        object_ok(old(objects)@[0]),
        inv_ok(old(game).inventory@),
    ensures
        final(game).map == old(game).map,
        final(game).inventory == old(game).inventory,
        final(game).dungeon_level == old(game).dungeon_level,
        ({
            let p = old(objects)@[0];
            let inv = old(game).inventory@;
            match p.fighter {
                Option::Some(f) => if f.hp == spec_max_hp(p, inv) {
                    &&& r == UseResult::Cancelled
                    &&& final(objects)@ == old(objects)@
                    &&& final(game).messages@.len() == old(game).messages@.len() + 1
                } else {
                    &&& r == UseResult::UsedUp
                    &&& final(objects)@ == old(objects)@.update(
                        0,
                        heal_result(p, HEAL_AMOUNT, inv),
                    )
                    &&& final(game).messages@.len() == old(game).messages@.len() + 1
                },
                Option::None => {
                    &&& r == UseResult::Cancelled
                    &&& final(objects)@ == old(objects)@
                    &&& final(game).messages@ == old(game).messages@
                },
            }
        }),
{
    let max_hp = objects[0].max_hp(game);
    match objects[0].fighter {
        Option::Some(f) => {
            if f.hp == max_hp {
                game.messages.add("You are already at full health!".to_owned(), color::red());
                return UseResult::Cancelled;
            }
            game.messages.add("Your wounds start to heal!".to_owned(), color::light_violet());
            let mut player = objects.remove(0);
            player.heal(HEAL_AMOUNT, game);
            objects.insert(0, player);
            proof {
                assert(objects@ =~= old(objects)@.update(
                    0,
                    heal_result(old(objects)@[0], HEAL_AMOUNT, old(game).inventory@),
                ));
            }
            UseResult::UsedUp
        },
        Option::None => UseResult::Cancelled,
    }
}

/// Strike the closest visible hostile within `LIGHTNING_RANGE` with fixed
/// damage that bypasses defense, crediting the player when it kills.
/// Cancelled, with nothing changed but a log line, when no hostile is in
/// range and sight.
pub fn cast_lightning(game: &mut Game, objects: &mut Vec<Object>, fov: &Fov) -> (r: UseResult)
    requires
        old(objects)@.len() > 0,
        objects_ok(old(objects)@),
        old(objects)@[0].fighter is Some,
        fov.wf(),
        forall|i: int|
            0 <= i < old(objects)@.len() ==> on_map(
                (#[trigger] old(objects)@[i]).x as int,
                old(objects)@[i].y as int,
            ),
    ensures
        final(game).map == old(game).map,
        final(game).inventory == old(game).inventory,
        final(game).dungeon_level == old(game).dungeon_level,
        final(objects)@.len() == old(objects)@.len(),
        ({
            let s = old(objects)@;
            if exists|j: int|
                0 < j < s.len() && hostile_candidate(#[trigger] s[j], *fov) && spec_dist2(
                    s[0],
                    s[j],
                ) < (LIGHTNING_RANGE + 1) * (LIGHTNING_RANGE + 1) {
                &&& r == UseResult::UsedUp
                &&& exists|mid: int|
                    {
                        &&& 0 < mid < s.len()
                        &&& hostile_candidate(#[trigger] s[mid], *fov)
                        &&& spec_dist2(s[0], s[mid]) < (LIGHTNING_RANGE + 1) * (LIGHTNING_RANGE
                            + 1)
                        &&& forall|j: int|
                            0 < j < s.len() && hostile_candidate(#[trigger] s[j], *fov)
                                ==> spec_dist2(s[0], s[mid]) <= spec_dist2(s[0], s[j])
                        &&& eq_except_name(
                            final(objects)@[mid],
                            after_damage(s[mid], LIGHTNING_DAMAGE),
                        )
                        &&& final(objects)@[mid].name@ == after_damage_name(
                            s[mid],
                            LIGHTNING_DAMAGE,
                        )
                        &&& (if dies_from(s[mid], LIGHTNING_DAMAGE) {
                            final(objects)@[0] == (Object {
                                fighter: Option::Some(
                                    Fighter {
                                        xp: (s[0].fighter->Some_0.xp
                                            + s[mid].fighter->Some_0.xp) as i32,
                                        ..s[0].fighter->Some_0
                                    },
                                ),
                                ..s[0]
                            })
                        } else {
                            final(objects)@[0] == s[0]
                        })
                        &&& forall|j: int|
                            0 <= j < s.len() && j != 0 && j != mid ==> final(objects)@[j] == s[j]
                        &&& final(game).messages@.len() == old(game).messages@.len() + 1 + (
                        if dies_from(s[mid], LIGHTNING_DAMAGE) {
                            1int
                        } else {
                            0int
                        })
                    }
            } else {
                &&& r == UseResult::Cancelled
                &&& final(objects)@ == s
                &&& final(game).messages@.len() == old(game).messages@.len() + 1
            }
        }),
{
    let monster_id = crate::object::closest_monster(fov, objects, LIGHTNING_RANGE);
    match monster_id {
        Option::Some(mid) => {
            let mut m = "A lightning bolt strikes ".to_owned();
            m.append(objects[mid].name.as_str());
            m.append(" with a loud thunder! The damage is ");
            let digits = textfmt::i32_to_string(LIGHTNING_DAMAGE);
            m.append(digits.as_str());
            m.append(" hit points.");
            game.messages.add(m, color::light_blue());

            let mut target = objects.remove(mid);
            let award = target.take_damage(LIGHTNING_DAMAGE, &mut game.messages);
            objects.insert(mid, target);
            match award {
                Option::Some(xp) => {
                    let mut player = objects.remove(0);
                    let mut f = player.fighter.unwrap();
                    f.xp = f.xp + xp;
                    player.fighter = Option::Some(f);
                    objects.insert(0, player);
                },
                Option::None => {},
            }
            UseResult::UsedUp
        },
        Option::None => {
            game.messages.add("No enemy is close enough to strike.".to_owned(), color::red());
            UseResult::Cancelled
        },
    }
}

/// Replace the chosen monster's decision state with a confusion wrapper
/// around its current one (default `Basic`), for `CONFUSE_NUM_TURNS`
/// turns. Cancelled, with only a log line, when no target was chosen.
/// The interactive target selection lives in the front end.
pub fn cast_confuse(target: Option<usize>, game: &mut Game, objects: &mut Vec<Object>) -> (r:
    UseResult)
    requires
        (match target {
            Option::Some(m) => 0 < m < old(objects)@.len(),
            Option::None => true,
        }),
    ensures
        final(game).map == old(game).map,
        final(game).inventory == old(game).inventory,
        final(game).dungeon_level == old(game).dungeon_level,
        (match target {
            Option::Some(m) => {
                &&& r == UseResult::UsedUp
                &&& final(objects)@.len() == old(objects)@.len()
                &&& forall|j: int|
                    0 <= j < old(objects)@.len() && j != m ==> final(objects)@[j] == old(
                        objects,
                    )@[j]
                &&& eq_except_ai(final(objects)@[m as int], old(objects)@[m as int])
                &&& (final(objects)@[m as int].ai matches Option::Some(a) && (a matches
                Ai::Confused { previous_ai, num_turns } && {
                    &&& num_turns == CONFUSE_NUM_TURNS
                    &&& *previous_ai == (match old(objects)@[m as int].ai {
                        Option::Some(prev) => prev,
                        Option::None => Ai::Basic,
                    })
                }))
                &&& final(game).messages@.len() == old(game).messages@.len() + 1
            },
            Option::None => {
                &&& r == UseResult::Cancelled
                &&& final(objects)@ == old(objects)@
                &&& final(game).messages@.len() == old(game).messages@.len() + 1
            },
        }),
{
    match target {
        Option::Some(monster_id) => {
            let mut monster = objects.remove(monster_id);
            let old_ai = match monster.ai {
                Option::Some(a) => a,
                Option::None => Ai::Basic,
            };
            monster.ai = Option::Some(
                Ai::Confused { previous_ai: Box::new(old_ai), num_turns: CONFUSE_NUM_TURNS },
            );
            let mut m = "The eyes of ".to_owned();
            m.append(monster.name.as_str());
            m.append(" look vacant, as they start to stumble around");
            game.messages.add(m, color::light_green());
            objects.insert(monster_id, monster);
            UseResult::UsedUp
        },
        Option::None => {
            game.messages.add("No enemy is close enough to confuse.".to_owned(), color::red());
            UseResult::Cancelled
        },
    }
}

/// Whether an entity stands in the blast and can be burned.
pub open spec fn in_blast(o: Object, x: int, y: int) -> bool {
    (x - o.x) * (x - o.x) + (y - o.y) * (y - o.y) <= FIREBALL_RADIUS_SQ && o.fighter is Some
}

/// One entity after the blast: burned for `FIREBALL_DAMAGE` when in it.
pub open spec fn fireball_one(o: Object, x: int, y: int) -> Object {
    if in_blast(o, x, y) {
        after_damage(o, FIREBALL_DAMAGE)
    } else {
        o
    }
}

pub open spec fn fireball_name(o: Object, x: int, y: int) -> Seq<char> {
    if in_blast(o, x, y) {
        after_damage_name(o, FIREBALL_DAMAGE)
    } else {
        o.name@
    }
}

/// The experience one burned entity leaves to the caster: only a kill
/// pays, and the player is never credited for burning itself.
pub open spec fn fireball_award(o: Object, x: int, y: int) -> int {
    if in_blast(o, x, y) && dies_from(o, FIREBALL_DAMAGE) {
        o.fighter->Some_0.xp as int
    } else {
        0
    }
}

/// Experience gained from the blast over roster indices `1..n` (the
/// player at index 0 never pays itself).
pub open spec fn fireball_gain_upto(s: Seq<Object>, x: int, y: int, n: int) -> int
    decreases n,
{
    if n <= 1 {
        0
    } else {
        fireball_gain_upto(s, x, y, n - 1) + fireball_award(s[n - 1], x, y)
    }
}

/// Log lines the blast produces over roster indices `0..n`: one per
/// burned entity plus one per death.
pub open spec fn fireball_msgs_upto(s: Seq<Object>, x: int, y: int, n: int) -> int
    decreases n,
{
    if n <= 0 {
        0
    } else {
        fireball_msgs_upto(s, x, y, n - 1) + (if in_blast(s[n - 1], x, y) {
            1int + (if dies_from(s[n - 1], FIREBALL_DAMAGE) {
                1int
            } else {
                0int
            })
        } else {
            0int
        })
    }
}

/// The player entity after the blast: burned like anyone in range, then
/// credited with the whole gain.
pub open spec fn fireball_player_final(s: Seq<Object>, x: int, y: int) -> Object {
    let burned = fireball_one(s[0], x, y);
    let f = burned.fighter->Some_0;
    Object {
        fighter: Option::Some(
            Fighter { xp: (f.xp + fireball_gain_upto(s, x, y, s.len() as int)) as i32, ..f },
        ),
        ..burned
    }
}

/// Banked experience never goes below zero and the blast gain never
/// exceeds the roster's total.
proof fn lemma_fireball_gain_bound(s: Seq<Object>, x: int, y: int, n: int)
    requires
        objects_ok(s),
        0 <= n <= s.len(),
    ensures
        0 <= fireball_gain_upto(s, x, y, n) <= xp_sum(s.take(n)),
        xp_sum(s.take(n)) >= 0,
    decreases n,
{
    if n == 0 {
        assert(s.take(0).len() == 0);
    } else {
        lemma_fireball_gain_bound(s, x, y, n - 1);
        assert(s.take(n).drop_last() =~= s.take(n - 1));
        assert(s.take(n).last() == s[n - 1]);
        assert(object_ok(s[n - 1]));
    }
}

/// Growing the prefix never shrinks the banked-experience sum.
proof fn lemma_xp_sum_take_le(s: Seq<Object>, n: int)
    requires
        objects_ok(s),
        0 <= n <= s.len(),
    ensures
        xp_sum(s.take(n)) <= xp_sum(s),
    decreases s.len() - n,
{
    if n == s.len() {
        assert(s.take(n) =~= s);
    } else {
        lemma_xp_sum_take_le(s, n + 1);
        assert(s.take(n + 1).drop_last() =~= s.take(n));
        assert(s.take(n + 1).last() == s[n]);
        assert(object_ok(s[n]));
    }
}

/// Burn every combatant within `FIREBALL_RADIUS` tiles of the chosen
/// tile for `FIREBALL_DAMAGE` -- friendly fire included -- then credit
/// the player with the experience of everything that died, except
/// itself. Cancelled with no state change when no tile was chosen. The
/// interactive tile selection lives in the front end.
pub fn cast_fireball(target: Option<(i32, i32)>, game: &mut Game, objects: &mut Vec<Object>) -> (r:
    UseResult)
    requires
        old(objects)@.len() > 0,
        objects_ok(old(objects)@),
        old(objects)@[0].fighter is Some,
        old(objects)@[0].fighter->Some_0.on_death == DeathCallback::Player,
        xp_sum(old(objects)@) <= XP_LIMIT,
        forall|i: int|
            0 <= i < old(objects)@.len() ==> on_map(
                (#[trigger] old(objects)@[i]).x as int,
                old(objects)@[i].y as int,
            ),
        (match target {
            Option::Some(t) => on_map(t.0 as int, t.1 as int),
            Option::None => true,
        }),
    ensures
        final(game).map == old(game).map,
        final(game).inventory == old(game).inventory,
        final(game).dungeon_level == old(game).dungeon_level,
        (match target {
            Option::Some(t) => {
                let s = old(objects)@;
                let x = t.0 as int;
                let y = t.1 as int;
                &&& r == UseResult::UsedUp
                &&& final(objects)@.len() == s.len()
                &&& final(objects)@[0] == fireball_player_final(s, x, y)
                &&& forall|j: int|
                    0 < j < s.len() ==> eq_except_name(
                        #[trigger] final(objects)@[j],
                        fireball_one(s[j], x, y),
                    )
                &&& forall|j: int|
                    0 < j < s.len() ==> (#[trigger] final(objects)@[j]).name@ == fireball_name(
                        s[j],
                        x,
                        y,
                    )
                &&& final(game).messages@.len() == old(game).messages@.len() + 1
                    + fireball_msgs_upto(s, x, y, s.len() as int)
            },
            Option::None => {
                &&& r == UseResult::Cancelled
                &&& final(objects)@ == old(objects)@
                &&& final(game).messages@ == old(game).messages@
            },
        }),
{
    let (x, y) = match target {
        Option::Some(t) => t,
        Option::None => {
            return UseResult::Cancelled;
        },
    };
    let mut m = "The fireball explodes, burning everything within ".to_owned();
    let digits = textfmt::i32_to_string(FIREBALL_RADIUS);
    m.append(digits.as_str());
    m.append(" tiles!");
    game.messages.add(m, color::orange());

    let ghost s = old(objects)@;
    let ghost gx = x as int;
    let ghost gy = y as int;
    let mut xp_to_gain: i32 = 0;
    let mut id: usize = 0;
    while id < objects.len()
        invariant
            objects@.len() == s.len(),
            id <= s.len(),
            0 < s.len(),
            objects_ok(s),
            xp_sum(s) <= XP_LIMIT,
            gx == x as int,
            gy == y as int,
            on_map(gx, gy),
            s[0].fighter is Some,
            s[0].fighter->Some_0.on_death == DeathCallback::Player,
            forall|i: int| 0 <= i < s.len() ==> on_map((#[trigger] s[i]).x as int, s[i].y as int),
            forall|j: int|
                id <= j < s.len() ==> #[trigger] objects@[j] == s[j],
            forall|j: int|
                0 <= j < id && j < s.len() ==> eq_except_name(
                    #[trigger] objects@[j],
                    fireball_one(s[j], gx, gy),
                ),
            forall|j: int|
                0 <= j < id && j < s.len() ==> (#[trigger] objects@[j]).name@ == fireball_name(
                    s[j],
                    gx,
                    gy,
                ),
            objects@[0].name == s[0].name,
            xp_to_gain == fireball_gain_upto(s, gx, gy, id as int),
            0 <= xp_to_gain <= XP_LIMIT,
            game.messages@.len() == old(game).messages@.len() + 1 + fireball_msgs_upto(
                s,
                gx,
                gy,
                id as int,
            ),
            game.map == old(game).map,
            game.inventory == old(game).inventory,
            game.dungeon_level == old(game).dungeon_level,
        decreases s.len() - id,
    {
        let ghost pre = objects@;
        let in_range = {
            let o = &objects[id];
            let d = o.distance_sq(x, y);
            d <= FIREBALL_RADIUS_SQ as i64 && o.fighter.is_some()
        };
        proof {
            assert(in_range == in_blast(s[id as int], gx, gy));
        }
        if in_range {
            let mut burn = "The ".to_owned();
            burn.append(objects[id].name.as_str());
            burn.append(" gets burned for ");
            let digits2 = textfmt::i32_to_string(FIREBALL_DAMAGE);
            burn.append(digits2.as_str());
            burn.append(" hit points.");
            game.messages.add(burn, color::orange());

            let mut o = objects.remove(id);
            let award = o.take_damage(FIREBALL_DAMAGE, &mut game.messages);
            objects.insert(id, o);
            proof {
                assert(forall|j: int|
                    0 <= j < objects@.len() && j != id ==> objects@[j] == pre[j]);
            }
            match award {
                Option::Some(xp) => {
                    if id != crate::object::PLAYER {
                        proof {
                            lemma_fireball_gain_bound(s, gx, gy, id as int + 1);
                            lemma_xp_sum_take_le(s, id as int + 1);
                            assert(object_ok(s[id as int]));
                        }
                        xp_to_gain = xp_to_gain + xp;
                    }
                },
                Option::None => {},
            }
        }
        id = id + 1;
    }
    let ghost pre_credit = objects@;
    let mut player = objects.remove(0);
    let mut f = player.fighter.unwrap();
    proof {
        lemma_fireball_gain_bound(s, gx, gy, s.len() as int);
        lemma_xp_sum_take_le(s, s.len() as int);
        assert(object_ok(s[0]));
    }
    f.xp = f.xp + xp_to_gain;
    player.fighter = Option::Some(f);
    objects.insert(0, player);
    proof {
        assert(forall|j: int|
            0 <= j < objects@.len() && j != 0 ==> objects@[j] == pre_credit[j]);
        assert(objects@[0] =~= fireball_player_final(s, gx, gy));
    }
    UseResult::UsedUp
}

} // verus!
