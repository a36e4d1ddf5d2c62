use vstd::prelude::*;
use vstd::string::StringExecFns;

use crate::color;
use crate::game::Game;
use crate::map::{on_map, Fov, Tile};
use crate::object::{
    attack_attacker_after, attack_msg_count, attack_target_after, attack_target_name_after,
    eq_except_ai, eq_except_name, is_player, moved, spec_dist2, step_toward, DeathCallback, Object,
    XP_LIMIT,
};

verus! {

/// Per-monster decision state. `Confused` wraps the prior state and
/// restores it once its turn counter runs out, so the type is recursive;
/// gameplay only ever nests it one level deep.
#[derive(Debug, PartialEq)]
pub enum Ai {
    Basic,
    Confused { previous_ai: Box<Ai>, num_turns: i32 },
}

/// How one monster turn moves the decision state: `Basic` is terminal;
/// a confusion wrapper moves its victim once per turn while positive
/// turns remain, and the evaluation that would take the counter below
/// zero instead restores the wrapped state.
pub open spec fn ai_transition(pre: Option<Ai>, post: Option<Ai>) -> bool {
    match pre {
        Option::None => post is None,
        Option::Some(a) => match a {
            Ai::Basic => post == Option::Some(Ai::Basic),
            Ai::Confused { previous_ai, num_turns } => if num_turns >= 1 {
                post matches Option::Some(p) && (p matches Ai::Confused {
                    previous_ai: p2,
                    num_turns: n2,
                } && *p2 == *previous_ai && n2 == num_turns - 1)
            } else {
                post matches Option::Some(p) && p == *previous_ai
            },
        },
    }
}

/// The player is present, a combatant, and above zero hit points.
pub open spec fn player_hp_pos(s: Seq<Object>) -> bool {
    s.len() > 0 && (s[0].fighter matches Option::Some(f) && f.hp > 0)
}

/// Banked experience of one entity, zero for non-combatants.
pub open spec fn fighter_xp(o: Object) -> int {
    match o.fighter {
        Option::Some(f) => f.xp as int,
        Option::None => 0,
    }
}

/// The relaxed roster sanity that holds throughout a monster phase: every
/// stat stays in its band, and banked experience stays below `XP_LIMIT`
/// at least until the turn that kills the player (the one event that can
/// push one monster past it, after which no further attack arithmetic
/// runs).
pub open spec fn phase_ok(s: Seq<Object>) -> bool {
    &&& forall|j: int|
        0 <= j < s.len() ==> match (#[trigger] s[j]).fighter {
            Option::Some(f) => {
                &&& 0 <= f.base_max_hp <= crate::object::STAT_LIMIT
                &&& 0 <= f.base_defense <= crate::object::STAT_LIMIT
                &&& 0 <= f.base_power <= crate::object::STAT_LIMIT
                &&& 0 <= f.base_magic <= crate::object::STAT_LIMIT
                &&& 0 <= f.xp
                &&& -crate::object::HP_SLACK <= f.hp <= crate::object::HP_SLACK
            },
            Option::None => true,
        }
    &&& forall|j: int|
        0 <= j < s.len() ==> match (#[trigger] s[j]).equipment {
            Option::Some(e) => crate::object::equipment_ok(e),
            Option::None => true,
        }
    &&& forall|j: int|
        0 <= j < s.len() ==> 0 <= (#[trigger] s[j]).level <= crate::object::LEVEL_LIMIT
    &&& (player_hp_pos(s) ==> forall|j: int|
        0 <= j < s.len() ==> match (#[trigger] s[j]).fighter {
            Option::Some(f) => f.xp <= XP_LIMIT,
            Option::None => true,
        })
}

/// One random stumble of a confused monster: a unit step `(dx, dy)`
/// attempted under the usual blocking rule, with the wrapper's counter
/// counted down by one and nothing else of the monster changed.
pub open spec fn confused_stumble(
    pre: Seq<Object>,
    post: Seq<Object>,
    m: Seq<Vec<Tile>>,
    mid: int,
    dx: int,
    dy: int,
) -> bool {
    let stepped = moved(pre, mid, m, pre[mid].x + dx, pre[mid].y + dy);
    &&& -1 <= dx <= 1
    &&& -1 <= dy <= 1
    &&& post.len() == pre.len()
    &&& (forall|j: int| 0 <= j < pre.len() && j != mid ==> post[j] == #[trigger] stepped[j])
    &&& eq_except_ai(post[mid], stepped[mid])
    &&& (pre[mid].ai matches Option::Some(a) && (a matches Ai::Confused {
        previous_ai,
        num_turns,
    } && (post[mid].ai matches Option::Some(p) && (p matches Ai::Confused {
        previous_ai: p2,
        num_turns: n2,
    } && *p2 == *previous_ai && n2 == num_turns - 1))))
}

/// One conforming decision step of roster index `mid`, as a relation on
/// the roster before and after the step: a `Basic` monster in the
/// visible set takes one rounded step toward the player or attacks a
/// living adjacent player; a confusion wrapper makes one random unit
/// stumble while positive turns remain and otherwise restores the
/// wrapped state; an entity without a decision component changes
/// nothing.
pub open spec fn ai_step_roster(
    pre: Seq<Object>,
    post: Seq<Object>,
    inv: Seq<Object>,
    m: Seq<Vec<Tile>>,
    fov: Fov,
    mid: int,
) -> bool {
    match pre[mid].ai {
        Option::None => post == pre,
        Option::Some(a) => match a {
            Ai::Basic => {
                let mx = pre[mid].x as int;
                let my = pre[mid].y as int;
                if fov.visible(mx, my) {
                    if spec_dist2(pre[mid], pre[0]) >= 4 {
                        let st = step_toward(pre[0].x - mx, pre[0].y - my);
                        post == moved(pre, mid, m, mx + st.0, my + st.1)
                    } else if player_hp_pos(pre) {
                        &&& post.len() == pre.len()
                        &&& post[mid] == attack_attacker_after(pre[mid], pre[0], inv)
                        &&& eq_except_name(post[0], attack_target_after(pre[mid], pre[0], inv))
                        &&& post[0].name@ == attack_target_name_after(pre[mid], pre[0], inv)
                        &&& (forall|j: int|
                            0 <= j < pre.len() && j != 0 && j != mid ==> post[j]
                                == #[trigger] pre[j])
                    } else {
                        post == pre
                    }
                } else {
                    post == pre
                }
            },
            Ai::Confused { previous_ai, num_turns } => if num_turns >= 1 {
                exists|dx: int, dy: int| #[trigger] confused_stumble(pre, post, m, mid, dx, dy)
            } else {
                &&& post.len() == pre.len()
                &&& (forall|j: int| 0 <= j < pre.len() && j != mid ==> post[j] == #[trigger] pre[j])
                &&& eq_except_ai(post[mid], pre[mid])
                &&& post[mid].ai == Option::Some(*previous_ai)
            },
        },
    }
}

/// Log lines one decision step produces: the attack lines when a
/// `Basic` monster strikes, one line when a confusion wrapper expires,
/// and none otherwise.
pub open spec fn ai_step_msg_count(pre: Seq<Object>, inv: Seq<Object>, fov: Fov, mid: int) -> int {
    match pre[mid].ai {
        Option::None => 0,
        Option::Some(a) => match a {
            Ai::Basic => {
                let mx = pre[mid].x as int;
                let my = pre[mid].y as int;
                if fov.visible(mx, my) && spec_dist2(pre[mid], pre[0]) < 4 && player_hp_pos(pre) {
                    attack_msg_count(pre[mid], pre[0], inv)
                } else {
                    0
                }
            },
            Ai::Confused { num_turns, .. } => if num_turns >= 1 {
                0
            } else {
                1
            },
        },
    }
}

/// One whole monster phase as a chain of rosters: entry `id` of the
/// trace is the roster just before entity `id` is evaluated, every
/// entity that then holds a decision component takes exactly one
/// `ai_step_roster`-conforming step against that then-current roster,
/// and every other entity leaves the roster unchanged.
pub open spec fn phase_trace(
    trace: Seq<Seq<Object>>,
    pre: Seq<Object>,
    post: Seq<Object>,
    inv: Seq<Object>,
    m: Seq<Vec<Tile>>,
    fov: Fov,
) -> bool {
    &&& trace.len() == pre.len() + 1
    &&& trace[0] == pre
    &&& trace[pre.len() as int] == post
    &&& (forall|id: int|
        0 <= id < pre.len() ==> (if id >= 1 && (#[trigger] trace[id])[id].ai is Some {
            ai_step_roster(trace[id], trace[id + 1], inv, m, fov, id)
        } else {
            trace[id + 1] == trace[id]
        }))
}

/// Run one monster's turn: a `Basic` monster inside the player's visible
/// set closes in on the player, or attacks once within two tiles of a
/// living player, and stays `Basic`; a `Confused` monster stumbles one
/// random step per turn while positive turns remain and reverts to the
/// wrapped state on the evaluation that exhausts the counter. An entity
/// without a decision component does nothing.
#[verifier::rlimit(100)]
#[verifier::spinoff_prover]
pub fn ai_take_turn(monster_id: usize, game: &mut Game, objects: &mut Vec<Object>, fov: &Fov)
    requires
        0 < monster_id < old(objects)@.len(),
        phase_ok(old(objects)@),
        crate::object::inv_ok(old(game).inventory@),
        crate::map::map_wf(old(game).map@),
        fov.wf(),
        forall|i: int|
            0 <= i < old(objects)@.len() ==> on_map(
                (#[trigger] old(objects)@[i]).x as int,
                old(objects)@[i].y as int,
            ),
        old(objects)@[monster_id as int].ai is Some ==> old(objects)@[monster_id as int].fighter
            is Some,
        (old(objects)@[0].fighter matches Option::Some(f) ==> f.on_death
            == DeathCallback::Player),
        !is_player(old(objects)@[monster_id as int]),
    ensures
        final(game).map == old(game).map,
        final(game).inventory == old(game).inventory,
        final(game).dungeon_level == old(game).dungeon_level,
        final(objects)@.len() == old(objects)@.len(),
        phase_ok(final(objects)@),
        forall|i: int|
            0 <= i < final(objects)@.len() ==> on_map(
                (#[trigger] final(objects)@[i]).x as int,
                final(objects)@[i].y as int,
            ),
        ai_transition(
            old(objects)@[monster_id as int].ai,
            final(objects)@[monster_id as int].ai,
        ),
        forall|j: int|
            0 <= j < old(objects)@.len() && j != monster_id ==> (#[trigger] final(objects)@[j]).ai
                == old(objects)@[j].ai,
        forall|j: int|
            0 <= j < old(objects)@.len() && j != monster_id && j != 0
                ==> #[trigger] final(objects)@[j] == old(objects)@[j],
        forall|j: int|
            0 <= j < old(objects)@.len() ==> ((#[trigger] final(objects)@[j]).fighter is Some) == (
            old(objects)@[j].fighter is Some),
        forall|j: int|
            0 <= j < old(objects)@.len() ==> ((#[trigger] final(objects)@[j]).ai is Some) == (old(
                objects,
            )@[j].ai is Some),
        (final(objects)@[0].fighter matches Option::Some(f) ==> f.on_death
            == DeathCallback::Player),
        player_hp_pos(final(objects)@) ==> (forall|j: int|
            0 <= j < old(objects)@.len() ==> fighter_xp(#[trigger] final(objects)@[j])
                == fighter_xp(old(objects)@[j])),
        player_hp_pos(final(objects)@) ==> player_hp_pos(old(objects)@),
        forall|j: int|
            1 <= j < old(objects)@.len() ==> (#[trigger] final(objects)@[j]).name@ == old(
                objects,
            )@[j].name@,
        (old(objects)@[monster_id as int].ai matches Option::Some(a) && a is Confused)
            ==> final(objects)@[0] == old(objects)@[0],
        ai_step_roster(
            old(objects)@,
            final(objects)@,
            old(game).inventory@,
            old(game).map@,
            *fov,
            monster_id as int,
        ),
        final(game).messages@.len() == old(game).messages@.len() + ai_step_msg_count(
            old(objects)@,
            old(game).inventory@,
            *fov,
            monster_id as int,
        ),
{
    let ghost s = old(objects)@;
    let is_basic = match &objects[monster_id].ai {
        Option::Some(Ai::Basic) => true,
        _ => false,
    };
    let confused_turns: Option<i32> = match &objects[monster_id].ai {
        Option::Some(Ai::Confused { num_turns, .. }) => Option::Some(*num_turns),
        _ => Option::None,
    };
    if is_basic {
        let new_ai = ai_basic(monster_id, game, objects, fov);
        proof {
            assert(new_ai == Ai::Basic);
        }
    } else {
        match confused_turns {
            Option::Some(num_turns) => {
                if num_turns >= 1 {
                    let dx = crate::rng::rand_range_i32(-1, 2);
                    let dy = crate::rng::rand_range_i32(-1, 2);
                    crate::object::move_by(monster_id, dx, dy, &game.map, objects);
                    let ghost stepped = objects@;
                    let mut monster = objects.remove(monster_id);
                    let prev = match monster.ai {
                        Option::Some(Ai::Confused { previous_ai, .. }) => previous_ai,
                        _ => Box::new(Ai::Basic),
                    };
                    monster.ai = Option::Some(
                        Ai::Confused { previous_ai: prev, num_turns: num_turns - 1 },
                    );
                    objects.insert(monster_id, monster);
                    proof {
                        assert(forall|j: int|
                            0 <= j < objects@.len() && j != monster_id ==> objects@[j] == s[j]);
                        assert(forall|j: int|
                            0 <= j < objects@.len() && j != monster_id ==> objects@[j]
                                == stepped[j]);
                        assert(confused_stumble(
                            s,
                            objects@,
                            old(game).map@,
                            monster_id as int,
                            dx as int,
                            dy as int,
                        ));
                    }
                } else {
                    let mut monster = objects.remove(monster_id);
                    let prev = match monster.ai {
                        Option::Some(Ai::Confused { previous_ai, .. }) => previous_ai,
                        _ => Box::new(Ai::Basic),
                    };
                    monster.ai = Option::Some(*prev);
                    let mut m = "The ".to_owned();
                    m.append(monster.name.as_str());
                    m.append(" is no longer confused!");
                    game.messages.add(m, color::red());
                    objects.insert(monster_id, monster);
                    proof {
                        assert(forall|j: int|
                            0 <= j < objects@.len() && j != monster_id ==> objects@[j] == s[j]);
                    }
                }
            },
            Option::None => {},
        }
    }
}

/// One `Basic` monster turn: inside the player's visible set it steps
/// toward the player when two or more tiles away, attacks when adjacent
/// to a living player, and otherwise waits; out of sight it does
/// nothing. The returned decision state is always `Basic` again.
#[verifier::rlimit(100)]
#[verifier::spinoff_prover]
pub fn ai_basic(monster_id: usize, game: &mut Game, objects: &mut Vec<Object>, fov: &Fov) -> (new_ai:
    Ai)
    requires
        0 < monster_id < old(objects)@.len(),
        phase_ok(old(objects)@),
        crate::object::inv_ok(old(game).inventory@),
        crate::map::map_wf(old(game).map@),
        fov.wf(),
        forall|i: int|
            0 <= i < old(objects)@.len() ==> on_map(
                (#[trigger] old(objects)@[i]).x as int,
                old(objects)@[i].y as int,
            ),
        old(objects)@[monster_id as int].fighter is Some,
        (old(objects)@[0].fighter matches Option::Some(f) ==> f.on_death
            == DeathCallback::Player),
        !is_player(old(objects)@[monster_id as int]),
    ensures
        new_ai == Ai::Basic,
        final(game).map == old(game).map,
        final(game).inventory == old(game).inventory,
        final(game).dungeon_level == old(game).dungeon_level,
        final(objects)@.len() == old(objects)@.len(),
        phase_ok(final(objects)@),
        forall|i: int|
            0 <= i < final(objects)@.len() ==> on_map(
                (#[trigger] final(objects)@[i]).x as int,
                final(objects)@[i].y as int,
            ),
        forall|j: int|
            0 <= j < old(objects)@.len() ==> (#[trigger] final(objects)@[j]).ai == old(
                objects,
            )@[j].ai,
        forall|j: int|
            0 <= j < old(objects)@.len() && j != monster_id && j != 0
                ==> #[trigger] final(objects)@[j] == old(objects)@[j],
        forall|j: int|
            0 <= j < old(objects)@.len() ==> ((#[trigger] final(objects)@[j]).fighter is Some) == (
            old(objects)@[j].fighter is Some),
        (final(objects)@[0].fighter matches Option::Some(f) ==> f.on_death
            == DeathCallback::Player),
        player_hp_pos(final(objects)@) ==> (forall|j: int|
            0 <= j < old(objects)@.len() ==> fighter_xp(#[trigger] final(objects)@[j])
                == fighter_xp(old(objects)@[j])),
        player_hp_pos(final(objects)@) ==> player_hp_pos(old(objects)@),
        forall|j: int|
            1 <= j < old(objects)@.len() ==> (#[trigger] final(objects)@[j]).name@ == old(
                objects,
            )@[j].name@,
        ({
            let s = old(objects)@;
            let mx = s[monster_id as int].x as int;
            let my = s[monster_id as int].y as int;
            if fov.visible(mx, my) {
                if spec_dist2(s[monster_id as int], s[0]) >= 4 {
                    let st = step_toward(s[0].x - mx, s[0].y - my);
                    final(objects)@ == moved(s, monster_id as int, old(game).map@, mx + st.0, my
                        + st.1) && final(game).messages@ == old(game).messages@
                } else if player_hp_pos(s) {
                    &&& final(objects)@[monster_id as int] == attack_attacker_after(
                        s[monster_id as int],
                        s[0],
                        old(game).inventory@,
                    )
                    &&& eq_except_name(
                        final(objects)@[0],
                        attack_target_after(s[monster_id as int], s[0], old(game).inventory@),
                    )
                    &&& final(objects)@[0].name@ == attack_target_name_after(
                        s[monster_id as int],
                        s[0],
                        old(game).inventory@,
                    )
                    &&& final(game).messages@.len() == old(game).messages@.len()
                        + attack_msg_count(s[monster_id as int], s[0], old(game).inventory@)
                } else {
                    final(objects)@ == s && final(game).messages@ == old(game).messages@
                }
            } else {
                final(objects)@ == s && final(game).messages@ == old(game).messages@
            }
        }),
{
    let ghost s = old(objects)@;
    let mx = objects[monster_id].x;
    let my = objects[monster_id].y;
    if fov.is_in_fov(mx, my) {
        let d2 = objects[monster_id].distance_to_sq(&objects[0]);
        let player_alive_now = match &objects[0].fighter {
            Option::Some(f) => f.hp > 0,
            Option::None => false,
        };
        if d2 >= 4 {
            let px = objects[0].x;
            let py = objects[0].y;
            crate::object::move_towards(monster_id, px, py, &game.map, objects);
        } else if player_alive_now {
            proof {
                crate::object::lemma_bonus_sums_in_range(game.inventory@);
            }
            let mut monster = objects.remove(monster_id);
            let mut player = objects.remove(0);
            monster.attack(&mut player, game);
            objects.insert(0, player);
            objects.insert(monster_id, monster);
            proof {
                assert(forall|j: int|
                    0 <= j < objects@.len() && j != 0 && j != monster_id ==> objects@[j] == s[j]);
            }
        }
    }
    Ai::Basic
}

} // verus!
