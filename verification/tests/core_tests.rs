use roguelike::color::Color;
use roguelike::game::Game;
use roguelike::item::{Equipment, Item, Slot, UseResult};
use roguelike::magic::cast_heal;
use roguelike::map::{update_explored, Fov, GameMap, Rect, Tile};
use roguelike::message::Messages;
use roguelike::object::{from_dungeon_level, DeathCallback, Fighter, Object, Transition};
use roguelike::textfmt::i32_to_string;

fn bare_object(name: &str, x: i32, y: i32) -> Object {
    Object {
        x,
        y,
        glyph: '?',
        color: Color::new(255, 255, 255),
        name: name.to_string(),
        blocks: false,
        alive: false,
        fighter: None,
        ai: None,
        item: None,
        equipment: None,
        always_visible: false,
        level: 1,
    }
}

fn fighter(power: i32, defense: i32, hp: i32, xp: i32, on_death: DeathCallback) -> Fighter {
    Fighter {
        base_max_hp: hp,
        hp,
        base_defense: defense,
        base_power: power,
        base_magic: 0,
        xp,
        on_death,
    }
}

fn empty_map() -> GameMap {
    vec![vec![Tile::empty(); 43]; 80]
}

fn empty_game() -> Game {
    Game {
        map: empty_map(),
        messages: Messages::new(),
        inventory: Vec::new(),
        dungeon_level: 1,
    }
}

fn fov_all(value: bool) -> Fov {
    Fov { grid: vec![vec![value; 43]; 80] }
}

#[test]
fn threshold_table_below_lowest_is_zero() {
    let table = [
        Transition { level: 3, value: 15 },
        Transition { level: 5, value: 30 },
        Transition { level: 7, value: 60 },
    ];
    assert_eq!(from_dungeon_level(&table, 0), 0);
    assert_eq!(from_dungeon_level(&table, 2), 0);
}

#[test]
fn threshold_table_is_piecewise_constant() {
    let table = [
        Transition { level: 1, value: 2 },
        Transition { level: 4, value: 3 },
        Transition { level: 6, value: 5 },
    ];
    assert_eq!(from_dungeon_level(&table, 1), 2);
    assert_eq!(from_dungeon_level(&table, 3), 2);
    assert_eq!(from_dungeon_level(&table, 4), 3);
    assert_eq!(from_dungeon_level(&table, 5), 3);
    assert_eq!(from_dungeon_level(&table, 6), 5);
    assert_eq!(from_dungeon_level(&table, 100), 5);
}

#[test]
fn threshold_table_empty_is_zero() {
    let table: [Transition; 0] = [];
    assert_eq!(from_dungeon_level(&table, 9), 0);
}

#[test]
fn exploring_twice_keeps_explored() {
    let mut map = empty_map();
    let fov = fov_all(true);
    update_explored(&mut map, &fov);
    assert!(map[10][10].explored);
    update_explored(&mut map, &fov);
    assert!(map[10][10].explored);
}

#[test]
fn explored_never_resets() {
    let mut map = empty_map();
    update_explored(&mut map, &fov_all(true));
    assert!(map[5][5].explored);
    // a later pass with nothing visible leaves every explored flag up
    update_explored(&mut map, &fov_all(false));
    assert!(map[5][5].explored);
}

#[test]
fn attack_deals_power_minus_defense() {
    let mut game = empty_game();
    let mut attacker = bare_object("orc", 1, 1);
    attacker.fighter = Some(fighter(4, 0, 20, 35, DeathCallback::Monster));
    attacker.alive = true;
    let mut defender = bare_object("troll", 2, 1);
    defender.fighter = Some(fighter(2, 1, 30, 100, DeathCallback::Monster));
    defender.alive = true;

    attacker.attack(&mut defender, &mut game);
    assert_eq!(defender.fighter.unwrap().hp, 27);
    assert_eq!(game.messages.len(), 1);
    let logged = game.messages.get(0).0.clone();
    assert_eq!(logged, "orc attacks troll for 3 damage!");
}

#[test]
fn attack_with_no_surplus_power_has_no_effect() {
    let mut game = empty_game();
    let mut attacker = bare_object("orc", 1, 1);
    attacker.fighter = Some(fighter(1, 0, 20, 35, DeathCallback::Monster));
    attacker.alive = true;
    let mut defender = bare_object("warrior", 2, 1);
    defender.fighter = Some(fighter(2, 4, 60, 250, DeathCallback::Monster));
    defender.alive = true;

    attacker.attack(&mut defender, &mut game);
    assert_eq!(defender.fighter.unwrap().hp, 60);
    assert_eq!(game.messages.len(), 1);
    let logged = game.messages.get(0).0.clone();
    assert_eq!(logged, "orc attacks warrior but it has no effect!");
}

#[test]
fn lethal_attack_awards_xp_and_leaves_remains() {
    let mut game = empty_game();
    let mut attacker = bare_object("player", 1, 1);
    attacker.fighter = Some(fighter(50, 1, 100, 0, DeathCallback::Player));
    attacker.alive = true;
    let mut defender = bare_object("orc", 2, 1);
    defender.fighter = Some(fighter(4, 0, 20, 35, DeathCallback::Monster));
    defender.alive = true;
    defender.blocks = true;
    defender.ai = Some(roguelike::monster_ai::Ai::Basic);

    attacker.attack(&mut defender, &mut game);
    assert_eq!(attacker.fighter.unwrap().xp, 35);
    assert!(!defender.alive);
    assert!(defender.fighter.is_none());
    assert!(defender.ai.is_none());
    assert!(!defender.blocks);
    assert_eq!(defender.name, "remains of orc");
    assert_eq!(defender.glyph, '%');
}

#[test]
fn negative_damage_is_not_a_heal() {
    let mut messages = Messages::new();
    let mut target = bare_object("orc", 2, 1);
    target.fighter = Some(fighter(4, 0, 20, 35, DeathCallback::Monster));
    target.alive = true;
    let award = target.take_damage(-7, &mut messages);
    assert!(award.is_none());
    assert_eq!(target.fighter.unwrap().hp, 20);
}

#[test]
fn level_up_needs_full_threshold() {
    let mut objects = vec![bare_object("player", 1, 1)];
    objects[0].fighter = Some(fighter(2, 1, 100, 200, DeathCallback::Player));
    objects[0].alive = true;
    // level 1 threshold is 200 + 1 * 150 = 350
    assert!(!roguelike::object::level_up_pending(&objects));

    objects[0].fighter = Some(fighter(2, 1, 100, 350, DeathCallback::Player));
    assert!(roguelike::object::level_up_pending(&objects));

    let mut game = empty_game();
    roguelike::object::level_up(1, &mut game, &mut objects);
    let f = objects[0].fighter.unwrap();
    assert_eq!(objects[0].level, 2);
    assert_eq!(f.xp, 0);
    assert_eq!(f.base_power, 3);
}

#[test]
fn level_up_constitution_choice() {
    let mut objects = vec![bare_object("player", 1, 1)];
    objects[0].fighter = Some(fighter(2, 1, 100, 400, DeathCallback::Player));
    objects[0].alive = true;
    let mut game = empty_game();
    roguelike::object::level_up(0, &mut game, &mut objects);
    let f = objects[0].fighter.unwrap();
    assert_eq!(f.base_max_hp, 120);
    assert_eq!(f.hp, 120);
    assert_eq!(f.xp, 50);// surplus carries forward
}

#[test]
fn heal_is_refused_at_full_health() {
    let mut game = empty_game();
    let mut objects = vec![bare_object("player", 1, 1)];
    objects[0].fighter = Some(fighter(2, 1, 100, 0, DeathCallback::Player));
    objects[0].alive = true;
    let r = cast_heal(&mut game, &mut objects);
    assert!(matches!(r, UseResult::Cancelled));
    assert_eq!(objects[0].fighter.unwrap().hp, 100);
}

#[test]
fn heal_restores_clamped_to_max() {
    let mut game = empty_game();
    let mut objects = vec![bare_object("player", 1, 1)];
    let mut f = fighter(2, 1, 100, 0, DeathCallback::Player);
    f.hp = 90;
    objects[0].fighter = Some(f);
    objects[0].alive = true;
    let r = cast_heal(&mut game, &mut objects);
    assert!(matches!(r, UseResult::UsedUp));
    // 90 + 40 clamps to the 100 ceiling
    assert_eq!(objects[0].fighter.unwrap().hp, 100);
}

#[test]
fn equipment_bonuses_count_only_for_the_player() {
    let mut game = empty_game();
    let mut sword = bare_object("sword", 0, 0);
    sword.item = Some(Item::Sword);
    sword.equipment = Some(Equipment {
        slot: Slot::RightHand,
        equipped: true,
        max_hp_bonus: 0,
        power_bonus: 3,
        defense_bonus: 0,
        magic_bonus: 0,
    });
    game.inventory.push(sword);

    let mut player = bare_object("player", 1, 1);
    player.fighter = Some(fighter(2, 1, 100, 0, DeathCallback::Player));
    let mut orc = bare_object("orc", 2, 2);
    orc.fighter = Some(fighter(4, 0, 20, 35, DeathCallback::Monster));

    assert_eq!(player.power(&game), 5);
    assert_eq!(orc.power(&game), 4);
}

#[test]
fn slot_names_are_words() {
    assert_eq!(Slot::LeftHand.name(), "left hand");
    assert_eq!(Slot::RightFinger.name(), "right finger");
}

#[test]
fn decimal_rendering_matches() {
    assert_eq!(i32_to_string(0), "0");
    assert_eq!(i32_to_string(35), "35");
    assert_eq!(i32_to_string(-350), "-350");
    assert_eq!(i32_to_string(1234567), "1234567");
}

#[test]
fn rect_overlap_is_inclusive() {
    let a = Rect { x1: 0, y1: 0, x2: 4, y2: 4 };
    let b = Rect { x1: 4, y1: 4, x2: 8, y2: 8 };
    let c = Rect { x1: 5, y1: 5, x2: 8, y2: 8 };
    assert!(a.intersects_with(&b));
    assert!(!a.intersects_with(&c));
    let center = a.center();
    assert_eq!(center, (2, 2));
}

#[test]
fn messages_append_in_order() {
    let mut messages = Messages::new();
    messages.add("first".to_string(), Color::new(1, 2, 3));
    messages.add("second".to_string(), Color::new(4, 5, 6));
    assert_eq!(messages.len(), 2);
    assert_eq!(messages.get(0).0, "first");
    assert_eq!(messages.get(1).0, "second");
    assert_eq!(messages.get(1).1, Color::new(4, 5, 6));
}
