use roguelike::codec::{decode_session, encode_session};
use roguelike::color::Color;
use roguelike::game::{monster_phase, new_game, next_level, Game};
use roguelike::item::{
    drop_item, pick_item_up, toggle_equipment, use_item, Equipment, Item, Slot, UseTarget,
};
use roguelike::magic::{cast_confuse, cast_fireball, cast_lightning};
use roguelike::map::{build_level, Fov, GameMap, Tile, MAP_HEIGHT, MAP_WIDTH};
use roguelike::message::Messages;
use roguelike::monster_ai::{ai_take_turn, Ai};
use roguelike::object::{
    closest_monster, is_blocked, move_towards, player_move_or_attack, turn_outcome, Command,
    DeathCallback, Fighter, Object, PlayerAction,
};

fn bare_object(name: &str, x: i32, y: i32) -> Object {
    Object {
        x,
        y,
        glyph: '?',
        color: Color::new(255, 255, 255),
        name: name.to_string(),
        blocks: false,
        alive: false,
        fighter: None,
        ai: None,
        item: None,
        equipment: None,
        always_visible: false,
        level: 1,
    }
}

fn fighter(power: i32, defense: i32, hp: i32, xp: i32, on_death: DeathCallback) -> Fighter {
    Fighter {
        base_max_hp: hp,
        hp,
        base_defense: defense,
        base_power: power,
        base_magic: 0,
        xp,
        on_death,
    }
}

fn player_at(x: i32, y: i32) -> Object {
    let mut p = bare_object("player", x, y);
    p.blocks = true;
    p.alive = true;
    p.fighter = Some(fighter(2, 1, 100, 0, DeathCallback::Player));
    p
}

fn orc_at(x: i32, y: i32) -> Object {
    let mut o = bare_object("orc", x, y);
    o.glyph = 'o';
    o.blocks = true;
    o.alive = true;
    o.fighter = Some(fighter(4, 0, 20, 35, DeathCallback::Monster));
    o.ai = Some(Ai::Basic);
    o
}

fn empty_map() -> GameMap {
    vec![vec![Tile::empty(); 43]; 80]
}

fn empty_game() -> Game {
    Game {
        map: empty_map(),
        messages: Messages::new(),
        inventory: Vec::new(),
        dungeon_level: 1,
    }
}

fn fov_all(value: bool) -> Fov {
    Fov { grid: vec![vec![value; 43]; 80] }
}

#[test]
fn generated_rooms_never_overlap() {
    for _ in 0..5 {
        let mut objects = vec![player_at(0, 0)];
        let (map, rooms) = build_level(&mut objects, 1);
        assert_eq!(map.len(), MAP_WIDTH as usize);
        for col in &map {
            assert_eq!(col.len(), MAP_HEIGHT as usize);
        }
        assert!(rooms.len() >= 1);
        for i in 0..rooms.len() {
            for j in (i + 1)..rooms.len() {
                assert!(!rooms[i].intersects_with(&rooms[j]));
            }
        }
        // the player stands at the first room's centroid, on a carved tile
        let (cx, cy) = rooms[0].center();
        assert_eq!((objects[0].x, objects[0].y), (cx, cy));
        assert!(!map[cx as usize][cy as usize].blocked);
        // the stairs marker sits at the last room's centroid
        let stairs = objects.last().unwrap();
        assert_eq!(stairs.name, "stairs");
        assert!(stairs.always_visible);
        assert!(!stairs.blocks);

        // every room centroid is reachable from the first over carved tiles
        let mut seen = vec![vec![false; MAP_HEIGHT as usize]; MAP_WIDTH as usize];
        let mut queue = vec![(cx, cy)];
        seen[cx as usize][cy as usize] = true;
        while let Some((x, y)) = queue.pop() {
            for (dx, dy) in [(1, 0), (-1, 0), (0, 1), (0, -1)] {
                let (nx, ny) = (x + dx, y + dy);
                if nx >= 0 && nx < MAP_WIDTH && ny >= 0 && ny < MAP_HEIGHT
                    && !seen[nx as usize][ny as usize]
                    && !map[nx as usize][ny as usize].blocked
                {
                    seen[nx as usize][ny as usize] = true;
                    queue.push((nx, ny));
                }
            }
        }
        for room in &rooms {
            let (rx, ry) = room.center();
            assert!(seen[rx as usize][ry as usize]);
        }
    }
}

#[test]
fn shallow_rooms_spawn_only_what_the_depth_admits() {
    // at depth 1 the room policy can roll orcs and healing potions only:
    // trolls, gear and the other scrolls all carry zero weight there
    for _ in 0..10 {
        let map = empty_map();
        let room = roguelike::map::Rect { x1: 2, y1: 2, x2: 12, y2: 12 };
        let mut objects: Vec<Object> = Vec::new();
        roguelike::map::place_objects(room, &map, &mut objects, 1);
        // at most 2 monsters and 1 item at depth 1
        assert!(objects.len() <= 3);
        for o in &objects {
            assert!(o.name == "orc" || o.name == "healing potion");
            assert!(room.x1 < o.x && o.x < room.x2);
            assert!(room.y1 < o.y && o.y < room.y2);
        }
    }
}

#[test]
fn deep_roster_shifts_kinds_with_depth() {
    let map = empty_map();
    let room = roguelike::map::Rect { x1: 2, y1: 2, x2: 12, y2: 12 };
    for _ in 0..10 {
        let mut shallow: Vec<Object> = Vec::new();
        roguelike::monster::monster_table(room, &map, &mut shallow, 1);
        assert!(shallow.len() <= 2);
        for o in &shallow {
            // only orcs carry weight at depth 1
            assert_eq!(o.name, "orc");
            assert!(o.item.is_none());
        }
        let mut deep: Vec<Object> = Vec::new();
        roguelike::monster::monster_table(room, &map, &mut deep, 30);
        assert!(deep.len() <= 6);
        for o in &deep {
            // orcs and trolls have faded out by depth 30
            assert!(o.name == "bandit" || o.name == "warrior");
            assert!(o.item.is_none());
        }
    }
}

#[test]
fn use_outcome_feeds_the_turn_rule() {
    assert_eq!(turn_outcome(Command::Move), PlayerAction::TookTurn);
    assert_eq!(turn_outcome(Command::Wait), PlayerAction::TookTurn);
    assert_eq!(turn_outcome(Command::PickUp { picked: true }), PlayerAction::TookTurn);
    assert_eq!(turn_outcome(Command::PickUp { picked: false }), PlayerAction::DidntTakeTurn);
    assert_eq!(
        turn_outcome(Command::UseFromInventory { acted: true }),
        PlayerAction::TookTurn
    );
    assert_eq!(
        turn_outcome(Command::UseFromInventory { acted: false }),
        PlayerAction::DidntTakeTurn
    );
    assert_eq!(
        turn_outcome(Command::DropFromInventory { dropped: true }),
        PlayerAction::TookTurn
    );
    assert_eq!(turn_outcome(Command::CharacterInfo), PlayerAction::DidntTakeTurn);
    assert_eq!(turn_outcome(Command::Descend { descended: true }), PlayerAction::TookTurn);
    assert_eq!(
        turn_outcome(Command::Descend { descended: false }),
        PlayerAction::DidntTakeTurn
    );
    assert_eq!(turn_outcome(Command::Exit), PlayerAction::Exit);

    // a cancelled use reports itself so the controller can skip the turn
    let mut game = empty_game();
    let mut scroll = bare_object("scroll of confusion", 0, 0);
    scroll.item = Some(Item::Confuse);
    game.inventory.push(scroll);
    let mut objects = vec![player_at(5, 5), orc_at(6, 5)];
    let fov = fov_all(true);
    let cancelled = use_item(0, UseTarget::Nothing, &mut game, &mut objects, &fov);
    assert!(matches!(cancelled, roguelike::item::UseResult::Cancelled));
    let used = use_item(0, UseTarget::Monster(1), &mut game, &mut objects, &fov);
    assert!(matches!(used, roguelike::item::UseResult::UsedUp));
}

#[test]
fn fresh_maps_keep_their_border_and_tile_states() {
    let (game, objects) = new_game();
    for x in 0..MAP_WIDTH as usize {
        for y in 0..MAP_HEIGHT as usize {
            let t = game.map[x][y];
            // every tile is an untouched wall or a carved floor
            assert!(
                (t.blocked && t.block_sight) || (!t.blocked && !t.block_sight),
                "tile at {} {} is half-carved",
                x,
                y
            );
            assert!(!t.explored);
            if x == 0 || x == MAP_WIDTH as usize - 1 || y == 0 || y == MAP_HEIGHT as usize - 1 {
                assert!(t.blocked, "border tile at {} {} is open", x, y);
            }
        }
    }
    // monsters and items stand on carved tiles
    for o in objects.iter().skip(1) {
        if o.name != "stairs" {
            assert!(!game.map[o.x as usize][o.y as usize].blocked);
        }
    }
}

#[test]
fn new_game_builds_a_valid_session() {
    let (game, objects) = new_game();
    assert_eq!(game.dungeon_level, 1);
    assert!(objects.len() >= 2);

    let player = &objects[0];
    assert_eq!(player.name, "player");
    assert!(player.alive);
    let f = player.fighter.unwrap();
    assert_eq!(f.base_max_hp, 100);
    assert_eq!(f.hp, 100);
    assert_eq!(f.base_defense, 1);
    assert_eq!(f.base_power, 2);
    // the player stands on a carved (passable) tile of the new map
    assert!(!game.map[player.x as usize][player.y as usize].blocked);

    // exactly one stairs marker, at the end of the roster
    let stairs_count = objects.iter().filter(|o| o.name == "stairs").count();
    assert_eq!(stairs_count, 1);
    assert_eq!(objects.last().unwrap().name, "stairs");

    // the starting dagger is already equipped
    assert_eq!(game.inventory.len(), 1);
    let dagger = &game.inventory[0];
    assert_eq!(dagger.name, "dagger");
    assert!(dagger.equipment.unwrap().equipped);
    assert_eq!(dagger.equipment.unwrap().power_bonus, 2);
}

#[test]
fn descending_heals_and_regenerates() {
    let (mut game, mut objects) = new_game();
    // wound the player so the rest is visible
    let mut f = objects[0].fighter.unwrap();
    f.hp = 40;
    objects[0].fighter = Some(f);

    next_level(&mut game, &mut objects);
    assert_eq!(game.dungeon_level, 2);
    // healed by half of the effective ceiling: 40 + 50 = 90
    assert_eq!(objects[0].fighter.unwrap().hp, 90);
    assert_eq!(objects[0].name, "player");
    assert_eq!(objects.last().unwrap().name, "stairs");
}

#[test]
fn dropping_an_equipped_dagger_reduces_power() {
    let mut game = empty_game();
    let mut dagger = bare_object("dagger", 0, 0);
    dagger.item = Some(Item::Sword);
    dagger.equipment = Some(Equipment {
        slot: Slot::LeftHand,
        equipped: true,
        max_hp_bonus: 0,
        power_bonus: 2,
        defense_bonus: 0,
        magic_bonus: 0,
    });
    game.inventory.push(dagger);
    let mut objects = vec![player_at(12, 20)];

    assert_eq!(objects[0].power(&game), 4);
    drop_item(0, &mut game, &mut objects);
    assert_eq!(objects[0].power(&game), 2);

    assert_eq!(game.inventory.len(), 0);
    let dropped = objects.last().unwrap();
    assert_eq!(dropped.name, "dagger");
    assert_eq!((dropped.x, dropped.y), (12, 20));
    assert!(!dropped.equipment.unwrap().equipped);
    assert!(!dropped.always_visible);
}

#[test]
fn confusion_wears_off_on_the_eleventh_turn() {
    let mut game = empty_game();
    let mut objects = vec![player_at(5, 5), orc_at(30, 30)];
    let fov = fov_all(false);

    let r = cast_confuse(Some(1), &mut game, &mut objects);
    assert!(matches!(r, roguelike::item::UseResult::UsedUp));
    match &objects[1].ai {
        Some(Ai::Confused { previous_ai, num_turns }) => {
            assert_eq!(**previous_ai, Ai::Basic);
            assert_eq!(*num_turns, 10);
        }
        other => panic!("expected a confusion wrapper, got {:?}", other),
    }

    // ten turns of stumbling, counter 10 down to 0
    for turn in 0..10 {
        ai_take_turn(1, &mut game, &mut objects, &fov);
        match &objects[1].ai {
            Some(Ai::Confused { num_turns, .. }) => assert_eq!(*num_turns, 9 - turn),
            other => panic!("expected confusion on turn {}, got {:?}", turn, other),
        }
    }
    // the eleventh evaluation restores the wrapped state and logs it
    let before = game.messages.len();
    ai_take_turn(1, &mut game, &mut objects, &fov);
    assert_eq!(objects[1].ai, Some(Ai::Basic));
    assert_eq!(game.messages.len(), before + 1);
    assert_eq!(game.messages.get(before).0, "The orc is no longer confused!");
}

#[test]
fn session_round_trip_reproduces_everything() {
    let mut game = empty_game();
    game.dungeon_level = 3;
    game.messages.add("Welcome back".to_string(), Color::new(255, 0, 0));
    let mut sword = bare_object("sword", 0, 0);
    sword.item = Some(Item::Sword);
    sword.equipment = Some(Equipment {
        slot: Slot::RightHand,
        equipped: true,
        max_hp_bonus: 0,
        power_bonus: 3,
        defense_bonus: 0,
        magic_bonus: 0,
    });
    game.inventory.push(sword);

    let mut player = player_at(7, 9);
    let mut f = player.fighter.unwrap();
    f.hp = 62;
    f.xp = 123;
    player.fighter = Some(f);
    let mut monster = orc_at(8, 9);
    monster.ai = Some(Ai::Confused { previous_ai: Box::new(Ai::Basic), num_turns: 3 });
    let objects = vec![player, monster];

    let tokens = encode_session(&game, &objects);
    let decoded = decode_session(&tokens).expect("an encoded session decodes");
    let (game2, objects2) = decoded;

    assert_eq!(game2.dungeon_level, 3);
    assert_eq!(game2.messages.len(), 1);
    assert_eq!(game2.messages.get(0).0, "Welcome back");
    assert_eq!(game2.messages.get(0).1, Color::new(255, 0, 0));
    assert_eq!(game2.map.len(), game.map.len());
    for x in 0..game.map.len() {
        assert_eq!(game2.map[x], game.map[x]);
    }
    assert_eq!(game2.inventory.len(), 1);
    let sword2 = &game2.inventory[0];
    assert_eq!(sword2.name, "sword");
    assert_eq!(sword2.item, Some(Item::Sword));
    assert!(sword2.equipment.unwrap().equipped);
    assert_eq!(sword2.equipment.unwrap().power_bonus, 3);

    assert_eq!(objects2.len(), 2);
    let p2 = &objects2[0];
    assert_eq!(p2.name, "player");
    assert_eq!((p2.x, p2.y), (7, 9));
    let f2 = p2.fighter.unwrap();
    assert_eq!(f2.hp, 62);
    assert_eq!(f2.xp, 123);
    assert_eq!(f2.on_death, DeathCallback::Player);
    let m2 = &objects2[1];
    assert_eq!(m2.ai, Some(Ai::Confused { previous_ai: Box::new(Ai::Basic), num_turns: 3 }));
    assert_eq!(m2.fighter.unwrap().xp, 35);
}

#[test]
fn corrupt_streams_are_rejected() {
    let game = empty_game();
    let objects = vec![player_at(1, 1)];
    let mut tokens = encode_session(&game, &objects);
    tokens.pop();
    assert!(decode_session(&tokens).is_none());
    let empty: Vec<i64> = Vec::new();
    assert!(decode_session(&empty).is_none());
}

#[test]
fn lightning_strikes_the_closest_visible_hostile() {
    let mut game = empty_game();
    let mut objects = vec![player_at(5, 5), orc_at(7, 5), orc_at(9, 5)];
    let fov = fov_all(true);

    assert_eq!(closest_monster(&fov, &objects, 5), Some(1));
    let r = cast_lightning(&mut game, &mut objects, &fov);
    assert!(matches!(r, roguelike::item::UseResult::UsedUp));
    // 40 damage kills the 20 hp orc; the player is credited
    assert!(objects[1].fighter.is_none());
    assert_eq!(objects[1].name, "remains of orc");
    assert_eq!(objects[0].fighter.unwrap().xp, 35);
    // the farther orc is untouched
    assert_eq!(objects[2].fighter.unwrap().hp, 20);
}

#[test]
fn lightning_without_a_target_is_cancelled() {
    let mut game = empty_game();
    let mut objects = vec![player_at(5, 5), orc_at(40, 40)];
    let fov = fov_all(true);
    let r = cast_lightning(&mut game, &mut objects, &fov);
    assert!(matches!(r, roguelike::item::UseResult::Cancelled));
    assert_eq!(objects[1].fighter.unwrap().hp, 20);
}

#[test]
fn fireball_burns_everything_in_the_blast() {
    let mut game = empty_game();
    let mut objects = vec![player_at(10, 10), orc_at(11, 10), orc_at(30, 30)];
    let r = cast_fireball(Some((11, 10)), &mut game, &mut objects);
    assert!(matches!(r, roguelike::item::UseResult::UsedUp));
    // the player is inside the radius too: friendly fire
    assert_eq!(objects[0].fighter.unwrap().hp, 75);
    // the adjacent orc dies and pays the player; the distant one is safe
    assert!(objects[1].fighter.is_none());
    assert_eq!(objects[0].fighter.unwrap().xp, 35);
    assert_eq!(objects[2].fighter.unwrap().hp, 20);
}

#[test]
fn pick_up_is_refused_when_the_inventory_is_full() {
    let mut game = empty_game();
    for k in 0..26 {
        let mut potion = bare_object("healing potion", 0, 0);
        potion.item = Some(Item::Heal);
        potion.level = 1 + (k % 2);
        game.inventory.push(potion);
    }
    let mut extra = bare_object("healing potion", 3, 3);
    extra.item = Some(Item::Heal);
    let mut objects = vec![player_at(3, 3), extra];

    pick_item_up(1, &mut game, &mut objects);
    assert_eq!(game.inventory.len(), 26);
    assert_eq!(objects.len(), 2);
    let last = game.messages.len() - 1;
    assert_eq!(
        game.messages.get(last).0,
        "Your inventory is full! cannot pick up healing potion!"
    );
}

#[test]
fn picking_up_gear_auto_equips_into_a_free_slot() {
    let mut game = empty_game();
    let mut shield = bare_object("shield", 3, 3);
    shield.item = Some(Item::Shield);
    shield.equipment = Some(Equipment {
        slot: Slot::LeftHand,
        equipped: false,
        max_hp_bonus: 0,
        power_bonus: 0,
        defense_bonus: 1,
        magic_bonus: 0,
    });
    let mut objects = vec![player_at(3, 3), shield];
    pick_item_up(1, &mut game, &mut objects);
    assert_eq!(objects.len(), 1);
    assert_eq!(game.inventory.len(), 1);
    assert!(game.inventory[0].equipment.unwrap().equipped);
}

#[test]
fn equip_toggle_swaps_the_slot_occupant() {
    let mut game = empty_game();
    for name in ["sword", "second sword"] {
        let mut s = bare_object(name, 0, 0);
        s.item = Some(Item::Sword);
        s.equipment = Some(Equipment {
            slot: Slot::RightHand,
            equipped: false,
            max_hp_bonus: 0,
            power_bonus: 3,
            defense_bonus: 0,
            magic_bonus: 0,
        });
        game.inventory.push(s);
    }
    let r1 = toggle_equipment(0, &mut game);
    assert!(matches!(r1, roguelike::item::UseResult::UsedAndKept));
    assert!(game.inventory[0].equipment.unwrap().equipped);

    // equipping the second sword unequips the first
    toggle_equipment(1, &mut game);
    assert!(!game.inventory[0].equipment.unwrap().equipped);
    assert!(game.inventory[1].equipment.unwrap().equipped);

    // toggling the second again just unequips it
    toggle_equipment(1, &mut game);
    assert!(!game.inventory[1].equipment.unwrap().equipped);
}

#[test]
fn using_a_consumable_removes_it_and_cancel_keeps_it() {
    let mut game = empty_game();
    let mut scroll = bare_object("scroll of confusion", 0, 0);
    scroll.item = Some(Item::Confuse);
    game.inventory.push(scroll);
    let mut objects = vec![player_at(5, 5), orc_at(6, 5)];
    let fov = fov_all(true);

    // no target chosen: cancelled, nothing consumed
    use_item(0, UseTarget::Nothing, &mut game, &mut objects, &fov);
    assert_eq!(game.inventory.len(), 1);
    let last = game.messages.len() - 1;
    assert_eq!(game.messages.get(last).0, "Cancelled");

    // a chosen monster: consumed, and the monster stumbles
    use_item(0, UseTarget::Monster(1), &mut game, &mut objects, &fov);
    assert_eq!(game.inventory.len(), 0);
    assert!(matches!(objects[1].ai, Some(Ai::Confused { .. })));
}

#[test]
fn monsters_close_in_and_then_attack() {
    let mut game = empty_game();
    let mut objects = vec![player_at(5, 5), orc_at(9, 5)];
    let fov = fov_all(true);

    // three steps toward the player
    for _ in 0..3 {
        monster_phase(&mut game, &mut objects, &fov);
    }
    assert_eq!((objects[1].x, objects[1].y), (6, 5));
    // adjacent now: the next phase attacks for 4 - 1 = 3
    monster_phase(&mut game, &mut objects, &fov);
    assert_eq!(objects[0].fighter.unwrap().hp, 97);
}

#[test]
fn unseen_monsters_wait() {
    let mut game = empty_game();
    let mut objects = vec![player_at(5, 5), orc_at(9, 5)];
    let fov = fov_all(false);
    monster_phase(&mut game, &mut objects, &fov);
    assert_eq!((objects[1].x, objects[1].y), (9, 5));
    assert_eq!(objects[0].fighter.unwrap().hp, 100);
}

#[test]
fn player_bumping_into_a_monster_attacks_it() {
    let mut game = empty_game();
    let mut objects = vec![player_at(5, 5), orc_at(6, 5)];
    player_move_or_attack(1, 0, &mut game, &mut objects);
    // player power 2 - orc defense 0 = 2 damage, and nobody moved
    assert_eq!(objects[1].fighter.unwrap().hp, 18);
    assert_eq!((objects[0].x, objects[0].y), (5, 5));

    // moving into empty space moves instead
    player_move_or_attack(0, 1, &mut game, &mut objects);
    assert_eq!((objects[0].x, objects[0].y), (5, 6));
}

#[test]
fn blocked_steps_are_skipped() {
    let mut map = empty_map();
    map[6][5] = Tile::wall();
    let game_objects = vec![player_at(5, 5)];
    let mut objects = game_objects;
    roguelike::object::move_by(0, 1, 0, &map, &mut objects);
    assert_eq!((objects[0].x, objects[0].y), (5, 5));
    roguelike::object::move_by(0, 0, 1, &map, &mut objects);
    assert_eq!((objects[0].x, objects[0].y), (5, 6));
}

#[test]
fn move_towards_takes_one_rounded_step() {
    let map = empty_map();
    let mut objects = vec![player_at(0, 0), orc_at(10, 14)];
    // monster heads for the player: displacement (-10, -14) normalizes
    // and rounds to a diagonal step
    move_towards(1, 0, 0, &map, &mut objects);
    assert_eq!((objects[1].x, objects[1].y), (9, 13));
}

#[test]
fn blocking_entities_block_tiles() {
    let map = empty_map();
    let objects = vec![player_at(5, 5)];
    assert!(is_blocked(5, 5, &map, &objects));
    assert!(!is_blocked(6, 5, &map, &objects));
}
