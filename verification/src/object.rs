use vstd::prelude::*;
use vstd::string::StringExecFns;

use crate::color::Color;
use crate::color;
use crate::game::Game;
use crate::item::{Equipment, Item, MAX_INVENTORY_SIZE};
use crate::map::{on_map, Fov, GameMap, Tile, MAP_HEIGHT, MAP_WIDTH};
use crate::message::Messages;
use crate::monster_ai::Ai;
use crate::textfmt;

verus! {

/// Experience needed for the first level-up.
pub const LEVEL_UP_BASE: i32 = 200;

/// Additional experience needed per level already gained.
pub const LEVEL_UP_FACTOR: i32 = 150;

/// The player entity always sits at this roster index.
pub const PLAYER: usize = 0;

/// Cap on base stats and on single equipment bonuses; generous for play,
/// tight enough that every stat sum provably fits in an `i32`.
pub const STAT_LIMIT: i32 = 0x10000;

/// Cap on stored experience so that awarding one kill's worth never
/// overflows an `i32`.
pub const XP_LIMIT: i32 = 0x3fff_ffff;

/// Hit points stay within this symmetric band.
pub const HP_SLACK: i32 = 0x4000_0000;

/// Cap on character level so that the level-up threshold fits in an `i32`.
pub const LEVEL_LIMIT: i32 = 0xf_ffff;

/// Which terminal behavior runs when a combatant's hit points reach zero.
/// A tag, not a callable: the behavior is rebuilt from it at every death.
#[derive(Clone, Copy, Debug, PartialEq, Eq, Structural)]
pub enum DeathCallback {
    Player,
    Monster,
}

/// The combat capability of an entity.
#[derive(Clone, Copy, Debug, PartialEq, Eq, Structural)]
pub struct Fighter {
    pub base_max_hp: i32,
    pub hp: i32,
    pub base_defense: i32,
    pub base_power: i32,
    pub base_magic: i32,
    pub xp: i32,
    pub on_death: DeathCallback,
}

/// What one round of input resolution amounted to.
#[derive(Clone, Copy, Debug, PartialEq, Eq, Structural)]
pub enum PlayerAction {
    TookTurn,
    DidntTakeTurn,
    Exit,
}

/// One decoded player command together with what resolving it did: the
/// front end decodes keys into this and the controller rule below says
/// whether the world takes a turn.
#[derive(Clone, Copy, Debug, PartialEq, Eq, Structural)]
pub enum Command {
    Move,
    Wait,
    PickUp { picked: bool },
    UseFromInventory { acted: bool },
    DropFromInventory { dropped: bool },
    CharacterInfo,
    Descend { descended: bool },
    Exit,
    Unknown,
}

/// The turn-consumption rule: movement (with its implicit attack),
/// waiting, a successful pickup, an actual use or drop, and a stairs
/// descent each consume the turn and hand it to the monsters; menu-only
/// interactions -- browsing that ends in no use or drop, a cancelled
/// use, the character screen, a failed pickup, a descend away from the
/// stairs -- do not.
pub open spec fn spec_turn_outcome(c: Command) -> PlayerAction {
    match c {
        Command::Move => PlayerAction::TookTurn,
        Command::Wait => PlayerAction::TookTurn,
        Command::PickUp { picked } => if picked {
            PlayerAction::TookTurn
        } else {
            PlayerAction::DidntTakeTurn
        },
        Command::UseFromInventory { acted } => if acted {
            PlayerAction::TookTurn
        } else {
            PlayerAction::DidntTakeTurn
        },
        Command::DropFromInventory { dropped } => if dropped {
            PlayerAction::TookTurn
        } else {
            PlayerAction::DidntTakeTurn
        },
        Command::CharacterInfo => PlayerAction::DidntTakeTurn,
        Command::Descend { descended } => if descended {
            PlayerAction::TookTurn
        } else {
            PlayerAction::DidntTakeTurn
        },
        Command::Exit => PlayerAction::Exit,
        Command::Unknown => PlayerAction::DidntTakeTurn,
    }
}

/// Decide whether one resolved command consumed the turn.
pub fn turn_outcome(c: Command) -> (r: PlayerAction)
    ensures
        r == spec_turn_outcome(c),
{
    match c {
        Command::Move => PlayerAction::TookTurn,
        Command::Wait => PlayerAction::TookTurn,
        Command::PickUp { picked } => if picked {
            PlayerAction::TookTurn
        } else {
            PlayerAction::DidntTakeTurn
        },
        Command::UseFromInventory { acted } => if acted {
            PlayerAction::TookTurn
        } else {
            PlayerAction::DidntTakeTurn
        },
        Command::DropFromInventory { dropped } => if dropped {
            PlayerAction::TookTurn
        } else {
            PlayerAction::DidntTakeTurn
        },
        Command::CharacterInfo => PlayerAction::DidntTakeTurn,
        Command::Descend { descended } => if descended {
            PlayerAction::TookTurn
        } else {
            PlayerAction::DidntTakeTurn
        },
        Command::Exit => PlayerAction::Exit,
        Command::Unknown => PlayerAction::DidntTakeTurn,
    }
}

/// One row of a depth threshold table: from `level` on, the table yields
/// `value` (until a later row takes over).
#[derive(Clone, Copy, Debug, PartialEq, Eq, Structural)]
pub struct Transition {
    pub level: u32,
    pub value: u32,
}

/// A generic game entity: player, monster, item or stairs marker, with
/// optional capability components.
#[derive(Debug)]
#[verifier::ext_equal]
pub struct Object {
    pub x: i32,
    pub y: i32,
    pub glyph: char,
    pub color: Color,
    pub name: String,
    pub blocks: bool,
    pub alive: bool,
    pub fighter: Option<Fighter>,
    pub ai: Option<Ai>,
    pub item: Option<Item>,
    pub equipment: Option<Equipment>,
    pub always_visible: bool,
    pub level: i32,
}

/// The entity with this name is the player; only it aggregates equipment
/// bonuses from the inventory.
pub open spec fn is_player(o: Object) -> bool {
    o.name@ == "player"@
}

pub open spec fn fighter_ok(f: Fighter) -> bool {
    &&& 0 <= f.base_max_hp <= STAT_LIMIT
    &&& 0 <= f.base_defense <= STAT_LIMIT
    &&& 0 <= f.base_power <= STAT_LIMIT
    &&& 0 <= f.base_magic <= STAT_LIMIT
    &&& 0 <= f.xp <= XP_LIMIT
    &&& -HP_SLACK <= f.hp <= HP_SLACK
}

pub open spec fn equipment_ok(e: Equipment) -> bool {
    &&& 0 <= e.max_hp_bonus <= STAT_LIMIT
    &&& 0 <= e.power_bonus <= STAT_LIMIT
    &&& 0 <= e.defense_bonus <= STAT_LIMIT
    &&& 0 <= e.magic_bonus <= STAT_LIMIT
}

/// Numeric sanity of one entity: every stat a component carries stays in
/// the band that keeps the combat arithmetic inside `i32`.
pub open spec fn object_ok(o: Object) -> bool {
    &&& match o.fighter {
        Option::Some(f) => fighter_ok(f),
        Option::None => true,
    }
    &&& match o.equipment {
        Option::Some(e) => equipment_ok(e),
        Option::None => true,
    }
    &&& 0 <= o.level <= LEVEL_LIMIT
}

pub open spec fn objects_ok(objects: Seq<Object>) -> bool {
    forall|i: int| 0 <= i < objects.len() ==> object_ok(#[trigger] objects[i])
}

/// The inventory is capacity-bounded and numerically sane.
pub open spec fn inv_ok(inv: Seq<Object>) -> bool {
    inv.len() <= MAX_INVENTORY_SIZE && objects_ok(inv)
}

/// The bonus an inventory entry contributes while equipped, under a
/// chosen bonus selector.
pub open spec fn equip_contrib(o: Object, f: spec_fn(Equipment) -> int) -> int {
    match o.equipment {
        Option::Some(e) => if e.equipped {
            f(e)
        } else {
            0
        },
        Option::None => 0,
    }
}

/// Sum of the selected bonus over all equipped inventory entries.
pub open spec fn equip_sum(inv: Seq<Object>, f: spec_fn(Equipment) -> int) -> int
    decreases inv.len(),
{
    if inv.len() == 0 {
        0
    } else {
        equip_sum(inv.drop_last(), f) + equip_contrib(inv.last(), f)
    }
}

pub open spec fn power_bonus_sum(inv: Seq<Object>) -> int {
    equip_sum(inv, |e: Equipment| e.power_bonus as int)
}

pub open spec fn defense_bonus_sum(inv: Seq<Object>) -> int {
    equip_sum(inv, |e: Equipment| e.defense_bonus as int)
}

pub open spec fn max_hp_bonus_sum(inv: Seq<Object>) -> int {
    equip_sum(inv, |e: Equipment| e.max_hp_bonus as int)
}

/// Effective attack power: the fighter base plus, for the player only,
/// the sum of equipped bonuses.
pub open spec fn spec_power(o: Object, inv: Seq<Object>) -> int {
    (match o.fighter {
        Option::Some(f) => f.base_power as int,
        Option::None => 0,
    }) + if is_player(o) {
        power_bonus_sum(inv)
    } else {
        0
    }
}

/// Effective defense, aggregated the same way as `spec_power`.
pub open spec fn spec_defense(o: Object, inv: Seq<Object>) -> int {
    (match o.fighter {
        Option::Some(f) => f.base_defense as int,
        Option::None => 0,
    }) + if is_player(o) {
        defense_bonus_sum(inv)
    } else {
        0
    }
}

/// Effective hit-point ceiling, aggregated the same way as `spec_power`.
pub open spec fn spec_max_hp(o: Object, inv: Seq<Object>) -> int {
    (match o.fighter {
        Option::Some(f) => f.base_max_hp as int,
        Option::None => 0,
    }) + if is_player(o) {
        max_hp_bonus_sum(inv)
    } else {
        0
    }
}

/// Every equipped contribution in a sane inventory lies in `[0, b]`, so
/// the whole sum lies in `[0, len * b]`.
pub proof fn lemma_equip_sum_bound(inv: Seq<Object>, f: spec_fn(Equipment) -> int, b: int)
    requires
        b >= 0,
        forall|i: int| 0 <= i < inv.len() ==> 0 <= equip_contrib(#[trigger] inv[i], f) <= b,
    ensures
        0 <= equip_sum(inv, f) <= inv.len() * b,
    decreases inv.len(),
{
    if inv.len() == 0 {
    } else {
        let prefix = inv.drop_last();
        assert(forall|i: int|
            0 <= i < prefix.len() ==> 0 <= equip_contrib(#[trigger] prefix[i], f) <= b);
        lemma_equip_sum_bound(prefix, f, b);
        assert(0 <= equip_contrib(inv.last(), f) <= b);
        assert((inv.len() - 1) * b + b == inv.len() * b) by (nonlinear_arith);
    }
}

/// The three aggregate bonuses of a sane inventory fit well inside `i32`.
pub proof fn lemma_bonus_sums_in_range(inv: Seq<Object>)
    requires
        inv_ok(inv),
    ensures
        0 <= power_bonus_sum(inv) <= MAX_INVENTORY_SIZE * STAT_LIMIT,
        0 <= defense_bonus_sum(inv) <= MAX_INVENTORY_SIZE * STAT_LIMIT,
        0 <= max_hp_bonus_sum(inv) <= MAX_INVENTORY_SIZE * STAT_LIMIT,
{
    assert forall|i: int| 0 <= i < inv.len() implies 0 <= equip_contrib(
        #[trigger] inv[i],
        |e: Equipment| e.power_bonus as int,
    ) <= STAT_LIMIT by {
        assert(object_ok(inv[i]));
    }
    lemma_equip_sum_bound(inv, |e: Equipment| e.power_bonus as int, STAT_LIMIT as int);
    assert forall|i: int| 0 <= i < inv.len() implies 0 <= equip_contrib(
        #[trigger] inv[i],
        |e: Equipment| e.defense_bonus as int,
    ) <= STAT_LIMIT by {
        assert(object_ok(inv[i]));
    }
    lemma_equip_sum_bound(inv, |e: Equipment| e.defense_bonus as int, STAT_LIMIT as int);
    assert forall|i: int| 0 <= i < inv.len() implies 0 <= equip_contrib(
        #[trigger] inv[i],
        |e: Equipment| e.max_hp_bonus as int,
    ) <= STAT_LIMIT by {
        assert(object_ok(inv[i]));
    }
    lemma_equip_sum_bound(inv, |e: Equipment| e.max_hp_bonus as int, STAT_LIMIT as int);
    assert(inv.len() * STAT_LIMIT <= MAX_INVENTORY_SIZE * STAT_LIMIT) by (nonlinear_arith)
        requires
            inv.len() <= MAX_INVENTORY_SIZE,
            STAT_LIMIT > 0,
    ;
}

/// The fighter after raw damage has been applied: only positive damage
/// subtracts; zero or negative damage is a no-op, never a heal.
pub open spec fn damaged_fighter(f: Fighter, damage: i32) -> Fighter {
    if damage > 0 {
        Fighter { hp: (f.hp - damage) as i32, ..f }
    } else {
        f
    }
}

/// Whether applying `damage` kills the entity: it must carry a fighter,
/// end at or below zero hit points, and still be alive-eligible.
pub open spec fn dies_from(o: Object, damage: i32) -> bool {
    match o.fighter {
        Option::Some(f) => damaged_fighter(f, damage).hp <= 0 && o.alive,
        Option::None => false,
    }
}

/// The entity after `damage` is applied, death behavior included: a dead
/// player becomes a corpse but keeps its fighter record; a dead monster
/// loses fighter and decision components and stops blocking.
pub open spec fn after_damage(o: Object, damage: i32) -> Object {
    match o.fighter {
        Option::None => o,
        Option::Some(f) => {
            let f1 = damaged_fighter(f, damage);
            if f1.hp <= 0 && o.alive {
                match f.on_death {
                    DeathCallback::Player => Object {
                        glyph: '%',
                        color: Color { r: 191, g: 0, b: 0 },
                        alive: false,
                        fighter: Option::Some(f1),
                        ..o
                    },
                    DeathCallback::Monster => Object {
                        glyph: '%',
                        color: Color { r: 191, g: 0, b: 0 },
                        alive: false,
                        blocks: false,
                        fighter: Option::None,
                        ai: Option::None,
                        ..o
                    },
                }
            } else {
                Object { fighter: Option::Some(f1), ..o }
            }
        },
    }
}

/// The experience handed to the caller when the damage was lethal; the
/// caller credits it (and never credits an entity for its own death).
pub open spec fn damage_award(o: Object, damage: i32) -> Option<i32> {
    if dies_from(o, damage) {
        Option::Some(o.fighter->Some_0.xp)
    } else {
        Option::None
    }
}

/// The entity's name after damage: a dead monster's name gains the
/// corpse prefix, every other case keeps it.
pub open spec fn after_damage_name(o: Object, damage: i32) -> Seq<char> {
    if dies_from(o, damage) && o.fighter->Some_0.on_death == DeathCallback::Monster {
        "remains of "@ + o.name@
    } else {
        o.name@
    }
}

/// Field-by-field equality, the name aside (whose text is stated
/// separately where it changes).
pub open spec fn eq_except_name(a: Object, b: Object) -> bool {
    &&& a.x == b.x
    &&& a.y == b.y
    &&& a.glyph == b.glyph
    &&& a.color == b.color
    &&& a.blocks == b.blocks
    &&& a.alive == b.alive
    &&& a.fighter == b.fighter
    &&& a.ai == b.ai
    &&& a.item == b.item
    &&& a.equipment == b.equipment
    &&& a.always_visible == b.always_visible
    &&& a.level == b.level
}

/// The entity after `equip`: the equipment component, when the entity is
/// an item that carries one, is marked equipped; otherwise nothing
/// changes.
pub open spec fn equip_result(o: Object) -> Object {
    if o.item is Some && o.equipment is Some {
        Object {
            equipment: Option::Some(Equipment { equipped: true, ..o.equipment->Some_0 }),
            ..o
        }
    } else {
        o
    }
}

/// Log lines `equip` produces: one for a refusal or a fresh equip, none
/// when the item was already equipped.
pub open spec fn equip_msg_count(o: Object) -> int {
    if o.item is None || o.equipment is None {
        1
    } else if !o.equipment->Some_0.equipped {
        1
    } else {
        0
    }
}

/// The entity after `unequip`: the mirror image of `equip_result`.
pub open spec fn unequip_result(o: Object) -> Object {
    if o.item is Some && o.equipment is Some {
        Object {
            equipment: Option::Some(Equipment { equipped: false, ..o.equipment->Some_0 }),
            ..o
        }
    } else {
        o
    }
}

/// Log lines `unequip` produces: the mirror image of `equip_msg_count`.
pub open spec fn unequip_msg_count(o: Object) -> int {
    if o.item is None || o.equipment is None {
        1
    } else if o.equipment->Some_0.equipped {
        1
    } else {
        0
    }
}

impl Object {
    /// A bare entity: no capabilities, not alive, level 1.
    pub fn new(x: i32, y: i32, glyph: char, name: &str, color: Color, blocks: bool) -> (o: Object)
        ensures
            o == (Object {
                x,
                y,
                glyph,
                color,
                name: o.name,
                blocks,
                alive: false,
                fighter: Option::None,
                ai: Option::None,
                item: Option::None,
                equipment: Option::None,
                always_visible: false,
                level: 1,
            }),
            o.name@ == name@,
    {
        Object {
            x,
            y,
            glyph,
            color,
            name: name.to_owned(),
            blocks,
            alive: false,
            fighter: Option::None,
            ai: Option::None,
            item: Option::None,
            equipment: Option::None,
            always_visible: false,
            level: 1,
        }
    }

    pub fn pos(&self) -> (p: (i32, i32))
        ensures
            p == (self.x, self.y),
    {
        (self.x, self.y)
    }

    pub fn set_pos(&mut self, x: i32, y: i32)
        ensures
            *final(self) == (Object { x, y, ..*old(self) }),
    {
        self.x = x;
        self.y = y;
    }

    /// True exactly for the player entity.
    pub fn is_player_entity(&self) -> (r: bool)
        ensures
            r == is_player(*self),
    {
        let p: String = "player".to_owned();
        self.name == p
    }

    /// Squared straight-line distance to another entity. Distances are
    /// compared squared throughout, which orders them exactly as their
    /// roots would.
    pub fn distance_to_sq(&self, other: &Object) -> (d: i64)
        requires
            on_map(self.x as int, self.y as int),
            on_map(other.x as int, other.y as int),
        ensures
            d == (other.x - self.x) * (other.x - self.x) + (other.y - self.y) * (other.y
                - self.y),
    {
        let dx = other.x as i64 - self.x as i64;
        let dy = other.y as i64 - self.y as i64;
        proof {
            assert(0 <= dx * dx <= 6400 && 0 <= dy * dy <= 6400) by (nonlinear_arith)
                requires
                    -80 <= dx <= 80,
                    -80 <= dy <= 80,
            ;
        }
        dx * dx + dy * dy
    }

    /// Squared straight-line distance to a coordinate.
    pub fn distance_sq(&self, x: i32, y: i32) -> (d: i64)
        requires
            on_map(self.x as int, self.y as int),
            on_map(x as int, y as int),
        ensures
            d == (x - self.x) * (x - self.x) + (y - self.y) * (y - self.y),
    {
        let dx = x as i64 - self.x as i64;
        let dy = y as i64 - self.y as i64;
        proof {
            assert(0 <= dx * dx <= 6400 && 0 <= dy * dy <= 6400) by (nonlinear_arith)
                requires
                    -80 <= dx <= 80,
                    -80 <= dy <= 80,
            ;
        }
        dx * dx + dy * dy
    }

    /// Effective attack power, equipment included for the player.
    pub fn power(&self, game: &Game) -> (r: i32)
        requires
            object_ok(*self),
            inv_ok(game.inventory@),
        ensures
            r == spec_power(*self, game.inventory@),
    {
        let base_power = match &self.fighter {
            Option::Some(f) => f.base_power,
            Option::None => 0,
        };
        if self.is_player_entity() {
            proof {
                lemma_bonus_sums_in_range(game.inventory@);
            }
            let bonus = sum_power_bonus(&game.inventory);
            base_power + bonus
        } else {
            base_power
        }
    }

    /// Effective defense, equipment included for the player.
    pub fn defense(&self, game: &Game) -> (r: i32)
        requires
            object_ok(*self),
            inv_ok(game.inventory@),
        ensures
            r == spec_defense(*self, game.inventory@),
    {
        let base_defense = match &self.fighter {
            Option::Some(f) => f.base_defense,
            Option::None => 0,
        };
        if self.is_player_entity() {
            proof {
                lemma_bonus_sums_in_range(game.inventory@);
            }
            let bonus = sum_defense_bonus(&game.inventory);
            base_defense + bonus
        } else {
            base_defense
        }
    }

    /// Effective hit-point ceiling, equipment included for the player.
    pub fn max_hp(&self, game: &Game) -> (r: i32)
        requires
            object_ok(*self),
            inv_ok(game.inventory@),
        ensures
            r == spec_max_hp(*self, game.inventory@),
    {
        let base_max_hp = match &self.fighter {
            Option::Some(f) => f.base_max_hp,
            Option::None => 0,
        };
        if self.is_player_entity() {
            proof {
                lemma_bonus_sums_in_range(game.inventory@);
            }
            let bonus = sum_max_hp_bonus(&game.inventory);
            base_max_hp + bonus
        } else {
            base_max_hp
        }
    }

    /// Restore hit points, clamped to the effective ceiling and never
    /// below what they were; an entity without a fighter is untouched.
    pub fn heal(&mut self, amount: i32, game: &Game)
        requires
            object_ok(*old(self)),
            inv_ok(game.inventory@),
            0 <= amount,
            (match old(self).fighter {
                Option::Some(f) => f.hp + amount <= i32::MAX,
                Option::None => true,
            }),
        ensures
            (match old(self).fighter {
                Option::Some(f) => *final(self) == (Object {
                    fighter: Option::Some(
                        Fighter {
                            hp: (if f.hp + amount > spec_max_hp(*old(self), game.inventory@) {
                                spec_max_hp(*old(self), game.inventory@) as i32
                            } else {
                                (f.hp + amount) as i32
                            }),
                            ..f
                        },
                    ),
                    ..*old(self)
                }),
                Option::None => *final(self) == *old(self),
            }),
    {
        let max_hp = self.max_hp(game);
        proof {
            lemma_bonus_sums_in_range(game.inventory@);
        }
        match self.fighter {
            Option::Some(f) => {
                let mut f1 = f;
                f1.hp = f1.hp + amount;
                if f1.hp > max_hp {
                    f1.hp = max_hp;
                }
                self.fighter = Option::Some(f1);
            },
            Option::None => {},
        }
    }

    /// Mark the equipment component equipped and log it; refused with a
    /// message when the entity is no item or carries no equipment.
    pub fn equip(&mut self, messages: &mut Messages)
        ensures
            final(messages)@.len() == old(messages)@.len() + equip_msg_count(*old(self)),
            *final(self) == equip_result(*old(self)),
    {
        if self.item.is_none() {
            let mut m = "Can't equip ".to_owned();
            m.append(self.name.as_str());
            m.append(" because it is not an item.");
            messages.add(m, color::red());
            return ;
        }
        match self.equipment {
            Option::Some(e) => {
                if !e.equipped {
                    self.equipment = Option::Some(Equipment { equipped: true, ..e });
                    let mut m = "Equipped ".to_owned();
                    m.append(self.name.as_str());
                    m.append(" on ");
                    let slot_name = e.slot.name();
                    m.append(slot_name.as_str());
                    m.append(".");
                    messages.add(m, color::light_green());
                } else {
                    self.equipment = Option::Some(Equipment { equipped: true, ..e });
                }
            },
            Option::None => {
                let mut m = "Can't equip ".to_owned();
                m.append(self.name.as_str());
                m.append(" because it is not equipment.");
                messages.add(m, color::red());
            },
        }
    }

    /// Mark the equipment component unequipped and log it; refused with a
    /// message when the entity is no item or carries no equipment.
    pub fn unequip(&mut self, messages: &mut Messages)
        ensures
            final(messages)@.len() == old(messages)@.len() + unequip_msg_count(*old(self)),
            *final(self) == unequip_result(*old(self)),
    {
        if self.item.is_none() {
            let mut m = "Can't unequip ".to_owned();
            m.append(self.name.as_str());
            m.append(" because it is not an item.");
            messages.add(m, color::red());
            return ;
        }
        match self.equipment {
            Option::Some(e) => {
                if e.equipped {
                    self.equipment = Option::Some(Equipment { equipped: false, ..e });
                    let mut m = "Unequipped ".to_owned();
                    m.append(self.name.as_str());
                    m.append(" on ");
                    let slot_name = e.slot.name();
                    m.append(slot_name.as_str());
                    m.append(".");
                    messages.add(m, color::light_yellow());
                } else {
                    self.equipment = Option::Some(Equipment { equipped: false, ..e });
                }
            },
            Option::None => {
                let mut m = "Can't unequip ".to_owned();
                m.append(self.name.as_str());
                m.append(" because it is not equipment.");
                messages.add(m, color::red());
            },
        }
    }

    /// All currently equipped equipment records: the player reads them
    /// from the inventory, every other entity has none.
    pub fn get_all_equipped(&self, game: &Game) -> (r: Vec<Equipment>)
        ensures
            is_player(*self) ==> r@ == equipped_seq(game.inventory@),
            !is_player(*self) ==> r@.len() == 0,
    {
        if self.is_player_entity() {
            let mut r: Vec<Equipment> = Vec::new();
            let mut i: usize = 0;
            while i < game.inventory.len()
                invariant
                    i <= game.inventory@.len(),
                    r@ == equipped_seq(game.inventory@.take(i as int)),
                decreases game.inventory@.len() - i,
            {
                let ghost prefix = game.inventory@.take(i as int);
                match &game.inventory[i].equipment {
                    Option::Some(e) => {
                        if e.equipped {
                            r.push(*e);
                        }
                    },
                    Option::None => {},
                }
                proof {
                    assert(game.inventory@.take(i + 1).drop_last() =~= prefix);
                    assert(game.inventory@.take(i + 1).last() == game.inventory@[i as int]);
                }
                i = i + 1;
            }
            proof {
                assert(game.inventory@.take(game.inventory@.len() as int) =~= game.inventory@);
            }
            r
        } else {
            Vec::new()
        }
    }

    /// Apply raw damage: positive damage subtracts hit points; a lethal
    /// hit marks the entity dead, runs the behavior its death tag picks,
    /// and returns its experience for the caller to award.
    pub fn take_damage(&mut self, damage: i32, messages: &mut Messages) -> (r: Option<i32>)
        requires
            (match old(self).fighter {
                Option::Some(f) => damage > 0 ==> f.hp - damage >= i32::MIN,
                Option::None => true,
            }),
        ensures
            eq_except_name(*final(self), after_damage(*old(self), damage)),
            final(self).name@ == after_damage_name(*old(self), damage),
            !(dies_from(*old(self), damage) && old(self).fighter->Some_0.on_death
                == DeathCallback::Monster) ==> final(self).name == old(self).name,
            r == damage_award(*old(self), damage),
            final(messages)@.len() == old(messages)@.len() + (if r is Some {
                1int
            } else {
                0int
            }),
    {
        match self.fighter {
            Option::Some(f) => {
                let mut f1 = f;
                if damage > 0 {
                    f1.hp = f1.hp - damage;
                }
                self.fighter = Option::Some(f1);
                if f1.hp <= 0 && self.alive {
                    self.alive = false;
                    match f.on_death {
                        DeathCallback::Player => player_death(self, messages),
                        DeathCallback::Monster => monster_death(self, messages),
                    }
                    Option::Some(f.xp)
                } else {
                    Option::None
                }
            },
            Option::None => Option::None,
        }
    }
}

/// Sum of power bonuses over equipped inventory entries.
fn sum_power_bonus(inv: &Vec<Object>) -> (r: i32)
    requires
        inv_ok(inv@),
    ensures
        r == power_bonus_sum(inv@),
{
    proof {
        lemma_bonus_sums_in_range(inv@);
    }
    let mut r: i32 = 0;
    let mut i: usize = 0;
    while i < inv.len()
        invariant
            inv_ok(inv@),
            i <= inv@.len(),
            r == equip_sum(inv@.take(i as int), |e: Equipment| e.power_bonus as int),
            0 <= r <= i * STAT_LIMIT,
        decreases inv@.len() - i,
    {
        let ghost prefix = inv@.take(i as int);
        proof {
            assert(inv@.take(i + 1).drop_last() =~= prefix);
            assert(inv@.take(i + 1).last() == inv@[i as int]);
            assert(object_ok(inv@[i as int]));
        }
        match &inv[i].equipment {
            Option::Some(e) => {
                if e.equipped {
                    r = r + e.power_bonus;
                }
            },
            Option::None => {},
        }
        proof {
            assert((i + 1) * STAT_LIMIT == i * STAT_LIMIT + STAT_LIMIT) by (nonlinear_arith);
        }
        i = i + 1;
    }
    proof {
        assert(inv@.take(inv@.len() as int) =~= inv@);
    }
    r
}

/// Sum of defense bonuses over equipped inventory entries.
fn sum_defense_bonus(inv: &Vec<Object>) -> (r: i32)
    requires
        inv_ok(inv@),
    ensures
        r == defense_bonus_sum(inv@),
{
    proof {
        lemma_bonus_sums_in_range(inv@);
    }
    let mut r: i32 = 0;
    let mut i: usize = 0;
    while i < inv.len()
        invariant
            inv_ok(inv@),
            i <= inv@.len(),
            r == equip_sum(inv@.take(i as int), |e: Equipment| e.defense_bonus as int),
            0 <= r <= i * STAT_LIMIT,
        decreases inv@.len() - i,
    {
        let ghost prefix = inv@.take(i as int);
        proof {
            assert(inv@.take(i + 1).drop_last() =~= prefix);
            assert(inv@.take(i + 1).last() == inv@[i as int]);
            assert(object_ok(inv@[i as int]));
        }
        match &inv[i].equipment {
            Option::Some(e) => {
                if e.equipped {
                    r = r + e.defense_bonus;
                }
            },
            Option::None => {},
        }
        proof {
            assert((i + 1) * STAT_LIMIT == i * STAT_LIMIT + STAT_LIMIT) by (nonlinear_arith);
        }
        i = i + 1;
    }
    proof {
        assert(inv@.take(inv@.len() as int) =~= inv@);
    }
    r
}

/// Sum of hit-point bonuses over equipped inventory entries.
fn sum_max_hp_bonus(inv: &Vec<Object>) -> (r: i32)
    requires
        inv_ok(inv@),
    ensures
        r == max_hp_bonus_sum(inv@),
{
    proof {
        lemma_bonus_sums_in_range(inv@);
    }
    let mut r: i32 = 0;
    let mut i: usize = 0;
    while i < inv.len()
        invariant
            inv_ok(inv@),
            i <= inv@.len(),
            r == equip_sum(inv@.take(i as int), |e: Equipment| e.max_hp_bonus as int),
            0 <= r <= i * STAT_LIMIT,
        decreases inv@.len() - i,
    {
        let ghost prefix = inv@.take(i as int);
        proof {
            assert(inv@.take(i + 1).drop_last() =~= prefix);
            assert(inv@.take(i + 1).last() == inv@[i as int]);
            assert(object_ok(inv@[i as int]));
        }
        match &inv[i].equipment {
            Option::Some(e) => {
                if e.equipped {
                    r = r + e.max_hp_bonus;
                }
            },
            Option::None => {},
        }
        proof {
            assert((i + 1) * STAT_LIMIT == i * STAT_LIMIT + STAT_LIMIT) by (nonlinear_arith);
        }
        i = i + 1;
    }
    proof {
        assert(inv@.take(inv@.len() as int) =~= inv@);
    }
    r
}

/// The equipment records of the equipped inventory entries, in inventory
/// order.
pub open spec fn equipped_seq(inv: Seq<Object>) -> Seq<Equipment>
    decreases inv.len(),
{
    if inv.len() == 0 {
        Seq::empty()
    } else {
        equipped_seq(inv.drop_last()) + (match inv.last().equipment {
            Option::Some(e) => if e.equipped {
                seq![e]
            } else {
                Seq::empty()
            },
            Option::None => Seq::empty(),
        })
    }
}

/// Turn the fallen player into a corpse and log the end of the game.
fn player_death(player: &mut Object, messages: &mut Messages)
    ensures
        *final(player) == (Object {
            glyph: '%',
            color: (Color { r: 191, g: 0, b: 0 }),
            ..*old(player)
        }),
        final(messages)@.len() == old(messages)@.len() + 1,
{
    messages.add("You died!".to_owned(), color::red());
    player.glyph = '%';
    player.color = color::dark_red();
}

/// Turn a fallen monster into harmless remains: no combat, no decisions,
/// no blocking, and a corpse name.
fn monster_death(monster: &mut Object, messages: &mut Messages)
    requires
        old(monster).fighter is Some,
    ensures
        eq_except_name(
            *final(monster),
            (Object {
                glyph: '%',
                color: (Color { r: 191, g: 0, b: 0 }),
                blocks: false,
                fighter: Option::None,
                ai: Option::None,
                ..*old(monster)
            }),
        ),
        final(monster).name@ == "remains of "@ + old(monster).name@,
        final(messages)@.len() == old(messages)@.len() + 1,
{
    let xp = match &monster.fighter {
        Option::Some(f) => f.xp,
        Option::None => 0,
    };
    let mut m = monster.name.clone();
    m.append(" is dead! You gain ");
    let digits = textfmt::i32_to_string(xp);
    m.append(digits.as_str());
    m.append(" experience");
    messages.add(m, color::orange());

    monster.glyph = '%';
    monster.color = color::dark_red();
    monster.blocks = false;
    monster.fighter = Option::None;
    monster.ai = Option::None;
    let mut remains = "remains of ".to_owned();
    remains.append(monster.name.as_str());
    monster.name = remains;
}

/// A roster-and-map coordinate is blocked when the tile is impassable or
/// some blocking entity already stands there.
pub open spec fn spec_blocked(x: int, y: int, map: Seq<Vec<Tile>>, objects: Seq<Object>) -> bool {
    map[x]@[y].blocked || exists|i: int|
        0 <= i < objects.len() && (#[trigger] objects[i]).blocks && objects[i].x == x
            && objects[i].y == y
}

/// The roster after entity `id` attempts one step to `(nx, ny)`: the step
/// happens only when the destination is on the map and unblocked; a
/// blocked step is skipped outright.
pub open spec fn moved(objects: Seq<Object>, id: int, map: Seq<Vec<Tile>>, nx: int, ny: int) -> Seq<
    Object,
> {
    if on_map(nx, ny) && !spec_blocked(nx, ny, map, objects) {
        objects.update(id, Object { x: nx as i32, y: ny as i32, ..objects[id] })
    } else {
        objects
    }
}

/// Whether the map tile or a blocking entity occupies `(x, y)`.
pub fn is_blocked(x: i32, y: i32, map: &GameMap, objects: &Vec<Object>) -> (r: bool)
    requires
        crate::map::map_wf(map@),
        on_map(x as int, y as int),
    ensures
        r == spec_blocked(x as int, y as int, map@, objects@),
{
    if map[x as usize][y as usize].blocked {
        return true;
    }
    let mut i: usize = 0;
    while i < objects.len()
        invariant
            i <= objects@.len(),
            forall|j: int|
                0 <= j < i ==> !((#[trigger] objects@[j]).blocks && objects@[j].x == x
                    && objects@[j].y == y),
        decreases objects@.len() - i,
    {
        let o = &objects[i];
        if o.blocks && o.x == x && o.y == y {
            return true;
        }
        i = i + 1;
    }
    false
}

/// Step entity `id` by `(dx, dy)`; a step off the map or into a blocked
/// destination is skipped.
pub fn move_by(id: usize, dx: i32, dy: i32, map: &GameMap, objects: &mut Vec<Object>)
    requires
        crate::map::map_wf(map@),
        id < old(objects)@.len(),
        on_map(old(objects)@[id as int].x as int, old(objects)@[id as int].y as int),
        -1 <= dx <= 1,
        -1 <= dy <= 1,
    ensures
        final(objects)@ == moved(
            old(objects)@,
            id as int,
            map@,
            old(objects)@[id as int].x + dx,
            old(objects)@[id as int].y + dy,
        ),
{
    let x = objects[id].x;
    let y = objects[id].y;
    let nx = x + dx;
    let ny = y + dy;
    if 0 <= nx && nx < MAP_WIDTH && 0 <= ny && ny < MAP_HEIGHT && !is_blocked(nx, ny, map, objects)
    {
        let mut o = objects.remove(id);
        o.x = nx;
        o.y = ny;
        objects.insert(id, o);
        proof {
            assert(objects@ =~= old(objects)@.update(
                id as int,
                Object { x: nx, y: ny, ..old(objects)@[id as int] },
            ));
        }
    }
}

pub open spec fn spec_sign(v: int) -> int {
    if v > 0 {
        1
    } else if v < 0 {
        -1
    } else {
        0
    }
}

/// One grid step along the displacement `(dx, dy)`, the displacement
/// normalized to length one and each axis rounded to the nearest integer
/// (half rounds away from zero): an axis moves exactly when its square is
/// at least a quarter of the squared distance.
pub open spec fn step_toward(dx: int, dy: int) -> (int, int) {
    let d2 = dx * dx + dy * dy;
    (
        if 4 * (dx * dx) >= d2 {
            spec_sign(dx)
        } else {
            0
        },
        if 4 * (dy * dy) >= d2 {
            spec_sign(dy)
        } else {
            0
        },
    )
}

/// Step entity `id` one tile toward a target coordinate, blocked steps
/// skipped as in `move_by`.
pub fn move_towards(
    id: usize,
    target_x: i32,
    target_y: i32,
    map: &GameMap,
    objects: &mut Vec<Object>,
)
    requires
        crate::map::map_wf(map@),
        id < old(objects)@.len(),
        on_map(old(objects)@[id as int].x as int, old(objects)@[id as int].y as int),
        on_map(target_x as int, target_y as int),
    ensures
        final(objects)@ == moved(
            old(objects)@,
            id as int,
            map@,
            old(objects)@[id as int].x + step_toward(
                target_x - old(objects)@[id as int].x,
                target_y - old(objects)@[id as int].y,
            ).0,
            old(objects)@[id as int].y + step_toward(
                target_x - old(objects)@[id as int].x,
                target_y - old(objects)@[id as int].y,
            ).1,
        ),
{
    let dx = target_x - objects[id].x;
    let dy = target_y - objects[id].y;
    proof {
        assert(0 <= dx * dx <= 6400 && 0 <= dy * dy <= 6400) by (nonlinear_arith)
            requires
                -80 <= dx <= 80,
                -80 <= dy <= 80,
        ;
    }
    let dx2 = dx * dx;
    let dy2 = dy * dy;
    let d2 = dx2 + dy2;
    let sx: i32 = if 4 * dx2 >= d2 {
        if dx > 0 {
            1
        } else if dx < 0 {
            -1
        } else {
            0
        }
    } else {
        0
    };
    let sy: i32 = if 4 * dy2 >= d2 {
        if dy > 0 {
            1
        } else if dy < 0 {
            -1
        } else {
            0
        }
    } else {
        0
    };
    proof {
        let gdx = dx as int;
        let gdy = dy as int;
        assert(dx2 == gdx * gdx);
        assert(dy2 == gdy * gdy);
        assert(d2 == gdx * gdx + gdy * gdy);
        assert(sx == step_toward(gdx, gdy).0);
        assert(sy == step_toward(gdx, gdy).1);
    }
    move_by(id, sx, sy, map, objects);
}

/// The damage one attack deals before the positivity test: effective
/// power of the attacker minus effective defense of the defender.
pub open spec fn spec_attack_damage(a: Object, t: Object, inv: Seq<Object>) -> int {
    spec_power(a, inv) - spec_defense(t, inv)
}

/// The attacker after its attack: unchanged, except that a lethal hit
/// credits it with the victim's experience.
pub open spec fn attack_attacker_after(a: Object, t: Object, inv: Seq<Object>) -> Object {
    let d = spec_attack_damage(a, t, inv);
    if d > 0 {
        match damage_award(t, d as i32) {
            Option::Some(xp) => Object {
                fighter: Option::Some(
                    Fighter { xp: (a.fighter->Some_0.xp + xp) as i32, ..a.fighter->Some_0 },
                ),
                ..a
            },
            Option::None => a,
        }
    } else {
        a
    }
}

/// The defender after the attack: damaged (and possibly dead) when the
/// damage is positive, untouched otherwise.
pub open spec fn attack_target_after(a: Object, t: Object, inv: Seq<Object>) -> Object {
    let d = spec_attack_damage(a, t, inv);
    if d > 0 {
        after_damage(t, d as i32)
    } else {
        t
    }
}

pub open spec fn attack_target_name_after(a: Object, t: Object, inv: Seq<Object>) -> Seq<char> {
    let d = spec_attack_damage(a, t, inv);
    if d > 0 {
        after_damage_name(t, d as i32)
    } else {
        t.name@
    }
}

/// How many messages one attack logs: the hit or no-effect line, plus a
/// death line when the hit was lethal.
pub open spec fn attack_msg_count(a: Object, t: Object, inv: Seq<Object>) -> int {
    let d = spec_attack_damage(a, t, inv);
    if d > 0 && damage_award(t, d as i32) is Some {
        2
    } else {
        1
    }
}

impl Object {
    /// Resolve one melee attack: positive damage is applied to the
    /// target (death behavior included, the victim's experience credited
    /// to the attacker), zero or negative damage only logs a no-effect
    /// line. Fully deterministic given the stats.
    pub fn attack(&mut self, target: &mut Object, game: &mut Game)
        requires
            object_ok(*old(self)),
            object_ok(*old(target)),
            inv_ok(old(game).inventory@),
            old(self).fighter is Some,
        ensures
            *final(self) == attack_attacker_after(
                *old(self),
                *old(target),
                old(game).inventory@,
            ),
            eq_except_name(
                *final(target),
                attack_target_after(*old(self), *old(target), old(game).inventory@),
            ),
            final(target).name@ == attack_target_name_after(
                *old(self),
                *old(target),
                old(game).inventory@,
            ),
            final(game).messages@.len() == old(game).messages@.len() + attack_msg_count(
                *old(self),
                *old(target),
                old(game).inventory@,
            ),
            final(game).map == old(game).map,
            final(game).inventory == old(game).inventory,
            final(game).dungeon_level == old(game).dungeon_level,
    {
        proof {
            lemma_bonus_sums_in_range(old(game).inventory@);
        }
        let damage = self.power(game) - target.defense(game);
        if damage > 0 {
            let mut m = self.name.clone();
            m.append(" attacks ");
            m.append(target.name.as_str());
            m.append(" for ");
            let digits = textfmt::i32_to_string(damage);
            m.append(digits.as_str());
            m.append(" damage!");
            game.messages.add(m, color::white());
            match target.take_damage(damage, &mut game.messages) {
                Option::Some(xp) => {
                    let mut f = self.fighter.unwrap();
                    f.xp = f.xp + xp;
                    self.fighter = Option::Some(f);
                },
                Option::None => {},
            }
        } else {
            let mut m = self.name.clone();
            m.append(" attacks ");
            m.append(target.name.as_str());
            m.append(" but it has no effect!");
            game.messages.add(m, color::white());
        }
    }
}

pub open spec fn fighter_at(o: Object, x: int, y: int) -> bool {
    o.fighter is Some && o.x == x && o.y == y
}

/// Move the player by `(dx, dy)`, or attack the first combatant already
/// standing on the destination tile.
pub fn player_move_or_attack(dx: i32, dy: i32, game: &mut Game, objects: &mut Vec<Object>)
    requires
        old(objects)@.len() > 0,
        objects_ok(old(objects)@),
        inv_ok(old(game).inventory@),
        crate::map::map_wf(old(game).map@),
        old(objects)@[0].fighter is Some,
        on_map(old(objects)@[0].x as int, old(objects)@[0].y as int),
        -1 <= dx <= 1,
        -1 <= dy <= 1,
        !(dx == 0 && dy == 0),
    ensures
        final(game).map == old(game).map,
        final(game).inventory == old(game).inventory,
        final(game).dungeon_level == old(game).dungeon_level,
        final(objects)@.len() == old(objects)@.len(),
        ({
            let x = old(objects)@[0].x + dx;
            let y = old(objects)@[0].y + dy;
            let inv = old(game).inventory@;
            if exists|i: int|
                0 <= i < old(objects)@.len() && fighter_at(#[trigger] old(objects)@[i], x, y) {
                exists|tid: int|
                    {
                        &&& 0 <= tid < old(objects)@.len()
                        &&& fighter_at(#[trigger] old(objects)@[tid], x, y)
                        &&& forall|j: int|
                            0 <= j < tid ==> !fighter_at(#[trigger] old(objects)@[j], x, y)
                        &&& final(objects)@[0] == attack_attacker_after(
                            old(objects)@[0],
                            old(objects)@[tid],
                            inv,
                        )
                        &&& eq_except_name(
                            final(objects)@[tid],
                            attack_target_after(old(objects)@[0], old(objects)@[tid], inv),
                        )
                        &&& final(objects)@[tid].name@ == attack_target_name_after(
                            old(objects)@[0],
                            old(objects)@[tid],
                            inv,
                        )
                        &&& forall|j: int|
                            0 <= j < old(objects)@.len() && j != 0 && j != tid
                                ==> final(objects)@[j] == old(objects)@[j]
                        &&& final(game).messages@.len() == old(game).messages@.len()
                            + attack_msg_count(old(objects)@[0], old(objects)@[tid], inv)
                    }
            } else {
                final(objects)@ == moved(old(objects)@, 0, old(game).map@, x as int, y as int)
                    && final(game).messages@ == old(game).messages@
            }
        }),
{
    let x = objects[0].x + dx;
    let y = objects[0].y + dy;

    let mut target_id: usize = 0;
    let mut found = false;
    let mut i: usize = 0;
    while i < objects.len()
        invariant
            i <= objects@.len(),
            !found ==> forall|j: int|
                0 <= j < i ==> !fighter_at(#[trigger] objects@[j], x as int, y as int),
            found ==> {
                &&& target_id < i
                &&& fighter_at(objects@[target_id as int], x as int, y as int)
                &&& forall|j: int|
                    0 <= j < target_id ==> !fighter_at(#[trigger] objects@[j], x as int, y as int)
            },
        decreases objects@.len() - i,
    {
        if !found {
            let o = &objects[i];
            if o.fighter.is_some() && o.x == x && o.y == y {
                target_id = i;
                found = true;
            }
        }
        i = i + 1;
    }

    if found {
        assert(target_id != 0);
        let mut target = objects.remove(target_id);
        let mut player = objects.remove(0);
        player.attack(&mut target, game);
        objects.insert(0, player);
        objects.insert(target_id, target);
        proof {
            assert(forall|j: int|
                0 <= j < old(objects)@.len() && j != 0 && j != target_id ==> objects@[j] == old(
                    objects,
                )@[j]);
        }
    } else {
        move_by(PLAYER, dx, dy, &game.map, objects);
    }
}

/// A lightning-style target: a combatant with a decision component,
/// other than the player, currently inside the visible set.
pub open spec fn hostile_candidate(o: Object, fov: Fov) -> bool {
    o.fighter is Some && o.ai is Some && fov.visible(o.x as int, o.y as int)
}

pub open spec fn spec_dist2(a: Object, b: Object) -> int {
    (b.x - a.x) * (b.x - a.x) + (b.y - a.y) * (b.y - a.y)
}

/// The closest visible hostile within `max_range` tiles of the player,
/// ties broken toward the lowest roster index; distances are compared
/// squared, which agrees exactly with comparing their roots.
pub fn closest_monster(fov: &Fov, objects: &Vec<Object>, max_range: i32) -> (r: Option<usize>)
    requires
        fov.wf(),
        objects@.len() > 0,
        0 <= max_range <= 1000,
        forall|i: int|
            0 <= i < objects@.len() ==> on_map(
                (#[trigger] objects@[i]).x as int,
                objects@[i].y as int,
            ),
    ensures
        (match r {
            Option::Some(id) => {
                &&& 0 < id < objects@.len()
                &&& hostile_candidate(objects@[id as int], *fov)
                &&& spec_dist2(objects@[0], objects@[id as int]) < (max_range + 1) * (max_range
                    + 1)
                &&& forall|j: int|
                    0 < j < objects@.len() && hostile_candidate(#[trigger] objects@[j], *fov)
                        ==> spec_dist2(objects@[0], objects@[id as int]) <= spec_dist2(
                        objects@[0],
                        objects@[j],
                    )
                &&& forall|j: int|
                    0 < j < id && hostile_candidate(#[trigger] objects@[j], *fov) ==> spec_dist2(
                        objects@[0],
                        objects@[id as int],
                    ) < spec_dist2(objects@[0], objects@[j])
            },
            Option::None => forall|j: int|
                0 < j < objects@.len() && hostile_candidate(#[trigger] objects@[j], *fov)
                    ==> spec_dist2(objects@[0], objects@[j]) >= (max_range + 1) * (max_range + 1),
        }),
{
    let mut closest_enemy: Option<usize> = Option::None;
    let range_plus = (max_range + 1) as i64;
    proof {
        assert(range_plus * range_plus == (max_range + 1) * (max_range + 1) && 0 <= range_plus
            * range_plus <= 0x100000) by (nonlinear_arith)
            requires
                range_plus == max_range + 1,
                0 <= max_range <= 1000,
        ;
    }
    let mut closest_dist: i64 = range_plus * range_plus;
    let mut id: usize = 1;
    while id < objects.len()
        invariant
            1 <= id,
            objects@.len() > 0,
            fov.wf(),
            forall|i: int|
                0 <= i < objects@.len() ==> on_map(
                    (#[trigger] objects@[i]).x as int,
                    objects@[i].y as int,
                ),
            (match closest_enemy {
                Option::Some(c) => {
                    &&& 0 < c < id
                    &&& c < objects@.len()
                    &&& hostile_candidate(objects@[c as int], *fov)
                    &&& closest_dist == spec_dist2(objects@[0], objects@[c as int])
                    &&& closest_dist < (max_range + 1) * (max_range + 1)
                    &&& forall|j: int|
                        0 < j < id && j < objects@.len() && hostile_candidate(
                            #[trigger] objects@[j],
                            *fov,
                        ) ==> closest_dist <= spec_dist2(objects@[0], objects@[j])
                    &&& forall|j: int|
                        0 < j < c && hostile_candidate(#[trigger] objects@[j], *fov)
                            ==> closest_dist < spec_dist2(objects@[0], objects@[j])
                },
                Option::None => {
                    &&& closest_dist == (max_range + 1) * (max_range + 1)
                    &&& forall|j: int|
                        0 < j < id && j < objects@.len() && hostile_candidate(
                            #[trigger] objects@[j],
                            *fov,
                        ) ==> spec_dist2(objects@[0], objects@[j]) >= closest_dist
                },
            }),
        decreases objects@.len() - id,
    {
        let o = &objects[id];
        if o.fighter.is_some() && o.ai.is_some() && fov.is_in_fov(o.x, o.y) {
            let dist = objects[0].distance_to_sq(o);
            if dist < closest_dist {
                closest_enemy = Option::Some(id);
                closest_dist = dist;
            }
        }
        id = id + 1;
    }
    closest_enemy
}

/// Experience needed to reach the next level from the given one.
pub open spec fn spec_level_threshold(level: int) -> int {
    LEVEL_UP_BASE + level * LEVEL_UP_FACTOR
}

pub open spec fn spec_level_up_pending(o: Object) -> bool {
    (match o.fighter {
        Option::Some(f) => f.xp as int,
        Option::None => 0,
    }) >= spec_level_threshold(o.level as int)
}

/// Whether the player's banked experience has reached the level-up
/// threshold `LEVEL_UP_BASE + level * LEVEL_UP_FACTOR`.
pub fn level_up_pending(objects: &Vec<Object>) -> (r: bool)
    requires
        objects@.len() > 0,
        object_ok(objects@[0]),
    ensures
        r == spec_level_up_pending(objects@[0]),
{
    let player = &objects[0];
    let threshold = LEVEL_UP_BASE + player.level * LEVEL_UP_FACTOR;
    let xp = match &player.fighter {
        Option::Some(f) => f.xp,
        Option::None => 0,
    };
    xp >= threshold
}

/// The player after one level-up with the chosen upgrade: the threshold
/// is subtracted (surplus carries forward, no reset to zero), the level
/// rises by one, and exactly one of the three permanent boosts applies.
pub open spec fn leveled_player(o: Object, choice: int) -> Object {
    let f = o.fighter->Some_0;
    let threshold = spec_level_threshold(o.level as int);
    let f1 = Fighter { xp: (f.xp - threshold) as i32, ..f };
    let f2 = if choice == 0 {
        Fighter { base_max_hp: (f1.base_max_hp + 20) as i32, hp: (f1.hp + 20) as i32, ..f1 }
    } else if choice == 1 {
        Fighter { base_power: (f1.base_power + 1) as i32, ..f1 }
    } else {
        Fighter { base_defense: (f1.base_defense + 1) as i32, ..f1 }
    };
    Object { level: (o.level + 1) as i32, fighter: Option::Some(f2), ..o }
}

/// Apply the level-up the player has earned, with the upgrade already
/// chosen (0: +20 max and current hit points, 1: +1 power, 2: +1
/// defense). The interactive prompt that forces exactly one valid choice
/// lives in the front end; this is the state change it commits.
pub fn level_up(choice: usize, game: &mut Game, objects: &mut Vec<Object>)
    requires
        old(objects)@.len() > 0,
        object_ok(old(objects)@[0]),
        old(objects)@[0].fighter is Some,
        spec_level_up_pending(old(objects)@[0]),
        choice < 3,
    ensures
        final(objects)@ == old(objects)@.update(
            0,
            leveled_player(old(objects)@[0], choice as int),
        ),
        final(game).messages@.len() == old(game).messages@.len() + 1,
        final(game).map == old(game).map,
        final(game).inventory == old(game).inventory,
        final(game).dungeon_level == old(game).dungeon_level,
{
    let mut player = objects.remove(0);
    let threshold = LEVEL_UP_BASE + player.level * LEVEL_UP_FACTOR;
    player.level = player.level + 1;

    let mut m = "Your skills have increased! You are now level ".to_owned();
    let digits = textfmt::i32_to_string(player.level);
    m.append(digits.as_str());
    m.append("!");
    game.messages.add(m, color::yellow());

    let mut f = player.fighter.unwrap();
    f.xp = f.xp - threshold;
    if choice == 0 {
        f.base_max_hp = f.base_max_hp + 20;
        f.hp = f.hp + 20;
    } else if choice == 1 {
        f.base_power = f.base_power + 1;
    } else {
        f.base_defense = f.base_defense + 1;
    }
    player.fighter = Option::Some(f);
    objects.insert(0, player);
    proof {
        assert(objects@ =~= old(objects)@.update(
            0,
            leveled_player(old(objects)@[0], choice as int),
        ));
    }
}

/// The value a threshold table yields at a depth: the value of the last
/// entry whose minimum depth does not exceed it, or zero when no entry
/// qualifies.
pub open spec fn table_value(table: Seq<Transition>, level: u32) -> u32
    decreases table.len(),
{
    if table.len() == 0 {
        0
    } else if level >= table.last().level {
        table.last().value
    } else {
        table_value(table.drop_last(), level)
    }
}

/// Look a depth up in a threshold table.
pub fn from_dungeon_level(table: &[Transition], level: u32) -> (r: u32)
    ensures
        r == table_value(table@, level),
        r == 0 || exists|i: int| 0 <= i < table@.len() && r == (#[trigger] table@[i]).value,
{
    let mut i: usize = table.len();
    proof {
        assert(table@.take(table@.len() as int) =~= table@);
    }
    while i > 0
        invariant
            i <= table@.len(),
            table_value(table@, level) == table_value(table@.take(i as int), level),
        decreases i,
    {
        let t = table[i - 1];
        proof {
            assert(table@.take(i as int).last() == table@[i as int - 1]);
            assert(table@.take(i as int).drop_last() =~= table@.take(i as int - 1));
        }
        if level >= t.level {
            proof {
                assert(t.value == table@[i as int - 1].value);
            }
            return t.value;
        }
        i = i - 1;
    }
    proof {
        assert(table@.take(0).len() == 0);
    }
    0
}

/// Threshold lookups follow table order: a depth below every entry
/// yields zero, and otherwise the lookup yields the value of the last
/// qualifying entry -- never one whose minimum depth exceeds the queried
/// depth.
pub proof fn lemma_table_value_follows_table(table: Seq<Transition>, level: u32)
    ensures
        (forall|i: int| 0 <= i < table.len() ==> level < (#[trigger] table[i]).level)
            ==> table_value(table, level) == 0,
        (exists|i: int| 0 <= i < table.len() && level >= (#[trigger] table[i]).level)
            ==> exists|i: int|
            {
                &&& 0 <= i < table.len()
                &&& level >= (#[trigger] table[i]).level
                &&& table_value(table, level) == table[i].value
                &&& forall|j: int| i < j < table.len() ==> level < (#[trigger] table[j]).level
            },
    decreases table.len(),
{
    if table.len() == 0 {
    } else if level >= table.last().level {
        let i = table.len() - 1;
        assert(0 <= i < table.len() && level >= table[i].level && table_value(table, level)
            == table[i].value);
    } else {
        let prefix = table.drop_last();
        lemma_table_value_follows_table(prefix, level);
        if exists|i: int| 0 <= i < table.len() && level >= (#[trigger] table[i]).level {
            assert(exists|i: int| 0 <= i < prefix.len() && level >= (#[trigger] prefix[i]).level)
                by {
                let w = choose|i: int|
                    0 <= i < table.len() && level >= (#[trigger] table[i]).level;
                assert(w < table.len() - 1);
                assert(prefix[w] == table[w]);
            }
            let w2 = choose|i: int|
                {
                    &&& 0 <= i < prefix.len()
                    &&& level >= (#[trigger] prefix[i]).level
                    &&& table_value(prefix, level) == prefix[i].value
                    &&& forall|j: int| i < j < prefix.len() ==> level < (#[trigger] prefix[j]).level
                };
            assert(table[w2] == prefix[w2]);
            assert(forall|j: int| w2 < j < table.len() ==> level < (#[trigger] table[j]).level) by {
                assert(forall|j: int|
                    w2 < j < prefix.len() ==> level < (#[trigger] prefix[j]).level);
                assert(forall|j: int| w2 < j < table.len() - 1 ==> table[j] == prefix[j]);
            }
        }
    }
}

/// The entity after healing: hit points rise by `amount`, clamped to the
/// effective ceiling; an entity without a fighter is untouched.
pub open spec fn heal_result(o: Object, amount: i32, inv: Seq<Object>) -> Object {
    match o.fighter {
        Option::Some(f) => Object {
            fighter: Option::Some(
                Fighter {
                    hp: (if f.hp + amount > spec_max_hp(o, inv) {
                        spec_max_hp(o, inv) as i32
                    } else {
                        (f.hp + amount) as i32
                    }),
                    ..f
                },
            ),
            ..o
        },
        Option::None => o,
    }
}

/// Field-by-field equality, the decision component aside.
pub open spec fn eq_except_ai(a: Object, b: Object) -> bool {
    &&& a.x == b.x
    &&& a.y == b.y
    &&& a.glyph == b.glyph
    &&& a.color == b.color
    &&& a.name@ == b.name@
    &&& a.blocks == b.blocks
    &&& a.alive == b.alive
    &&& a.fighter == b.fighter
    &&& a.item == b.item
    &&& a.equipment == b.equipment
    &&& a.always_visible == b.always_visible
    &&& a.level == b.level
}

/// The index of the first entity satisfying a predicate.
pub open spec fn first_match(s: Seq<Object>, p: spec_fn(Object) -> bool) -> Option<int>
    decreases s.len(),
{
    if s.len() == 0 {
        Option::None
    } else if p(s[0]) {
        Option::Some(0int)
    } else {
        match first_match(s.drop_first(), p) {
            Option::Some(i) => Option::Some(i + 1),
            Option::None => Option::None,
        }
    }
}

/// `first_match` finds exactly the least matching index, or reports that
/// none matches.
pub proof fn lemma_first_match(s: Seq<Object>, p: spec_fn(Object) -> bool)
    ensures
        match first_match(s, p) {
            Option::Some(i) => 0 <= i < s.len() && p(s[i]) && forall|j: int|
                0 <= j < i ==> !p(#[trigger] s[j]),
            Option::None => forall|j: int| 0 <= j < s.len() ==> !p(#[trigger] s[j]),
        },
    decreases s.len(),
{
    if s.len() == 0 {
    } else if p(s[0]) {
    } else {
        let rest = s.drop_first();
        lemma_first_match(rest, p);
        assert(forall|j: int| 0 <= j < rest.len() ==> rest[j] == s[j + 1]);
        match first_match(rest, p) {
            Option::Some(i) => {
                assert(rest[i] == s[i + 1]);
                assert forall|j: int| 0 <= j < i + 1 implies !p(#[trigger] s[j]) by {
                    if j > 0 {
                        assert(!p(rest[j - 1]));
                        assert(rest[j - 1] == s[j]);
                    }
                }
            },
            Option::None => {
                assert forall|j: int| 0 <= j < s.len() implies !p(#[trigger] s[j]) by {
                    if j > 0 {
                        assert(!p(rest[j - 1]));
                        assert(rest[j - 1] == s[j]);
                    }
                }
            },
        }
    }
}

/// Total experience banked across a roster; bounding it keeps the
/// blast-damage experience sums inside `i32`.
pub open spec fn xp_sum(s: Seq<Object>) -> int
    decreases s.len(),
{
    if s.len() == 0 {
        0
    } else {
        xp_sum(s.drop_last()) + (match s.last().fighter {
            Option::Some(f) => f.xp as int,
            Option::None => 0,
        })
    }
}

} // verus!
