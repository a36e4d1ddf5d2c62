use vstd::prelude::*;
use vstd::utf8::char_is_scalar;
use vstd::seq_lib::lemma_concat_associative;

use crate::color::Color;
use crate::game::Game;
use crate::message::Messages;
use crate::item::{Equipment, Item, Slot};
use crate::map::Tile;
use crate::monster_ai::Ai;
use crate::object::{DeathCallback, Fighter, Object};

verus! {

// The persistence codec renders a whole session as a flat token stream
// of 64-bit integers; the front end writes that stream to disk in any
// container it likes. Encoding and decoding are verified against the
// same specification, and decoding an encoded session is proved to
// reproduce it exactly (the round trip below).

/// A decision state as plain data: the stack of confusion counters
/// wrapped around the terminal `Basic` state, outermost first.
pub open spec fn ai_view(a: Ai) -> Seq<i32>
    decreases a,
{
    match a {
        Ai::Basic => Seq::empty(),
        Ai::Confused { previous_ai, num_turns } => seq![num_turns] + ai_view(*previous_ai),
    }
}

/// One entity as plain mathematical data.
#[verifier::ext_equal]
pub struct ObjectV {
    pub x: i32,
    pub y: i32,
    pub glyph: char,
    pub color: Color,
    pub name: Seq<char>,
    pub blocks: bool,
    pub alive: bool,
    pub fighter: Option<Fighter>,
    pub ai: Option<Seq<i32>>,
    pub item: Option<Item>,
    pub equipment: Option<Equipment>,
    pub always_visible: bool,
    pub level: i32,
}

pub open spec fn obj_view(o: Object) -> ObjectV {
    ObjectV {
        x: o.x,
        y: o.y,
        glyph: o.glyph,
        color: o.color,
        name: o.name@,
        blocks: o.blocks,
        alive: o.alive,
        fighter: o.fighter,
        ai: match o.ai {
            Option::Some(a) => Option::Some(ai_view(a)),
            Option::None => Option::None,
        },
        item: o.item,
        equipment: o.equipment,
        always_visible: o.always_visible,
        level: o.level,
    }
}

pub open spec fn objs_view(s: Seq<Object>) -> Seq<ObjectV> {
    s.map_values(|o: Object| obj_view(o))
}

/// One whole session as plain mathematical data.
pub struct SessionV {
    pub map: Seq<Seq<Tile>>,
    pub messages: Seq<(Seq<char>, Color)>,
    pub inventory: Seq<ObjectV>,
    pub dungeon_level: u32,
    pub objects: Seq<ObjectV>,
}

pub open spec fn session_view(game: Game, objects: Seq<Object>) -> SessionV {
    SessionV {
        map: game.map@.map_values(|c: Vec<Tile>| c@),
        messages: game.messages@.map_values(|m: (String, Color)| (m.0@, m.1)),
        inventory: objs_view(game.inventory@),
        dungeon_level: game.dungeon_level,
        objects: objs_view(objects),
    }
}

// ---- encoders ----

pub open spec fn b2t(b: bool) -> i64 {
    if b {
        1
    } else {
        0
    }
}

/// Concatenated encodings of a list's elements, in order.
pub open spec fn enc_cat<T>(s: Seq<T>, f: spec_fn(T) -> Seq<i64>) -> Seq<i64>
    decreases s.len(),
{
    if s.len() == 0 {
        Seq::empty()
    } else {
        f(s[0]) + enc_cat(s.drop_first(), f)
    }
}

/// A counted list: its length, then the elements.
pub open spec fn enc_list<T>(s: Seq<T>, f: spec_fn(T) -> Seq<i64>) -> Seq<i64> {
    seq![s.len() as i64] + enc_cat(s, f)
}

pub open spec fn enc_char(c: char) -> Seq<i64> {
    seq![c as u32 as i64]
}

pub open spec fn enc_str(s: Seq<char>) -> Seq<i64> {
    enc_list(s, |c: char| enc_char(c))
}

pub open spec fn enc_color(c: Color) -> Seq<i64> {
    seq![c.r as i64, c.g as i64, c.b as i64]
}

pub open spec fn dc2t(d: DeathCallback) -> i64 {
    match d {
        DeathCallback::Player => 0,
        DeathCallback::Monster => 1,
    }
}

pub open spec fn enc_fighter(f: Fighter) -> Seq<i64> {
    seq![
        f.base_max_hp as i64,
        f.hp as i64,
        f.base_defense as i64,
        f.base_power as i64,
        f.base_magic as i64,
        f.xp as i64,
        dc2t(f.on_death),
    ]
}

pub open spec fn item2t(i: Item) -> i64 {
    match i {
        Item::Heal => 0,
        Item::Lightning => 1,
        Item::Confuse => 2,
        Item::Fireball => 3,
        Item::Sword => 4,
        Item::Shield => 5,
    }
}

pub open spec fn slot2t(s: Slot) -> i64 {
    match s {
        Slot::LeftHand => 0,
        Slot::RightHand => 1,
        Slot::Head => 2,
        Slot::Chest => 3,
        Slot::Legs => 4,
        Slot::Feet => 5,
        Slot::Hands => 6,
        Slot::Back => 7,
        Slot::LeftFinger => 8,
        Slot::RightFinger => 9,
    }
}

pub open spec fn enc_equipment(e: Equipment) -> Seq<i64> {
    seq![
        slot2t(e.slot),
        b2t(e.equipped),
        e.max_hp_bonus as i64,
        e.power_bonus as i64,
        e.defense_bonus as i64,
        e.magic_bonus as i64,
    ]
}

pub open spec fn enc_opt<T>(o: Option<T>, f: spec_fn(T) -> Seq<i64>) -> Seq<i64> {
    match o {
        Option::None => seq![0i64],
        Option::Some(v) => seq![1i64] + f(v),
    }
}

pub open spec fn enc_i32(v: i32) -> Seq<i64> {
    seq![v as i64]
}

pub open spec fn enc_ai_list(l: Seq<i32>) -> Seq<i64> {
    enc_list(l, |n: i32| enc_i32(n))
}

/// First half of an entity record: position, glyph, color, name.
pub open spec fn enc_obj_head(v: ObjectV) -> Seq<i64> {
    seq![v.x as i64, v.y as i64, v.glyph as u32 as i64] + enc_color(v.color) + enc_str(v.name)
}

/// Flags and the combat component.
pub open spec fn enc_obj_r1(v: ObjectV) -> Seq<i64> {
    seq![b2t(v.blocks), b2t(v.alive)] + enc_opt(v.fighter, |f: Fighter| enc_fighter(f))
}

/// The decision and item components.
pub open spec fn enc_obj_r2(v: ObjectV) -> Seq<i64> {
    enc_opt(v.ai, |l: Seq<i32>| enc_ai_list(l)) + enc_opt(v.item, |i: Item| seq![item2t(i)])
}

/// The equipment component and the trailing flags.
pub open spec fn enc_obj_r3(v: ObjectV) -> Seq<i64> {
    enc_opt(v.equipment, |e: Equipment| enc_equipment(e)) + seq![
        b2t(v.always_visible),
        v.level as i64,
    ]
}

/// Second half of an entity record: flags and the optional components.
pub open spec fn enc_obj_rest(v: ObjectV) -> Seq<i64> {
    enc_obj_r1(v) + enc_obj_r2(v) + enc_obj_r3(v)
}

pub open spec fn enc_obj(v: ObjectV) -> Seq<i64> {
    enc_obj_head(v) + enc_obj_rest(v)
}

pub open spec fn enc_tile(t: Tile) -> Seq<i64> {
    seq![b2t(t.blocked), b2t(t.explored), b2t(t.block_sight)]
}

pub open spec fn enc_msg(m: (Seq<char>, Color)) -> Seq<i64> {
    enc_str(m.0) + enc_color(m.1)
}

pub open spec fn enc_session(v: SessionV) -> Seq<i64> {
    enc_list(v.map, |c: Seq<Tile>| enc_list(c, |t: Tile| enc_tile(t))) + enc_list(
        v.messages,
        |m: (Seq<char>, Color)| enc_msg(m),
    ) + enc_list(v.inventory, |o: ObjectV| enc_obj(o)) + seq![v.dungeon_level as i64] + enc_list(
        v.objects,
        |o: ObjectV| enc_obj(o),
    )
}

// ---- decoders (specification) ----

pub open spec fn dec_token(s: Seq<i64>) -> Option<(i64, Seq<i64>)> {
    if s.len() >= 1 {
        Option::Some((s[0], s.drop_first()))
    } else {
        Option::None
    }
}

/// Parse exactly `n` elements with the element decoder.
pub open spec fn dec_list_n<T>(
    s: Seq<i64>,
    n: int,
    f: spec_fn(Seq<i64>) -> Option<(T, Seq<i64>)>,
) -> Option<(Seq<T>, Seq<i64>)>
    decreases n,
{
    if n <= 0 {
        Option::Some((Seq::empty(), s))
    } else {
        match f(s) {
            Option::Some(p) => match dec_list_n(p.1, n - 1, f) {
                Option::Some(q) => Option::Some((seq![p.0] + q.0, q.1)),
                Option::None => Option::None,
            },
            Option::None => Option::None,
        }
    }
}

/// Parse a counted list: a nonnegative length token, then that many
/// elements.
pub open spec fn dec_list<T>(s: Seq<i64>, f: spec_fn(Seq<i64>) -> Option<(T, Seq<i64>)>) -> Option<
    (Seq<T>, Seq<i64>),
> {
    match dec_token(s) {
        Option::Some((n, rest)) => if n >= 0 {
            dec_list_n(rest, n as int, f)
        } else {
            Option::None
        },
        Option::None => Option::None,
    }
}

pub open spec fn valid_scalar(t: i64) -> bool {
    0 <= t < 0xD800 || 0xE000 <= t <= 0x10FFFF
}

pub open spec fn dec_char(s: Seq<i64>) -> Option<(char, Seq<i64>)> {
    match dec_token(s) {
        Option::Some((t, rest)) => if valid_scalar(t) {
            Option::Some(((t as u32) as char, rest))
        } else {
            Option::None
        },
        Option::None => Option::None,
    }
}

pub open spec fn dec_str(s: Seq<i64>) -> Option<(Seq<char>, Seq<i64>)> {
    dec_list(s, |r: Seq<i64>| dec_char(r))
}

pub open spec fn dec_i32(s: Seq<i64>) -> Option<(i32, Seq<i64>)> {
    match dec_token(s) {
        Option::Some((t, rest)) => if i32::MIN <= t <= i32::MAX {
            Option::Some((t as i32, rest))
        } else {
            Option::None
        },
        Option::None => Option::None,
    }
}

pub open spec fn dec_bool(s: Seq<i64>) -> Option<(bool, Seq<i64>)> {
    match dec_token(s) {
        Option::Some((t, rest)) => if t == 0 || t == 1 {
            Option::Some((t == 1, rest))
        } else {
            Option::None
        },
        Option::None => Option::None,
    }
}

pub open spec fn dec_u8(s: Seq<i64>) -> Option<(u8, Seq<i64>)> {
    match dec_token(s) {
        Option::Some((t, rest)) => if 0 <= t <= 255 {
            Option::Some((t as u8, rest))
        } else {
            Option::None
        },
        Option::None => Option::None,
    }
}

pub open spec fn dec_color(s: Seq<i64>) -> Option<(Color, Seq<i64>)> {
    match dec_u8(s) {
        Option::Some((r, s1)) => match dec_u8(s1) {
            Option::Some((g, s2)) => match dec_u8(s2) {
                Option::Some((b, s3)) => Option::Some((Color { r, g, b }, s3)),
                Option::None => Option::None,
            },
            Option::None => Option::None,
        },
        Option::None => Option::None,
    }
}

pub open spec fn t2dc(t: i64) -> Option<DeathCallback> {
    if t == 0 {
        Option::Some(DeathCallback::Player)
    } else if t == 1 {
        Option::Some(DeathCallback::Monster)
    } else {
        Option::None
    }
}

pub open spec fn dec_fighter(s: Seq<i64>) -> Option<(Fighter, Seq<i64>)> {
    match dec_i32(s) {
        Option::Some((base_max_hp, s1)) => match dec_i32(s1) {
            Option::Some((hp, s2)) => match dec_i32(s2) {
                Option::Some((base_defense, s3)) => match dec_i32(s3) {
                    Option::Some((base_power, s4)) => match dec_i32(s4) {
                        Option::Some((base_magic, s5)) => match dec_i32(s5) {
                            Option::Some((xp, s6)) => match dec_token(s6) {
                                Option::Some((dt, s7)) => match t2dc(dt) {
                                    Option::Some(on_death) => Option::Some(
                                        (
                                            Fighter {
                                                base_max_hp,
                                                hp,
                                                base_defense,
                                                base_power,
                                                base_magic,
                                                xp,
                                                on_death,
                                            },
                                            s7,
                                        ),
                                    ),
                                    Option::None => Option::None,
                                },
                                Option::None => Option::None,
                            },
                            Option::None => Option::None,
                        },
                        Option::None => Option::None,
                    },
                    Option::None => Option::None,
                },
                Option::None => Option::None,
            },
            Option::None => Option::None,
        },
        Option::None => Option::None,
    }
}

pub open spec fn t2item(t: i64) -> Option<Item> {
    if t == 0 {
        Option::Some(Item::Heal)
    } else if t == 1 {
        Option::Some(Item::Lightning)
    } else if t == 2 {
        Option::Some(Item::Confuse)
    } else if t == 3 {
        Option::Some(Item::Fireball)
    } else if t == 4 {
        Option::Some(Item::Sword)
    } else if t == 5 {
        Option::Some(Item::Shield)
    } else {
        Option::None
    }
}

pub open spec fn dec_item(s: Seq<i64>) -> Option<(Item, Seq<i64>)> {
    match dec_token(s) {
        Option::Some((t, rest)) => match t2item(t) {
            Option::Some(i) => Option::Some((i, rest)),
            Option::None => Option::None,
        },
        Option::None => Option::None,
    }
}

pub open spec fn t2slot(t: i64) -> Option<Slot> {
    if t == 0 {
        Option::Some(Slot::LeftHand)
    } else if t == 1 {
        Option::Some(Slot::RightHand)
    } else if t == 2 {
        Option::Some(Slot::Head)
    } else if t == 3 {
        Option::Some(Slot::Chest)
    } else if t == 4 {
        Option::Some(Slot::Legs)
    } else if t == 5 {
        Option::Some(Slot::Feet)
    } else if t == 6 {
        Option::Some(Slot::Hands)
    } else if t == 7 {
        Option::Some(Slot::Back)
    } else if t == 8 {
        Option::Some(Slot::LeftFinger)
    } else if t == 9 {
        Option::Some(Slot::RightFinger)
    } else {
        Option::None
    }
}

pub open spec fn dec_equipment(s: Seq<i64>) -> Option<(Equipment, Seq<i64>)> {
    match dec_token(s) {
        Option::Some((st, s0)) => match t2slot(st) {
            Option::Some(slot) => match dec_bool(s0) {
                Option::Some((equipped, s1)) => match dec_i32(s1) {
                    Option::Some((max_hp_bonus, s2)) => match dec_i32(s2) {
                        Option::Some((power_bonus, s3)) => match dec_i32(s3) {
                            Option::Some((defense_bonus, s4)) => match dec_i32(s4) {
                                Option::Some((magic_bonus, s5)) => Option::Some(
                                    (
                                        Equipment {
                                            slot,
                                            equipped,
                                            max_hp_bonus,
                                            power_bonus,
                                            defense_bonus,
                                            magic_bonus,
                                        },
                                        s5,
                                    ),
                                ),
                                Option::None => Option::None,
                            },
                            Option::None => Option::None,
                        },
                        Option::None => Option::None,
                    },
                    Option::None => Option::None,
                },
                Option::None => Option::None,
            },
            Option::None => Option::None,
        },
        Option::None => Option::None,
    }
}

pub open spec fn dec_opt<T>(
    s: Seq<i64>,
    f: spec_fn(Seq<i64>) -> Option<(T, Seq<i64>)>,
) -> Option<(Option<T>, Seq<i64>)> {
    match dec_token(s) {
        Option::Some((t, rest)) => if t == 0 {
            Option::Some((Option::None, rest))
        } else if t == 1 {
            match f(rest) {
                Option::Some(p) => Option::Some((Option::Some(p.0), p.1)),
                Option::None => Option::None,
            }
        } else {
            Option::None
        },
        Option::None => Option::None,
    }
}

pub open spec fn dec_tile(s: Seq<i64>) -> Option<(Tile, Seq<i64>)> {
    match dec_bool(s) {
        Option::Some((blocked, s1)) => match dec_bool(s1) {
            Option::Some((explored, s2)) => match dec_bool(s2) {
                Option::Some((block_sight, s3)) => Option::Some(
                    (Tile { blocked, explored, block_sight }, s3),
                ),
                Option::None => Option::None,
            },
            Option::None => Option::None,
        },
        Option::None => Option::None,
    }
}

/// First third of an entity record: position, glyph, color, name.
pub open spec fn dec_obj_a(s: Seq<i64>) -> Option<((i32, i32, char, Color, Seq<char>), Seq<i64>)> {
    match dec_i32(s) {
        Option::Some((x, s1)) => match dec_i32(s1) {
            Option::Some((y, s2)) => match dec_char(s2) {
                Option::Some((glyph, s3)) => match dec_color(s3) {
                    Option::Some((color, s4)) => match dec_str(s4) {
                        Option::Some((name, s5)) => Option::Some(((x, y, glyph, color, name), s5)),
                        Option::None => Option::None,
                    },
                    Option::None => Option::None,
                },
                Option::None => Option::None,
            },
            Option::None => Option::None,
        },
        Option::None => Option::None,
    }
}

/// Second third: the two liveness flags and the combat and decision
/// components.
pub open spec fn dec_obj_b(s: Seq<i64>) -> Option<
    ((bool, bool, Option<Fighter>, Option<Seq<i32>>), Seq<i64>),
> {
    match dec_bool(s) {
        Option::Some((blocks, s1)) => match dec_bool(s1) {
            Option::Some((alive, s2)) => match dec_opt(s2, |r: Seq<i64>| dec_fighter(r)) {
                Option::Some((fighter, s3)) => match dec_opt(
                    s3,
                    |r: Seq<i64>| dec_list(r, |q: Seq<i64>| dec_i32(q)),
                ) {
                    Option::Some((ai, s4)) => Option::Some(((blocks, alive, fighter, ai), s4)),
                    Option::None => Option::None,
                },
                Option::None => Option::None,
            },
            Option::None => Option::None,
        },
        Option::None => Option::None,
    }
}

/// Last third: the item and equipment components and the trailing flags.
pub open spec fn dec_obj_c(s: Seq<i64>) -> Option<
    ((Option<Item>, Option<Equipment>, bool, i32), Seq<i64>),
> {
    match dec_opt(s, |r: Seq<i64>| dec_item(r)) {
        Option::Some((item, s1)) => match dec_opt(s1, |r: Seq<i64>| dec_equipment(r)) {
            Option::Some((equipment, s2)) => match dec_bool(s2) {
                Option::Some((always_visible, s3)) => match dec_i32(s3) {
                    Option::Some((level, s4)) => Option::Some(
                        ((item, equipment, always_visible, level), s4),
                    ),
                    Option::None => Option::None,
                },
                Option::None => Option::None,
            },
            Option::None => Option::None,
        },
        Option::None => Option::None,
    }
}

pub open spec fn dec_obj(s: Seq<i64>) -> Option<(ObjectV, Seq<i64>)> {
    match dec_obj_a(s) {
        Option::Some((a, s1)) => match dec_obj_b(s1) {
            Option::Some((b, s2)) => match dec_obj_c(s2) {
                Option::Some((c, s3)) => Option::Some(
                    (
                        ObjectV {
                            x: a.0,
                            y: a.1,
                            glyph: a.2,
                            color: a.3,
                            name: a.4,
                            blocks: b.0,
                            alive: b.1,
                            fighter: b.2,
                            ai: b.3,
                            item: c.0,
                            equipment: c.1,
                            always_visible: c.2,
                            level: c.3,
                        },
                        s3,
                    ),
                ),
                Option::None => Option::None,
            },
            Option::None => Option::None,
        },
        Option::None => Option::None,
    }
}

pub open spec fn dec_msg(s: Seq<i64>) -> Option<((Seq<char>, Color), Seq<i64>)> {
    match dec_str(s) {
        Option::Some((text, s1)) => match dec_color(s1) {
            Option::Some((color, s2)) => Option::Some(((text, color), s2)),
            Option::None => Option::None,
        },
        Option::None => Option::None,
    }
}

pub open spec fn dec_session(s: Seq<i64>) -> Option<(SessionV, Seq<i64>)> {
    match dec_list(s, |r: Seq<i64>| dec_list(r, |q: Seq<i64>| dec_tile(q))) {
        Option::Some((map, s1)) => match dec_list(s1, |r: Seq<i64>| dec_msg(r)) {
            Option::Some((messages, s2)) => match dec_list(s2, |r: Seq<i64>| dec_obj(r)) {
                Option::Some((inventory, s3)) => match dec_token(s3) {
                    Option::Some((d, s4)) => if 0 <= d <= u32::MAX {
                        match dec_list(s4, |r: Seq<i64>| dec_obj(r)) {
                            Option::Some((objects, s5)) => Option::Some(
                                (
                                    SessionV {
                                        map,
                                        messages,
                                        inventory,
                                        dungeon_level: d as u32,
                                        objects,
                                    },
                                    s5,
                                ),
                            ),
                            Option::None => Option::None,
                        }
                    } else {
                        Option::None
                    },
                    Option::None => Option::None,
                },
                Option::None => Option::None,
            },
            Option::None => Option::None,
        },
        Option::None => Option::None,
    }
}

// ---- round trip: decoding an encoding yields the original ----

/// Every list in the session is short enough for its length token.
pub open spec fn session_bounded(v: SessionV) -> bool {
    &&& v.map.len() <= i64::MAX
    &&& (forall|i: int| 0 <= i < v.map.len() ==> (#[trigger] v.map[i]).len() <= i64::MAX)
    &&& v.messages.len() <= i64::MAX
    &&& (forall|i: int|
        0 <= i < v.messages.len() ==> (#[trigger] v.messages[i]).0.len() <= i64::MAX)
    &&& v.inventory.len() <= i64::MAX
    &&& (forall|i: int| 0 <= i < v.inventory.len() ==> obj_bounded(#[trigger] v.inventory[i]))
    &&& v.objects.len() <= i64::MAX
    &&& (forall|i: int| 0 <= i < v.objects.len() ==> obj_bounded(#[trigger] v.objects[i]))
}

pub open spec fn obj_bounded(v: ObjectV) -> bool {
    &&& v.name.len() <= i64::MAX
    &&& (match v.ai {
        Option::Some(l) => l.len() <= i64::MAX,
        Option::None => true,
    })
}

proof fn lemma_dec_token(t: i64, rest: Seq<i64>)
    ensures
        dec_token(seq![t] + rest) == Option::Some((t, rest)),
{
    assert((seq![t] + rest)[0] == t);
    assert((seq![t] + rest).drop_first() =~= rest);
}

proof fn lemma_dec_enc_char(c: char, rest: Seq<i64>)
    ensures
        dec_char(enc_char(c) + rest) == Option::Some((c, rest)),
{
    char_is_scalar(c);
    lemma_dec_token(c as u32 as i64, rest);
    assert(valid_scalar(c as u32 as i64));
    assert(((c as u32 as i64) as u32) as char == c);
}

proof fn lemma_dec_enc_i32(v: i32, rest: Seq<i64>)
    ensures
        dec_i32(enc_i32(v) + rest) == Option::Some((v, rest)),
{
    lemma_dec_token(v as i64, rest);
}

proof fn lemma_dec_enc_bool(b: bool, rest: Seq<i64>)
    ensures
        dec_bool(seq![b2t(b)] + rest) == Option::Some((b, rest)),
{
    lemma_dec_token(b2t(b), rest);
}

proof fn lemma_dec_enc_u8(v: u8, rest: Seq<i64>)
    ensures
        dec_u8(seq![v as i64] + rest) == Option::Some((v, rest)),
{
    lemma_dec_token(v as i64, rest);
}

proof fn lemma_dec_enc_color(c: Color, rest: Seq<i64>)
    ensures
        dec_color(enc_color(c) + rest) == Option::Some((c, rest)),
{
    assert(enc_color(c) + rest =~= seq![c.r as i64] + (seq![c.g as i64] + (seq![c.b as i64]
        + rest)));
    lemma_dec_enc_u8(c.r, seq![c.g as i64] + (seq![c.b as i64] + rest));
    lemma_dec_enc_u8(c.g, seq![c.b as i64] + rest);
    lemma_dec_enc_u8(c.b, rest);
}

proof fn lemma_dec_enc_fighter(f: Fighter, rest: Seq<i64>)
    ensures
        dec_fighter(enc_fighter(f) + rest) == Option::Some((f, rest)),
{
    let t6 = seq![dc2t(f.on_death)] + rest;
    let t5 = seq![f.xp as i64] + t6;
    let t4 = seq![f.base_magic as i64] + t5;
    let t3 = seq![f.base_power as i64] + t4;
    let t2 = seq![f.base_defense as i64] + t3;
    let t1 = seq![f.hp as i64] + t2;
    assert(enc_fighter(f) + rest =~= seq![f.base_max_hp as i64] + t1);
    lemma_dec_enc_i32(f.base_max_hp, t1);
    lemma_dec_enc_i32(f.hp, t2);
    lemma_dec_enc_i32(f.base_defense, t3);
    lemma_dec_enc_i32(f.base_power, t4);
    lemma_dec_enc_i32(f.base_magic, t5);
    lemma_dec_enc_i32(f.xp, t6);
    lemma_dec_token(dc2t(f.on_death), rest);
}

proof fn lemma_dec_enc_item(i: Item, rest: Seq<i64>)
    ensures
        dec_item(seq![item2t(i)] + rest) == Option::Some((i, rest)),
{
    lemma_dec_token(item2t(i), rest);
}

proof fn lemma_dec_enc_equipment(e: Equipment, rest: Seq<i64>)
    ensures
        dec_equipment(enc_equipment(e) + rest) == Option::Some((e, rest)),
{
    let t5 = seq![e.magic_bonus as i64] + rest;
    let t4 = seq![e.defense_bonus as i64] + t5;
    let t3 = seq![e.power_bonus as i64] + t4;
    let t2 = seq![e.max_hp_bonus as i64] + t3;
    let t1 = seq![b2t(e.equipped)] + t2;
    assert(enc_equipment(e) + rest =~= seq![slot2t(e.slot)] + t1);
    lemma_dec_token(slot2t(e.slot), t1);
    lemma_dec_enc_bool(e.equipped, t2);
    lemma_dec_enc_i32(e.max_hp_bonus, t3);
    lemma_dec_enc_i32(e.power_bonus, t4);
    lemma_dec_enc_i32(e.defense_bonus, t5);
    lemma_dec_enc_i32(e.magic_bonus, rest);
}

proof fn lemma_dec_enc_tile(t: Tile, rest: Seq<i64>)
    ensures
        dec_tile(enc_tile(t) + rest) == Option::Some((t, rest)),
{
    let t2 = seq![b2t(t.block_sight)] + rest;
    let t1 = seq![b2t(t.explored)] + t2;
    assert(enc_tile(t) + rest =~= seq![b2t(t.blocked)] + t1);
    lemma_dec_enc_bool(t.blocked, t1);
    lemma_dec_enc_bool(t.explored, t2);
    lemma_dec_enc_bool(t.block_sight, rest);
}

proof fn lemma_dec_enc_opt<T>(
    o: Option<T>,
    fe: spec_fn(T) -> Seq<i64>,
    fd: spec_fn(Seq<i64>) -> Option<(T, Seq<i64>)>,
    rest: Seq<i64>,
)
    requires
        forall|v: T, r: Seq<i64>| #[trigger] fd(fe(v) + r) == Option::Some((v, r)),
    ensures
        dec_opt(enc_opt(o, fe) + rest, fd) == Option::Some((o, rest)),
{
    match o {
        Option::None => {
            assert(enc_opt(o, fe) + rest =~= seq![0i64] + rest);
            lemma_dec_token(0i64, rest);
        },
        Option::Some(v) => {
            assert(enc_opt(o, fe) + rest =~= seq![1i64] + (fe(v) + rest));
            lemma_dec_token(1i64, fe(v) + rest);
            assert(fd(fe(v) + rest) == Option::Some((v, rest)));
        },
    }
}

proof fn lemma_dec_enc_list_n<T>(
    s: Seq<T>,
    fe: spec_fn(T) -> Seq<i64>,
    fd: spec_fn(Seq<i64>) -> Option<(T, Seq<i64>)>,
    rest: Seq<i64>,
)
    requires
        forall|i: int, r: Seq<i64>|
            0 <= i < s.len() ==> #[trigger] fd(fe(s[i]) + r) == Option::Some((s[i], r)),
    ensures
        dec_list_n(enc_cat(s, fe) + rest, s.len() as int, fd) == Option::Some((s, rest)),
    decreases s.len(),
{
    if s.len() == 0 {
        assert(enc_cat(s, fe) + rest =~= rest);
        assert(dec_list_n(rest, 0, fd) == Option::Some((Seq::<T>::empty(), rest)));
        assert(Seq::<T>::empty() =~= s);
    } else {
        let tail = s.drop_first();
        assert(enc_cat(s, fe) + rest =~= fe(s[0]) + (enc_cat(tail, fe) + rest));
        assert(fd(fe(s[0]) + (enc_cat(tail, fe) + rest)) == Option::Some(
            (s[0], enc_cat(tail, fe) + rest),
        ));
        assert forall|i: int, r: Seq<i64>|
            0 <= i < tail.len() implies #[trigger] fd(fe(tail[i]) + r) == Option::Some(
            (tail[i], r),
        ) by {
            assert(tail[i] == s[i + 1]);
        }
        lemma_dec_enc_list_n(tail, fe, fd, rest);
        assert(seq![s[0]] + tail =~= s);
    }
}

proof fn lemma_dec_enc_list<T>(
    s: Seq<T>,
    fe: spec_fn(T) -> Seq<i64>,
    fd: spec_fn(Seq<i64>) -> Option<(T, Seq<i64>)>,
    rest: Seq<i64>,
)
    requires
        forall|i: int, r: Seq<i64>|
            0 <= i < s.len() ==> #[trigger] fd(fe(s[i]) + r) == Option::Some((s[i], r)),
        s.len() <= i64::MAX,
    ensures
        dec_list(enc_list(s, fe) + rest, fd) == Option::Some((s, rest)),
{
    assert(enc_list(s, fe) + rest =~= seq![s.len() as i64] + (enc_cat(s, fe) + rest));
    lemma_dec_token(s.len() as i64, enc_cat(s, fe) + rest);
    lemma_dec_enc_list_n(s, fe, fd, rest);
}

proof fn lemma_dec_enc_str(name: Seq<char>, rest: Seq<i64>)
    requires
        name.len() <= i64::MAX,
    ensures
        dec_str(enc_str(name) + rest) == Option::Some((name, rest)),
{
    let fe = |c: char| enc_char(c);
    let fd = |r: Seq<i64>| dec_char(r);
    assert forall|i: int, r: Seq<i64>|
        0 <= i < name.len() implies #[trigger] fd(fe(name[i]) + r) == Option::Some(
        (name[i], r),
    ) by {
        lemma_dec_enc_char(name[i], r);
    }
    lemma_dec_enc_list(name, fe, fd, rest);
}

proof fn lemma_dec_enc_obj_a(v: ObjectV, rest: Seq<i64>)
    requires
        obj_bounded(v),
    ensures
        dec_obj_a(
            (seq![v.x as i64, v.y as i64, v.glyph as u32 as i64] + enc_color(v.color) + enc_str(
                v.name,
            )) + rest,
        ) == Option::Some(((v.x, v.y, v.glyph, v.color, v.name), rest)),
{
    let head = seq![v.x as i64, v.y as i64, v.glyph as u32 as i64] + enc_color(v.color) + enc_str(
        v.name,
    );
    let t4 = enc_str(v.name) + rest;
    let t3 = enc_color(v.color) + t4;
    let t2 = seq![v.glyph as u32 as i64] + t3;
    let t1 = seq![v.y as i64] + t2;
    assert(head + rest =~= seq![v.x as i64] + t1);
    lemma_dec_enc_i32(v.x, t1);
    lemma_dec_enc_i32(v.y, t2);
    lemma_dec_enc_char(v.glyph, t3);
    lemma_dec_enc_color(v.color, t4);
    lemma_dec_enc_str(v.name, rest);
}

#[verifier::rlimit(100)]
#[verifier::spinoff_prover]
proof fn lemma_dec_enc_obj_b(v: ObjectV, rest: Seq<i64>)
    requires
        obj_bounded(v),
    ensures
        dec_obj_b(
            (seq![b2t(v.blocks), b2t(v.alive)] + enc_opt(v.fighter, |f: Fighter| enc_fighter(f))
                + enc_opt(v.ai, |l: Seq<i32>| enc_ai_list(l))) + rest,
        ) == Option::Some(((v.blocks, v.alive, v.fighter, v.ai), rest)),
{
    let mid = seq![b2t(v.blocks), b2t(v.alive)] + enc_opt(v.fighter, |f: Fighter| enc_fighter(f))
        + enc_opt(v.ai, |l: Seq<i32>| enc_ai_list(l));
    let t3 = enc_opt(v.ai, |l: Seq<i32>| enc_ai_list(l)) + rest;
    let t2 = enc_opt(v.fighter, |f: Fighter| enc_fighter(f)) + t3;
    let t1 = seq![b2t(v.alive)] + t2;
    assert(mid + rest =~= seq![b2t(v.blocks)] + t1);
    lemma_dec_enc_bool(v.blocks, t1);
    lemma_dec_enc_bool(v.alive, t2);
    assert forall|f: Fighter, r: Seq<i64>| #[trigger] dec_fighter(enc_fighter(f) + r)
        == Option::Some((f, r)) by {
        lemma_dec_enc_fighter(f, r);
    }
    lemma_dec_enc_opt(v.fighter, |f: Fighter| enc_fighter(f), |r: Seq<i64>| dec_fighter(r), t3);
    match v.ai {
        Option::Some(l) => {
            assert(enc_opt(v.ai, |q: Seq<i32>| enc_ai_list(q)) + t3.drop_first()
                =~= enc_opt(v.ai, |q: Seq<i32>| enc_ai_list(q)) + t3.drop_first());
            assert(enc_opt(v.ai, |q: Seq<i32>| enc_ai_list(q)) + rest =~= seq![1i64] + (
            enc_ai_list(l) + rest));
            lemma_dec_token(1i64, enc_ai_list(l) + rest);
            let fe = |n: i32| enc_i32(n);
            let fd = |q: Seq<i64>| dec_i32(q);
            assert forall|i: int, r: Seq<i64>|
                0 <= i < l.len() implies #[trigger] fd(fe(l[i]) + r) == Option::Some(
                (l[i], r),
            ) by {
                lemma_dec_enc_i32(l[i], r);
            }
            lemma_dec_enc_list(l, fe, fd, rest);
        },
        Option::None => {
            assert(enc_opt(v.ai, |q: Seq<i32>| enc_ai_list(q)) + rest =~= seq![0i64] + rest);
            lemma_dec_token(0i64, rest);
        },
    }
}

#[verifier::rlimit(100)]
#[verifier::spinoff_prover]
proof fn lemma_dec_enc_obj_c(v: ObjectV, rest: Seq<i64>)
    ensures
        dec_obj_c(
            (enc_opt(v.item, |i: Item| seq![item2t(i)]) + enc_opt(
                v.equipment,
                |e: Equipment| enc_equipment(e),
            ) + seq![b2t(v.always_visible), v.level as i64]) + rest,
        ) == Option::Some(((v.item, v.equipment, v.always_visible, v.level), rest)),
{
    let tail = enc_opt(v.item, |i: Item| seq![item2t(i)]) + enc_opt(
        v.equipment,
        |e: Equipment| enc_equipment(e),
    ) + seq![b2t(v.always_visible), v.level as i64];
    let t3 = seq![v.level as i64] + rest;
    let t2 = seq![b2t(v.always_visible)] + t3;
    let t1 = enc_opt(v.equipment, |e: Equipment| enc_equipment(e)) + t2;
    assert(tail + rest =~= enc_opt(v.item, |i: Item| seq![item2t(i)]) + t1);
    assert forall|i: Item, r: Seq<i64>| #[trigger] dec_item(seq![item2t(i)] + r) == Option::Some(
        (i, r),
    ) by {
        lemma_dec_enc_item(i, r);
    }
    lemma_dec_enc_opt(v.item, |i: Item| seq![item2t(i)], |r: Seq<i64>| dec_item(r), t1);
    assert forall|e: Equipment, r: Seq<i64>| #[trigger] dec_equipment(enc_equipment(e) + r)
        == Option::Some((e, r)) by {
        lemma_dec_enc_equipment(e, r);
    }
    lemma_dec_enc_opt(
        v.equipment,
        |e: Equipment| enc_equipment(e),
        |r: Seq<i64>| dec_equipment(r),
        t2,
    );
    lemma_dec_enc_bool(v.always_visible, t3);
    lemma_dec_enc_i32(v.level, rest);
}

#[verifier::rlimit(100)]
#[verifier::spinoff_prover]
proof fn lemma_dec_enc_obj(v: ObjectV, rest: Seq<i64>)
    requires
        obj_bounded(v),
    ensures
        dec_obj(enc_obj(v) + rest) == Option::Some((v, rest)),
{
    let part_a = seq![v.x as i64, v.y as i64, v.glyph as u32 as i64] + enc_color(v.color)
        + enc_str(v.name);
    let part_b = seq![b2t(v.blocks), b2t(v.alive)] + enc_opt(
        v.fighter,
        |f: Fighter| enc_fighter(f),
    ) + enc_opt(v.ai, |l: Seq<i32>| enc_ai_list(l));
    let part_c = enc_opt(v.item, |i: Item| seq![item2t(i)]) + enc_opt(
        v.equipment,
        |e: Equipment| enc_equipment(e),
    ) + seq![b2t(v.always_visible), v.level as i64];
    let fla = seq![b2t(v.blocks), b2t(v.alive)];
    let ofi = enc_opt(v.fighter, |f: Fighter| enc_fighter(f));
    let oai = enc_opt(v.ai, |l: Seq<i32>| enc_ai_list(l));
    let oit = enc_opt(v.item, |i: Item| seq![item2t(i)]);
    let oeq = enc_opt(v.equipment, |e: Equipment| enc_equipment(e));
    let tail2 = seq![b2t(v.always_visible), v.level as i64];
    assert(enc_obj_rest(v) == part_b + part_c) by {
        lemma_concat_associative(enc_obj_r1(v), oai, oit);
        assert(enc_obj_r1(v) + enc_obj_r2(v) == part_b + oit);
        lemma_concat_associative(part_b + oit, oeq, tail2);
        lemma_concat_associative(part_b, oit, oeq);
        lemma_concat_associative(part_b, oit + oeq, tail2);
    }
    lemma_concat_associative(part_a, enc_obj_rest(v), rest);
    lemma_concat_associative(part_b, part_c, rest);
    assert(enc_obj(v) + rest == part_a + (part_b + (part_c + rest)));
    lemma_dec_enc_obj_a(v, part_b + (part_c + rest));
    lemma_dec_enc_obj_b(v, part_c + rest);
    lemma_dec_enc_obj_c(v, rest);
    assert(dec_obj(enc_obj(v) + rest) matches Option::Some(p) && p.0 =~= v && p.1 == rest);
}

proof fn lemma_dec_enc_msg(m: (Seq<char>, Color), rest: Seq<i64>)
    requires
        m.0.len() <= i64::MAX,
    ensures
        dec_msg(enc_msg(m) + rest) == Option::Some((m, rest)),
{
    assert(enc_msg(m) + rest =~= enc_str(m.0) + (enc_color(m.1) + rest));
    lemma_dec_enc_str(m.0, enc_color(m.1) + rest);
    lemma_dec_enc_color(m.1, rest);
    assert((m.0, m.1) =~= m);
}

/// Decoding an encoded session yields exactly that session, with the
/// whole stream consumed: the serialize-then-deserialize round trip of
/// any bounded session is the identity.
#[verifier::rlimit(100)]
#[verifier::spinoff_prover]
pub proof fn lemma_codec_round_trip(v: SessionV)
    requires
        session_bounded(v),
    ensures
        dec_session(enc_session(v)) == Option::Some((v, Seq::<i64>::empty())),
{
    let fe_tile = |t: Tile| enc_tile(t);
    let fd_tile = |q: Seq<i64>| dec_tile(q);
    let fe_col = |c: Seq<Tile>| enc_list(c, fe_tile);
    let fd_col = |r: Seq<i64>| dec_list(r, fd_tile);
    let fe_msg = |m: (Seq<char>, Color)| enc_msg(m);
    let fd_msg = |r: Seq<i64>| dec_msg(r);
    let fe_obj = |o: ObjectV| enc_obj(o);
    let fd_obj = |r: Seq<i64>| dec_obj(r);

    let e_map = enc_list(v.map, fe_col);
    let e_msgs = enc_list(v.messages, fe_msg);
    let e_inv = enc_list(v.inventory, fe_obj);
    let e_objs = enc_list(v.objects, fe_obj);
    let t4 = e_objs + Seq::<i64>::empty();
    let t3 = seq![v.dungeon_level as i64] + t4;
    let t2 = e_inv + t3;
    let t1 = e_msgs + t2;
    assert(enc_session(v) =~= e_map + t1) by {
        assert(enc_list(v.map, |c: Seq<Tile>| enc_list(c, |t: Tile| enc_tile(t))) == e_map);
        assert(enc_list(v.messages, |m: (Seq<char>, Color)| enc_msg(m)) == e_msgs);
        assert(enc_list(v.inventory, |o: ObjectV| enc_obj(o)) == e_inv);
        assert(enc_list(v.objects, |o: ObjectV| enc_obj(o)) == e_objs);
    }

    assert forall|i: int, r: Seq<i64>|
        0 <= i < v.map.len() implies #[trigger] fd_col(fe_col(v.map[i]) + r) == Option::Some(
        (v.map[i], r),
    ) by {
        let c = v.map[i];
        assert forall|j: int, r2: Seq<i64>|
            0 <= j < c.len() implies #[trigger] fd_tile(fe_tile(c[j]) + r2) == Option::Some(
            (c[j], r2),
        ) by {
            lemma_dec_enc_tile(c[j], r2);
        }
        lemma_dec_enc_list(c, fe_tile, fd_tile, r);
    }
    lemma_dec_enc_list(v.map, fe_col, fd_col, t1);

    assert forall|i: int, r: Seq<i64>|
        0 <= i < v.messages.len() implies #[trigger] fd_msg(fe_msg(v.messages[i]) + r)
        == Option::Some((v.messages[i], r)) by {
        lemma_dec_enc_msg(v.messages[i], r);
    }
    lemma_dec_enc_list(v.messages, fe_msg, fd_msg, t2);

    assert forall|i: int, r: Seq<i64>|
        0 <= i < v.inventory.len() implies #[trigger] fd_obj(fe_obj(v.inventory[i]) + r)
        == Option::Some((v.inventory[i], r)) by {
        lemma_dec_enc_obj(v.inventory[i], r);
    }
    lemma_dec_enc_list(v.inventory, fe_obj, fd_obj, t3);

    lemma_dec_token(v.dungeon_level as i64, t4);
    assert(t4 =~= e_objs);
    assert forall|i: int, r: Seq<i64>|
        0 <= i < v.objects.len() implies #[trigger] fd_obj(fe_obj(v.objects[i]) + r)
        == Option::Some((v.objects[i], r)) by {
        lemma_dec_enc_obj(v.objects[i], r);
    }
    lemma_dec_enc_list(v.objects, fe_obj, fd_obj, Seq::empty());
}

// ---- executable encoding ----

/// Relies on `str::chars` (collected): the characters of the string, in
/// order.
#[verifier::external_body]
fn string_chars(s: &String) -> (r: Vec<char>)
    ensures
        r@ == s@,
{
    s.chars().collect()
}

/// Relies on `String`'s `FromIterator` over characters: the collected
/// string holds exactly the given characters, in order.
#[verifier::external_body]
fn string_from_chars(cs: &Vec<char>) -> (r: String)
    ensures
        r@ == cs@,
{
    cs.iter().collect()
}

/// Relies on `char::from_u32`: `Some` exactly for Unicode scalar values,
/// yielding the character the specification-level cast denotes.
#[verifier::external_body]
fn char_from_u32(v: u32) -> (r: Option<char>)
    ensures
        (match r {
            Option::Some(c) => c == (v as char) && c as u32 == v,
            Option::None => true,
        }),
        (v < 0xD800 || (0xE000 <= v && v <= 0x10FFFF)) ==> r is Some,
{
    char::from_u32(v)
}

proof fn lemma_enc_cat_push<T>(s: Seq<T>, f: spec_fn(T) -> Seq<i64>, v: T)
    ensures
        enc_cat(s.push(v), f) == enc_cat(s, f) + f(v),
    decreases s.len(),
{
    if s.len() == 0 {
        assert(s.push(v)[0] == v);
        assert(s.push(v).drop_first() =~= s);
        assert(enc_cat(s.push(v), f) == f(v) + enc_cat(s, f));
        assert(f(v) + enc_cat(s, f) =~= enc_cat(s, f) + f(v));
    } else {
        assert(s.push(v)[0] == s[0]);
        assert(s.push(v).drop_first() =~= s.drop_first().push(v));
        lemma_enc_cat_push(s.drop_first(), f, v);
        assert(enc_cat(s.push(v), f) == f(s[0]) + (enc_cat(s.drop_first(), f) + f(v)));
        assert(enc_cat(s, f) == f(s[0]) + enc_cat(s.drop_first(), f));
        assert(f(s[0]) + (enc_cat(s.drop_first(), f) + f(v)) =~= enc_cat(s, f) + f(v));
    }
}

fn push_str_tokens(out: &mut Vec<i64>, s: &String)
    requires
        s@.len() <= i64::MAX,
    ensures
        final(out)@ == old(out)@ + enc_str(s@),
{
    let cs = string_chars(s);
    let n = cs.len();
    out.push(n as i64);
    let ghost base = out@;
    let mut i: usize = 0;
    while i < n
        invariant
            i <= n,
            n == cs@.len(),
            cs@ == s@,
            out@ == base + enc_cat(s@.take(i as int), |c: char| enc_char(c)),
        decreases n - i,
    {
        let ghost pre = s@.take(i as int);
        out.push(cs[i] as u32 as i64);
        proof {
            lemma_enc_cat_push(pre, |c: char| enc_char(c), s@[i as int]);
            assert(s@.take(i + 1) =~= pre.push(s@[i as int]));
            assert(out@ =~= base + enc_cat(s@.take(i + 1), |c: char| enc_char(c)));
        }
        i = i + 1;
    }
    proof {
        assert(s@.take(s@.len() as int) =~= s@);
        assert(out@ =~= old(out)@ + enc_str(s@));
    }
}

fn push_color_tokens(out: &mut Vec<i64>, c: Color)
    ensures
        final(out)@ == old(out)@ + enc_color(c),
{
    out.push(c.r as i64);
    out.push(c.g as i64);
    out.push(c.b as i64);
    proof {
        assert(out@ =~= old(out)@ + enc_color(c));
    }
}

fn push_fighter_tokens(out: &mut Vec<i64>, f: &Fighter)
    ensures
        final(out)@ == old(out)@ + enc_fighter(*f),
{
    out.push(f.base_max_hp as i64);
    out.push(f.hp as i64);
    out.push(f.base_defense as i64);
    out.push(f.base_power as i64);
    out.push(f.base_magic as i64);
    out.push(f.xp as i64);
    let t: i64 = match f.on_death {
        DeathCallback::Player => 0,
        DeathCallback::Monster => 1,
    };
    out.push(t);
    proof {
        assert(out@ =~= old(out)@ + enc_fighter(*f));
    }
}

fn push_equipment_tokens(out: &mut Vec<i64>, e: &Equipment)
    ensures
        final(out)@ == old(out)@ + enc_equipment(*e),
{
    let st: i64 = match e.slot {
        Slot::LeftHand => 0,
        Slot::RightHand => 1,
        Slot::Head => 2,
        Slot::Chest => 3,
        Slot::Legs => 4,
        Slot::Feet => 5,
        Slot::Hands => 6,
        Slot::Back => 7,
        Slot::LeftFinger => 8,
        Slot::RightFinger => 9,
    };
    out.push(st);
    out.push(if e.equipped { 1 } else { 0 });
    out.push(e.max_hp_bonus as i64);
    out.push(e.power_bonus as i64);
    out.push(e.defense_bonus as i64);
    out.push(e.magic_bonus as i64);
    proof {
        assert(out@ =~= old(out)@ + enc_equipment(*e));
    }
}

/// The confusion counters wrapped around an entity's decision state,
/// outermost first.
fn ai_counters(a: &Ai) -> (r: Vec<i32>)
    ensures
        r@ == ai_view(*a),
{
    let mut counters: Vec<i32> = Vec::new();
    let mut cur: &Ai = a;
    loop
        invariant
            ai_view(*a) == counters@ + ai_view(*cur),
        ensures
            counters@ == ai_view(*a),
        decreases *cur,
    {
        match cur {
            Ai::Basic => {
                proof {
                    assert(ai_view(*a) =~= counters@);
                }
                break ;
            },
            Ai::Confused { previous_ai, num_turns } => {
                counters.push(*num_turns);
                proof {
                    assert(counters@ + ai_view(**previous_ai) =~= ai_view(*a));
                }
                cur = previous_ai;
            },
        }
    }
    counters
}

fn push_ai_tokens(out: &mut Vec<i64>, a: &Ai)
    requires
        ai_view(*a).len() <= i64::MAX,
    ensures
        final(out)@ == old(out)@ + enc_ai_list(ai_view(*a)),
{
    let counters = ai_counters(a);
    let n = counters.len();
    out.push(n as i64);
    let ghost base = out@;
    let mut i: usize = 0;
    while i < n
        invariant
            i <= n,
            n == counters@.len(),
            out@ == base + enc_cat(counters@.take(i as int), |c: i32| enc_i32(c)),
        decreases n - i,
    {
        let ghost pre = counters@.take(i as int);
        out.push(counters[i] as i64);
        proof {
            lemma_enc_cat_push(pre, |c: i32| enc_i32(c), counters@[i as int]);
            assert(counters@.take(i + 1) =~= pre.push(counters@[i as int]));
            assert(out@ =~= base + enc_cat(counters@.take(i + 1), |c: i32| enc_i32(c)));
        }
        i = i + 1;
    }
    proof {
        assert(counters@.take(counters@.len() as int) =~= counters@);
        assert(out@ =~= old(out)@ + enc_ai_list(ai_view(*a)));
    }
}

fn push_obj_head_tokens(out: &mut Vec<i64>, o: &Object)
    requires
        obj_bounded(obj_view(*o)),
    ensures
        final(out)@ == old(out)@ + enc_obj_head(obj_view(*o)),
{
    let ghost v = obj_view(*o);
    out.push(o.x as i64);
    out.push(o.y as i64);
    out.push(o.glyph as u32 as i64);
    let ghost g1 = old(out)@ + seq![v.x as i64, v.y as i64, v.glyph as u32 as i64];
    proof {
        assert(out@ =~= g1);
    }
    push_color_tokens(out, o.color);
    push_str_tokens(out, &o.name);
    proof {
        let a = seq![v.x as i64, v.y as i64, v.glyph as u32 as i64];
        lemma_concat_associative(old(out)@, a, enc_color(v.color));
        lemma_concat_associative(old(out)@, a + enc_color(v.color), enc_str(v.name));
        lemma_concat_associative(a, enc_color(v.color), enc_str(v.name));
        assert(out@ == old(out)@ + enc_obj_head(v));
    }
}

fn push_obj_r1_tokens(out: &mut Vec<i64>, o: &Object)
    ensures
        final(out)@ == old(out)@ + enc_obj_r1(obj_view(*o)),
{
    let ghost v = obj_view(*o);
    let ghost fla = seq![b2t(v.blocks), b2t(v.alive)];
    let ghost ofi = enc_opt(v.fighter, |f: Fighter| enc_fighter(f));
    out.push(if o.blocks { 1 } else { 0 });
    out.push(if o.alive { 1 } else { 0 });
    proof {
        assert(out@ =~= old(out)@ + fla);
    }
    let ghost c1 = old(out)@ + fla;
    match &o.fighter {
        Option::Some(f) => {
            out.push(1);
            proof {
                assert(out@ =~= c1 + seq![1i64]);
            }
            push_fighter_tokens(out, f);
            proof {
                lemma_concat_associative(c1, seq![1i64], enc_fighter(*f));
                assert(seq![1i64] + enc_fighter(*f) == ofi);
            }
        },
        Option::None => {
            out.push(0);
            proof {
                assert(out@ =~= c1 + ofi);
            }
        },
    }
    proof {
        lemma_concat_associative(old(out)@, fla, ofi);
        assert(out@ == old(out)@ + enc_obj_r1(v));
    }
}

fn push_obj_r2_tokens(out: &mut Vec<i64>, o: &Object)
    requires
        obj_bounded(obj_view(*o)),
    ensures
        final(out)@ == old(out)@ + enc_obj_r2(obj_view(*o)),
{
    let ghost v = obj_view(*o);
    let ghost oai = enc_opt(v.ai, |l: Seq<i32>| enc_ai_list(l));
    let ghost oit = enc_opt(v.item, |i: Item| seq![item2t(i)]);
    match &o.ai {
        Option::Some(a) => {
            out.push(1);
            proof {
                assert(out@ =~= old(out)@ + seq![1i64]);
            }
            push_ai_tokens(out, a);
            proof {
                lemma_concat_associative(old(out)@, seq![1i64], enc_ai_list(ai_view(*a)));
                assert(seq![1i64] + enc_ai_list(ai_view(*a)) == oai);
            }
        },
        Option::None => {
            out.push(0);
            proof {
                assert(out@ =~= old(out)@ + oai);
            }
        },
    }
    let ghost c1 = old(out)@ + oai;
    match &o.item {
        Option::Some(it) => {
            out.push(1);
            let t: i64 = match it {
                Item::Heal => 0,
                Item::Lightning => 1,
                Item::Confuse => 2,
                Item::Fireball => 3,
                Item::Sword => 4,
                Item::Shield => 5,
            };
            out.push(t);
            proof {
                assert(out@ =~= c1 + oit);
            }
        },
        Option::None => {
            out.push(0);
            proof {
                assert(out@ =~= c1 + oit);
            }
        },
    }
    proof {
        lemma_concat_associative(old(out)@, oai, oit);
        assert(out@ == old(out)@ + enc_obj_r2(v));
    }
}

fn push_obj_r3_tokens(out: &mut Vec<i64>, o: &Object)
    ensures
        final(out)@ == old(out)@ + enc_obj_r3(obj_view(*o)),
{
    let ghost v = obj_view(*o);
    let ghost oeq = enc_opt(v.equipment, |e: Equipment| enc_equipment(e));
    let ghost tail2 = seq![b2t(v.always_visible), v.level as i64];
    match &o.equipment {
        Option::Some(e) => {
            out.push(1);
            proof {
                assert(out@ =~= old(out)@ + seq![1i64]);
            }
            push_equipment_tokens(out, e);
            proof {
                lemma_concat_associative(old(out)@, seq![1i64], enc_equipment(*e));
                assert(seq![1i64] + enc_equipment(*e) == oeq);
            }
        },
        Option::None => {
            out.push(0);
            proof {
                assert(out@ =~= old(out)@ + oeq);
            }
        },
    }
    let ghost c1 = old(out)@ + oeq;
    out.push(if o.always_visible { 1 } else { 0 });
    out.push(o.level as i64);
    proof {
        assert(out@ =~= c1 + tail2);
        lemma_concat_associative(old(out)@, oeq, tail2);
        assert(out@ == old(out)@ + enc_obj_r3(v));
    }
}

fn push_obj_rest_tokens(out: &mut Vec<i64>, o: &Object)
    requires
        obj_bounded(obj_view(*o)),
    ensures
        final(out)@ == old(out)@ + enc_obj_rest(obj_view(*o)),
{
    let ghost v = obj_view(*o);
    push_obj_r1_tokens(out, o);
    push_obj_r2_tokens(out, o);
    push_obj_r3_tokens(out, o);
    proof {
        lemma_concat_associative(old(out)@, enc_obj_r1(v), enc_obj_r2(v));
        lemma_concat_associative(old(out)@, enc_obj_r1(v) + enc_obj_r2(v), enc_obj_r3(v));
        assert(out@ == old(out)@ + enc_obj_rest(v));
    }
}

fn push_obj_tokens(out: &mut Vec<i64>, o: &Object)
    requires
        obj_bounded(obj_view(*o)),
    ensures
        final(out)@ == old(out)@ + enc_obj(obj_view(*o)),
{
    push_obj_head_tokens(out, o);
    push_obj_rest_tokens(out, o);
    proof {
        lemma_concat_associative(
            old(out)@,
            enc_obj_head(obj_view(*o)),
            enc_obj_rest(obj_view(*o)),
        );
        assert(out@ == old(out)@ + enc_obj(obj_view(*o)));
    }
}

fn push_objs_tokens(out: &mut Vec<i64>, objects: &Vec<Object>)
    requires
        objects@.len() <= i64::MAX,
        forall|i: int|
            0 <= i < objects@.len() ==> obj_bounded(obj_view(#[trigger] objects@[i])),
    ensures
        final(out)@ == old(out)@ + enc_list(objs_view(objects@), |o: ObjectV| enc_obj(o)),
{
    let n = objects.len();
    out.push(n as i64);
    let ghost base = out@;
    let ghost vs = objs_view(objects@);
    let mut i: usize = 0;
    while i < n
        invariant
            i <= n,
            n == objects@.len(),
            vs == objs_view(objects@),
            vs.len() == n,
            forall|j: int| 0 <= j < n ==> vs[j] == obj_view(#[trigger] objects@[j]),
            forall|j: int|
                0 <= j < objects@.len() ==> obj_bounded(obj_view(#[trigger] objects@[j])),
            out@ == base + enc_cat(vs.take(i as int), |o: ObjectV| enc_obj(o)),
        decreases n - i,
    {
        let ghost pre = vs.take(i as int);
        push_obj_tokens(out, &objects[i]);
        proof {
            lemma_enc_cat_push(pre, |o: ObjectV| enc_obj(o), vs[i as int]);
            assert(vs.take(i + 1) =~= pre.push(vs[i as int]));
            assert(out@ =~= base + enc_cat(vs.take(i + 1), |o: ObjectV| enc_obj(o)));
        }
        i = i + 1;
    }
    proof {
        assert(vs.take(vs.len() as int) =~= vs);
        assert(out@ =~= old(out)@ + enc_list(vs, |o: ObjectV| enc_obj(o)));
    }
}

/// Render a whole session as its token stream. The stream is exactly the
/// specification-level encoding of the session's mathematical view, so
/// `decode_session` provably reproduces the session from it.
pub fn encode_session(game: &Game, objects: &Vec<Object>) -> (out: Vec<i64>)
    requires
        session_bounded(session_view(*game, objects@)),
    ensures
        out@ == enc_session(session_view(*game, objects@)),
{
    let ghost v = session_view(*game, objects@);
    let mut out: Vec<i64> = Vec::new();

    // map
    let w = game.map.len();
    out.push(w as i64);
    let ghost base_map = out@;
    let mut x: usize = 0;
    while x < w
        invariant
            x <= w,
            w == game.map@.len(),
            v == session_view(*game, objects@),
            v.map.len() == w,
            forall|j: int| 0 <= j < w ==> v.map[j] == (#[trigger] game.map@[j])@,
            forall|j: int| 0 <= j < v.map.len() ==> (#[trigger] v.map[j]).len() <= i64::MAX,
            out@ == base_map + enc_cat(
                v.map.take(x as int),
                |c: Seq<Tile>| enc_list(c, |t: Tile| enc_tile(t)),
            ),
        decreases w - x,
    {
        let ghost prex = v.map.take(x as int);
        let col = &game.map[x];
        let h = col.len();
        out.push(h as i64);
        let ghost base_col = out@;
        let mut y: usize = 0;
        while y < h
            invariant
                y <= h,
                h == col@.len(),
                col@ == v.map[x as int],
                x < v.map.len(),
                out@ == base_col + enc_cat(col@.take(y as int), |t: Tile| enc_tile(t)),
            decreases h - y,
        {
            let ghost prey = col@.take(y as int);
            let t = col[y];
            out.push(if t.blocked { 1 } else { 0 });
            out.push(if t.explored { 1 } else { 0 });
            out.push(if t.block_sight { 1 } else { 0 });
            proof {
                lemma_enc_cat_push(prey, |q: Tile| enc_tile(q), col@[y as int]);
                assert(col@.take(y + 1) =~= prey.push(col@[y as int]));
                assert(out@ =~= base_col + enc_cat(col@.take(y + 1), |q: Tile| enc_tile(q)));
            }
            y = y + 1;
        }
        proof {
            assert(col@.take(col@.len() as int) =~= col@);
            lemma_enc_cat_push(
                prex,
                |c: Seq<Tile>| enc_list(c, |t: Tile| enc_tile(t)),
                v.map[x as int],
            );
            assert(v.map.take(x + 1) =~= prex.push(v.map[x as int]));
            assert(out@ =~= base_map + enc_cat(
                v.map.take(x + 1),
                |c: Seq<Tile>| enc_list(c, |t: Tile| enc_tile(t)),
            ));
        }
        x = x + 1;
    }
    proof {
        assert(v.map.take(v.map.len() as int) =~= v.map);
    }

    // messages
    let m = game.messages.len();
    out.push(m as i64);
    let ghost base_msgs = out@;
    let mut k: usize = 0;
    while k < m
        invariant
            k <= m,
            m == game.messages@.len(),
            v == session_view(*game, objects@),
            v.messages.len() == m,
            forall|j: int|
                0 <= j < m ==> #[trigger] v.messages[j] == (
                game.messages@[j].0@,
                game.messages@[j].1,
            ),
            forall|j: int|
                0 <= j < v.messages.len() ==> (#[trigger] v.messages[j]).0.len() <= i64::MAX,
            out@ == base_msgs + enc_cat(
                v.messages.take(k as int),
                |q: (Seq<char>, Color)| enc_msg(q),
            ),
        decreases m - k,
    {
        let ghost prek = v.messages.take(k as int);
        let entry = game.messages.get(k);
        proof {
            assert(v.messages[k as int] == (entry.0@, entry.1));
        }
        push_str_tokens(&mut out, &entry.0);
        push_color_tokens(&mut out, entry.1);
        proof {
            lemma_enc_cat_push(prek, |q: (Seq<char>, Color)| enc_msg(q), v.messages[k as int]);
            assert(v.messages.take(k + 1) =~= prek.push(v.messages[k as int]));
            assert(out@ =~= base_msgs + enc_cat(
                v.messages.take(k + 1),
                |q: (Seq<char>, Color)| enc_msg(q),
            ));
        }
        k = k + 1;
    }
    proof {
        assert(v.messages.take(v.messages.len() as int) =~= v.messages);
    }

    // inventory, depth, roster
    proof {
        assert forall|j: int| 0 <= j < game.inventory@.len() implies obj_bounded(
            obj_view(#[trigger] game.inventory@[j]),
        ) by {
            assert(v.inventory[j] == obj_view(game.inventory@[j]));
        }
        assert forall|j: int| 0 <= j < objects@.len() implies obj_bounded(
            obj_view(#[trigger] objects@[j]),
        ) by {
            assert(v.objects[j] == obj_view(objects@[j]));
        }
    }
    push_objs_tokens(&mut out, &game.inventory);
    out.push(game.dungeon_level as i64);
    push_objs_tokens(&mut out, objects);
    proof {
        assert(out@ =~= enc_session(v));
    }
    out
}

// ---- executable decoding ----

fn read_token(data: &Vec<i64>, i: usize) -> (r: Option<(i64, usize)>)
    requires
        i <= data@.len(),
    ensures
        (match r {
            Option::Some(p) => i < p.1 <= data@.len() && p.1 == i + 1 && dec_token(
                data@.skip(i as int),
            ) == Option::Some((p.0, data@.skip(p.1 as int))),
            Option::None => dec_token(data@.skip(i as int)) is None,
        }),
{
    if i < data.len() {
        proof {
            assert(data@.skip(i as int)[0] == data@[i as int]);
            assert(data@.skip(i as int).drop_first() =~= data@.skip(i as int + 1));
        }
        Option::Some((data[i], i + 1))
    } else {
        Option::None
    }
}

fn read_i32(data: &Vec<i64>, i: usize) -> (r: Option<(i32, usize)>)
    requires
        i <= data@.len(),
    ensures
        (match r {
            Option::Some(p) => i < p.1 <= data@.len() && dec_i32(data@.skip(i as int))
                == Option::Some((p.0, data@.skip(p.1 as int))),
            Option::None => dec_i32(data@.skip(i as int)) is None,
        }),
{
    match read_token(data, i) {
        Option::Some((t, j)) => {
            if i32::MIN as i64 <= t && t <= i32::MAX as i64 {
                Option::Some((t as i32, j))
            } else {
                Option::None
            }
        },
        Option::None => Option::None,
    }
}

fn read_bool(data: &Vec<i64>, i: usize) -> (r: Option<(bool, usize)>)
    requires
        i <= data@.len(),
    ensures
        (match r {
            Option::Some(p) => i < p.1 <= data@.len() && dec_bool(data@.skip(i as int))
                == Option::Some((p.0, data@.skip(p.1 as int))),
            Option::None => dec_bool(data@.skip(i as int)) is None,
        }),
{
    match read_token(data, i) {
        Option::Some((t, j)) => {
            if t == 0 || t == 1 {
                Option::Some((t == 1, j))
            } else {
                Option::None
            }
        },
        Option::None => Option::None,
    }
}

fn read_u8(data: &Vec<i64>, i: usize) -> (r: Option<(u8, usize)>)
    requires
        i <= data@.len(),
    ensures
        (match r {
            Option::Some(p) => i < p.1 <= data@.len() && dec_u8(data@.skip(i as int))
                == Option::Some((p.0, data@.skip(p.1 as int))),
            Option::None => dec_u8(data@.skip(i as int)) is None,
        }),
{
    match read_token(data, i) {
        Option::Some((t, j)) => {
            if 0 <= t && t <= 255 {
                Option::Some((t as u8, j))
            } else {
                Option::None
            }
        },
        Option::None => Option::None,
    }
}

fn read_char(data: &Vec<i64>, i: usize) -> (r: Option<(char, usize)>)
    requires
        i <= data@.len(),
    ensures
        (match r {
            Option::Some(p) => i < p.1 <= data@.len() && dec_char(data@.skip(i as int))
                == Option::Some((p.0, data@.skip(p.1 as int))),
            Option::None => dec_char(data@.skip(i as int)) is None,
        }),
{
    match read_token(data, i) {
        Option::Some((t, j)) => {
            if 0 <= t && (t < 0xD800 || (0xE000 <= t && t <= 0x10FFFF)) {
                match char_from_u32(t as u32) {
                    Option::Some(c) => Option::Some((c, j)),
                    Option::None => Option::None,  // unreachable: the range was checked
                }
            } else {
                Option::None
            }
        },
        Option::None => Option::None,
    }
}

fn read_color(data: &Vec<i64>, i: usize) -> (r: Option<(Color, usize)>)
    requires
        i <= data@.len(),
    ensures
        (match r {
            Option::Some(p) => i < p.1 <= data@.len() && dec_color(data@.skip(i as int))
                == Option::Some((p.0, data@.skip(p.1 as int))),
            Option::None => dec_color(data@.skip(i as int)) is None,
        }),
{
    match read_u8(data, i) {
        Option::Some((cr, i1)) => match read_u8(data, i1) {
            Option::Some((cg, i2)) => match read_u8(data, i2) {
                Option::Some((cb, i3)) => Option::Some((Color { r: cr, g: cg, b: cb }, i3)),
                Option::None => Option::None,
            },
            Option::None => Option::None,
        },
        Option::None => Option::None,
    }
}

fn read_chars(data: &Vec<i64>, i: usize, n: u64) -> (r: Option<(Vec<char>, usize)>)
    requires
        i <= data@.len(),
    ensures
        (match r {
            Option::Some(p) => i <= p.1 <= data@.len() && dec_list_n(
                data@.skip(i as int),
                n as int,
                |q: Seq<i64>| dec_char(q),
            ) == Option::Some((p.0@, data@.skip(p.1 as int))),
            Option::None => dec_list_n(data@.skip(i as int), n as int, |q: Seq<i64>| dec_char(q))
                is None,
        }),
    decreases n,
{
    if n == 0 {
        Option::Some((Vec::new(), i))
    } else {
        match read_char(data, i) {
            Option::Some((c, j)) => match read_chars(data, j, n - 1) {
                Option::Some((mut cs, k)) => {
                    cs.insert(0, c);
                    proof {
                        assert(cs@ =~= seq![c] + cs@.drop_first());
                    }
                    Option::Some((cs, k))
                },
                Option::None => Option::None,
            },
            Option::None => Option::None,
        }
    }
}

fn read_str(data: &Vec<i64>, i: usize) -> (r: Option<(String, usize)>)
    requires
        i <= data@.len(),
    ensures
        (match r {
            Option::Some(p) => i <= p.1 <= data@.len() && dec_str(data@.skip(i as int))
                == Option::Some((p.0@, data@.skip(p.1 as int))),
            Option::None => dec_str(data@.skip(i as int)) is None,
        }),
{
    match read_token(data, i) {
        Option::Some((n, j)) => {
            if n >= 0 {
                match read_chars(data, j, n as u64) {
                    Option::Some((cs, k)) => {
                        let text = string_from_chars(&cs);
                        Option::Some((text, k))
                    },
                    Option::None => Option::None,
                }
            } else {
                Option::None
            }
        },
        Option::None => Option::None,
    }
}


fn read_fighter(data: &Vec<i64>, i: usize) -> (r: Option<(Fighter, usize)>)
    requires
        i <= data@.len(),
    ensures
        (match r {
            Option::Some(p) => i <= p.1 <= data@.len() && dec_fighter(data@.skip(i as int))
                == Option::Some((p.0, data@.skip(p.1 as int))),
            Option::None => dec_fighter(data@.skip(i as int)) is None,
        }),
{
    match read_i32(data, i) {
        Option::Some((base_max_hp, i1)) => match read_i32(data, i1) {
            Option::Some((hp, i2)) => match read_i32(data, i2) {
                Option::Some((base_defense, i3)) => match read_i32(data, i3) {
                    Option::Some((base_power, i4)) => match read_i32(data, i4) {
                        Option::Some((base_magic, i5)) => match read_i32(data, i5) {
                            Option::Some((xp, i6)) => match read_token(data, i6) {
                                Option::Some((dt, i7)) => {
                                    if dt == 0 {
                                        Option::Some(
                                            (
                                                Fighter {
                                                    base_max_hp,
                                                    hp,
                                                    base_defense,
                                                    base_power,
                                                    base_magic,
                                                    xp,
                                                    on_death: DeathCallback::Player,
                                                },
                                                i7,
                                            ),
                                        )
                                    } else if dt == 1 {
                                        Option::Some(
                                            (
                                                Fighter {
                                                    base_max_hp,
                                                    hp,
                                                    base_defense,
                                                    base_power,
                                                    base_magic,
                                                    xp,
                                                    on_death: DeathCallback::Monster,
                                                },
                                                i7,
                                            ),
                                        )
                                    } else {
                                        Option::None
                                    }
                                },
                                Option::None => Option::None,
                            },
                            Option::None => Option::None,
                        },
                        Option::None => Option::None,
                    },
                    Option::None => Option::None,
                },
                Option::None => Option::None,
            },
            Option::None => Option::None,
        },
        Option::None => Option::None,
    }
}

fn read_item_tag(data: &Vec<i64>, i: usize) -> (r: Option<(Item, usize)>)
    requires
        i <= data@.len(),
    ensures
        (match r {
            Option::Some(p) => i <= p.1 <= data@.len() && dec_item(data@.skip(i as int))
                == Option::Some((p.0, data@.skip(p.1 as int))),
            Option::None => dec_item(data@.skip(i as int)) is None,
        }),
{
    match read_token(data, i) {
        Option::Some((t, j)) => {
            if t == 0 {
                Option::Some((Item::Heal, j))
            } else if t == 1 {
                Option::Some((Item::Lightning, j))
            } else if t == 2 {
                Option::Some((Item::Confuse, j))
            } else if t == 3 {
                Option::Some((Item::Fireball, j))
            } else if t == 4 {
                Option::Some((Item::Sword, j))
            } else if t == 5 {
                Option::Some((Item::Shield, j))
            } else {
                Option::None
            }
        },
        Option::None => Option::None,
    }
}

fn read_equipment(data: &Vec<i64>, i: usize) -> (r: Option<(Equipment, usize)>)
    requires
        i <= data@.len(),
    ensures
        (match r {
            Option::Some(p) => i <= p.1 <= data@.len() && dec_equipment(data@.skip(i as int))
                == Option::Some((p.0, data@.skip(p.1 as int))),
            Option::None => dec_equipment(data@.skip(i as int)) is None,
        }),
{
    let slot_opt: Option<(Slot, usize)> = match read_token(data, i) {
        Option::Some((t, j)) => {
            if t == 0 {
                Option::Some((Slot::LeftHand, j))
            } else if t == 1 {
                Option::Some((Slot::RightHand, j))
            } else if t == 2 {
                Option::Some((Slot::Head, j))
            } else if t == 3 {
                Option::Some((Slot::Chest, j))
            } else if t == 4 {
                Option::Some((Slot::Legs, j))
            } else if t == 5 {
                Option::Some((Slot::Feet, j))
            } else if t == 6 {
                Option::Some((Slot::Hands, j))
            } else if t == 7 {
                Option::Some((Slot::Back, j))
            } else if t == 8 {
                Option::Some((Slot::LeftFinger, j))
            } else if t == 9 {
                Option::Some((Slot::RightFinger, j))
            } else {
                Option::None
            }
        },
        Option::None => Option::None,
    };
    match slot_opt {
        Option::Some((slot, i0)) => match read_bool(data, i0) {
            Option::Some((equipped, i1)) => match read_i32(data, i1) {
                Option::Some((max_hp_bonus, i2)) => match read_i32(data, i2) {
                    Option::Some((power_bonus, i3)) => match read_i32(data, i3) {
                        Option::Some((defense_bonus, i4)) => match read_i32(data, i4) {
                            Option::Some((magic_bonus, i5)) => Option::Some(
                                (
                                    Equipment {
                                        slot,
                                        equipped,
                                        max_hp_bonus,
                                        power_bonus,
                                        defense_bonus,
                                        magic_bonus,
                                    },
                                    i5,
                                ),
                            ),
                            Option::None => Option::None,
                        },
                        Option::None => Option::None,
                    },
                    Option::None => Option::None,
                },
                Option::None => Option::None,
            },
            Option::None => Option::None,
        },
        Option::None => Option::None,
    }
}

fn read_i32s(data: &Vec<i64>, i: usize, n: u64) -> (r: Option<(Vec<i32>, usize)>)
    requires
        i <= data@.len(),
    ensures
        (match r {
            Option::Some(p) => i <= p.1 <= data@.len() && dec_list_n(
                data@.skip(i as int),
                n as int,
                |q: Seq<i64>| dec_i32(q),
            ) == Option::Some((p.0@, data@.skip(p.1 as int))),
            Option::None => dec_list_n(data@.skip(i as int), n as int, |q: Seq<i64>| dec_i32(q))
                is None,
        }),
    decreases n,
{
    if n == 0 {
        Option::Some((Vec::new(), i))
    } else {
        match read_i32(data, i) {
            Option::Some((v, j)) => match read_i32s(data, j, n - 1) {
                Option::Some((mut vs, k)) => {
                    vs.insert(0, v);
                    proof {
                        assert(vs@ =~= seq![v] + vs@.drop_first());
                    }
                    Option::Some((vs, k))
                },
                Option::None => Option::None,
            },
            Option::None => Option::None,
        }
    }
}

/// Rebuild a decision state from its confusion counters, outermost
/// first.
fn ai_from_counters(cs: &Vec<i32>) -> (a: Ai)
    ensures
        ai_view(a) == cs@,
{
    let mut a = Ai::Basic;
    let mut k = cs.len();
    while k > 0
        invariant
            k <= cs@.len(),
            ai_view(a) == cs@.skip(k as int),
        decreases k,
    {
        a = Ai::Confused { previous_ai: Box::new(a), num_turns: cs[k - 1] };
        proof {
            assert(ai_view(a) =~= cs@.skip(k - 1));
        }
        k = k - 1;
    }
    proof {
        assert(cs@.skip(0) =~= cs@);
    }
    a
}

fn read_obj_a(data: &Vec<i64>, i: usize) -> (r: Option<((i32, i32, char, Color, String), usize)>)
    requires
        i <= data@.len(),
    ensures
        (match r {
            Option::Some(p) => i <= p.1 <= data@.len() && dec_obj_a(data@.skip(i as int))
                == Option::Some(((p.0.0, p.0.1, p.0.2, p.0.3, p.0.4@), data@.skip(p.1 as int))),
            Option::None => dec_obj_a(data@.skip(i as int)) is None,
        }),
{
    match read_i32(data, i) {
        Option::Some((x, i1)) => match read_i32(data, i1) {
            Option::Some((y, i2)) => match read_char(data, i2) {
                Option::Some((glyph, i3)) => match read_color(data, i3) {
                    Option::Some((color, i4)) => match read_str(data, i4) {
                        Option::Some((name, i5)) => Option::Some(((x, y, glyph, color, name), i5)),
                        Option::None => Option::None,
                    },
                    Option::None => Option::None,
                },
                Option::None => Option::None,
            },
            Option::None => Option::None,
        },
        Option::None => Option::None,
    }
}

#[verifier::rlimit(60)]
#[verifier::spinoff_prover]
fn read_obj_b(data: &Vec<i64>, i: usize) -> (r: Option<
    ((bool, bool, Option<Fighter>, Option<Ai>), usize),
>)
    requires
        i <= data@.len(),
    ensures
        (match r {
            Option::Some(p) => i <= p.1 <= data@.len() && dec_obj_b(data@.skip(i as int))
                == Option::Some(
                (
                    (
                        p.0.0,
                        p.0.1,
                        p.0.2,
                        match p.0.3 {
                            Option::Some(a) => Option::Some(ai_view(a)),
                            Option::None => Option::None,
                        },
                    ),
                    data@.skip(p.1 as int),
                ),
            ),
            Option::None => dec_obj_b(data@.skip(i as int)) is None,
        }),
{
    match read_bool(data, i) {
        Option::Some((blocks, j1)) => match read_bool(data, j1) {
            Option::Some((alive, j2)) => {
                let fighter_part: Option<(Option<Fighter>, usize)> = match read_token(data, j2) {
                    Option::Some((t, j3)) => {
                        if t == 0 {
                            Option::Some((Option::None, j3))
                        } else if t == 1 {
                            match read_fighter(data, j3) {
                                Option::Some((f, j4)) => Option::Some((Option::Some(f), j4)),
                                Option::None => Option::None,
                            }
                        } else {
                            Option::None
                        }
                    },
                    Option::None => Option::None,
                };
                match fighter_part {
                    Option::Some((fighter, j5)) => {
                        let ai_part: Option<(Option<Ai>, usize)> = match read_token(data, j5) {
                            Option::Some((t, j6)) => {
                                if t == 0 {
                                    Option::Some((Option::None, j6))
                                } else if t == 1 {
                                    match read_token(data, j6) {
                                        Option::Some((n, j7)) => {
                                            if n >= 0 {
                                                match read_i32s(data, j7, n as u64) {
                                                    Option::Some((cs, j8)) => {
                                                        let ai = ai_from_counters(&cs);
                                                        Option::Some((Option::Some(ai), j8))
                                                    },
                                                    Option::None => Option::None,
                                                }
                                            } else {
                                                Option::None
                                            }
                                        },
                                        Option::None => Option::None,
                                    }
                                } else {
                                    Option::None
                                }
                            },
                            Option::None => Option::None,
                        };
                        match ai_part {
                            Option::Some((ai, j9)) => Option::Some(
                                ((blocks, alive, fighter, ai), j9),
                            ),
                            Option::None => Option::None,
                        }
                    },
                    Option::None => Option::None,
                }
            },
            Option::None => Option::None,
        },
        Option::None => Option::None,
    }
}

fn read_obj_c(data: &Vec<i64>, i: usize) -> (r: Option<
    ((Option<Item>, Option<Equipment>, bool, i32), usize),
>)
    requires
        i <= data@.len(),
    ensures
        (match r {
            Option::Some(p) => i <= p.1 <= data@.len() && dec_obj_c(data@.skip(i as int))
                == Option::Some((p.0, data@.skip(p.1 as int))),
            Option::None => dec_obj_c(data@.skip(i as int)) is None,
        }),
{
    let item_part: Option<(Option<Item>, usize)> = match read_token(data, i) {
        Option::Some((t, k1)) => {
            if t == 0 {
                Option::Some((Option::None, k1))
            } else if t == 1 {
                match read_item_tag(data, k1) {
                    Option::Some((it, k2)) => Option::Some((Option::Some(it), k2)),
                    Option::None => Option::None,
                }
            } else {
                Option::None
            }
        },
        Option::None => Option::None,
    };
    match item_part {
        Option::Some((item, k2)) => {
            let eq_part: Option<(Option<Equipment>, usize)> = match read_token(data, k2) {
                Option::Some((t, k3)) => {
                    if t == 0 {
                        Option::Some((Option::None, k3))
                    } else if t == 1 {
                        match read_equipment(data, k3) {
                            Option::Some((e, k4)) => Option::Some((Option::Some(e), k4)),
                            Option::None => Option::None,
                        }
                    } else {
                        Option::None
                    }
                },
                Option::None => Option::None,
            };
            match eq_part {
                Option::Some((equipment, k4)) => match read_bool(data, k4) {
                    Option::Some((always_visible, k5)) => match read_i32(data, k5) {
                        Option::Some((level, k6)) => Option::Some(
                            ((item, equipment, always_visible, level), k6),
                        ),
                        Option::None => Option::None,
                    },
                    Option::None => Option::None,
                },
                Option::None => Option::None,
            }
        },
        Option::None => Option::None,
    }
}

#[verifier::spinoff_prover]
fn read_obj(data: &Vec<i64>, i: usize) -> (r: Option<(Object, usize)>)
    requires
        i <= data@.len(),
    ensures
        (match r {
            Option::Some(p) => i <= p.1 <= data@.len() && dec_obj(data@.skip(i as int))
                == Option::Some((obj_view(p.0), data@.skip(p.1 as int))),
            Option::None => dec_obj(data@.skip(i as int)) is None,
        }),
{
    match read_obj_a(data, i) {
        Option::Some((a, i5)) => match read_obj_b(data, i5) {
            Option::Some((b, i9)) => match read_obj_c(data, i9) {
                Option::Some((c, k6)) => {
                    let o = Object {
                        x: a.0,
                        y: a.1,
                        glyph: a.2,
                        color: a.3,
                        name: a.4,
                        blocks: b.0,
                        alive: b.1,
                        fighter: b.2,
                        ai: b.3,
                        item: c.0,
                        equipment: c.1,
                        always_visible: c.2,
                        level: c.3,
                    };
                    proof {
                        assert(dec_obj(data@.skip(i as int)) matches Option::Some(q) && q.0
                            =~= obj_view(o) && q.1 == data@.skip(k6 as int));
                    }
                    Option::Some((o, k6))
                },
                Option::None => Option::None,
            },
            Option::None => Option::None,
        },
        Option::None => Option::None,
    }
}

fn read_tile(data: &Vec<i64>, i: usize) -> (r: Option<(Tile, usize)>)
    requires
        i <= data@.len(),
    ensures
        (match r {
            Option::Some(p) => i <= p.1 <= data@.len() && dec_tile(data@.skip(i as int))
                == Option::Some((p.0, data@.skip(p.1 as int))),
            Option::None => dec_tile(data@.skip(i as int)) is None,
        }),
{
    match read_bool(data, i) {
        Option::Some((blocked, i1)) => match read_bool(data, i1) {
            Option::Some((explored, i2)) => match read_bool(data, i2) {
                Option::Some((block_sight, i3)) => Option::Some(
                    (Tile { blocked, explored, block_sight }, i3),
                ),
                Option::None => Option::None,
            },
            Option::None => Option::None,
        },
        Option::None => Option::None,
    }
}

fn read_tiles(data: &Vec<i64>, i: usize, n: u64) -> (r: Option<(Vec<Tile>, usize)>)
    requires
        i <= data@.len(),
    ensures
        (match r {
            Option::Some(p) => i <= p.1 <= data@.len() && dec_list_n(
                data@.skip(i as int),
                n as int,
                |q: Seq<i64>| dec_tile(q),
            ) == Option::Some((p.0@, data@.skip(p.1 as int))),
            Option::None => dec_list_n(data@.skip(i as int), n as int, |q: Seq<i64>| dec_tile(q))
                is None,
        }),
    decreases n,
{
    if n == 0 {
        Option::Some((Vec::new(), i))
    } else {
        match read_tile(data, i) {
            Option::Some((t, j)) => match read_tiles(data, j, n - 1) {
                Option::Some((mut ts, k)) => {
                    ts.insert(0, t);
                    proof {
                        assert(ts@ =~= seq![t] + ts@.drop_first());
                    }
                    Option::Some((ts, k))
                },
                Option::None => Option::None,
            },
            Option::None => Option::None,
        }
    }
}

fn read_col(data: &Vec<i64>, i: usize) -> (r: Option<(Vec<Tile>, usize)>)
    requires
        i <= data@.len(),
    ensures
        (match r {
            Option::Some(p) => i <= p.1 <= data@.len() && dec_list(
                data@.skip(i as int),
                |q: Seq<i64>| dec_tile(q),
            ) == Option::Some((p.0@, data@.skip(p.1 as int))),
            Option::None => dec_list(data@.skip(i as int), |q: Seq<i64>| dec_tile(q)) is None,
        }),
{
    match read_token(data, i) {
        Option::Some((n, j)) => {
            if n >= 0 {
                read_tiles(data, j, n as u64)
            } else {
                Option::None
            }
        },
        Option::None => Option::None,
    }
}

fn read_cols(data: &Vec<i64>, i: usize, n: u64) -> (r: Option<(Vec<Vec<Tile>>, usize)>)
    requires
        i <= data@.len(),
    ensures
        (match r {
            Option::Some(p) => i <= p.1 <= data@.len() && dec_list_n(
                data@.skip(i as int),
                n as int,
                |q: Seq<i64>| dec_list(q, |w: Seq<i64>| dec_tile(w)),
            ) == Option::Some(
                (p.0@.map_values(|c: Vec<Tile>| c@), data@.skip(p.1 as int)),
            ),
            Option::None => dec_list_n(
                data@.skip(i as int),
                n as int,
                |q: Seq<i64>| dec_list(q, |w: Seq<i64>| dec_tile(w)),
            ) is None,
        }),
    decreases n,
{
    if n == 0 {
        let out: Vec<Vec<Tile>> = Vec::new();
        proof {
            assert(out@.map_values(|c: Vec<Tile>| c@) =~= Seq::<Seq<Tile>>::empty());
        }
        Option::Some((out, i))
    } else {
        match read_col(data, i) {
            Option::Some((col, j)) => match read_cols(data, j, n - 1) {
                Option::Some((mut cols, k)) => {
                    cols.insert(0, col);
                    proof {
                        assert(cols@.map_values(|c: Vec<Tile>| c@) =~= seq![col@]
                            + cols@.drop_first().map_values(|c: Vec<Tile>| c@));
                    }
                    Option::Some((cols, k))
                },
                Option::None => Option::None,
            },
            Option::None => Option::None,
        }
    }
}

fn read_msg(data: &Vec<i64>, i: usize) -> (r: Option<((String, Color), usize)>)
    requires
        i <= data@.len(),
    ensures
        (match r {
            Option::Some(p) => i <= p.1 <= data@.len() && dec_msg(data@.skip(i as int))
                == Option::Some(((p.0.0@, p.0.1), data@.skip(p.1 as int))),
            Option::None => dec_msg(data@.skip(i as int)) is None,
        }),
{
    match read_str(data, i) {
        Option::Some((text, i1)) => match read_color(data, i1) {
            Option::Some((color, i2)) => Option::Some(((text, color), i2)),
            Option::None => Option::None,
        },
        Option::None => Option::None,
    }
}

fn read_msgs(data: &Vec<i64>, i: usize, n: u64) -> (r: Option<(Vec<(String, Color)>, usize)>)
    requires
        i <= data@.len(),
    ensures
        (match r {
            Option::Some(p) => i <= p.1 <= data@.len() && dec_list_n(
                data@.skip(i as int),
                n as int,
                |q: Seq<i64>| dec_msg(q),
            ) == Option::Some(
                (
                    p.0@.map_values(|m: (String, Color)| (m.0@, m.1)),
                    data@.skip(p.1 as int),
                ),
            ),
            Option::None => dec_list_n(data@.skip(i as int), n as int, |q: Seq<i64>| dec_msg(q))
                is None,
        }),
    decreases n,
{
    if n == 0 {
        let out: Vec<(String, Color)> = Vec::new();
        proof {
            assert(out@.map_values(|m: (String, Color)| (m.0@, m.1)) =~= Seq::<
                (Seq<char>, Color),
            >::empty());
        }
        Option::Some((out, i))
    } else {
        match read_msg(data, i) {
            Option::Some((m, j)) => match read_msgs(data, j, n - 1) {
                Option::Some((mut ms, k)) => {
                    ms.insert(0, m);
                    proof {
                        assert(ms@.map_values(|q: (String, Color)| (q.0@, q.1)) =~= seq![
                            (ms@[0].0@, ms@[0].1),
                        ] + ms@.drop_first().map_values(|q: (String, Color)| (q.0@, q.1)));
                    }
                    Option::Some((ms, k))
                },
                Option::None => Option::None,
            },
            Option::None => Option::None,
        }
    }
}

fn read_objs(data: &Vec<i64>, i: usize, n: u64) -> (r: Option<(Vec<Object>, usize)>)
    requires
        i <= data@.len(),
    ensures
        (match r {
            Option::Some(p) => i <= p.1 <= data@.len() && dec_list_n(
                data@.skip(i as int),
                n as int,
                |q: Seq<i64>| dec_obj(q),
            ) == Option::Some((objs_view(p.0@), data@.skip(p.1 as int))),
            Option::None => dec_list_n(data@.skip(i as int), n as int, |q: Seq<i64>| dec_obj(q))
                is None,
        }),
    decreases n,
{
    if n == 0 {
        let out: Vec<Object> = Vec::new();
        proof {
            assert(objs_view(out@) =~= Seq::<ObjectV>::empty());
        }
        Option::Some((out, i))
    } else {
        match read_obj(data, i) {
            Option::Some((o, j)) => match read_objs(data, j, n - 1) {
                Option::Some((mut os, k)) => {
                    os.insert(0, o);
                    proof {
                        assert(objs_view(os@) =~= seq![obj_view(os@[0])] + objs_view(
                            os@.drop_first(),
                        ));
                    }
                    Option::Some((os, k))
                },
                Option::None => Option::None,
            },
            Option::None => Option::None,
        }
    }
}

/// Reconstruct a session from its token stream. Succeeds exactly when
/// the stream is a complete encoding of a session, and then reproduces
/// that session: `lemma_codec_round_trip` ties this to `encode_session`.
#[verifier::rlimit(100)]
#[verifier::spinoff_prover]
pub fn decode_session(data: &Vec<i64>) -> (r: Option<(Game, Vec<Object>)>)
    ensures
        (match dec_session(data@) {
            Option::Some(p) => if p.1.len() == 0 {
                r matches Option::Some(q) && session_view(q.0, q.1@) == p.0
            } else {
                r is None
            },
            Option::None => r is None,
        }),
{
    let map_part: Option<(Vec<Vec<Tile>>, usize)> = match read_token(data, 0) {
        Option::Some((n, j)) => {
            if n >= 0 {
                read_cols(data, j, n as u64)
            } else {
                Option::None
            }
        },
        Option::None => Option::None,
    };
    let (map, i1) = match map_part {
        Option::Some(p) => p,
        Option::None => {
            return Option::None;
        },
    };
    let msgs_part: Option<(Vec<(String, Color)>, usize)> = match read_token(data, i1) {
        Option::Some((n, j)) => {
            if n >= 0 {
                read_msgs(data, j, n as u64)
            } else {
                Option::None
            }
        },
        Option::None => Option::None,
    };
    let (msg_list, i2) = match msgs_part {
        Option::Some(p) => p,
        Option::None => {
            return Option::None;
        },
    };
    let inv_part: Option<(Vec<Object>, usize)> = match read_token(data, i2) {
        Option::Some((n, j)) => {
            if n >= 0 {
                read_objs(data, j, n as u64)
            } else {
                Option::None
            }
        },
        Option::None => Option::None,
    };
    let (inventory, i3) = match inv_part {
        Option::Some(p) => p,
        Option::None => {
            return Option::None;
        },
    };
    let depth_part: Option<(u32, usize)> = match read_token(data, i3) {
        Option::Some((d, j)) => {
            if 0 <= d && d <= u32::MAX as i64 {
                Option::Some((d as u32, j))
            } else {
                Option::None
            }
        },
        Option::None => Option::None,
    };
    let (dungeon_level, i4) = match depth_part {
        Option::Some(p) => p,
        Option::None => {
            return Option::None;
        },
    };
    let objs_part: Option<(Vec<Object>, usize)> = match read_token(data, i4) {
        Option::Some((n, j)) => {
            if n >= 0 {
                read_objs(data, j, n as u64)
            } else {
                Option::None
            }
        },
        Option::None => Option::None,
    };
    let (objects, i5) = match objs_part {
        Option::Some(p) => p,
        Option::None => {
            return Option::None;
        },
    };
    if i5 != data.len() {
        proof {
            assert(data@.skip(i5 as int).len() != 0);
        }
        return Option::None;
    }
    let mut messages = Messages::new();
    let mut rest = msg_list;
    let ghost msg_view = rest@.map_values(|m: (String, Color)| (m.0@, m.1));
    while rest.len() > 0
        invariant
            messages@.map_values(|m: (String, Color)| (m.0@, m.1)) + rest@.map_values(
                |m: (String, Color)| (m.0@, m.1),
            ) =~= msg_view,
        decreases rest@.len(),
    {
        let entry = rest.remove(0);
        let (text, color) = entry;
        messages.add(text, color);
        proof {
            assert(messages@.map_values(|m: (String, Color)| (m.0@, m.1)) + rest@.map_values(
                |m: (String, Color)| (m.0@, m.1),
            ) =~= msg_view);
        }
    }
    let game = Game { map, messages, inventory, dungeon_level };
    proof {
        assert(data@.skip(0) =~= data@);
        assert(data@.skip(i5 as int).len() == 0);
        match dec_session(data@) {
            Option::Some(p) => {
                assert(session_view(game, objects@) =~= p.0);
            },
            Option::None => {
                assert(false);
            },
        }
    }
    Option::Some((game, objects))
}

} // verus!
