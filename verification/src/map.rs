use vstd::prelude::*;
use vstd::pervasive::VecAdditionalExecFns;

use crate::{math_max, math_min};

use crate::color;
use crate::item::{Equipment, Item, Slot};
use crate::monster::{orc_stats, troll_stats, bandit_stats, warrior_stats};
use crate::monster_ai::Ai;
use crate::object::{
    from_dungeon_level, is_blocked, is_player, object_ok, table_value, DeathCallback, Fighter,
    Object, Transition,
};
use crate::rng::{rand_range_i32, rand_upto_u32, sum_weights, weighted_pick};

verus! {

pub const MAP_WIDTH: i32 = 80;
pub const MAP_HEIGHT: i32 = 43;
pub const ROOM_MAX_SIZE: i32 = 10;
pub const ROOM_MIN_SIZE: i32 = 6;
pub const MAX_ROOMS: i32 = 30;

/// One grid cell. All tiles start as walls; the generator carves rooms and
/// corridors to empty. `explored` flips to true once the tile has been seen
/// and never flips back.
#[derive(Clone, Copy, Debug, PartialEq, Eq, Structural)]
pub struct Tile {
    pub blocked: bool,
    pub explored: bool,
    pub block_sight: bool,
}

impl Tile {
    pub open spec fn empty_spec() -> Tile {
        Tile { blocked: false, explored: false, block_sight: false }
    }

    pub open spec fn wall_spec() -> Tile {
        Tile { blocked: true, explored: false, block_sight: true }
    }

    pub fn empty() -> (t: Tile)
        ensures
            t == Tile::empty_spec(),
    {
        Tile { blocked: false, explored: false, block_sight: false }
    }

    pub fn wall() -> (t: Tile)
        ensures
            t == Tile::wall_spec(),
    {
        Tile { blocked: true, explored: false, block_sight: true }
    }
}

/// The level grid, indexed `[x][y]`.
pub type GameMap = Vec<Vec<Tile>>;

/// The grid has exactly `MAP_WIDTH` columns of `MAP_HEIGHT` tiles.
pub open spec fn map_wf(m: Seq<Vec<Tile>>) -> bool {
    &&& m.len() == MAP_WIDTH
    &&& forall|x: int| 0 <= x < m.len() ==> (#[trigger] m[x])@.len() == MAP_HEIGHT
}

pub open spec fn on_map(x: int, y: int) -> bool {
    0 <= x < MAP_WIDTH && 0 <= y < MAP_HEIGHT
}

/// The outermost ring of the grid.
pub open spec fn on_border(x: int, y: int) -> bool {
    x == 0 || x == MAP_WIDTH - 1 || y == 0 || y == MAP_HEIGHT - 1
}

/// Every tile is either still an untouched wall or carved to empty; in
/// particular no fresh tile is marked explored.
pub open spec fn tiles_wall_or_empty(m: Seq<Vec<Tile>>) -> bool {
    forall|x: int, y: int|
        on_map(x, y) ==> #[trigger] m[x]@[y] == Tile::wall_spec() || m[x]@[y]
            == Tile::empty_spec()
}

/// The border of the grid is solid wall.
pub open spec fn border_walls(m: Seq<Vec<Tile>>) -> bool {
    forall|x: int, y: int|
        on_map(x, y) && on_border(x, y) ==> #[trigger] m[x]@[y] == Tile::wall_spec()
}

/// An axis-aligned room rectangle; `x1/y1` is the top-left corner and
/// `x2/y2` the bottom-right corner (both inclusive for the overlap test).
#[derive(Clone, Copy, Debug, PartialEq, Eq, Structural)]
pub struct Rect {
    pub x1: i32,
    pub y1: i32,
    pub x2: i32,
    pub y2: i32,
}

/// Inclusive-bounds intersection of two rectangles.
pub open spec fn rects_intersect(a: Rect, b: Rect) -> bool {
    a.x1 <= b.x2 && a.x2 >= b.x1 && a.y1 <= b.y2 && a.y2 >= b.y1
}

impl Rect {
    pub fn new(x: i32, y: i32, w: i32, h: i32) -> (r: Rect)
        requires
            i32::MIN <= x + w <= i32::MAX,
            i32::MIN <= y + h <= i32::MAX,
        ensures
            r == (Rect { x1: x, y1: y, x2: (x + w) as i32, y2: (y + h) as i32 }),
    {
        Rect { x1: x, y1: y, x2: x + w, y2: y + h }
    }

    pub open spec fn center_spec(self) -> (int, int) {
        ((self.x1 + self.x2) / 2, (self.y1 + self.y2) / 2)
    }

    /// Centroid of the rectangle, the anchor for corridors and the stairs.
    pub fn center(&self) -> (c: (i32, i32))
        requires
            0 <= self.x1 <= self.x2,
            0 <= self.y1 <= self.y2,
            self.x1 + self.x2 <= i32::MAX,
            self.y1 + self.y2 <= i32::MAX,
        ensures
            c.0 == self.center_spec().0,
            c.1 == self.center_spec().1,
            self.x1 <= c.0 <= self.x2,
            self.y1 <= c.1 <= self.y2,
    {
        let center_x = (self.x1 + self.x2) / 2;
        let center_y = (self.y1 + self.y2) / 2;
        (center_x, center_y)
    }

    /// True exactly when the two rectangles overlap, borders included.
    pub fn intersects_with(&self, other: &Rect) -> (r: bool)
        ensures
            r == rects_intersect(*self, *other),
    {
        (self.x1 <= other.x2) && (self.x2 >= other.x1) && (self.y1 <= other.y2) && (self.y2
            >= other.y1)
    }
}

/// The visibility grid for the current origin, computed by the display
/// layer's line-of-sight collaborator and handed to the core as plain data.
pub struct Fov {
    pub grid: Vec<Vec<bool>>,
}

impl Fov {
    pub open spec fn wf(&self) -> bool {
        &&& self.grid@.len() == MAP_WIDTH
        &&& forall|x: int|
            0 <= x < self.grid@.len() ==> (#[trigger] self.grid@[x])@.len() == MAP_HEIGHT
    }

    pub open spec fn visible(&self, x: int, y: int) -> bool {
        on_map(x, y) && self.grid@[x]@[y]
    }

    /// Whether a coordinate lies in the current visible set; coordinates
    /// off the map are never visible.
    pub fn is_in_fov(&self, x: i32, y: i32) -> (r: bool)
        requires
            self.wf(),
        ensures
            r == self.visible(x as int, y as int),
    {
        if 0 <= x && x < MAP_WIDTH && 0 <= y && y < MAP_HEIGHT {
            self.grid[x as usize][y as usize]
        } else {
            false
        }
    }
}

/// One tile after the visible set has been applied to it: `explored` is
/// raised when the tile is visible and is never lowered.
pub open spec fn explore(t: Tile, visible: bool) -> Tile {
    Tile { explored: t.explored || visible, ..t }
}

/// Marking a tile explored is idempotent, and `explored` never transitions
/// back to false: a tile once explored stays explored under any later
/// application of a visible set.
pub proof fn lemma_explore_idempotent(t: Tile, visible: bool)
    ensures
        explore(explore(t, visible), visible) == explore(t, visible),
        t.explored ==> explore(t, visible).explored,
        explore(t, visible).blocked == t.blocked,
        explore(t, visible).block_sight == t.block_sight,
{
}

/// Raise `explored` on every currently visible tile; nothing else changes.
pub fn update_explored(map: &mut GameMap, fov: &Fov)
    requires
        map_wf(old(map)@),
        fov.wf(),
    ensures
        map_wf(final(map)@),
        forall|x: int, y: int|
            on_map(x, y) ==> final(map)@[x]@[y] == explore(
                old(map)@[x]@[y],
                fov.visible(x, y),
            ),
{
    let mut x: usize = 0;
    while x < MAP_WIDTH as usize
        invariant
            map_wf(map@),
            fov.wf(),
            x <= MAP_WIDTH,
            forall|i: int, y: int|
                0 <= i < x && 0 <= y < MAP_HEIGHT ==> map@[i]@[y] == explore(
                    old(map)@[i]@[y],
                    fov.visible(i, y),
                ),
            forall|i: int, y: int|
                x <= i < MAP_WIDTH && 0 <= y < MAP_HEIGHT ==> map@[i]@[y] == old(map)@[i]@[y],
        decreases MAP_WIDTH - x,
    {
        let mut col = map.remove(x);
        let ghost old_col = col;
        let mut y: usize = 0;
        while y < MAP_HEIGHT as usize
            invariant
                col@.len() == MAP_HEIGHT,
                fov.wf(),
                y <= MAP_HEIGHT,
                x < MAP_WIDTH,
                forall|j: int|
                    0 <= j < y ==> col@[j] == explore(old_col@[j], fov.visible(x as int, j)),
                forall|j: int| y <= j < MAP_HEIGHT ==> col@[j] == old_col@[j],
            decreases MAP_HEIGHT - y,
        {
            let t = col[y];
            let vis = fov.is_in_fov(x as i32, y as i32);
            if vis {
                col.set(y, Tile { explored: true, ..t });
            }
            y = y + 1;
        }
        map.insert(x, col);
        x = x + 1;
    }
}

/// A room rectangle that sits on the map with walls left around its
/// interior.
pub open spec fn room_in_bounds(r: Rect) -> bool {
    &&& 0 <= r.x1
    &&& r.x1 + 2 <= r.x2
    &&& r.x2 < MAP_WIDTH
    &&& 0 <= r.y1
    &&& r.y1 + 2 <= r.y2
    &&& r.y2 < MAP_HEIGHT
}

/// The strict interior of a room: its border stays as wall, separating
/// rooms that touch.
pub open spec fn in_room_interior(r: Rect, x: int, y: int) -> bool {
    r.x1 < x < r.x2 && r.y1 < y < r.y2
}

/// The whole interior of a room has been carved to empty tiles.
pub open spec fn room_carved(m: Seq<Vec<Tile>>, r: Rect) -> bool {
    forall|x: int, y: int| in_room_interior(r, x, y) ==> #[trigger] m[x]@[y] == Tile::empty_spec()
}

/// Every accepted room's interior has been carved.
pub open spec fn rooms_carved(m: Seq<Vec<Tile>>, rooms: Seq<Rect>) -> bool {
    forall|i: int| 0 <= i < rooms.len() ==> room_carved(m, #[trigger] rooms[i])
}

/// One horizontal corridor leg, endpoints included.
pub open spec fn on_h_leg(x: int, y: int, xa: int, xb: int, yy: int) -> bool {
    y == yy && crate::math_min(xa, xb) <= x <= crate::math_max(xa, xb)
}

/// One vertical corridor leg, endpoints included.
pub open spec fn on_v_leg(x: int, y: int, ya: int, yb: int, xx: int) -> bool {
    x == xx && crate::math_min(ya, yb) <= y <= crate::math_max(ya, yb)
}

/// The step from `m0` to `m1` carved exactly a one-tile-wide L corridor
/// between the two points: a horizontal and a vertical leg sharing a
/// corner, one axis traversed first, its tiles now empty and every other
/// tile untouched.
pub open spec fn carved_l_corridor(
    m0: Seq<Vec<Tile>>,
    m1: Seq<Vec<Tile>>,
    px: int,
    py: int,
    nx: int,
    ny: int,
) -> bool {
    ||| (forall|x: int, y: int|
        on_map(x, y) ==> #[trigger] m1[x]@[y] == (if on_h_leg(x, y, px, nx, py) || on_v_leg(
            x,
            y,
            py,
            ny,
            nx,
        ) {
            Tile::empty_spec()
        } else {
            m0[x]@[y]
        }))
    ||| (forall|x: int, y: int|
        on_map(x, y) ==> #[trigger] m1[x]@[y] == (if on_v_leg(x, y, py, ny, px) || on_h_leg(
            x,
            y,
            px,
            nx,
            ny,
        ) {
            Tile::empty_spec()
        } else {
            m0[x]@[y]
        }))
}

/// Carve a room's interior to empty tiles; the border and everything
/// else keeps its tile.
pub fn create_room(room: Rect, map: &mut GameMap)
    requires
        map_wf(old(map)@),
        room_in_bounds(room),
    ensures
        map_wf(final(map)@),
        forall|x: int, y: int|
            on_map(x, y) ==> final(map)@[x]@[y] == (if in_room_interior(room, x, y) {
                Tile::empty_spec()
            } else {
                old(map)@[x]@[y]
            }),
{
    let mut x = room.x1 + 1;
    while x < room.x2
        invariant
            map_wf(map@),
            room_in_bounds(room),
            room.x1 < x <= room.x2,
            forall|i: int, j: int|
                on_map(i, j) ==> map@[i]@[j] == (if room.x1 < i < x && room.y1 < j < room.y2 {
                    Tile::empty_spec()
                } else {
                    old(map)@[i]@[j]
                }),
        decreases room.x2 - x,
    {
        let mut col = map.remove(x as usize);
        let ghost old_col = col;
        let mut y = room.y1 + 1;
        while y < room.y2
            invariant
                col@.len() == MAP_HEIGHT,
                room_in_bounds(room),
                room.y1 < y <= room.y2,
                forall|j: int|
                    0 <= j < MAP_HEIGHT ==> col@[j] == (if room.y1 < j < y {
                        Tile::empty_spec()
                    } else {
                        old_col@[j]
                    }),
            decreases room.y2 - y,
        {
            col.set(y as usize, Tile::empty());
            y = y + 1;
        }
        map.insert(x as usize, col);
        x = x + 1;
    }
}

/// Carve a one-tile-high horizontal corridor between two columns,
/// endpoints included.
pub fn create_h_tunnel(x1: i32, x2: i32, y: i32, map: &mut GameMap)
    requires
        map_wf(old(map)@),
        0 <= x1 < MAP_WIDTH,
        0 <= x2 < MAP_WIDTH,
        0 <= y < MAP_HEIGHT,
    ensures
        map_wf(final(map)@),
        forall|i: int, j: int|
            on_map(i, j) ==> final(map)@[i]@[j] == (
            if crate::math_min(x1 as int, x2 as int) <= i <= crate::math_max(x1 as int, x2 as int)
                && j == y {
                Tile::empty_spec()
            } else {
                old(map)@[i]@[j]
            }),
{
    let lo = if x1 < x2 {
        x1
    } else {
        x2
    };
    let hi = if x1 < x2 {
        x2
    } else {
        x1
    };
    let mut x = lo;
    while x < hi + 1
        invariant
            map_wf(map@),
            lo == crate::math_min(x1 as int, x2 as int),
            hi == crate::math_max(x1 as int, x2 as int),
            0 <= lo <= hi < MAP_WIDTH,
            0 <= y < MAP_HEIGHT,
            lo <= x <= hi + 1,
            forall|i: int, j: int|
                on_map(i, j) ==> map@[i]@[j] == (if lo <= i < x && j == y {
                    Tile::empty_spec()
                } else {
                    old(map)@[i]@[j]
                }),
        decreases hi + 1 - x,
    {
        let mut col = map.remove(x as usize);
        col.set(y as usize, Tile::empty());
        map.insert(x as usize, col);
        x = x + 1;
    }
}

/// Carve a one-tile-wide vertical corridor between two rows, endpoints
/// included.
pub fn create_v_tunnel(y1: i32, y2: i32, x: i32, map: &mut GameMap)
    requires
        map_wf(old(map)@),
        0 <= y1 < MAP_HEIGHT,
        0 <= y2 < MAP_HEIGHT,
        0 <= x < MAP_WIDTH,
    ensures
        map_wf(final(map)@),
        forall|i: int, j: int|
            on_map(i, j) ==> final(map)@[i]@[j] == (
            if crate::math_min(y1 as int, y2 as int) <= j <= crate::math_max(y1 as int, y2 as int)
                && i == x {
                Tile::empty_spec()
            } else {
                old(map)@[i]@[j]
            }),
{
    let lo = if y1 < y2 {
        y1
    } else {
        y2
    };
    let hi = if y1 < y2 {
        y2
    } else {
        y1
    };
    let mut col = map.remove(x as usize);
    let ghost old_col = col;
    let mut y = lo;
    while y < hi + 1
        invariant
            col@.len() == MAP_HEIGHT,
            0 <= lo <= hi < MAP_HEIGHT,
            lo <= y <= hi + 1,
            forall|j: int|
                0 <= j < MAP_HEIGHT ==> col@[j] == (if lo <= j < y {
                    Tile::empty_spec()
                } else {
                    old_col@[j]
                }),
        decreases hi + 1 - y,
    {
        col.set(y as usize, Tile::empty());
        y = y + 1;
    }
    map.insert(x as usize, col);
}

/// Whether a candidate room overlaps any already accepted room.
pub fn rooms_overlap(rooms: &Vec<Rect>, candidate: &Rect) -> (b: bool)
    ensures
        b == exists|i: int|
            0 <= i < rooms@.len() && rects_intersect(*candidate, #[trigger] rooms@[i]),
{
    let mut i: usize = 0;
    while i < rooms.len()
        invariant
            i <= rooms@.len(),
            forall|j: int| 0 <= j < i ==> !rects_intersect(*candidate, #[trigger] rooms@[j]),
        decreases rooms@.len() - i,
    {
        if candidate.intersects_with(&rooms[i]) {
            return true;
        }
        i = i + 1;
    }
    false
}

/// The monster-count threshold table of the room placement policy.
pub open spec fn room_monster_count_table() -> Seq<Transition> {
    seq![
        Transition { level: 1, value: 2 },
        Transition { level: 4, value: 3 },
        Transition { level: 6, value: 5 },
    ]
}

/// The item-count threshold table of the room placement policy.
pub open spec fn room_item_count_table() -> Seq<Transition> {
    seq![Transition { level: 1, value: 1 }, Transition { level: 4, value: 2 }]
}

/// The troll spawn-weight table of the room placement policy.
pub open spec fn room_troll_table() -> Seq<Transition> {
    seq![
        Transition { level: 3, value: 15 },
        Transition { level: 5, value: 30 },
        Transition { level: 7, value: 60 },
    ]
}

pub open spec fn sword_weight_table() -> Seq<Transition> {
    seq![Transition { level: 4, value: 5 }]
}

pub open spec fn shield_weight_table() -> Seq<Transition> {
    seq![Transition { level: 8, value: 15 }]
}

pub open spec fn lightning_weight_table() -> Seq<Transition> {
    seq![Transition { level: 4, value: 25 }]
}

pub open spec fn fireball_weight_table() -> Seq<Transition> {
    seq![Transition { level: 6, value: 25 }]
}

pub open spec fn confuse_weight_table() -> Seq<Transition> {
    seq![Transition { level: 2, value: 10 }]
}

/// Depth gating of the room placement policy: the only monsters it draws
/// are orcs (always on its wheel) and trolls (only at depths where the
/// troll weight is positive), and each gear or scroll kind appears only
/// at depths where its own weight is positive; a zero-weight entry is
/// excluded without error.
pub open spec fn room_spawn_kind(o: Object, level: u32) -> bool {
    &&& (o.ai is Some ==> (o.name@ == "orc"@ || o.name@ == "troll"@))
    &&& (o.name@ == "troll"@ ==> table_value(room_troll_table(), level) > 0)
    &&& (o.item == Option::Some(Item::Sword) ==> table_value(sword_weight_table(), level) > 0)
    &&& (o.item == Option::Some(Item::Shield) ==> table_value(shield_weight_table(), level) > 0)
    &&& (o.item == Option::Some(Item::Lightning) ==> table_value(
        lightning_weight_table(),
        level,
    ) > 0)
    &&& (o.item == Option::Some(Item::Fireball) ==> table_value(fireball_weight_table(), level)
        > 0)
    &&& (o.item == Option::Some(Item::Confuse) ==> table_value(confuse_weight_table(), level)
        > 0)
}

/// What the placement policy may add to a room: a monster of one of the
/// known kinds with its fresh stat block, alive, blocking and running
/// `Basic` decisions, or an item entity carrying an item tag (gear
/// arrives unequipped). Everything lands strictly inside the room, on a
/// tile the map does not block, and only kinds the depth admits appear.
pub open spec fn spawned_entity(o: Object, room: Rect, m: Seq<Vec<Tile>>, level: u32) -> bool {
    &&& in_room_interior(room, o.x as int, o.y as int)
    &&& !m[o.x as int]@[o.y as int].blocked
    &&& spawned_core(o)
    &&& room_spawn_kind(o, level)
}

/// The room-independent part of `spawned_entity`; nothing the policy
/// spawns is ever the player or a stairs marker.
pub open spec fn spawned_core(o: Object) -> bool {
    &&& object_ok(o)
    &&& !is_player(o)
    &&& o.name@ != "stairs"@
    &&& o.level == 1
    &&& (o.ai is Some ==> {
        &&& o.ai == Option::Some(Ai::Basic)
        &&& o.alive
        &&& o.blocks
        &&& o.item is None
        &&& o.equipment is None
        &&& {
            ||| o.fighter == Option::Some(orc_stats()) && o.name@ == "orc"@ && o.glyph == 'o'
            ||| o.fighter == Option::Some(troll_stats()) && o.name@ == "troll"@ && o.glyph
                == 'T'
            ||| o.fighter == Option::Some(bandit_stats()) && o.name@ == "bandit"@ && o.glyph
                == 'B'
            ||| o.fighter == Option::Some(warrior_stats()) && o.name@ == "warrior"@ && o.glyph
                == 'W'
        }
    })
    &&& (o.item is Some ==> {
        &&& !o.blocks
        &&& o.always_visible
        &&& o.fighter is None
        &&& o.ai is None
        &&& (match o.equipment {
            Option::Some(e) => !e.equipped,
            Option::None => true,
        })
        &&& (match o.item {
            Option::Some(Item::Heal) => o.name@ == "healing potion"@ && o.glyph == '!',
            Option::Some(Item::Lightning) => o.name@ == "scroll of lightning bolt"@ && o.glyph
                == '#',
            Option::Some(Item::Confuse) => o.name@ == "scroll of confusion"@ && o.glyph == '#',
            Option::Some(Item::Fireball) => o.name@ == "scroll of fireball"@ && o.glyph == '#',
            Option::Some(Item::Sword) => o.name@ == "sword"@ && o.glyph == '/',
            Option::Some(Item::Shield) => o.name@ == "shield"@ && o.glyph == '[',
            Option::None => true,
        })
    })
    &&& (o.ai is Some || o.item is Some)
}

/// A one-tile L corridor of carved tiles stands between the two rooms'
/// centroids: a horizontal and a vertical leg sharing a corner, one
/// axis having been traversed first.
pub open spec fn l_corridor_open(m: Seq<Vec<Tile>>, a: Rect, b: Rect) -> bool {
    let ax = a.center_spec().0;
    let ay = a.center_spec().1;
    let bx = b.center_spec().0;
    let by = b.center_spec().1;
    ||| (forall|x: int, y: int|
        on_map(x, y) && (on_h_leg(x, y, ax, bx, ay) || on_v_leg(x, y, ay, by, bx))
            ==> #[trigger] m[x]@[y] == Tile::empty_spec())
    ||| (forall|x: int, y: int|
        on_map(x, y) && (on_v_leg(x, y, ay, by, ax) || on_h_leg(x, y, ax, bx, by))
            ==> #[trigger] m[x]@[y] == Tile::empty_spec())
}

/// Every pair of consecutively accepted rooms is joined by such a
/// corridor.
pub open spec fn corridors_open(m: Seq<Vec<Tile>>, rooms: Seq<Rect>) -> bool {
    forall|i: int|
        0 <= i < rooms.len() - 1 ==> l_corridor_open(m, #[trigger] rooms[i], rooms[i + 1])
}

/// Carving more tiles never closes a corridor.
proof fn lemma_corridor_preserved(m0: Seq<Vec<Tile>>, m2: Seq<Vec<Tile>>, a: Rect, b: Rect)
    requires
        l_corridor_open(m0, a, b),
        forall|x: int, y: int|
            on_map(x, y) ==> #[trigger] m2[x]@[y] == m0[x]@[y] || m2[x]@[y]
                == Tile::empty_spec(),
    ensures
        l_corridor_open(m2, a, b),
{
    let ax = a.center_spec().0;
    let ay = a.center_spec().1;
    let bx = b.center_spec().0;
    let by = b.center_spec().1;
    if forall|x: int, y: int|
        on_map(x, y) && (on_h_leg(x, y, ax, bx, ay) || on_v_leg(x, y, ay, by, bx))
            ==> #[trigger] m0[x]@[y] == Tile::empty_spec() {
        assert forall|x: int, y: int|
            on_map(x, y) && (on_h_leg(x, y, ax, bx, ay) || on_v_leg(x, y, ay, by, bx)) implies
            #[trigger] m2[x]@[y] == Tile::empty_spec() by {
            assert(m0[x]@[y] == Tile::empty_spec());
        }
    } else {
        assert forall|x: int, y: int|
            on_map(x, y) && (on_v_leg(x, y, ay, by, ax) || on_h_leg(x, y, ax, bx, by)) implies
            #[trigger] m2[x]@[y] == Tile::empty_spec() by {
            assert(m0[x]@[y] == Tile::empty_spec());
        }
    }
}

/// Populate one room for the given depth: a depth-scaled number of
/// monsters, then a depth-scaled number of items, each kind drawn by
/// weighted choice and each placed on a uniformly random interior tile --
/// a placement whose tile is already blocked is skipped outright.
pub fn place_objects(room: Rect, map: &GameMap, objects: &mut Vec<Object>, level: u32)
    requires
        map_wf(map@),
        room_in_bounds(room),
    ensures
        final(objects)@.len() >= old(objects)@.len(),
        final(objects)@.len() <= old(objects)@.len() + table_value(
            room_monster_count_table(),
            level,
        ) + table_value(room_item_count_table(), level),
        forall|j: int|
            0 <= j < old(objects)@.len() ==> #[trigger] final(objects)@[j] == old(objects)@[j],
        forall|j: int|
            old(objects)@.len() <= j < final(objects)@.len() ==> spawned_entity(
                #[trigger] final(objects)@[j],
                room,
                map@,
                level,
            ),
{
    let mut monster_table: Vec<Transition> = Vec::new();
    monster_table.push(Transition { level: 1, value: 2 });
    monster_table.push(Transition { level: 4, value: 3 });
    monster_table.push(Transition { level: 6, value: 5 });
    let max_monsters = from_dungeon_level(monster_table.as_slice(), level);
    let num_monsters = rand_upto_u32(max_monsters);

    let mut troll_table: Vec<Transition> = Vec::new();
    troll_table.push(Transition { level: 3, value: 15 });
    troll_table.push(Transition { level: 5, value: 30 });
    troll_table.push(Transition { level: 7, value: 60 });
    let troll_chance = from_dungeon_level(troll_table.as_slice(), level);

    let mut monster_weights: Vec<u32> = Vec::new();
    monster_weights.push(80);
    monster_weights.push(troll_chance);
    proof {
        assert(monster_table@ =~= room_monster_count_table());
        assert(troll_table@ =~= room_troll_table());
        assert(troll_chance <= 60);
        assert(monster_weights@.drop_last() =~= seq![80u32]);
        assert(seq![80u32].drop_last() =~= Seq::<u32>::empty());
        assert(sum_weights(Seq::<u32>::empty()) == 0);
        assert(sum_weights(seq![80u32]) == 80);
        assert(sum_weights(monster_weights@) == 80 + troll_chance);
    }

    let mut k: u32 = 0;
    while k < num_monsters
        invariant
            map_wf(map@),
            room_in_bounds(room),
            monster_weights@.len() == 2,
            monster_weights@[0] == 80u32,
            monster_weights@[1] == troll_chance,
            troll_chance == table_value(room_troll_table(), level),
            sum_weights(monster_weights@) <= 140,
            sum_weights(monster_weights@) >= 80,
            k <= num_monsters,
            num_monsters <= table_value(room_monster_count_table(), level),
            objects@.len() >= old(objects)@.len(),
            objects@.len() <= old(objects)@.len() + k,
            forall|j: int|
                0 <= j < old(objects)@.len() ==> #[trigger] objects@[j] == old(objects)@[j],
            forall|j: int|
                old(objects)@.len() <= j < objects@.len() ==> spawned_entity(
                    #[trigger] objects@[j],
                    room,
                    map@,
                    level,
                ),
        decreases num_monsters - k,
    {
        let x = rand_range_i32(room.x1 + 1, room.x2);
        let y = rand_range_i32(room.y1 + 1, room.y2);
        let pick = weighted_pick(&monster_weights);
        let idx = pick.unwrap();
        let mut monster = if idx == 0 {
            let mut orc = Object::new(x, y, 'o', "orc", color::desaturated_green(), true);
            orc.fighter = Option::Some(
                Fighter {
                    base_max_hp: 20,
                    hp: 20,
                    base_defense: 0,
                    base_power: 4,
                    base_magic: 0,
                    xp: 35,
                    on_death: DeathCallback::Monster,
                },
            );
            orc.ai = Option::Some(Ai::Basic);
            orc
        } else {
            let mut troll = Object::new(x, y, 'T', "troll", color::darker_green(), true);
            troll.fighter = Option::Some(
                Fighter {
                    base_max_hp: 30,
                    hp: 30,
                    base_defense: 2,
                    base_power: 8,
                    base_magic: 0,
                    xp: 100,
                    on_death: DeathCallback::Monster,
                },
            );
            troll.ai = Option::Some(Ai::Basic);
            troll
        };
        if !is_blocked(x, y, map, objects) {
            monster.alive = true;
            proof {
                reveal_strlit("orc");
                reveal_strlit("troll");
                reveal_strlit("player");
                reveal_strlit("stairs");
                assert("orc"@.len() == 3 && "troll"@.len() == 5 && "player"@.len() == 6
                    && "stairs"@.len() == 6);
                if idx != 0 {
                    assert(monster_weights@[1] > 0);
                }
                assert(!map@[x as int]@[y as int].blocked);
                assert(spawned_entity(monster, room, map@, level));
            }
            objects.push(monster);
        }
        k = k + 1;
    }

    let mut item_table: Vec<Transition> = Vec::new();
    item_table.push(Transition { level: 1, value: 1 });
    item_table.push(Transition { level: 4, value: 2 });
    let max_items = from_dungeon_level(item_table.as_slice(), level);
    let num_items = rand_upto_u32(max_items);

    let mut sword_table: Vec<Transition> = Vec::new();
    sword_table.push(Transition { level: 4, value: 5 });
    let sword_chance = from_dungeon_level(sword_table.as_slice(), level);
    let mut shield_table: Vec<Transition> = Vec::new();
    shield_table.push(Transition { level: 8, value: 15 });
    let shield_chance = from_dungeon_level(shield_table.as_slice(), level);
    let mut lightning_table: Vec<Transition> = Vec::new();
    lightning_table.push(Transition { level: 4, value: 25 });
    let lightning_chance = from_dungeon_level(lightning_table.as_slice(), level);
    let mut fireball_table: Vec<Transition> = Vec::new();
    fireball_table.push(Transition { level: 6, value: 25 });
    let fireball_chance = from_dungeon_level(fireball_table.as_slice(), level);
    let mut confuse_table: Vec<Transition> = Vec::new();
    confuse_table.push(Transition { level: 2, value: 10 });
    let confuse_chance = from_dungeon_level(confuse_table.as_slice(), level);

    let mut item_weights: Vec<u32> = Vec::new();
    item_weights.push(sword_chance);
    item_weights.push(shield_chance);
    item_weights.push(35);
    item_weights.push(lightning_chance);
    item_weights.push(fireball_chance);
    item_weights.push(confuse_chance);
    proof {
        assert(item_table@ =~= room_item_count_table());
        assert(sword_table@ =~= sword_weight_table());
        assert(shield_table@ =~= shield_weight_table());
        assert(lightning_table@ =~= lightning_weight_table());
        assert(fireball_table@ =~= fireball_weight_table());
        assert(confuse_table@ =~= confuse_weight_table());
        assert(sword_chance <= 5 && shield_chance <= 15 && lightning_chance <= 25
            && fireball_chance <= 25 && confuse_chance <= 10);
        let w6 = item_weights@;
        let w5 = w6.drop_last();
        let w4 = w5.drop_last();
        let w3 = w4.drop_last();
        let w2 = w3.drop_last();
        let w1 = w2.drop_last();
        assert(w1.drop_last() =~= Seq::<u32>::empty());
        assert(sum_weights(w1.drop_last()) == 0);
        assert(sum_weights(w1) == sword_chance);
        assert(sum_weights(w2) == sum_weights(w1) + shield_chance);
        assert(sum_weights(w3) == sum_weights(w2) + 35);
        assert(sum_weights(w4) == sum_weights(w3) + lightning_chance);
        assert(sum_weights(w5) == sum_weights(w4) + fireball_chance);
        assert(sum_weights(w6) == sum_weights(w5) + confuse_chance);
    }

    let mut k2: u32 = 0;
    while k2 < num_items
        invariant
            map_wf(map@),
            room_in_bounds(room),
            item_weights@.len() == 6,
            item_weights@[0] == sword_chance,
            item_weights@[1] == shield_chance,
            item_weights@[2] == 35u32,
            item_weights@[3] == lightning_chance,
            item_weights@[4] == fireball_chance,
            item_weights@[5] == confuse_chance,
            sword_chance == table_value(sword_weight_table(), level),
            shield_chance == table_value(shield_weight_table(), level),
            lightning_chance == table_value(lightning_weight_table(), level),
            fireball_chance == table_value(fireball_weight_table(), level),
            confuse_chance == table_value(confuse_weight_table(), level),
            sum_weights(item_weights@) <= 115,
            sum_weights(item_weights@) >= 35,
            k2 <= num_items,
            num_items <= table_value(room_item_count_table(), level),
            objects@.len() >= old(objects)@.len(),
            objects@.len() <= old(objects)@.len() + table_value(
                room_monster_count_table(),
                level,
            ) + k2,
            forall|j: int|
                0 <= j < old(objects)@.len() ==> #[trigger] objects@[j] == old(objects)@[j],
            forall|j: int|
                old(objects)@.len() <= j < objects@.len() ==> spawned_entity(
                    #[trigger] objects@[j],
                    room,
                    map@,
                    level,
                ),
        decreases num_items - k2,
    {
        let x = rand_range_i32(room.x1 + 1, room.x2);
        let y = rand_range_i32(room.y1 + 1, room.y2);
        if !is_blocked(x, y, map, objects) {
            let pick = weighted_pick(&item_weights);
            let idx = pick.unwrap();
            let mut item_obj = if idx == 0 {
                let mut o = Object::new(x, y, '/', "sword", color::cyan(), false);
                o.item = Option::Some(Item::Sword);
                o.equipment = Option::Some(
                    Equipment {
                        slot: Slot::RightHand,
                        equipped: false,
                        max_hp_bonus: 0,
                        power_bonus: 3,
                        defense_bonus: 0,
                        magic_bonus: 0,
                    },
                );
                o
            } else if idx == 1 {
                let mut o = Object::new(x, y, '[', "shield", color::darker_orange(), false);
                o.item = Option::Some(Item::Shield);
                o.equipment = Option::Some(
                    Equipment {
                        slot: Slot::LeftHand,
                        equipped: false,
                        max_hp_bonus: 0,
                        power_bonus: 0,
                        defense_bonus: 1,
                        magic_bonus: 0,
                    },
                );
                o
            } else if idx == 2 {
                let mut o = Object::new(x, y, '!', "healing potion", color::violet(), false);
                o.item = Option::Some(Item::Heal);
                o
            } else if idx == 3 {
                let mut o = Object::new(
                    x,
                    y,
                    '#',
                    "scroll of lightning bolt",
                    color::light_yellow(),
                    false,
                );
                o.item = Option::Some(Item::Lightning);
                o
            } else if idx == 4 {
                let mut o = Object::new(x, y, '#', "scroll of fireball", color::orange(), false);
                o.item = Option::Some(Item::Fireball);
                o
            } else {
                let mut o = Object::new(x, y, '#', "scroll of confusion", color::pink(), false);
                o.item = Option::Some(Item::Confuse);
                o
            };
            item_obj.always_visible = true;
            proof {
                reveal_strlit("sword");
                reveal_strlit("shield");
                reveal_strlit("healing potion");
                reveal_strlit("scroll of lightning bolt");
                reveal_strlit("scroll of fireball");
                reveal_strlit("scroll of confusion");
                reveal_strlit("player");
                reveal_strlit("troll");
                reveal_strlit("stairs");
                assert("sword"@.len() == 5 && "shield"@.len() == 6 && "healing potion"@.len()
                    == 14 && "scroll of lightning bolt"@.len() == 24 && "scroll of fireball"@.len()
                    == 18 && "scroll of confusion"@.len() == 19 && "player"@.len() == 6
                    && "troll"@.len() == 5 && "stairs"@.len() == 6);
                assert("shield"@[0] != "player"@[0]);
                assert("sword"@[0] != "troll"@[0]);
                assert("shield"@[1] != "stairs"@[1]);
                assert(item_weights@[idx as int] > 0);
                assert(spawned_entity(item_obj, room, map@, level));
            }
            objects.push(item_obj);
        }
        k2 = k2 + 1;
    }
}

/// Everything the generator guarantees of a finished roster, relative
/// to the roster `base` it was handed: the entity at index 0 keeps all
/// its fields but now stands at the first room's centroid, every other
/// pre-existing entity is untouched, everything appended comes from the
/// placement policy, and exactly one stairs marker closes the roster at
/// the last room's centroid.
pub open spec fn generated_roster(s: Seq<Object>, base: Seq<Object>, rooms: Seq<Rect>) -> bool {
    &&& base.len() >= 1
    &&& s.len() >= base.len() + 1
    &&& rooms.len() >= 1
    &&& (s[0] == (Object { x: s[0].x, y: s[0].y, ..base[0] }))
    &&& s[0].x as int == rooms[0].center_spec().0
    &&& s[0].y as int == rooms[0].center_spec().1
    &&& on_map(s[0].x as int, s[0].y as int)
    &&& (forall|j: int| 1 <= j < base.len() ==> #[trigger] s[j] == base[j])
    &&& (forall|j: int| base.len() <= j < s.len() - 1 ==> spawned_core(#[trigger] s[j]))
    &&& (forall|j: int|
        base.len() <= j < s.len() - 1 ==> on_map((#[trigger] s[j]).x as int, s[j].y as int))
    &&& ({
        let st = s.last();
        &&& st.name@ == "stairs"@
        &&& st.glyph == '<'
        &&& st.always_visible
        &&& !st.blocks
        &&& !st.alive
        &&& st.fighter is None
        &&& st.ai is None
        &&& st.item is None
        &&& st.equipment is None
        &&& st.x as int == rooms.last().center_spec().0
        &&& st.y as int == rooms.last().center_spec().1
        &&& on_map(st.x as int, st.y as int)
        &&& !is_player(st)
    })
    &&& (forall|j: int| base.len() <= j < s.len() ==> !is_player(#[trigger] s[j]))
}

/// Everything one generated level guarantees: a well-formed grid whose
/// tiles are each still wall or carved to empty (so no fresh tile is
/// explored), solid walls all around the border, the accepted rooms in
/// bounds, pairwise non-overlapping and carved out, every room centroid
/// joined to the first by a walk over carved tiles, and the roster as
/// `generated_roster` states it, the player and the stairs each standing
/// on a carved tile.
pub open spec fn generated_level(
    m: Seq<Vec<Tile>>,
    s: Seq<Object>,
    base: Seq<Object>,
    rooms: Seq<Rect>,
) -> bool {
    &&& map_wf(m)
    &&& tiles_wall_or_empty(m)
    &&& border_walls(m)
    &&& rooms.len() >= 1
    &&& (forall|i: int| 0 <= i < rooms.len() ==> room_in_bounds(#[trigger] rooms[i]))
    &&& (forall|i: int, j: int|
        0 <= i < j < rooms.len() ==> !rects_intersect(#[trigger] rooms[i], #[trigger] rooms[j]))
    &&& rooms_carved(m, rooms)
    &&& corridors_open(m, rooms)
    &&& (forall|i: int|
        0 <= i < rooms.len() ==> reachable(
            m,
            rooms[0].center_spec().0,
            rooms[0].center_spec().1,
            (#[trigger] rooms[i]).center_spec().0,
            rooms[i].center_spec().1,
        ))
    &&& (forall|i: int, x: int, y: int|
        0 <= i < rooms.len() && #[trigger] in_room_interior(rooms[i], x, y) ==> reachable(
            m,
            rooms[0].center_spec().0,
            rooms[0].center_spec().1,
            x,
            y,
        ))
    &&& generated_roster(s, base, rooms)
    &&& m[s[0].x as int]@[s[0].y as int] == Tile::empty_spec()
    &&& m[s.last().x as int]@[s.last().y as int] == Tile::empty_spec()
}

/// Build one dungeon level: up to `MAX_ROOMS` random room candidates,
/// each accepted only when it overlaps no earlier room, carved and
/// populated, the first centered on the player, every later one joined
/// to its predecessor by an L-shaped corridor, and the stairs placed at
/// the last room's centroid. Returns the map and the accepted rooms; no
/// two returned rooms overlap.
pub fn build_level(objects: &mut Vec<Object>, level: u32) -> (res: (GameMap, Vec<Rect>))
    requires
        old(objects)@.len() >= 1,
    ensures
        generated_level(res.0@, final(objects)@, old(objects)@, res.1@),
{
    let mut map: GameMap = Vec::new();
    let mut cx: usize = 0;
    while cx < MAP_WIDTH as usize
        invariant
            map@.len() == cx,
            cx <= MAP_WIDTH,
            forall|i: int| 0 <= i < cx ==> (#[trigger] map@[i])@.len() == MAP_HEIGHT,
            forall|i: int, j: int|
                0 <= i < cx && 0 <= j < MAP_HEIGHT ==> #[trigger] map@[i]@[j]
                    == Tile::wall_spec(),
        decreases MAP_WIDTH - cx,
    {
        let col: Vec<Tile> = vec![Tile::wall(); MAP_HEIGHT as usize];
        map.push(col);
        cx = cx + 1;
    }

    let ghost base = old(objects)@;
    let ghost player0 = old(objects)@[0];
    let mut rooms: Vec<Rect> = Vec::new();
    let mut attempt: i32 = 0;
    while attempt < MAX_ROOMS
        invariant
            map_wf(map@),
            tiles_wall_or_empty(map@),
            border_walls(map@),
            rooms_carved(map@, rooms@),
            corridors_open(map@, rooms@),
            0 <= attempt,
            attempt > 0 ==> rooms@.len() >= 1,
            forall|i: int, j: int|
                0 <= i < j < rooms@.len() ==> !rects_intersect(
                    #[trigger] rooms@[i],
                    #[trigger] rooms@[j],
                ),
            forall|i: int| 0 <= i < rooms@.len() ==> room_in_bounds(#[trigger] rooms@[i]),
            forall|i: int|
                0 <= i < rooms@.len() ==> reachable(
                    map@,
                    rooms@[0].center_spec().0,
                    rooms@[0].center_spec().1,
                    (#[trigger] rooms@[i]).center_spec().0,
                    rooms@[i].center_spec().1,
                ),
            objects@.len() >= base.len(),
            base.len() >= 1,
            player0 == base[0],
            rooms@.len() == 0 ==> objects@ == base,
            rooms@.len() >= 1 ==> {
                &&& objects@[0] == (Object { x: objects@[0].x, y: objects@[0].y, ..player0 })
                &&& objects@[0].x as int == rooms@[0].center_spec().0
                &&& objects@[0].y as int == rooms@[0].center_spec().1
                &&& on_map(objects@[0].x as int, objects@[0].y as int)
            },
            forall|j: int| 1 <= j < base.len() ==> #[trigger] objects@[j] == base[j],
            forall|j: int|
                base.len() <= j < objects@.len() ==> spawned_core(#[trigger] objects@[j]),
            forall|j: int|
                base.len() <= j < objects@.len() ==> on_map(
                    (#[trigger] objects@[j]).x as int,
                    objects@[j].y as int,
                ),
            forall|j: int|
                base.len() <= j < objects@.len() ==> !is_player(#[trigger] objects@[j]),
        decreases MAX_ROOMS - attempt,
    {
        let w = rand_range_i32(ROOM_MIN_SIZE, ROOM_MAX_SIZE + 1);
        let h = rand_range_i32(ROOM_MIN_SIZE, ROOM_MAX_SIZE + 1);
        let x = rand_range_i32(0, MAP_WIDTH - w);
        let y = rand_range_i32(0, MAP_HEIGHT - h);
        let new_room = Rect::new(x, y, w, h);

        let failed = rooms_overlap(&rooms, &new_room);
        if !failed {
            carve_and_connect(new_room, &mut map, &mut rooms, objects, level, Ghost(base));
        }
        attempt = attempt + 1;
    }

    let last = rooms[rooms.len() - 1];
    let (last_x, last_y) = last.center();
    let mut stairs = Object::new(last_x, last_y, '<', "stairs", color::white(), false);
    stairs.always_visible = true;
    proof {
        reveal_strlit("stairs");
        reveal_strlit("player");
        assert("stairs"@[0] != "player"@[0]);
        let first = rooms@[0];
        assert(first.x1 + 1 <= (first.x1 + first.x2) / 2 <= first.x2 - 1) by (nonlinear_arith)
            requires
                first.x1 + 2 <= first.x2,
        ;
        assert(first.y1 + 1 <= (first.y1 + first.y2) / 2 <= first.y2 - 1) by (nonlinear_arith)
            requires
                first.y1 + 2 <= first.y2,
        ;
        assert(last.x1 + 1 <= (last.x1 + last.x2) / 2 <= last.x2 - 1) by (nonlinear_arith)
            requires
                last.x1 + 2 <= last.x2,
        ;
        assert(last.y1 + 1 <= (last.y1 + last.y2) / 2 <= last.y2 - 1) by (nonlinear_arith)
            requires
                last.y1 + 2 <= last.y2,
        ;
        assert(in_room_interior(first, first.center_spec().0, first.center_spec().1));
        assert(in_room_interior(last, last.center_spec().0, last.center_spec().1));
        assert(room_carved(map@, first));
        assert(room_carved(map@, last));
        let c0 = first.center_spec();
        assert forall|i: int, x: int, y: int|
            0 <= i < rooms@.len() && #[trigger] in_room_interior(rooms@[i], x, y) implies
            reachable(map@, c0.0, c0.1, x, y) by {
            let r = rooms@[i];
            assert(r.x1 + 1 <= (r.x1 + r.x2) / 2 <= r.x2 - 1) by (nonlinear_arith)
                requires
                    r.x1 + 2 <= r.x2,
            ;
            assert(r.y1 + 1 <= (r.y1 + r.y2) / 2 <= r.y2 - 1) by (nonlinear_arith)
                requires
                    r.y1 + 2 <= r.y2,
            ;
            let ci = r.center_spec();
            assert(in_room_interior(r, ci.0, ci.1));
            assert(room_carved(map@, r));
            assert forall|yy: int|
                math_min(ci.1, y) <= yy <= math_max(ci.1, y) implies passable(
                map@,
                ci.0,
                yy,
            ) by {
                assert(in_room_interior(r, ci.0, yy));
                assert(on_map(ci.0, yy));
                assert(map@[ci.0]@[yy] == Tile::empty_spec());
            }
            assert forall|xx: int|
                math_min(ci.0, x) <= xx <= math_max(ci.0, x) implies passable(
                map@,
                xx,
                y,
            ) by {
                assert(in_room_interior(r, xx, y));
                assert(on_map(xx, y));
                assert(map@[xx]@[y] == Tile::empty_spec());
            }
            lemma_l_path_v_first(map@, ci.0, ci.1, x, y);
            lemma_reachable_trans(map@, c0.0, c0.1, ci.0, ci.1, x, y);
        }
    }
    objects.push(stairs);
    (map, rooms)
}

/// Accept one candidate room: carve its interior, populate it, seat the
/// player at its centroid when it is the first room, and otherwise join
/// it to the previous room's centroid with an L-shaped corridor whose
/// first leg's axis is chosen at random.
#[verifier::rlimit(100)]
#[verifier::spinoff_prover]
fn carve_and_connect(
    new_room: Rect,
    map: &mut GameMap,
    rooms: &mut Vec<Rect>,
    objects: &mut Vec<Object>,
    level: u32,
    base: Ghost<Seq<Object>>,
)
    requires
        map_wf(old(map)@),
        tiles_wall_or_empty(old(map)@),
        border_walls(old(map)@),
        rooms_carved(old(map)@, old(rooms)@),
        corridors_open(old(map)@, old(rooms)@),
        room_in_bounds(new_room),
        forall|i: int, j: int|
            0 <= i < j < old(rooms)@.len() ==> !rects_intersect(
                #[trigger] old(rooms)@[i],
                #[trigger] old(rooms)@[j],
            ),
        forall|i: int| 0 <= i < old(rooms)@.len() ==> room_in_bounds(#[trigger] old(rooms)@[i]),
        forall|i: int|
            0 <= i < old(rooms)@.len() ==> !rects_intersect(new_room, #[trigger] old(rooms)@[i]),
        forall|i: int|
            0 <= i < old(rooms)@.len() ==> reachable(
                old(map)@,
                old(rooms)@[0].center_spec().0,
                old(rooms)@[0].center_spec().1,
                (#[trigger] old(rooms)@[i]).center_spec().0,
                old(rooms)@[i].center_spec().1,
            ),
        old(objects)@.len() >= base@.len(),
        base@.len() >= 1,
        old(rooms)@.len() == 0 ==> old(objects)@ == base@,
        old(rooms)@.len() >= 1 ==> ({
            &&& old(objects)@[0] == (Object {
                x: old(objects)@[0].x,
                y: old(objects)@[0].y,
                ..base@[0]
            })
            &&& old(objects)@[0].x as int == old(rooms)@[0].center_spec().0
            &&& old(objects)@[0].y as int == old(rooms)@[0].center_spec().1
            &&& on_map(old(objects)@[0].x as int, old(objects)@[0].y as int)
        }),
        forall|j: int| 1 <= j < base@.len() ==> #[trigger] old(objects)@[j] == base@[j],
        forall|j: int|
            base@.len() <= j < old(objects)@.len() ==> spawned_core(
                #[trigger] old(objects)@[j],
            ),
        forall|j: int|
            base@.len() <= j < old(objects)@.len() ==> on_map(
                (#[trigger] old(objects)@[j]).x as int,
                old(objects)@[j].y as int,
            ),
        forall|j: int|
            base@.len() <= j < old(objects)@.len() ==> !is_player(#[trigger] old(objects)@[j]),
    ensures
        map_wf(final(map)@),
        tiles_wall_or_empty(final(map)@),
        border_walls(final(map)@),
        rooms_carved(final(map)@, final(rooms)@),
        corridors_open(final(map)@, final(rooms)@),
        final(rooms)@ == old(rooms)@.push(new_room),
        forall|i: int, j: int|
            0 <= i < j < final(rooms)@.len() ==> !rects_intersect(
                #[trigger] final(rooms)@[i],
                #[trigger] final(rooms)@[j],
            ),
        forall|i: int|
            0 <= i < final(rooms)@.len() ==> room_in_bounds(#[trigger] final(rooms)@[i]),
        forall|i: int|
            0 <= i < final(rooms)@.len() ==> reachable(
                final(map)@,
                final(rooms)@[0].center_spec().0,
                final(rooms)@[0].center_spec().1,
                (#[trigger] final(rooms)@[i]).center_spec().0,
                final(rooms)@[i].center_spec().1,
            ),
        final(objects)@.len() >= base@.len(),
        ({
            &&& final(objects)@[0] == (Object {
                x: final(objects)@[0].x,
                y: final(objects)@[0].y,
                ..base@[0]
            })
            &&& final(objects)@[0].x as int == final(rooms)@[0].center_spec().0
            &&& final(objects)@[0].y as int == final(rooms)@[0].center_spec().1
            &&& on_map(final(objects)@[0].x as int, final(objects)@[0].y as int)
        }),
        forall|j: int| 1 <= j < base@.len() ==> #[trigger] final(objects)@[j] == base@[j],
        forall|j: int|
            base@.len() <= j < final(objects)@.len() ==> spawned_core(
                #[trigger] final(objects)@[j],
            ),
        forall|j: int|
            base@.len() <= j < final(objects)@.len() ==> on_map(
                (#[trigger] final(objects)@[j]).x as int,
                final(objects)@[j].y as int,
            ),
        forall|j: int|
            base@.len() <= j < final(objects)@.len() ==> !is_player(
                #[trigger] final(objects)@[j],
            ),
{
    {
        {
            let ghost m0 = map@;
            create_room(new_room, map);
            let ghost m1 = map@;
            proof {
                assert(tiles_wall_or_empty(m1));
                assert forall|x: int, y: int|
                    on_map(x, y) && on_border(x, y) implies #[trigger] m1[x]@[y]
                    == Tile::wall_spec() by {
                    assert(!in_room_interior(new_room, x, y));
                }
                assert forall|i: int|
                    0 <= i < rooms@.len() implies room_carved(m1, #[trigger] rooms@[i]) by {
                    assert forall|x: int, y: int|
                        in_room_interior(rooms@[i], x, y) implies #[trigger] m1[x]@[y]
                        == Tile::empty_spec() by {
                        assert(m0[x]@[y] == Tile::empty_spec());
                    }
                }
                assert(room_carved(m1, new_room));
            }
            place_objects(new_room, map, objects, level);
            let (new_x, new_y) = new_room.center();
            if rooms.len() == 0 {
                let mut player = objects.remove(0);
                player.set_pos(new_x, new_y);
                objects.insert(0, player);
                proof {
                    let c = (new_x as int, new_y as int);
                    let trivial = seq![c];
                    assert(new_room.x1 + 1 <= (new_room.x1 + new_room.x2) / 2 <= new_room.x2
                        - 1) by (nonlinear_arith)
                        requires
                            new_room.x1 + 2 <= new_room.x2,
                    ;
                    assert(new_room.y1 + 1 <= (new_room.y1 + new_room.y2) / 2 <= new_room.y2
                        - 1) by (nonlinear_arith)
                        requires
                            new_room.y1 + 2 <= new_room.y2,
                    ;
                    assert(in_room_interior(new_room, c.0, c.1));
                    assert(on_map(c.0, c.1));
                    assert(map@[c.0]@[c.1] == Tile::empty_spec());
                    assert(passable(map@, c.0, c.1));
                    assert(path_ok(map@, trivial) && trivial.first() == c && trivial.last()
                        == c);
                    assert(reachable(map@, c.0, c.1, c.0, c.1));
                }
            } else {
                let prev = rooms[rooms.len() - 1];
                let ghost cp = prev.center_spec();
                let ghost cn = new_room.center_spec();
                proof {
                    assert(prev.x1 + 1 <= (prev.x1 + prev.x2) / 2 <= prev.x2 - 1)
                        by (nonlinear_arith)
                        requires
                            prev.x1 + 2 <= prev.x2,
                    ;
                    assert(prev.y1 + 1 <= (prev.y1 + prev.y2) / 2 <= prev.y2 - 1)
                        by (nonlinear_arith)
                        requires
                            prev.y1 + 2 <= prev.y2,
                    ;
                    assert(new_room.x1 + 1 <= (new_room.x1 + new_room.x2) / 2 <= new_room.x2
                        - 1) by (nonlinear_arith)
                        requires
                            new_room.x1 + 2 <= new_room.x2,
                    ;
                    assert(new_room.y1 + 1 <= (new_room.y1 + new_room.y2) / 2 <= new_room.y2
                        - 1) by (nonlinear_arith)
                        requires
                            new_room.y1 + 2 <= new_room.y2,
                    ;
                }
                connect_rooms(prev, new_room, map);
                proof {
                    // the corridor's legs stay strictly inside the border,
                    // and carving only ever opens tiles
                    assert(1 <= cp.0 <= MAP_WIDTH - 2 && 1 <= cp.1 <= MAP_HEIGHT - 2);
                    assert(1 <= cn.0 <= MAP_WIDTH - 2 && 1 <= cn.1 <= MAP_HEIGHT - 2);
                    assert forall|x: int, y: int| on_map(x, y) implies #[trigger] map@[x]@[y]
                        == m1[x]@[y] || map@[x]@[y] == Tile::empty_spec() by {}
                    assert(tiles_wall_or_empty(map@));
                    assert forall|x: int, y: int|
                        on_map(x, y) && on_border(x, y) implies #[trigger] map@[x]@[y]
                        == Tile::wall_spec() by {
                        assert(!on_h_leg(x, y, cp.0, cn.0, cp.1));
                        assert(!on_v_leg(x, y, cp.1, cn.1, cn.0));
                        assert(!on_v_leg(x, y, cp.1, cn.1, cp.0));
                        assert(!on_h_leg(x, y, cp.0, cn.0, cn.1));
                    }
                    assert forall|i: int|
                        0 <= i < rooms@.len() implies room_carved(map@, #[trigger] rooms@[i]) by {
                        assert forall|x: int, y: int|
                            in_room_interior(rooms@[i], x, y) implies #[trigger] map@[x]@[y]
                            == Tile::empty_spec() by {
                            assert(m1[x]@[y] == Tile::empty_spec());
                        }
                    }
                    assert forall|x: int, y: int|
                        in_room_interior(new_room, x, y) implies #[trigger] map@[x]@[y]
                        == Tile::empty_spec() by {
                        assert(m1[x]@[y] == Tile::empty_spec());
                    }
                    assert(room_carved(map@, new_room));
                    assert forall|x: int, y: int|
                        on_map(x, y) implies #[trigger] map@[x]@[y] == m0[x]@[y] || map@[x]@[y]
                        == Tile::empty_spec() by {
                        assert(m1[x]@[y] == m0[x]@[y] || m1[x]@[y] == Tile::empty_spec());
                    }
                    assert forall|i: int|
                        0 <= i < rooms@.len() - 1 implies l_corridor_open(
                        map@,
                        #[trigger] rooms@[i],
                        rooms@[i + 1],
                    ) by {
                        lemma_corridor_preserved(m0, map@, rooms@[i], rooms@[i + 1]);
                    }
                    assert(l_corridor_open(map@, prev, new_room));
                    assert forall|x: int, y: int| passable(m0, x, y) implies passable(
                        map@,
                        x,
                        y,
                    ) by {
                        assert(passable(m1, x, y));
                    }
                    lemma_rooms_reachable_monotone(m0, map@, rooms@);
                    let c0 = rooms@[0].center_spec();
                    lemma_reachable_trans(map@, c0.0, c0.1, cp.0, cp.1, cn.0, cn.1);
                }
            }
            rooms.push(new_room);
        }
    }
}

/// Join two rooms' centroids with an L-shaped one-tile corridor, the
/// first leg's axis chosen at random; carving only ever opens tiles, and
/// afterwards the two centroids are joined by a walk over carved tiles.
#[verifier::rlimit(100)]
#[verifier::spinoff_prover]
fn connect_rooms(prev: Rect, new_room: Rect, map: &mut GameMap)
    requires
        map_wf(old(map)@),
        room_in_bounds(prev),
        room_in_bounds(new_room),
    ensures
        map_wf(final(map)@),
        carved_l_corridor(
            old(map)@,
            final(map)@,
            prev.center_spec().0,
            prev.center_spec().1,
            new_room.center_spec().0,
            new_room.center_spec().1,
        ),
        forall|x: int, y: int| passable(old(map)@, x, y) ==> passable(final(map)@, x, y),
        reachable(
            final(map)@,
            prev.center_spec().0,
            prev.center_spec().1,
            new_room.center_spec().0,
            new_room.center_spec().1,
        ),
{
    let (prev_x, prev_y) = prev.center();
    let (new_x, new_y) = new_room.center();
    if crate::rng::coin_flip() {
        connect_h_then_v(prev_x, prev_y, new_x, new_y, map);
    } else {
        connect_v_then_h(prev_x, prev_y, new_x, new_y, map);
    }
}

/// The horizontal-first L-corridor between two points.
#[verifier::rlimit(100)]
#[verifier::spinoff_prover]
fn connect_h_then_v(prev_x: i32, prev_y: i32, new_x: i32, new_y: i32, map: &mut GameMap)
    requires
        map_wf(old(map)@),
        on_map(prev_x as int, prev_y as int),
        on_map(new_x as int, new_y as int),
    ensures
        map_wf(final(map)@),
        forall|x: int, y: int|
            on_map(x, y) ==> #[trigger] final(map)@[x]@[y] == (if on_h_leg(
                x,
                y,
                prev_x as int,
                new_x as int,
                prev_y as int,
            ) || on_v_leg(x, y, prev_y as int, new_y as int, new_x as int) {
                Tile::empty_spec()
            } else {
                old(map)@[x]@[y]
            }),
        forall|x: int, y: int| passable(old(map)@, x, y) ==> passable(final(map)@, x, y),
        reachable(final(map)@, prev_x as int, prev_y as int, new_x as int, new_y as int),
{
    create_h_tunnel(prev_x, new_x, prev_y, map);
    let ghost m2 = map@;
    create_v_tunnel(prev_y, new_y, new_x, map);
    proof {
        assert forall|x: int|
            math_min(prev_x as int, new_x as int) <= x <= math_max(
                prev_x as int,
                new_x as int,
            ) implies passable(map@, x, prev_y as int) by {
            assert(on_map(x, prev_y as int));
            assert(m2[x]@[prev_y as int] == Tile::empty_spec());
        }
        lemma_h_segment(map@, prev_x as int, new_x as int, prev_y as int);
        lemma_v_segment(map@, prev_y as int, new_y as int, new_x as int);
        lemma_reachable_trans(
            map@,
            prev_x as int,
            prev_y as int,
            new_x as int,
            prev_y as int,
            new_x as int,
            new_y as int,
        );
    }
}

/// The vertical-first L-corridor between two points.
#[verifier::rlimit(100)]
#[verifier::spinoff_prover]
fn connect_v_then_h(prev_x: i32, prev_y: i32, new_x: i32, new_y: i32, map: &mut GameMap)
    requires
        map_wf(old(map)@),
        on_map(prev_x as int, prev_y as int),
        on_map(new_x as int, new_y as int),
    ensures
        map_wf(final(map)@),
        forall|x: int, y: int|
            on_map(x, y) ==> #[trigger] final(map)@[x]@[y] == (if on_v_leg(
                x,
                y,
                prev_y as int,
                new_y as int,
                prev_x as int,
            ) || on_h_leg(x, y, prev_x as int, new_x as int, new_y as int) {
                Tile::empty_spec()
            } else {
                old(map)@[x]@[y]
            }),
        forall|x: int, y: int| passable(old(map)@, x, y) ==> passable(final(map)@, x, y),
        reachable(final(map)@, prev_x as int, prev_y as int, new_x as int, new_y as int),
{
    create_v_tunnel(prev_y, new_y, prev_x, map);
    let ghost m2 = map@;
    create_h_tunnel(prev_x, new_x, new_y, map);
    proof {
        assert forall|y: int|
            math_min(prev_y as int, new_y as int) <= y <= math_max(
                prev_y as int,
                new_y as int,
            ) implies passable(map@, prev_x as int, y) by {
            assert(on_map(prev_x as int, y));
            assert(m2[prev_x as int]@[y] == Tile::empty_spec());
        }
        assert forall|x: int|
            math_min(prev_x as int, new_x as int) <= x <= math_max(
                prev_x as int,
                new_x as int,
            ) implies passable(map@, x, new_y as int) by {
            assert(on_map(x, new_y as int));
            assert(map@[x]@[new_y as int] == Tile::empty_spec());
        }
        lemma_l_path_v_first(map@, prev_x as int, prev_y as int, new_x as int, new_y as int);
    }
}

/// A vertical leg then a horizontal leg of passable tiles join the two
/// corners.
proof fn lemma_l_path_v_first(m: Seq<Vec<Tile>>, px: int, py: int, nx: int, ny: int)
    requires
        forall|y: int| math_min(py, ny) <= y <= math_max(py, ny) ==> passable(m, px, y),
        forall|x: int| math_min(px, nx) <= x <= math_max(px, nx) ==> passable(m, x, ny),
    ensures
        reachable(m, px, py, nx, ny),
{
    lemma_v_segment(m, py, ny, px);
    lemma_h_segment(m, px, nx, ny);
    lemma_reachable_trans(m, px, py, px, ny, nx, ny);
}

/// Build one dungeon level and hand back only its map; the player is
/// recentered in the first accepted room and the fresh roster carries
/// the generated monsters, items and the stairs marker.
pub fn make_map(objects: &mut Vec<Object>, level: u32) -> (map: GameMap)
    requires
        old(objects)@.len() >= 1,
    ensures
        map_wf(map@),
        tiles_wall_or_empty(map@),
        border_walls(map@),
        map@[final(objects)@[0].x as int]@[final(objects)@[0].y as int] == Tile::empty_spec(),
        exists|rooms: Seq<Rect>|
            #[trigger] generated_level(map@, final(objects)@, old(objects)@, rooms),
{
    let (map, rooms) = build_level(objects, level);
    proof {
        let rs = rooms@;
        assert(generated_level(map@, objects@, old(objects)@, rs));
    }
    map
}

/// A tile an entity can stand on.
pub open spec fn passable(m: Seq<Vec<Tile>>, x: int, y: int) -> bool {
    on_map(x, y) && !m[x]@[y].blocked
}

/// A walk over passable tiles, each step one tile along an axis.
pub open spec fn path_ok(m: Seq<Vec<Tile>>, p: Seq<(int, int)>) -> bool {
    &&& p.len() >= 1
    &&& forall|i: int| 0 <= i < p.len() ==> passable(m, (#[trigger] p[i]).0, p[i].1)
    &&& forall|i: int|
        0 <= i < p.len() - 1 ==> {
            let a = #[trigger] p[i];
            let b = p[i + 1];
            (a.0 == b.0 && (a.1 == b.1 + 1 || a.1 + 1 == b.1)) || (a.1 == b.1 && (a.0 == b.0 + 1
                || a.0 + 1 == b.0))
        }
}

/// Two coordinates joined by a walk over carved tiles.
pub open spec fn reachable(m: Seq<Vec<Tile>>, ax: int, ay: int, bx: int, by: int) -> bool {
    exists|p: Seq<(int, int)>|
        #[trigger] path_ok(m, p) && p.first() == (ax, ay) && p.last() == (bx, by)
}

/// Carving more tiles never severs a walk.
proof fn lemma_reachable_monotone(
    m1: Seq<Vec<Tile>>,
    m2: Seq<Vec<Tile>>,
    ax: int,
    ay: int,
    bx: int,
    by: int,
)
    requires
        reachable(m1, ax, ay, bx, by),
        forall|x: int, y: int| passable(m1, x, y) ==> passable(m2, x, y),
    ensures
        reachable(m2, ax, ay, bx, by),
{
    let p = choose|p: Seq<(int, int)>|
        #[trigger] path_ok(m1, p) && p.first() == (ax, ay) && p.last() == (bx, by);
    assert(path_ok(m2, p));
}

/// Walks compose end to end.
proof fn lemma_reachable_trans(
    m: Seq<Vec<Tile>>,
    ax: int,
    ay: int,
    bx: int,
    by: int,
    cx: int,
    cy: int,
)
    requires
        reachable(m, ax, ay, bx, by),
        reachable(m, bx, by, cx, cy),
    ensures
        reachable(m, ax, ay, cx, cy),
{
    let p1 = choose|p: Seq<(int, int)>|
        #[trigger] path_ok(m, p) && p.first() == (ax, ay) && p.last() == (bx, by);
    let p2 = choose|p: Seq<(int, int)>|
        #[trigger] path_ok(m, p) && p.first() == (bx, by) && p.last() == (cx, cy);
    if p2.len() == 1 {
        assert(path_ok(m, p1) && p1.first() == (ax, ay) && p1.last() == (cx, cy));
    } else {
        let p = p1 + p2.drop_first();
        assert(forall|i: int| 0 <= i < p1.len() ==> p[i] == p1[i]);
        assert(forall|i: int|
            p1.len() <= i < p.len() ==> p[i] == p2[i - p1.len() + 1]);
        assert(p.last() == p2.last());
        assert forall|i: int| 0 <= i < p.len() - 1 implies {
            let a = #[trigger] p[i];
            let b = p[i + 1];
            (a.0 == b.0 && (a.1 == b.1 + 1 || a.1 + 1 == b.1)) || (a.1 == b.1 && (a.0 == b.0 + 1
                || a.0 + 1 == b.0))
        } by {
            if i < p1.len() - 1 {
                assert(p[i] == p1[i] && p[i + 1] == p1[i + 1]);
            } else if i == p1.len() - 1 {
                assert(p[i] == p1.last() && p[i + 1] == p2[1]);
                assert(p1.last() == p2[0]);
            } else {
                assert(p[i] == p2[i - p1.len() + 1] && p[i + 1] == p2[i - p1.len() + 2]);
            }
        }
        assert(path_ok(m, p) && p.first() == (ax, ay) && p.last() == (cx, cy));
    }
}

/// A fully passable row segment is walkable from either end.
proof fn lemma_h_segment(m: Seq<Vec<Tile>>, x1: int, x2: int, y: int)
    requires
        forall|x: int| math_min(x1, x2) <= x <= math_max(x1, x2) ==> passable(m, x, y),
    ensures
        reachable(m, x1, y, x2, y),
{
    let dir: int = if x1 <= x2 {
        1
    } else {
        -1
    };
    let n = if x1 <= x2 {
        x2 - x1 + 1
    } else {
        x1 - x2 + 1
    };
    let p = Seq::new(n as nat, |i: int| (x1 + dir * i, y));
    assert forall|i: int| 0 <= i < p.len() implies passable(
        m,
        (#[trigger] p[i]).0,
        p[i].1,
    ) by {
        assert(p[i].0 == x1 + dir * i);
        assert(math_min(x1, x2) <= x1 + dir * i <= math_max(x1, x2)) by (nonlinear_arith)
            requires
                (dir == 1 && x1 <= x2 && n == x2 - x1 + 1) || (dir == -1 && x2 < x1 && n == x1
                    - x2 + 1),
                0 <= i < n,
        ;
    }
    assert(p.first() == (x1, y));
    assert(p.last() == (x1 + dir * (n - 1), y));
    assert(x1 + dir * (n - 1) == x2) by (nonlinear_arith)
        requires
            (dir == 1 && x1 <= x2 && n == x2 - x1 + 1) || (dir == -1 && x2 < x1 && n == x1 - x2
                + 1),
    ;
    assert(path_ok(m, p) && p.first() == (x1, y) && p.last() == (x2, y));
}

/// A fully passable column segment is walkable from either end.
proof fn lemma_v_segment(m: Seq<Vec<Tile>>, y1: int, y2: int, x: int)
    requires
        forall|y: int| math_min(y1, y2) <= y <= math_max(y1, y2) ==> passable(m, x, y),
    ensures
        reachable(m, x, y1, x, y2),
{
    let dir: int = if y1 <= y2 {
        1
    } else {
        -1
    };
    let n = if y1 <= y2 {
        y2 - y1 + 1
    } else {
        y1 - y2 + 1
    };
    let p = Seq::new(n as nat, |i: int| (x, y1 + dir * i));
    assert forall|i: int| 0 <= i < p.len() implies passable(
        m,
        (#[trigger] p[i]).0,
        p[i].1,
    ) by {
        assert(p[i].1 == y1 + dir * i);
        assert(math_min(y1, y2) <= y1 + dir * i <= math_max(y1, y2)) by (nonlinear_arith)
            requires
                (dir == 1 && y1 <= y2 && n == y2 - y1 + 1) || (dir == -1 && y2 < y1 && n == y1
                    - y2 + 1),
                0 <= i < n,
        ;
    }
    assert(p.first() == (x, y1));
    assert(p.last() == (x, y1 + dir * (n - 1)));
    assert(y1 + dir * (n - 1) == y2) by (nonlinear_arith)
        requires
            (dir == 1 && y1 <= y2 && n == y2 - y1 + 1) || (dir == -1 && y2 < y1 && n == y1 - y2
                + 1),
    ;
    assert(path_ok(m, p) && p.first() == (x, y1) && p.last() == (x, y2));
}

/// Every room center already joined to the first stays joined after
/// more carving.
proof fn lemma_rooms_reachable_monotone(m1: Seq<Vec<Tile>>, m2: Seq<Vec<Tile>>, rooms: Seq<Rect>)
    requires
        forall|x: int, y: int| passable(m1, x, y) ==> passable(m2, x, y),
        forall|i: int|
            0 <= i < rooms.len() ==> reachable(
                m1,
                rooms[0].center_spec().0,
                rooms[0].center_spec().1,
                (#[trigger] rooms[i]).center_spec().0,
                rooms[i].center_spec().1,
            ),
    ensures
        forall|i: int|
            0 <= i < rooms.len() ==> reachable(
                m2,
                rooms[0].center_spec().0,
                rooms[0].center_spec().1,
                (#[trigger] rooms[i]).center_spec().0,
                rooms[i].center_spec().1,
            ),
{
    assert forall|i: int| 0 <= i < rooms.len() implies reachable(
        m2,
        rooms[0].center_spec().0,
        rooms[0].center_spec().1,
        (#[trigger] rooms[i]).center_spec().0,
        rooms[i].center_spec().1,
    ) by {
        lemma_reachable_monotone(
            m1,
            m2,
            rooms[0].center_spec().0,
            rooms[0].center_spec().1,
            rooms[i].center_spec().0,
            rooms[i].center_spec().1,
        );
    }
}

} // verus!
