use vstd::prelude::*;
use vstd::arithmetic::div_mod::lemma_fundamental_div_mod;
use crate::map::{GameMap, Tile, grid_index};
use crate::pos::Pos;
use crate::ints::{imin, imax};
use crate::rng::{rand_coin, rand_range_inclusive};

verus! {

/// An axis-aligned rectangular room. Its border cells become walls, its
/// interior becomes floor.
#[derive(Debug, Clone, Copy, PartialEq, Eq, Structural)]
pub struct RectRoom {
    pub x1: i32,
    pub y1: i32,
    pub x2: i32,
    pub y2: i32,
}

/// A one-tile-wide horizontal corridor run at row `y`.
#[derive(Debug, Clone, Copy, PartialEq, Eq, Structural)]
pub struct HCorridor {
    pub x1: i32,
    pub x2: i32,
    pub y: i32,
}

/// A one-tile-wide vertical corridor run at column `x`.
#[derive(Debug, Clone, Copy, PartialEq, Eq, Structural)]
pub struct VCorridor {
    pub y1: i32,
    pub y2: i32,
    pub x: i32,
}

impl RectRoom {
    pub open spec fn wf(self) -> bool {
        self.x1 < self.x2 && self.y1 < self.y2
    }

    /// Room sides of length at least two, so the interior and the center
    /// are nonempty and strictly inside the border.
    pub open spec fn proper(self) -> bool {
        self.x1 + 2 <= self.x2 && self.y1 + 2 <= self.y2
    }

    pub open spec fn in_map(self, width: int, height: int) -> bool {
        0 <= self.x1 && self.x2 < width && 0 <= self.y1 && self.y2 < height
    }

    /// Inclusive intersection test: touching edges count as intersecting.
    pub open spec fn spec_intersects(self, other: RectRoom) -> bool {
        self.x1 <= other.x2 && self.x2 >= other.x1 && self.y1 <= other.y2 && self.y2
            >= other.y1
    }

    pub open spec fn spec_center(self) -> (int, int) {
        ((self.x1 + self.x2) / 2, (self.y1 + self.y2) / 2)
    }

    pub open spec fn on_border(self, x: int, y: int) -> bool {
        (self.x1 <= x <= self.x2 && (y == self.y1 || y == self.y2)) || (self.y1 <= y
            <= self.y2 && (x == self.x1 || x == self.x2))
    }

    pub open spec fn in_interior(self, x: int, y: int) -> bool {
        self.x1 < x < self.x2 && self.y1 < y < self.y2
    }

    pub fn new(x: i32, y: i32, w: u16, h: u16) -> (r: Self)
        requires
            x + w <= i32::MAX,
            y + h <= i32::MAX,
        ensures
            r.x1 == x,
            r.y1 == y,
            r.x2 == x + w,
            r.y2 == y + h,
    {
        RectRoom { x1: x, y1: y, x2: x + w as i32, y2: y + h as i32 }
    }

    pub fn center(&self) -> (r: Pos)
        requires
            0 <= self.x1 + self.x2,
            0 <= self.y1 + self.y2,
            self.x1 + self.x2 <= i32::MAX,
            self.y1 + self.y2 <= i32::MAX,
        ensures
            r.x == self.spec_center().0,
            r.y == self.spec_center().1,
    {
        Pos::new((self.x1 + self.x2) / 2, (self.y1 + self.y2) / 2)
    }

    pub fn intersects_with(&self, other: &Self) -> (r: bool)
        ensures
            r == self.spec_intersects(*other),
    {
        (self.x1 <= other.x2) && (self.x2 >= other.x1) && (self.y1 <= other.y2) && (self.y2
            >= other.y1)
    }

    /// Turn every border cell of the room into a wall.
    pub fn carve_walls(&self, map: &mut GameMap)
        requires
            old(map).wf(),
            self.wf(),
            self.in_map(old(map).width as int, old(map).height as int),
        ensures
            final(map).wf(),
            final(map).width == old(map).width,
            final(map).height == old(map).height,
            forall|x: int, y: int|
                old(map).in_bounds(x, y) ==> final(map).spec_tile(x, y) == (if self.on_border(x, y) {
                    Tile::Wall
                } else {
                    old(map).spec_tile(x, y)
                }),
    {
        let ghost m0 = *map;
        let mut x: i32 = self.x1;
        while x <= self.x2
            invariant
                map.wf(),
                map.width == m0.width,
                map.height == m0.height,
                m0.wf(),
                self.wf(),
                self.in_map(m0.width as int, m0.height as int),
                self.x1 <= x <= self.x2 + 1,
                forall|a: int, b: int|
                    m0.in_bounds(a, b) ==> map.spec_tile(a, b) == (if self.x1 <= a < x && (b
                        == self.y1 || b == self.y2) {
                        Tile::Wall
                    } else {
                        m0.spec_tile(a, b)
                    }),
            decreases self.x2 + 1 - x,
        {
            map.set_tile(Pos::new(x, self.y1), Tile::Wall);
            map.set_tile(Pos::new(x, self.y2), Tile::Wall);
            x = x + 1;
        }
        let ghost m1 = *map;
        let mut y: i32 = self.y1;
        while y <= self.y2
            invariant
                map.wf(),
                map.width == m0.width,
                map.height == m0.height,
                m0.wf(),
                self.wf(),
                self.in_map(m0.width as int, m0.height as int),
                self.y1 <= y <= self.y2 + 1,
                forall|a: int, b: int|
                    m0.in_bounds(a, b) ==> map.spec_tile(a, b) == (if self.y1 <= b < y && (a
                        == self.x1 || a == self.x2) {
                        Tile::Wall
                    } else {
                        m1.spec_tile(a, b)
                    }),
                forall|a: int, b: int|
                    m0.in_bounds(a, b) ==> m1.spec_tile(a, b) == (if self.x1 <= a <= self.x2 && (b
                        == self.y1 || b == self.y2) {
                        Tile::Wall
                    } else {
                        m0.spec_tile(a, b)
                    }),
            decreases self.y2 + 1 - y,
        {
            map.set_tile(Pos::new(self.x1, y), Tile::Wall);
            map.set_tile(Pos::new(self.x2, y), Tile::Wall);
            y = y + 1;
        }
    }

    /// Turn every interior cell of the room into floor.
    pub fn carve_floors(&self, map: &mut GameMap)
        requires
            old(map).wf(),
            self.wf(),
            self.in_map(old(map).width as int, old(map).height as int),
        ensures
            final(map).wf(),
            final(map).width == old(map).width,
            final(map).height == old(map).height,
            forall|x: int, y: int|
                old(map).in_bounds(x, y) ==> final(map).spec_tile(x, y) == (if self.in_interior(x, y) {
                    Tile::Ground
                } else {
                    old(map).spec_tile(x, y)
                }),
    {
        let ghost m0 = *map;
        let mut x: i32 = self.x1 + 1;
        while x < self.x2
            invariant
                map.wf(),
                map.width == m0.width,
                map.height == m0.height,
                m0.wf(),
                self.wf(),
                self.in_map(m0.width as int, m0.height as int),
                self.x1 + 1 <= x <= self.x2,
                forall|a: int, b: int|
                    m0.in_bounds(a, b) ==> map.spec_tile(a, b) == (if self.x1 < a < x && self.y1
                        < b < self.y2 {
                        Tile::Ground
                    } else {
                        m0.spec_tile(a, b)
                    }),
            decreases self.x2 - x,
        {
            let mut y: i32 = self.y1 + 1;
            while y < self.y2
                invariant
                    map.wf(),
                    map.width == m0.width,
                    map.height == m0.height,
                    self.wf(),
                    self.in_map(m0.width as int, m0.height as int),
                    self.x1 + 1 <= x < self.x2,
                    self.y1 + 1 <= y <= self.y2,
                    forall|a: int, b: int|
                        m0.in_bounds(a, b) ==> map.spec_tile(a, b) == (if (self.x1 < a < x
                            && self.y1 < b < self.y2) || (a == x && self.y1 < b < y) {
                            Tile::Ground
                        } else {
                            m0.spec_tile(a, b)
                        }),
                decreases self.y2 - y,
            {
                map.set_tile(Pos::new(x, y), Tile::Ground);
                y = y + 1;
            }
            x = x + 1;
        }
    }
}

impl HCorridor {
    /// The one-tile-wide floor run of the corridor.
    pub open spec fn centerline(self, x: int, y: int) -> bool {
        self.x1 <= x <= self.x2 && y == self.y
    }

    /// The centerline widened by the one-cell wall buffer.
    pub open spec fn band(self, x: int, y: int) -> bool {
        self.x1 - 1 <= x <= self.x2 + 1 && self.y - 1 <= y <= self.y + 1
    }

    /// Carve the wall buffer around the run, clipped to the map's rows.
    pub fn carve_walls(&self, map: &mut GameMap)
        requires
            old(map).wf(),
            self.x1 <= self.x2,
            1 <= self.x1,
            self.x2 + 1 < old(map).width,
            0 <= self.y < old(map).height,
        ensures
            final(map).wf(),
            final(map).width == old(map).width,
            final(map).height == old(map).height,
            forall|x: int, y: int|
                old(map).in_bounds(x, y) ==> final(map).spec_tile(x, y) == (if self.band(x, y) {
                    Tile::Wall
                } else {
                    old(map).spec_tile(x, y)
                }),
    {
        let ghost m0 = *map;
        let mut yy: i32 = self.y - 1;
        while yy <= self.y + 1
            invariant
                map.wf(),
                map.width == m0.width,
                map.height == m0.height,
                m0.wf(),
                self.x1 <= self.x2,
                1 <= self.x1,
                self.x2 + 1 < m0.width,
                0 <= self.y < m0.height,
                self.y - 1 <= yy <= self.y + 2,
                forall|a: int, b: int|
                    m0.in_bounds(a, b) ==> map.spec_tile(a, b) == (if self.x1 - 1 <= a <= self.x2
                        + 1 && self.y - 1 <= b < yy {
                        Tile::Wall
                    } else {
                        m0.spec_tile(a, b)
                    }),
            decreases self.y + 2 - yy,
        {
            if 0 <= yy && yy < map.height as i32 {
                let mut xx: i32 = self.x1 - 1;
                while xx <= self.x2 + 1
                    invariant
                        map.wf(),
                        map.width == m0.width,
                        map.height == m0.height,
                        m0.wf(),
                        self.x1 <= self.x2,
                        1 <= self.x1,
                        self.x2 + 1 < m0.width,
                        0 <= self.y < m0.height,
                        self.y - 1 <= yy <= self.y + 1,
                        0 <= yy < m0.height,
                        self.x1 - 1 <= xx <= self.x2 + 2,
                        forall|a: int, b: int|
                            m0.in_bounds(a, b) ==> map.spec_tile(a, b) == (if (self.x1 - 1 <= a
                                <= self.x2 + 1 && self.y - 1 <= b < yy) || (b == yy && self.x1 - 1
                                <= a < xx) {
                                Tile::Wall
                            } else {
                                m0.spec_tile(a, b)
                            }),
                    decreases self.x2 + 2 - xx,
                {
                    map.set_tile(Pos::new(xx, yy), Tile::Wall);
                    xx = xx + 1;
                }
            }
            yy = yy + 1;
        }
    }

    /// Carve the floor run itself.
    pub fn carve_floors(&self, map: &mut GameMap)
        requires
            old(map).wf(),
            self.x1 <= self.x2,
            0 <= self.x1,
            self.x2 < old(map).width,
            0 <= self.y < old(map).height,
        ensures
            final(map).wf(),
            final(map).width == old(map).width,
            final(map).height == old(map).height,
            forall|x: int, y: int|
                old(map).in_bounds(x, y) ==> final(map).spec_tile(x, y) == (if self.centerline(
                    x,
                    y,
                ) {
                    Tile::Ground
                } else {
                    old(map).spec_tile(x, y)
                }),
    {
        let ghost m0 = *map;
        let mut xx: i32 = self.x1;
        while xx <= self.x2
            invariant
                map.wf(),
                map.width == m0.width,
                map.height == m0.height,
                m0.wf(),
                self.x1 <= self.x2,
                0 <= self.x1,
                self.x2 < m0.width,
                0 <= self.y < m0.height,
                self.x1 <= xx <= self.x2 + 1,
                forall|a: int, b: int|
                    m0.in_bounds(a, b) ==> map.spec_tile(a, b) == (if self.x1 <= a < xx && b
                        == self.y {
                        Tile::Ground
                    } else {
                        m0.spec_tile(a, b)
                    }),
            decreases self.x2 + 1 - xx,
        {
            map.set_tile(Pos::new(xx, self.y), Tile::Ground);
            xx = xx + 1;
        }
    }
}

impl VCorridor {
    /// The one-tile-wide floor run of the corridor.
    pub open spec fn centerline(self, x: int, y: int) -> bool {
        self.y1 <= y <= self.y2 && x == self.x
    }

    /// The centerline widened by the one-cell wall buffer.
    pub open spec fn band(self, x: int, y: int) -> bool {
        self.x - 1 <= x <= self.x + 1 && self.y1 - 1 <= y <= self.y2 + 1
    }

    /// Carve the wall buffer around the run, clipped to the map's columns.
    pub fn carve_walls(&self, map: &mut GameMap)
        requires
            old(map).wf(),
            self.y1 <= self.y2,
            1 <= self.y1,
            self.y2 + 1 < old(map).height,
            0 <= self.x < old(map).width,
        ensures
            final(map).wf(),
            final(map).width == old(map).width,
            final(map).height == old(map).height,
            forall|x: int, y: int|
                old(map).in_bounds(x, y) ==> final(map).spec_tile(x, y) == (if self.band(x, y) {
                    Tile::Wall
                } else {
                    old(map).spec_tile(x, y)
                }),
    {
        let ghost m0 = *map;
        let mut xx: i32 = self.x - 1;
        while xx <= self.x + 1
            invariant
                map.wf(),
                map.width == m0.width,
                map.height == m0.height,
                m0.wf(),
                self.y1 <= self.y2,
                1 <= self.y1,
                self.y2 + 1 < m0.height,
                0 <= self.x < m0.width,
                self.x - 1 <= xx <= self.x + 2,
                forall|a: int, b: int|
                    m0.in_bounds(a, b) ==> map.spec_tile(a, b) == (if self.y1 - 1 <= b <= self.y2
                        + 1 && self.x - 1 <= a < xx {
                        Tile::Wall
                    } else {
                        m0.spec_tile(a, b)
                    }),
            decreases self.x + 2 - xx,
        {
            if 0 <= xx && xx < map.width as i32 {
                let mut yy: i32 = self.y1 - 1;
                while yy <= self.y2 + 1
                    invariant
                        map.wf(),
                        map.width == m0.width,
                        map.height == m0.height,
                        m0.wf(),
                        self.y1 <= self.y2,
                        1 <= self.y1,
                        self.y2 + 1 < m0.height,
                        0 <= self.x < m0.width,
                        self.x - 1 <= xx <= self.x + 1,
                        0 <= xx < m0.width,
                        self.y1 - 1 <= yy <= self.y2 + 2,
                        forall|a: int, b: int|
                            m0.in_bounds(a, b) ==> map.spec_tile(a, b) == (if (self.y1 - 1 <= b
                                <= self.y2 + 1 && self.x - 1 <= a < xx) || (a == xx && self.y1 - 1
                                <= b < yy) {
                                Tile::Wall
                            } else {
                                m0.spec_tile(a, b)
                            }),
                    decreases self.y2 + 2 - yy,
                {
                    map.set_tile(Pos::new(xx, yy), Tile::Wall);
                    yy = yy + 1;
                }
            }
            xx = xx + 1;
        }
    }

    /// Carve the floor run itself.
    pub fn carve_floors(&self, map: &mut GameMap)
        requires
            old(map).wf(),
            self.y1 <= self.y2,
            0 <= self.y1,
            self.y2 < old(map).height,
            0 <= self.x < old(map).width,
        ensures
            final(map).wf(),
            final(map).width == old(map).width,
            final(map).height == old(map).height,
            forall|x: int, y: int|
                old(map).in_bounds(x, y) ==> final(map).spec_tile(x, y) == (if self.centerline(
                    x,
                    y,
                ) {
                    Tile::Ground
                } else {
                    old(map).spec_tile(x, y)
                }),
    {
        let ghost m0 = *map;
        let mut yy: i32 = self.y1;
        while yy <= self.y2
            invariant
                map.wf(),
                map.width == m0.width,
                map.height == m0.height,
                m0.wf(),
                self.y1 <= self.y2,
                0 <= self.y1,
                self.y2 < m0.height,
                0 <= self.x < m0.width,
                self.y1 <= yy <= self.y2 + 1,
                forall|a: int, b: int|
                    m0.in_bounds(a, b) ==> map.spec_tile(a, b) == (if self.y1 <= b < yy && a
                        == self.x {
                        Tile::Ground
                    } else {
                        m0.spec_tile(a, b)
                    }),
            decreases self.y2 + 1 - yy,
        {
            map.set_tile(Pos::new(self.x, yy), Tile::Ground);
            yy = yy + 1;
        }
    }
}

/// Generation parameters: map size, the inclusive range of room side
/// lengths, and how many room placements are attempted.
#[derive(Debug, Clone, Copy, PartialEq, Eq)]
pub struct DungeonConfig {
    pub size: (u16, u16),
    pub room_size: (u16, u16),
    pub max_rooms: u16,
}

impl DungeonConfig {
    /// Sides of at least two keep room centers in the interior, and rooms
    /// strictly smaller than the map leave space for a random placement.
    pub open spec fn wf(self) -> bool {
        2 <= self.room_size.0 <= self.room_size.1 && self.room_size.1 < self.size.0
            && self.room_size.1 < self.size.1
    }

    /// A room of random size (uniform in the configured range) at a random
    /// position fully inside the map.
    fn random_rect_room(&self, rng: &mut rand::rngs::StdRng) -> (r: RectRoom)
        requires
            self.wf(),
        ensures
            r.proper(),
            r.in_map(self.size.0 as int, self.size.1 as int),
            self.room_size.0 <= r.x2 - r.x1 <= self.room_size.1,
            self.room_size.0 <= r.y2 - r.y1 <= self.room_size.1,
    {
        let w = rand_range_inclusive(rng, self.room_size.0, self.room_size.1);
        let h = rand_range_inclusive(rng, self.room_size.0, self.room_size.1);
        let x = rand_range_inclusive(rng, 0, self.size.0 - w - 1);
        let y = rand_range_inclusive(rng, 0, self.size.1 - h - 1);
        RectRoom::new(x as i32, y as i32, w, h)
    }
}

impl Default for DungeonConfig {
    /// The stock configuration: an 80 by 45 map, rooms of side 6 to 10,
    /// thirty placement attempts.
    fn default() -> (r: Self)
        ensures
            r == (DungeonConfig { size: (80, 45), room_size: (6, 10), max_rooms: 30 }),
            r.wf(),
    {
        DungeonConfig { size: (80, 45), room_size: (6, 10), max_rooms: 30 }
    }
}

/// One horizontal and one vertical corridor leg forming an "L" between two
/// room centers `a` and `b`: one leg starts at `a`'s axis and the other
/// ends at `b`'s, in either order.
pub open spec fn l_connects(h: HCorridor, v: VCorridor, a: (int, int), b: (int, int)) -> bool {
    h.x1 == imin(a.0, b.0) && h.x2 == imax(a.0, b.0) && v.y1 == imin(a.1, b.1) && v.y2 == imax(
        a.1,
        b.1,
    ) && ((h.y == a.1 && v.x == b.0) || (h.y == b.1 && v.x == a.0))
}

/// The generated dungeon: accepted rooms in placement order, plus the
/// corridor legs linking each room to its predecessor.
pub struct Dungeon {
    pub config: DungeonConfig,
    pub rect_rooms: Vec<RectRoom>,
    pub h_corridors: Vec<HCorridor>,
    pub v_corridors: Vec<VCorridor>,
}

impl Dungeon {
    pub open spec fn rooms_wf(self) -> bool {
        forall|i: int|
            0 <= i < self.rect_rooms@.len() ==> (#[trigger] self.rect_rooms@[i]).proper()
                && self.rect_rooms@[i].in_map(self.config.size.0 as int, self.config.size.1 as int)
    }

    /// No two accepted rooms intersect, under the inclusive test.
    pub open spec fn rooms_disjoint(self) -> bool {
        forall|i: int, j: int|
            0 <= i < j < self.rect_rooms@.len() ==> !(#[trigger] self.rect_rooms@[i].spec_intersects(
                self.rect_rooms@[j],
            ))
    }

    pub open spec fn corridor_count(self) -> int {
        if self.rect_rooms@.len() == 0 {
            0
        } else {
            self.rect_rooms@.len() - 1
        }
    }

    /// Consecutive rooms are linked, center to center, by the i-th pair of
    /// corridor legs.
    pub open spec fn corridors_connect(self) -> bool {
        &&& self.h_corridors@.len() == self.corridor_count()
        &&& self.v_corridors@.len() == self.corridor_count()
        &&& forall|i: int|
            0 <= i < self.rect_rooms@.len() - 1 ==> l_connects(
                #[trigger] self.h_corridors@[i],
                self.v_corridors@[i],
                self.rect_rooms@[i].spec_center(),
                self.rect_rooms@[i + 1].spec_center(),
            )
    }

    pub open spec fn wf(self) -> bool {
        self.config.wf() && self.rooms_wf() && self.rooms_disjoint() && self.corridors_connect()
    }

    pub fn config(&self) -> (r: &DungeonConfig)
        ensures
            *r == self.config,
    {
        &self.config
    }

    pub fn size(&self) -> (r: (u16, u16))
        ensures
            r == self.config.size,
    {
        self.config.size
    }

    pub fn width(&self) -> (r: u16)
        ensures
            r == self.config.size.0,
    {
        self.config.size.0
    }

    pub fn height(&self) -> (r: u16)
        ensures
            r == self.config.size.1,
    {
        self.config.size.1
    }
}

impl DungeonConfig {
    /// Attempt `max_rooms` room placements, keeping only rooms that do not
    /// intersect any earlier accepted room, then link consecutive rooms by
    /// L-shaped corridors whose leg order is decided by a coin flip.
    pub fn generate(self, rng: &mut rand::rngs::StdRng) -> (d: Dungeon)
        requires
            self.wf(),
        ensures
            d.wf(),
            d.config == self,
            d.rect_rooms@.len() <= self.max_rooms,
            self.max_rooms >= 1 ==> d.rect_rooms@.len() >= 1,
            forall|i: int|
                0 <= i < d.rect_rooms@.len() ==> {
                    let r = #[trigger] d.rect_rooms@[i];
                    self.room_size.0 <= r.x2 - r.x1 <= self.room_size.1 && self.room_size.0
                        <= r.y2 - r.y1 <= self.room_size.1
                },
    {
        let mut rect_rooms: Vec<RectRoom> = Vec::new();
        let mut attempt: u16 = 0;
        while attempt < self.max_rooms
            invariant
                self.wf(),
                attempt <= self.max_rooms,
                rect_rooms@.len() <= attempt,
                attempt >= 1 ==> rect_rooms@.len() >= 1,
                forall|i: int|
                    0 <= i < rect_rooms@.len() ==> (#[trigger] rect_rooms@[i]).proper()
                        && rect_rooms@[i].in_map(self.size.0 as int, self.size.1 as int),
                forall|i: int|
                    0 <= i < rect_rooms@.len() ==> {
                        let r = #[trigger] rect_rooms@[i];
                        self.room_size.0 <= r.x2 - r.x1 <= self.room_size.1 && self.room_size.0
                            <= r.y2 - r.y1 <= self.room_size.1
                    },
                forall|i: int, j: int|
                    0 <= i < j < rect_rooms@.len() ==> !(#[trigger] rect_rooms@[i].spec_intersects(
                        rect_rooms@[j],
                    )),
            decreases self.max_rooms - attempt,
        {
            let new_rect = self.random_rect_room(rng);
            let mut intersection = false;
            let mut j: usize = 0;
            while j < rect_rooms.len()
                invariant
                    j <= rect_rooms@.len(),
                    intersection == exists|k: int|
                        0 <= k < j && new_rect.spec_intersects(#[trigger] rect_rooms@[k]),
                decreases rect_rooms@.len() - j,
            {
                if new_rect.intersects_with(&rect_rooms[j]) {
                    intersection = true;
                }
                j = j + 1;
            }
            if !intersection {
                rect_rooms.push(new_rect);
            }
            attempt = attempt + 1;
        }
        let mut h_corridors: Vec<HCorridor> = Vec::new();
        let mut v_corridors: Vec<VCorridor> = Vec::new();
        let mut k: usize = 1;
        while k < rect_rooms.len()
            invariant
                self.wf(),
                1 <= k,
                rect_rooms@.len() >= 1 ==> k <= rect_rooms@.len(),
                rect_rooms@.len() == 0 ==> k == 1,
                h_corridors@.len() == k - 1,
                v_corridors@.len() == k - 1,
                forall|i: int|
                    0 <= i < rect_rooms@.len() ==> (#[trigger] rect_rooms@[i]).proper()
                        && rect_rooms@[i].in_map(self.size.0 as int, self.size.1 as int),
                forall|i: int|
                    0 <= i < rect_rooms@.len() ==> {
                        let r = #[trigger] rect_rooms@[i];
                        self.room_size.0 <= r.x2 - r.x1 <= self.room_size.1 && self.room_size.0
                            <= r.y2 - r.y1 <= self.room_size.1
                    },
                forall|i: int, j: int|
                    0 <= i < j < rect_rooms@.len() ==> !(#[trigger] rect_rooms@[i].spec_intersects(
                        rect_rooms@[j],
                    )),
                forall|i: int|
                    0 <= i < k - 1 ==> l_connects(
                        #[trigger] h_corridors@[i],
                        v_corridors@[i],
                        rect_rooms@[i].spec_center(),
                        rect_rooms@[i + 1].spec_center(),
                    ),
            decreases rect_rooms@.len() - k,
        {
            let prev = rect_rooms[k - 1];
            let next = rect_rooms[k];
            let pc = prev.center();
            let nc = next.center();
            let hx1: i32 = if pc.x <= nc.x {
                pc.x
            } else {
                nc.x
            };
            let hx2: i32 = if pc.x <= nc.x {
                nc.x
            } else {
                pc.x
            };
            let vy1: i32 = if pc.y <= nc.y {
                pc.y
            } else {
                nc.y
            };
            let vy2: i32 = if pc.y <= nc.y {
                nc.y
            } else {
                pc.y
            };
            if rand_coin(rng) {
                // first move horizontally, then vertically
                h_corridors.push(HCorridor { x1: hx1, x2: hx2, y: pc.y });
                v_corridors.push(VCorridor { y1: vy1, y2: vy2, x: nc.x });
            } else {
                // first move vertically, then horizontally
                v_corridors.push(VCorridor { y1: vy1, y2: vy2, x: pc.x });
                h_corridors.push(HCorridor { x1: hx1, x2: hx2, y: nc.y });
            }
            k = k + 1;
        }
        Dungeon { config: self, rect_rooms, h_corridors, v_corridors }
    }
}

/// The center of a proper in-map room lies strictly inside the room, with
/// at least one cell of margin to every map edge.
pub proof fn lemma_center_in_room(r: RectRoom, width: int, height: int)
    requires
        r.proper(),
        r.in_map(width, height),
    ensures
        r.x1 + 1 <= r.spec_center().0 <= r.x2 - 1,
        r.y1 + 1 <= r.spec_center().1 <= r.y2 - 1,
        r.in_interior(r.spec_center().0, r.spec_center().1),
        1 <= r.spec_center().0 <= width - 2,
        1 <= r.spec_center().1 <= height - 2,
{
    lemma_fundamental_div_mod(r.x1 + r.x2, 2);
    lemma_fundamental_div_mod(r.y1 + r.y2, 2);
}

impl Dungeon {
    /// Cells lying on the border of one of the first `k` rooms.
    pub open spec fn room_border_upto(self, k: int, x: int, y: int) -> bool {
        exists|i: int| 0 <= i < k && (#[trigger] self.rect_rooms@[i]).on_border(x, y)
    }

    /// Cells in the interior of one of the first `k` rooms.
    pub open spec fn room_interior_upto(self, k: int, x: int, y: int) -> bool {
        exists|i: int| 0 <= i < k && (#[trigger] self.rect_rooms@[i]).in_interior(x, y)
    }

    /// Cells in the wall buffer of one of the first `k` horizontal legs.
    pub open spec fn h_band_upto(self, k: int, x: int, y: int) -> bool {
        exists|i: int| 0 <= i < k && (#[trigger] self.h_corridors@[i]).band(x, y)
    }

    /// Cells on the centerline of one of the first `k` horizontal legs.
    pub open spec fn h_line_upto(self, k: int, x: int, y: int) -> bool {
        exists|i: int| 0 <= i < k && (#[trigger] self.h_corridors@[i]).centerline(x, y)
    }

    /// Cells in the wall buffer of one of the first `k` vertical legs.
    pub open spec fn v_band_upto(self, k: int, x: int, y: int) -> bool {
        exists|i: int| 0 <= i < k && (#[trigger] self.v_corridors@[i]).band(x, y)
    }

    /// Cells on the centerline of one of the first `k` vertical legs.
    pub open spec fn v_line_upto(self, k: int, x: int, y: int) -> bool {
        exists|i: int| 0 <= i < k && (#[trigger] self.v_corridors@[i]).centerline(x, y)
    }

    /// Cells carved as wall by some shape: room borders and corridor
    /// buffers.
    pub open spec fn is_wall_shape(self, x: int, y: int) -> bool {
        self.room_border_upto(self.rect_rooms@.len() as int, x, y) || self.h_band_upto(
            self.h_corridors@.len() as int,
            x,
            y,
        ) || self.v_band_upto(self.v_corridors@.len() as int, x, y)
    }

    /// Cells carved as floor by some shape: room interiors and corridor
    /// centerlines.
    pub open spec fn is_floor(self, x: int, y: int) -> bool {
        self.room_interior_upto(self.rect_rooms@.len() as int, x, y) || self.h_line_upto(
            self.h_corridors@.len() as int,
            x,
            y,
        ) || self.v_line_upto(self.v_corridors@.len() as int, x, y)
    }

    /// What rasterization leaves at a cell: floors win over walls because
    /// all walls are carved before any floor.
    pub open spec fn rasterized_tile(self, x: int, y: int) -> Tile {
        if self.is_floor(x, y) {
            Tile::Ground
        } else if self.is_wall_shape(x, y) {
            Tile::Wall
        } else {
            Tile::Empty
        }
    }

    /// Every corridor leg of a well-formed dungeon runs between room
    /// centers, so it stays at least one cell away from the map edge.
    pub proof fn lemma_corridors_in_map(self)
        requires
            self.wf(),
        ensures
            forall|i: int|
                0 <= i < self.h_corridors@.len() ==> {
                    let h = #[trigger] self.h_corridors@[i];
                    h.x1 <= h.x2 && 1 <= h.x1 && h.x2 + 1 < self.config.size.0 && 1 <= h.y
                        <= self.config.size.1 - 2
                },
            forall|i: int|
                0 <= i < self.v_corridors@.len() ==> {
                    let v = #[trigger] self.v_corridors@[i];
                    v.y1 <= v.y2 && 1 <= v.y1 && v.y2 + 1 < self.config.size.1 && 1 <= v.x
                        <= self.config.size.0 - 2
                },
    {
        let w = self.config.size.0 as int;
        let h = self.config.size.1 as int;
        assert forall|i: int| 0 <= i < self.h_corridors@.len() implies {
            let hc = #[trigger] self.h_corridors@[i];
            hc.x1 <= hc.x2 && 1 <= hc.x1 && hc.x2 + 1 < w && 1 <= hc.y <= h - 2
        } by {
            assert(l_connects(
                self.h_corridors@[i],
                self.v_corridors@[i],
                self.rect_rooms@[i].spec_center(),
                self.rect_rooms@[i + 1].spec_center(),
            ));
            lemma_center_in_room(self.rect_rooms@[i], w, h);
            lemma_center_in_room(self.rect_rooms@[i + 1], w, h);
        }
        assert forall|i: int| 0 <= i < self.v_corridors@.len() implies {
            let vc = #[trigger] self.v_corridors@[i];
            vc.y1 <= vc.y2 && 1 <= vc.y1 && vc.y2 + 1 < h && 1 <= vc.x <= w - 2
        } by {
            assert(l_connects(
                self.h_corridors@[i],
                self.v_corridors@[i],
                self.rect_rooms@[i].spec_center(),
                self.rect_rooms@[i + 1].spec_center(),
            ));
            lemma_center_in_room(self.rect_rooms@[i], w, h);
            lemma_center_in_room(self.rect_rooms@[i + 1], w, h);
        }
    }

    /// Rasterize the dungeon: carve the walls of every shape, then the
    /// floors of every shape, so floors overwrite walls wherever a shape
    /// legitimately meets another.
    pub fn as_map(&self) -> (m: GameMap)
        requires
            self.wf(),
        ensures
            m.wf(),
            m.width == self.config.size.0,
            m.height == self.config.size.1,
            forall|x: int, y: int|
                m.in_bounds(x, y) ==> m.spec_tile(x, y) == self.rasterized_tile(x, y),
    {
        proof {
            self.lemma_corridors_in_map();
        }
        let mut map = GameMap::new(self.config.size.0, self.config.size.1);
        let nr = self.rect_rooms.len();
        let nh = self.h_corridors.len();
        let nv = self.v_corridors.len();

        let mut i: usize = 0;
        while i < nr
            invariant
                self.wf(),
                map.wf(),
                map.width == self.config.size.0,
                map.height == self.config.size.1,
                nr == self.rect_rooms@.len(),
                i <= nr,
                forall|x: int, y: int|
                    map.in_bounds(x, y) ==> map.spec_tile(x, y) == (if self.room_border_upto(
                        i as int,
                        x,
                        y,
                    ) {
                        Tile::Wall
                    } else {
                        Tile::Empty
                    }),
            decreases nr - i,
        {
            let ghost prev = map;
            self.rect_rooms[i].carve_walls(&mut map);
            proof {
                assert forall|x: int, y: int| map.in_bounds(x, y) implies map.spec_tile(x, y) == (
                if self.room_border_upto(i + 1, x, y) {
                    Tile::Wall
                } else {
                    Tile::Empty
                }) by {
                    if self.rect_rooms@[i as int].on_border(x, y) {
                        assert(self.room_border_upto(i + 1, x, y));
                    } else if self.room_border_upto(i + 1, x, y) {
                        let j = choose|j: int|
                            0 <= j < i + 1 && (#[trigger] self.rect_rooms@[j]).on_border(x, y);
                        assert(self.room_border_upto(i as int, x, y));
                    }
                }
            }
            i = i + 1;
        }

        let mut i: usize = 0;
        while i < nh
            invariant
                self.wf(),
                map.wf(),
                map.width == self.config.size.0,
                map.height == self.config.size.1,
                nr == self.rect_rooms@.len(),
                nh == self.h_corridors@.len(),
                i <= nh,
                forall|x: int, y: int|
                    map.in_bounds(x, y) ==> map.spec_tile(x, y) == (if self.room_border_upto(
                        nr as int,
                        x,
                        y,
                    ) || self.h_band_upto(i as int, x, y) {
                        Tile::Wall
                    } else {
                        Tile::Empty
                    }),
            decreases nh - i,
        {
            proof {
                self.lemma_corridors_in_map();
            }
            self.h_corridors[i].carve_walls(&mut map);
            proof {
                assert forall|x: int, y: int| map.in_bounds(x, y) implies map.spec_tile(x, y) == (
                if self.room_border_upto(nr as int, x, y) || self.h_band_upto(i + 1, x, y) {
                    Tile::Wall
                } else {
                    Tile::Empty
                }) by {
                    if self.h_corridors@[i as int].band(x, y) {
                        assert(self.h_band_upto(i + 1, x, y));
                    } else if self.h_band_upto(i + 1, x, y) {
                        let j = choose|j: int|
                            0 <= j < i + 1 && (#[trigger] self.h_corridors@[j]).band(x, y);
                        assert(self.h_band_upto(i as int, x, y));
                    }
                }
            }
            i = i + 1;
        }

        let mut i: usize = 0;
        while i < nv
            invariant
                self.wf(),
                map.wf(),
                map.width == self.config.size.0,
                map.height == self.config.size.1,
                nr == self.rect_rooms@.len(),
                nh == self.h_corridors@.len(),
                nv == self.v_corridors@.len(),
                i <= nv,
                forall|x: int, y: int|
                    map.in_bounds(x, y) ==> map.spec_tile(x, y) == (if self.room_border_upto(
                        nr as int,
                        x,
                        y,
                    ) || self.h_band_upto(nh as int, x, y) || self.v_band_upto(i as int, x, y) {
                        Tile::Wall
                    } else {
                        Tile::Empty
                    }),
            decreases nv - i,
        {
            proof {
                self.lemma_corridors_in_map();
            }
            self.v_corridors[i].carve_walls(&mut map);
            proof {
                assert forall|x: int, y: int| map.in_bounds(x, y) implies map.spec_tile(x, y) == (
                if self.room_border_upto(nr as int, x, y) || self.h_band_upto(nh as int, x, y)
                    || self.v_band_upto(i + 1, x, y) {
                    Tile::Wall
                } else {
                    Tile::Empty
                }) by {
                    if self.v_corridors@[i as int].band(x, y) {
                        assert(self.v_band_upto(i + 1, x, y));
                    } else if self.v_band_upto(i + 1, x, y) {
                        let j = choose|j: int|
                            0 <= j < i + 1 && (#[trigger] self.v_corridors@[j]).band(x, y);
                        assert(self.v_band_upto(i as int, x, y));
                    }
                }
            }
            i = i + 1;
        }

        let mut i: usize = 0;
        while i < nr
            invariant
                self.wf(),
                map.wf(),
                map.width == self.config.size.0,
                map.height == self.config.size.1,
                nr == self.rect_rooms@.len(),
                i <= nr,
                forall|x: int, y: int|
                    map.in_bounds(x, y) ==> map.spec_tile(x, y) == (if self.room_interior_upto(
                        i as int,
                        x,
                        y,
                    ) {
                        Tile::Ground
                    } else if self.is_wall_shape(x, y) {
                        Tile::Wall
                    } else {
                        Tile::Empty
                    }),
            decreases nr - i,
        {
            self.rect_rooms[i].carve_floors(&mut map);
            proof {
                assert forall|x: int, y: int| map.in_bounds(x, y) implies map.spec_tile(x, y) == (
                if self.room_interior_upto(i + 1, x, y) {
                    Tile::Ground
                } else if self.is_wall_shape(x, y) {
                    Tile::Wall
                } else {
                    Tile::Empty
                }) by {
                    if self.rect_rooms@[i as int].in_interior(x, y) {
                        assert(self.room_interior_upto(i + 1, x, y));
                    } else if self.room_interior_upto(i + 1, x, y) {
                        let j = choose|j: int|
                            0 <= j < i + 1 && (#[trigger] self.rect_rooms@[j]).in_interior(x, y);
                        assert(self.room_interior_upto(i as int, x, y));
                    }
                }
            }
            i = i + 1;
        }

        let mut i: usize = 0;
        while i < nh
            invariant
                self.wf(),
                map.wf(),
                map.width == self.config.size.0,
                map.height == self.config.size.1,
                nr == self.rect_rooms@.len(),
                nh == self.h_corridors@.len(),
                i <= nh,
                forall|x: int, y: int|
                    map.in_bounds(x, y) ==> map.spec_tile(x, y) == (if self.room_interior_upto(
                        nr as int,
                        x,
                        y,
                    ) || self.h_line_upto(i as int, x, y) {
                        Tile::Ground
                    } else if self.is_wall_shape(x, y) {
                        Tile::Wall
                    } else {
                        Tile::Empty
                    }),
            decreases nh - i,
        {
            proof {
                self.lemma_corridors_in_map();
            }
            self.h_corridors[i].carve_floors(&mut map);
            proof {
                assert forall|x: int, y: int| map.in_bounds(x, y) implies map.spec_tile(x, y) == (
                if self.room_interior_upto(nr as int, x, y) || self.h_line_upto(i + 1, x, y) {
                    Tile::Ground
                } else if self.is_wall_shape(x, y) {
                    Tile::Wall
                } else {
                    Tile::Empty
                }) by {
                    if self.h_corridors@[i as int].centerline(x, y) {
                        assert(self.h_line_upto(i + 1, x, y));
                    } else if self.h_line_upto(i + 1, x, y) {
                        let j = choose|j: int|
                            0 <= j < i + 1 && (#[trigger] self.h_corridors@[j]).centerline(x, y);
                        assert(self.h_line_upto(i as int, x, y));
                    }
                }
            }
            i = i + 1;
        }

        let mut i: usize = 0;
        while i < nv
            invariant
                self.wf(),
                map.wf(),
                map.width == self.config.size.0,
                map.height == self.config.size.1,
                nr == self.rect_rooms@.len(),
                nh == self.h_corridors@.len(),
                nv == self.v_corridors@.len(),
                i <= nv,
                forall|x: int, y: int|
                    map.in_bounds(x, y) ==> map.spec_tile(x, y) == (if self.room_interior_upto(
                        nr as int,
                        x,
                        y,
                    ) || self.h_line_upto(nh as int, x, y) || self.v_line_upto(i as int, x, y) {
                        Tile::Ground
                    } else if self.is_wall_shape(x, y) {
                        Tile::Wall
                    } else {
                        Tile::Empty
                    }),
            decreases nv - i,
        {
            proof {
                self.lemma_corridors_in_map();
            }
            self.v_corridors[i].carve_floors(&mut map);
            proof {
                assert forall|x: int, y: int| map.in_bounds(x, y) implies map.spec_tile(x, y) == (
                if self.room_interior_upto(nr as int, x, y) || self.h_line_upto(nh as int, x, y)
                    || self.v_line_upto(i + 1, x, y) {
                    Tile::Ground
                } else if self.is_wall_shape(x, y) {
                    Tile::Wall
                } else {
                    Tile::Empty
                }) by {
                    if self.v_corridors@[i as int].centerline(x, y) {
                        assert(self.v_line_upto(i + 1, x, y));
                    } else if self.v_line_upto(i + 1, x, y) {
                        let j = choose|j: int|
                            0 <= j < i + 1 && (#[trigger] self.v_corridors@[j]).centerline(x, y);
                        assert(self.v_line_upto(i as int, x, y));
                    }
                }
            }
            i = i + 1;
        }

        map
    }
}

/// Rasterization is idempotent in structure: the tile left at each cell is
/// a function of the dungeon value alone, so any two maps that satisfy
/// `as_map`'s contract for the same dungeon have identical tile grids.
pub proof fn lemma_as_map_deterministic(d: Dungeon, m1: GameMap, m2: GameMap)
    requires
        m1.wf(),
        m2.wf(),
        m1.width == d.config.size.0,
        m1.height == d.config.size.1,
        m2.width == d.config.size.0,
        m2.height == d.config.size.1,
        forall|x: int, y: int|
            m1.in_bounds(x, y) ==> m1.spec_tile(x, y) == d.rasterized_tile(x, y),
        forall|x: int, y: int|
            m2.in_bounds(x, y) ==> m2.spec_tile(x, y) == d.rasterized_tile(x, y),
    ensures
        m1.width == m2.width,
        m1.height == m2.height,
        m1@ == m2@,
{
    let w = m1.width as int;
    let h = m1.height as int;
    assert(m1@.len() == m2@.len());
    assert forall|idx: int| 0 <= idx < m1@.len() implies m1@[idx] == m2@[idx] by {
        assert(w > 0 && h > 0) by (nonlinear_arith)
            requires
                0 <= w,
                0 <= h,
                w * h > idx >= 0,
        ;
        let x = idx % w;
        let y = idx / w;
        lemma_fundamental_div_mod(idx, w);
        assert(0 <= x < w);
        assert(0 <= y < h) by (nonlinear_arith)
            requires
                w > 0,
                0 <= idx < w * h,
                idx == w * y + x,
                0 <= x < w,
        ;
        assert(grid_index(w, x, y) == idx);
        assert(m1.spec_tile(x, y) == d.rasterized_tile(x, y));
        assert(m2.spec_tile(x, y) == d.rasterized_tile(x, y));
    }
    assert(m1@ =~= m2@);
}

/// Two cells sharing an edge (not a diagonal).
pub open spec fn adjacent(a: (int, int), b: (int, int)) -> bool {
    (a.0 == b.0 && (a.1 == b.1 + 1 || a.1 + 1 == b.1)) || (a.1 == b.1 && (a.0 == b.0 + 1 || a.0
        + 1 == b.0))
}

/// A walk over carved ground: every cell is an in-bounds Ground tile and
/// consecutive cells share an edge.
pub open spec fn ground_path(m: GameMap, p: Seq<(int, int)>) -> bool {
    &&& p.len() >= 1
    &&& forall|i: int|
        0 <= i < p.len() ==> m.in_bounds((#[trigger] p[i]).0, p[i].1) && m.spec_tile(
            p[i].0,
            p[i].1,
        ) == Tile::Ground
    &&& forall|i: int| 0 <= i < p.len() - 1 ==> adjacent(#[trigger] p[i], p[i + 1])
}

/// Cell b can be reached from cell a by walking carved ground.
pub open spec fn ground_connected(m: GameMap, a: (int, int), b: (int, int)) -> bool {
    exists|p: Seq<(int, int)>| ground_path(m, p) && p.first() == a && p.last() == b
}

/// An in-bounds ground cell reaches itself.
proof fn lemma_ground_connected_refl(m: GameMap, a: (int, int))
    requires
        m.in_bounds(a.0, a.1),
        m.spec_tile(a.0, a.1) == Tile::Ground,
    ensures
        ground_connected(m, a, a),
{
    let p = seq![a];
    assert(ground_path(m, p) && p.first() == a && p.last() == a);
}

/// Walks compose: a walk to b and a walk from b join into one.
proof fn lemma_ground_connected_trans(m: GameMap, a: (int, int), b: (int, int), c: (int, int))
    requires
        ground_connected(m, a, b),
        ground_connected(m, b, c),
    ensures
        ground_connected(m, a, c),
{
    let p1 = choose|p: Seq<(int, int)>| ground_path(m, p) && p.first() == a && p.last() == b;
    let p2 = choose|p: Seq<(int, int)>| ground_path(m, p) && p.first() == b && p.last() == c;
    let p = p1 + p2.subrange(1, p2.len() as int);
    assert forall|i: int| 0 <= i < p.len() implies m.in_bounds((#[trigger] p[i]).0, p[i].1)
        && m.spec_tile(p[i].0, p[i].1) == Tile::Ground by {
        if i < p1.len() {
            assert(p[i] == p1[i]);
        } else {
            assert(p[i] == p2[i - p1.len() + 1]);
        }
    }
    assert forall|i: int| 0 <= i < p.len() - 1 implies adjacent(#[trigger] p[i], p[i + 1]) by {
        if i + 1 < p1.len() {
            assert(p[i] == p1[i] && p[i + 1] == p1[i + 1]);
        } else if i + 1 == p1.len() {
            assert(p[i] == p1[p1.len() - 1] && p1[p1.len() - 1] == b);
            assert(p[i + 1] == p2[1]);
            assert(p2[0] == b);
            assert(adjacent(p2[0], p2[1]) || p2.len() == 1);
            if p2.len() == 1 {
                assert(i + 1 == p.len() - 1 + 1);
            }
        } else {
            assert(p[i] == p2[i - p1.len() + 1] && p[i + 1] == p2[i - p1.len() + 2]);
        }
    }
    if p2.len() == 1 {
        assert(p =~= p1);
        assert(p.last() == b && b == c);
    } else {
        assert(p.last() == p2[p2.len() - 1]);
    }
    assert(ground_path(m, p) && p.first() == a && p.last() == c);
}

/// A horizontal run of ground connects its two ends.
proof fn lemma_ground_hline(m: GameMap, x1: int, x2: int, y: int)
    requires
        x1 <= x2,
        forall|x: int|
            x1 <= x <= x2 ==> m.in_bounds(x, y) && #[trigger] m.spec_tile(x, y) == Tile::Ground,
    ensures
        ground_connected(m, (x1, y), (x2, y)),
    decreases x2 - x1,
{
    if x1 == x2 {
        lemma_ground_connected_refl(m, (x1, y));
    } else {
        lemma_ground_hline(m, x1, x2 - 1, y);
        let step = seq![(x2 - 1, y), (x2, y)];
        assert(ground_path(m, step) && step.first() == (x2 - 1, y) && step.last() == (x2, y));
        assert(ground_connected(m, (x2 - 1, y), (x2, y)));
        lemma_ground_connected_trans(m, (x1, y), (x2 - 1, y), (x2, y));
    }
}

/// A vertical run of ground connects its two ends.
proof fn lemma_ground_vline(m: GameMap, x: int, y1: int, y2: int)
    requires
        y1 <= y2,
        forall|y: int|
            y1 <= y <= y2 ==> m.in_bounds(x, y) && #[trigger] m.spec_tile(x, y) == Tile::Ground,
    ensures
        ground_connected(m, (x, y1), (x, y2)),
    decreases y2 - y1,
{
    if y1 == y2 {
        lemma_ground_connected_refl(m, (x, y1));
    } else {
        lemma_ground_vline(m, x, y1, y2 - 1);
        let step = seq![(x, y2 - 1), (x, y2)];
        assert(ground_path(m, step) && step.first() == (x, y2 - 1) && step.last() == (x, y2));
        assert(ground_connected(m, (x, y2 - 1), (x, y2)));
        lemma_ground_connected_trans(m, (x, y1), (x, y2 - 1), (x, y2));
    }
}

impl Dungeon {
    /// A map carrying this dungeon's rasterization.
    pub open spec fn rasterized_on(self, m: GameMap) -> bool {
        &&& m.wf()
        &&& m.width == self.config.size.0
        &&& m.height == self.config.size.1
        &&& forall|x: int, y: int|
            m.in_bounds(x, y) ==> #[trigger] m.spec_tile(x, y) == self.rasterized_tile(x, y)
    }

    /// The centerline of the i-th horizontal corridor leg is all ground.
    proof fn lemma_h_leg_ground(self, m: GameMap, i: int)
        requires
            self.wf(),
            self.rasterized_on(m),
            0 <= i < self.h_corridors@.len(),
        ensures
            ground_connected(
                m,
                (self.h_corridors@[i].x1 as int, self.h_corridors@[i].y as int),
                (self.h_corridors@[i].x2 as int, self.h_corridors@[i].y as int),
            ),
    {
        let h = self.h_corridors@[i];
        self.lemma_corridors_in_map();
        assert forall|x: int| h.x1 <= x <= h.x2 implies m.in_bounds(x, h.y as int)
            && #[trigger] m.spec_tile(x, h.y as int) == Tile::Ground by {
            assert(h.centerline(x, h.y as int));
            assert(self.h_line_upto(self.h_corridors@.len() as int, x, h.y as int));
            assert(self.is_floor(x, h.y as int));
        }
        lemma_ground_hline(m, h.x1 as int, h.x2 as int, h.y as int);
    }

    /// The centerline of the i-th vertical corridor leg is all ground.
    proof fn lemma_v_leg_ground(self, m: GameMap, i: int)
        requires
            self.wf(),
            self.rasterized_on(m),
            0 <= i < self.v_corridors@.len(),
        ensures
            ground_connected(
                m,
                (self.v_corridors@[i].x as int, self.v_corridors@[i].y1 as int),
                (self.v_corridors@[i].x as int, self.v_corridors@[i].y2 as int),
            ),
    {
        let v = self.v_corridors@[i];
        self.lemma_corridors_in_map();
        assert forall|y: int| v.y1 <= y <= v.y2 implies m.in_bounds(v.x as int, y)
            && #[trigger] m.spec_tile(v.x as int, y) == Tile::Ground by {
            assert(v.centerline(v.x as int, y));
            assert(self.v_line_upto(self.v_corridors@.len() as int, v.x as int, y));
            assert(self.is_floor(v.x as int, y));
        }
        lemma_ground_vline(m, v.x as int, v.y1 as int, v.y2 as int);
    }

    /// The centers of two consecutively accepted rooms are joined by
    /// their L-shaped corridor.
    proof fn lemma_consecutive_centers_connected(self, m: GameMap, i: int)
        requires
            self.wf(),
            self.rasterized_on(m),
            0 <= i < self.rect_rooms@.len() - 1,
        ensures
            ground_connected(
                m,
                self.rect_rooms@[i].spec_center(),
                self.rect_rooms@[i + 1].spec_center(),
            ),
    {
        let a = self.rect_rooms@[i].spec_center();
        let b = self.rect_rooms@[i + 1].spec_center();
        let h = self.h_corridors@[i];
        let v = self.v_corridors@[i];
        assert(l_connects(h, v, a, b));
        self.lemma_h_leg_ground(m, i);
        self.lemma_v_leg_ground(m, i);
        self.lemma_corridors_in_map();
        if h.y == a.1 && v.x == b.0 {
            // horizontal leg first: a to the corner, then down to b
            let corner = (b.0, a.1);
            assert(ground_connected(m, (h.x1 as int, h.y as int), (h.x2 as int, h.y as int)));
            assert(a == (if a.0 <= b.0 { (h.x1 as int, h.y as int) } else { (h.x2 as int, h.y as int) }));
            assert(corner == (if a.0 <= b.0 { (h.x2 as int, h.y as int) } else { (h.x1 as int, h.y as int) }));
            if a.0 <= b.0 {
                assert(ground_connected(m, a, corner));
            } else {
                lemma_ground_hline_rev(m, h.x1 as int, h.x2 as int, h.y as int);
                assert(ground_connected(m, a, corner));
            }
            assert(corner == (if a.1 <= b.1 { (v.x as int, v.y1 as int) } else { (v.x as int, v.y2 as int) }));
            if a.1 <= b.1 {
                assert(ground_connected(m, corner, b));
            } else {
                lemma_ground_vline_rev(m, v.x as int, v.y1 as int, v.y2 as int);
                assert(ground_connected(m, corner, b));
            }
            lemma_ground_connected_trans(m, a, corner, b);
        } else {
            // vertical leg first: a down to the corner, then across to b
            let corner = (a.0, b.1);
            if a.1 <= b.1 {
                assert(ground_connected(m, a, corner));
            } else {
                lemma_ground_vline_rev(m, v.x as int, v.y1 as int, v.y2 as int);
                assert(ground_connected(m, a, corner));
            }
            if a.0 <= b.0 {
                assert(ground_connected(m, corner, b));
            } else {
                lemma_ground_hline_rev(m, h.x1 as int, h.x2 as int, h.y as int);
                assert(ground_connected(m, corner, b));
            }
            lemma_ground_connected_trans(m, a, corner, b);
        }
    }

    /// Every accepted room is reachable from the first accepted room by
    /// walking carved ground: the rasterized map connects the first
    /// room's center to every other room's center.
    pub proof fn lemma_rooms_reachable(self, m: GameMap, i: int)
        requires
            self.wf(),
            self.rasterized_on(m),
            0 <= i < self.rect_rooms@.len(),
        ensures
            ground_connected(
                m,
                self.rect_rooms@[0].spec_center(),
                self.rect_rooms@[i].spec_center(),
            ),
        decreases i,
    {
        let w = self.config.size.0 as int;
        let h = self.config.size.1 as int;
        if i == 0 {
            let r = self.rect_rooms@[0];
            let c = r.spec_center();
            lemma_center_in_room(r, w, h);
            assert(self.room_interior_upto(self.rect_rooms@.len() as int, c.0, c.1));
            assert(self.is_floor(c.0, c.1));
            lemma_ground_connected_refl(m, c);
        } else {
            self.lemma_rooms_reachable(m, i - 1);
            self.lemma_consecutive_centers_connected(m, i - 1);
            lemma_ground_connected_trans(
                m,
                self.rect_rooms@[0].spec_center(),
                self.rect_rooms@[i - 1].spec_center(),
                self.rect_rooms@[i].spec_center(),
            );
        }
    }
}

/// A horizontal ground run read right to left.
proof fn lemma_ground_hline_rev(m: GameMap, x1: int, x2: int, y: int)
    requires
        x1 <= x2,
        forall|x: int|
            x1 <= x <= x2 ==> m.in_bounds(x, y) && #[trigger] m.spec_tile(x, y) == Tile::Ground,
    ensures
        ground_connected(m, (x2, y), (x1, y)),
    decreases x2 - x1,
{
    if x1 == x2 {
        lemma_ground_connected_refl(m, (x1, y));
    } else {
        lemma_ground_hline_rev(m, x1 + 1, x2, y);
        let step = seq![(x1 + 1, y), (x1, y)];
        assert(ground_path(m, step) && step.first() == (x1 + 1, y) && step.last() == (x1, y));
        assert(ground_connected(m, (x1 + 1, y), (x1, y)));
        lemma_ground_connected_trans(m, (x2, y), (x1 + 1, y), (x1, y));
    }
}

/// A vertical ground run read bottom to top.
proof fn lemma_ground_vline_rev(m: GameMap, x: int, y1: int, y2: int)
    requires
        y1 <= y2,
        forall|y: int|
            y1 <= y <= y2 ==> m.in_bounds(x, y) && #[trigger] m.spec_tile(x, y) == Tile::Ground,
    ensures
        ground_connected(m, (x, y2), (x, y1)),
    decreases y2 - y1,
{
    if y1 == y2 {
        lemma_ground_connected_refl(m, (x, y1));
    } else {
        lemma_ground_vline_rev(m, x, y1 + 1, y2);
        let step = seq![(x, y1 + 1), (x, y1)];
        assert(ground_path(m, step) && step.first() == (x, y1 + 1) && step.last() == (x, y1));
        assert(ground_connected(m, (x, y1 + 1), (x, y1)));
        lemma_ground_connected_trans(m, (x, y2), (x, y1 + 1), (x, y1));
    }
}

} // verus!
