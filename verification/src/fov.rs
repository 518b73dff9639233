use vstd::prelude::*;
use crate::ints::{iabs, imax, imin};
use crate::map::{grid_index, lemma_grid_index, GameMap, Tile};
use crate::pos::Pos;

verus! {

/// Chebyshev distance between two cells.
pub open spec fn cheb_dist(ax: int, ay: int, bx: int, by: int) -> int {
    imax(iabs(ax - bx), iabs(ay - by))
}

/// Twice the signed area of the triangle (a, b, c): zero exactly when the
/// three points are collinear, and its magnitude grows with c's distance
/// from the line through a and b.
pub open spec fn cross(ax: int, ay: int, bx: int, by: int, cx: int, cy: int) -> int {
    (by - ay) * (cx - ax) - (bx - ax) * (cy - ay)
}

/// Cell c lies strictly between a and b on the thin digital line from a to
/// b: inside their bounding box, distinct from both endpoints, and within
/// half a cell of the exact segment.
pub open spec fn on_sight_line(ax: int, ay: int, bx: int, by: int, cx: int, cy: int) -> bool {
    &&& !(cx == ax && cy == ay)
    &&& !(cx == bx && cy == by)
    &&& imin(ax, bx) <= cx <= imax(ax, bx)
    &&& imin(ay, by) <= cy <= imax(ay, by)
    &&& 2 * iabs(cross(ax, ay, bx, by, cx, cy)) <= imax(iabs(bx - ax), iabs(by - ay))
}

/// Sight lines read the same set of intermediate cells in both directions.
pub proof fn lemma_sight_line_symmetric(ax: int, ay: int, bx: int, by: int, cx: int, cy: int)
    ensures
        on_sight_line(ax, ay, bx, by, cx, cy) == on_sight_line(bx, by, ax, ay, cx, cy),
{
    assert(cross(bx, by, ax, ay, cx, cy) == -cross(ax, ay, bx, by, cx, cy)) by (nonlinear_arith);
}

/// The per-cell transparency of a map, plus the visibility set of the most
/// recent field-of-view computation.
pub struct FovMap {
    pub width: u16,
    pub height: u16,
    pub transparent: Vec<bool>,
    pub visible: Vec<bool>,
}

impl FovMap {
    pub open spec fn wf(self) -> bool {
        self.transparent@.len() == self.width * self.height && self.visible@.len() == self.width
            * self.height
    }

    pub open spec fn in_bounds(self, x: int, y: int) -> bool {
        0 <= x < self.width && 0 <= y < self.height
    }

    pub open spec fn spec_transparent(self, x: int, y: int) -> bool
        recommends
            self.wf(),
            self.in_bounds(x, y),
    {
        self.transparent@[grid_index(self.width as int, x, y)]
    }

    pub open spec fn spec_visible(self, x: int, y: int) -> bool
        recommends
            self.wf(),
            self.in_bounds(x, y),
    {
        self.visible@[grid_index(self.width as int, x, y)]
    }

    /// Unobstructed line of sight: no opaque cell lies strictly between
    /// the two endpoints on the digital line joining them.
    pub open spec fn spec_los(self, ax: int, ay: int, bx: int, by: int) -> bool {
        forall|cx: int, cy: int|
            self.in_bounds(cx, cy) && #[trigger] on_sight_line(ax, ay, bx, by, cx, cy)
                ==> self.spec_transparent(cx, cy)
    }

    /// What the field of view of an observer at (ox, oy) with the given
    /// radius contains: in-bounds cells within the radius whose sight line
    /// from the observer is unobstructed. Opaque cells block sight beyond
    /// themselves but are visible when directly lit.
    pub open spec fn spec_vis(self, ox: int, oy: int, x: int, y: int, radius: int) -> bool {
        &&& self.in_bounds(x, y)
        &&& cheb_dist(ox, oy, x, y) <= radius
        &&& self.spec_los(ox, oy, x, y)
    }
}

/// Build the transparency grid of a map: walls are opaque, ground and
/// unexcavated cells are transparent. Nothing is visible until a
/// field-of-view computation runs.
pub fn fov_map_from_map(map: &GameMap) -> (r: FovMap)
    requires
        map.wf(),
    ensures
        r.wf(),
        r.width == map.width,
        r.height == map.height,
        forall|x: int, y: int|
            r.in_bounds(x, y) ==> r.spec_transparent(x, y) == (map.spec_tile(x, y) != Tile::Wall),
        forall|x: int, y: int| r.in_bounds(x, y) ==> !r.spec_visible(x, y),
{
    let w = map.width;
    let h = map.height;
    let mut transparent: Vec<bool> = Vec::new();
    let mut y: u16 = 0;
    while y < h
        invariant
            map.wf(),
            w == map.width,
            h == map.height,
            y <= h,
            transparent@.len() == y * w,
            forall|a: int, b: int|
                0 <= a < w && 0 <= b < y ==> transparent@[grid_index(w as int, a, b)] == (
                map.spec_tile(a, b) != Tile::Wall),
        decreases h - y,
    {
        let mut x: u16 = 0;
        while x < w
            invariant
                map.wf(),
                w == map.width,
                h == map.height,
                y < h,
                x <= w,
                transparent@.len() == y * w + x,
                forall|a: int, b: int|
                    0 <= a < w && 0 <= b < y ==> transparent@[grid_index(w as int, a, b)] == (
                    map.spec_tile(a, b) != Tile::Wall),
                forall|a: int| 0 <= a < x ==> transparent@[grid_index(w as int, a, y as int)] == (
                map.spec_tile(a, y as int) != Tile::Wall),
        decreases w - x,
        {
            let t = map.tile(Pos::new(x as i32, y as i32));
            transparent.push(t != Tile::Wall);
            proof {
                assert forall|a: int, b: int| 0 <= a < w && 0 <= b < y implies transparent@[grid_index(
                    w as int,
                    a,
                    b,
                )] == (map.spec_tile(a, b) != Tile::Wall) by {
                    lemma_grid_index(w as int, y as int, a, b);
                    assert(grid_index(w as int, a, b) < y * w) by (nonlinear_arith)
                        requires
                            0 <= a < w,
                            0 <= b < y,
                    ;
                }
                assert forall|a: int| 0 <= a <= x implies transparent@[grid_index(
                    w as int,
                    a,
                    y as int,
                )] == (map.spec_tile(a, y as int) != Tile::Wall) by {
                }
            }
            x = x + 1;
        }
        proof {
            assert((y + 1) * w == y * w + w) by (nonlinear_arith);
        }
        y = y + 1;
    }
    proof {
        assert(transparent@.len() == h * w);
        assert(h * w == w * h) by (nonlinear_arith);
    }
    let n = transparent.len();
    let mut visible: Vec<bool> = Vec::new();
    let mut i: usize = 0;
    while i < n
        invariant
            i <= n,
            visible@.len() == i,
            forall|j: int| 0 <= j < i ==> !visible@[j],
        decreases n - i,
    {
        visible.push(false);
        i = i + 1;
    }
    let r = FovMap { width: w, height: h, transparent, visible };
    proof {
        assert forall|x: int, y2: int| r.in_bounds(x, y2) implies !r.spec_visible(x, y2) by {
            lemma_grid_index(w as int, h as int, x, y2);
        }
        assert forall|x: int, y2: int| r.in_bounds(x, y2) implies r.spec_transparent(x, y2) == (
        map.spec_tile(x, y2) != Tile::Wall) by {
            lemma_grid_index(w as int, h as int, x, y2);
        }
    }
    r
}

impl FovMap {
    /// Decide whether one cell lies strictly between the endpoints on
    /// their digital sight line.
    fn on_line(ax: i32, ay: i32, bx: i32, by: i32, cx: i32, cy: i32) -> (r: bool)
        requires
            0 <= ax <= 0xFFFF,
            0 <= ay <= 0xFFFF,
            0 <= bx <= 0xFFFF,
            0 <= by <= 0xFFFF,
            0 <= cx <= 0xFFFF,
            0 <= cy <= 0xFFFF,
        ensures
            r == on_sight_line(ax as int, ay as int, bx as int, by as int, cx as int, cy as int),
    {
        if cx == ax && cy == ay {
            return false;
        }
        if cx == bx && cy == by {
            return false;
        }
        let xlo = if ax <= bx { ax } else { bx };
        let xhi = if ax <= bx { bx } else { ax };
        let ylo = if ay <= by { ay } else { by };
        let yhi = if ay <= by { by } else { ay };
        if !(xlo <= cx && cx <= xhi && ylo <= cy && cy <= yhi) {
            return false;
        }
        let dx = (bx - ax) as i64;
        let dy = (by - ay) as i64;
        proof {
            assert(-0x1_0000_0000_0000i64 <= dy * ((cx - ax) as i64) <= 0x1_0000_0000_0000i64)
                by (nonlinear_arith)
                requires
                    -0x10000 <= dy <= 0x10000,
                    -0x10000 <= (cx - ax) as i64 <= 0x10000,
            ;
            assert(-0x1_0000_0000_0000i64 <= dx * ((cy - ay) as i64) <= 0x1_0000_0000_0000i64)
                by (nonlinear_arith)
                requires
                    -0x10000 <= dx <= 0x10000,
                    -0x10000 <= (cy - ay) as i64 <= 0x10000,
            ;
        }
        let c = dy * ((cx - ax) as i64) - dx * ((cy - ay) as i64);
        let ca = if c >= 0 {
            c
        } else {
            -c
        };
        let adx = if dx >= 0 {
            dx
        } else {
            -dx
        };
        let ady = if dy >= 0 {
            dy
        } else {
            -dy
        };
        let m = if adx >= ady {
            adx
        } else {
            ady
        };
        2 * ca <= m
    }

    /// Scan the grid for an opaque cell that interrupts the sight line
    /// between the two endpoints.
    fn line_of_sight(&self, ox: u16, oy: u16, tx: u16, ty: u16) -> (r: bool)
        requires
            self.wf(),
            self.in_bounds(ox as int, oy as int),
            self.in_bounds(tx as int, ty as int),
        ensures
            r == self.spec_los(ox as int, oy as int, tx as int, ty as int),
    {
        let w = self.width;
        let h = self.height;
        let mut blocked = false;
        let mut cy: u16 = 0;
        while cy < h
            invariant
                self.wf(),
                w == self.width,
                h == self.height,
                self.in_bounds(ox as int, oy as int),
                self.in_bounds(tx as int, ty as int),
                cy <= h,
                blocked == exists|a: int, b: int|
                    self.in_bounds(a, b) && 0 <= b < cy && #[trigger] on_sight_line(
                        ox as int,
                        oy as int,
                        tx as int,
                        ty as int,
                        a,
                        b,
                    ) && !self.spec_transparent(a, b),
            decreases h - cy,
        {
            let mut cx: u16 = 0;
            while cx < w
                invariant
                    self.wf(),
                    w == self.width,
                    h == self.height,
                    self.in_bounds(ox as int, oy as int),
                    self.in_bounds(tx as int, ty as int),
                    cy < h,
                    cx <= w,
                    blocked == exists|a: int, b: int|
                        self.in_bounds(a, b) && (0 <= b < cy || (b == cy && 0 <= a < cx))
                            && #[trigger] on_sight_line(
                            ox as int,
                            oy as int,
                            tx as int,
                            ty as int,
                            a,
                            b,
                        ) && !self.spec_transparent(a, b),
                decreases w - cx,
            {
                let on = Self::on_line(
                    ox as i32,
                    oy as i32,
                    tx as i32,
                    ty as i32,
                    cx as i32,
                    cy as i32,
                );
                if on {
                    let n = self.transparent.len();
                    proof {
                        lemma_grid_index(w as int, h as int, cx as int, cy as int);
                        assert(h * w == w * h) by (nonlinear_arith);
                        assert(grid_index(w as int, cx as int, cy as int) < n);
                    }
                    if !self.transparent[cy as usize * w as usize + cx as usize] {
                        blocked = true;
                    }
                }
                cx = cx + 1;
            }
            cy = cy + 1;
        }
        !blocked
    }

    /// Recompute the visibility set for an observer and radius: a cell is
    /// visible exactly when it is in bounds, within the radius, and its
    /// sight line from the observer is unobstructed.
    pub fn compute_fov(&mut self, ox: u16, oy: u16, radius: u16)
        requires
            old(self).wf(),
            old(self).in_bounds(ox as int, oy as int),
        ensures
            final(self).wf(),
            final(self).width == old(self).width,
            final(self).height == old(self).height,
            final(self).transparent == old(self).transparent,
            forall|x: int, y: int|
                old(self).in_bounds(x, y) ==> final(self).spec_visible(x, y) == old(
                    self,
                ).spec_vis(ox as int, oy as int, x, y, radius as int),
    {
        let w = self.width;
        let h = self.height;
        let mut visible: Vec<bool> = Vec::new();
        let mut y: u16 = 0;
        while y < h
            invariant
                self.wf(),
                w == self.width,
                h == self.height,
                self.in_bounds(ox as int, oy as int),
                y <= h,
                visible@.len() == y * w,
                forall|a: int, b: int|
                    0 <= a < w && 0 <= b < y ==> visible@[grid_index(w as int, a, b)]
                        == self.spec_vis(ox as int, oy as int, a, b, radius as int),
            decreases h - y,
        {
            let mut x: u16 = 0;
            while x < w
                invariant
                    self.wf(),
                    w == self.width,
                    h == self.height,
                    self.in_bounds(ox as int, oy as int),
                    y < h,
                    x <= w,
                    visible@.len() == y * w + x,
                    forall|a: int, b: int|
                        0 <= a < w && 0 <= b < y ==> visible@[grid_index(w as int, a, b)]
                            == self.spec_vis(ox as int, oy as int, a, b, radius as int),
                    forall|a: int|
                        0 <= a < x ==> visible@[grid_index(w as int, a, y as int)]
                            == self.spec_vis(ox as int, oy as int, a, y as int, radius as int),
                decreases w - x,
            {
                let dx = if ox as i32 >= x as i32 {
                    ox as i32 - x as i32
                } else {
                    x as i32 - ox as i32
                };
                let dy = if oy as i32 >= y as i32 {
                    oy as i32 - y as i32
                } else {
                    y as i32 - oy as i32
                };
                let d = if dx >= dy {
                    dx
                } else {
                    dy
                };
                let vis = if d <= radius as i32 {
                    self.line_of_sight(ox, oy, x, y)
                } else {
                    false
                };
                visible.push(vis);
                proof {
                    assert forall|a: int, b: int| 0 <= a < w && 0 <= b < y implies visible@[grid_index(
                        w as int,
                        a,
                        b,
                    )] == self.spec_vis(ox as int, oy as int, a, b, radius as int) by {
                        lemma_grid_index(w as int, y as int, a, b);
                        assert(grid_index(w as int, a, b) < y * w) by (nonlinear_arith)
                            requires
                                0 <= a < w,
                                0 <= b < y,
                        ;
                    }
                }
                x = x + 1;
            }
            proof {
                assert((y + 1) * w == y * w + w) by (nonlinear_arith);
            }
            y = y + 1;
        }
        proof {
            assert(h * w == w * h) by (nonlinear_arith);
        }
        self.visible = visible;
        proof {
            assert forall|x: int, y2: int| old(self).in_bounds(x, y2) implies self.spec_visible(
                x,
                y2,
            ) == old(self).spec_vis(ox as int, oy as int, x, y2, radius as int) by {
                lemma_grid_index(w as int, h as int, x, y2);
            }
        }
    }

    /// Whether the last field-of-view computation lit this cell.
    pub fn is_in_fov(&self, x: u16, y: u16) -> (r: bool)
        requires
            self.wf(),
            self.in_bounds(x as int, y as int),
        ensures
            r == self.spec_visible(x as int, y as int),
    {
        let n = self.visible.len();
        proof {
            lemma_grid_index(self.width as int, self.height as int, x as int, y as int);
            assert(grid_index(self.width as int, x as int, y as int) < n);
        }
        self.visible[y as usize * self.width as usize + x as usize]
    }
}

/// Cell w lies strictly between o and t on a shared row, shared column, or
/// exact diagonal.
pub open spec fn aligned_between(ox: int, oy: int, wx: int, wy: int, tx: int, ty: int) -> bool {
    &&& !(wx == ox && wy == oy)
    &&& !(wx == tx && wy == ty)
    &&& imin(ox, tx) <= wx <= imax(ox, tx)
    &&& imin(oy, ty) <= wy <= imax(oy, ty)
    &&& ((oy == ty && wy == oy) || (ox == tx && wx == ox) || (iabs(tx - ox) == iabs(ty - oy)
        && cross(ox, oy, tx, ty, wx, wy) == 0))
}

/// The observer's own cell is always in the field of view, whatever the
/// map holds, for any non-negative radius.
pub proof fn lemma_fov_observer_visible(f: FovMap, ox: int, oy: int, radius: int)
    requires
        f.in_bounds(ox, oy),
        radius >= 0,
    ensures
        f.spec_vis(ox, oy, ox, oy, radius),
{
    assert forall|cx: int, cy: int|
        f.in_bounds(cx, cy) && #[trigger] on_sight_line(ox, oy, ox, oy, cx, cy)
            implies f.spec_transparent(cx, cy) by {
        assert(cx == ox && cy == oy);
        assert(false);
    }
}

/// Visibility is symmetric: two in-bounds cells see each other or neither
/// does, for the same radius.
pub proof fn lemma_fov_symmetric(f: FovMap, ax: int, ay: int, bx: int, by: int, radius: int)
    requires
        f.in_bounds(ax, ay),
        f.in_bounds(bx, by),
    ensures
        f.spec_vis(ax, ay, bx, by, radius) == f.spec_vis(bx, by, ax, ay, radius),
{
    if f.spec_los(ax, ay, bx, by) {
        assert forall|cx: int, cy: int|
            f.in_bounds(cx, cy) && #[trigger] on_sight_line(bx, by, ax, ay, cx, cy)
                implies f.spec_transparent(cx, cy) by {
            lemma_sight_line_symmetric(ax, ay, bx, by, cx, cy);
            assert(on_sight_line(ax, ay, bx, by, cx, cy));
        }
        assert(f.spec_los(bx, by, ax, ay));
    }
    if f.spec_los(bx, by, ax, ay) {
        assert forall|cx: int, cy: int|
            f.in_bounds(cx, cy) && #[trigger] on_sight_line(ax, ay, bx, by, cx, cy)
                implies f.spec_transparent(cx, cy) by {
            lemma_sight_line_symmetric(ax, ay, bx, by, cx, cy);
            assert(on_sight_line(bx, by, ax, ay, cx, cy));
        }
        assert(f.spec_los(ax, ay, bx, by));
    }
}

/// An opaque cell strictly between the observer and the target on their
/// shared row, column or diagonal hides the target, whatever the radius.
pub proof fn lemma_fov_blocked(
    f: FovMap,
    ox: int,
    oy: int,
    wx: int,
    wy: int,
    tx: int,
    ty: int,
    radius: int,
)
    requires
        f.in_bounds(wx, wy),
        !f.spec_transparent(wx, wy),
        aligned_between(ox, oy, wx, wy, tx, ty),
    ensures
        !f.spec_vis(ox, oy, tx, ty, radius),
{
    if oy == ty && wy == oy {
        assert(cross(ox, oy, tx, ty, wx, wy) == 0) by (nonlinear_arith)
            requires
                oy == ty,
                wy == oy,
        ;
    } else if ox == tx && wx == ox {
        assert(cross(ox, oy, tx, ty, wx, wy) == 0) by (nonlinear_arith)
            requires
                ox == tx,
                wx == ox,
        ;
    }
    assert(on_sight_line(ox, oy, tx, ty, wx, wy));
}

/// Growing the radius never hides a visible cell: the field of view at a
/// smaller radius is a subset of the one at a larger radius.
pub proof fn lemma_fov_radius_monotonic(
    f: FovMap,
    ox: int,
    oy: int,
    x: int,
    y: int,
    r1: int,
    r2: int,
)
    requires
        r1 <= r2,
        f.spec_vis(ox, oy, x, y, r1),
    ensures
        f.spec_vis(ox, oy, x, y, r2),
{
}

} // verus!
