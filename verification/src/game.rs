use vstd::prelude::*;
use std::collections::VecDeque;
use crate::color::Rgb;
use crate::components::{
    AllComponents, CompMap, Draw, Enemy, EnemyMovement, Health, Player, Position, Stun,
};
use crate::dungeon::{lemma_center_in_room, Dungeon, DungeonConfig, RectRoom};
use crate::entity::{Entity, EntityGenerator};
use crate::fov::{fov_map_from_map, FovMap};
use crate::ints::{iabs, sgn};
use crate::input::{Command, InputHandler};
use crate::map::{grid_index, lemma_grid_index, GameMap, Tile};
use crate::pos::Pos;
use crate::rng::rand_coin;

verus! {

/// Chebyshev adjacency: the two cells coincide or touch, diagonals
/// included.
pub open spec fn spec_nearby(p1: Position, p2: Position) -> bool {
    iabs(p1.0 - p2.0) <= 1 && iabs(p1.1 - p2.1) <= 1
}

/// A cell that pursuit may not enter: outside the map, or a wall.
pub open spec fn spec_blocked(m: GameMap, x: int, y: int) -> bool {
    !m.in_bounds(x, y) || m.spec_tile(x, y) == Tile::Wall
}

/// One step of the Simple pursuit policy: the signed unit step toward the
/// target on both axes; a blocked diagonal falls back to the horizontal
/// step, then the vertical one, then staying in place. Cells outside the
/// map block like walls, so pursuit can never leave the grid.
pub open spec fn spec_step(m: GameMap, from: Position, target: Position) -> Position {
    let dx = sgn(target.0 - from.0);
    let dy = sgn(target.1 - from.1);
    let nx = from.0 + dx;
    let ny = from.1 + dy;
    if !spec_blocked(m, nx, ny) {
        Position(nx as u16, ny as u16)
    } else if !spec_blocked(m, nx, from.1 as int) {
        Position(nx as u16, from.1)
    } else if !spec_blocked(m, from.0 as int, ny) {
        Position(from.0, ny as u16)
    } else {
        from
    }
}

/// The whole game state: the generated dungeon and its rasterized map, the
/// entity store, the field-of-view state, the remembered-tiles grid, and
/// the rotating turn queue.
pub struct Game {
    pub components: AllComponents,
    pub entity_gen: EntityGenerator,
    pub dungeon: Dungeon,
    pub map: GameMap,
    pub fov_map: FovMap,
    pub tiles_seen: Vec<bool>,
    pub turn_order: VecDeque<Entity>,
}

impl Game {
    /// Whether a cell was ever seen by the player.
    pub open spec fn spec_seen(self, x: int, y: int) -> bool {
        self.tiles_seen@[grid_index(self.map.width as int, x, y)]
    }

    /// Structural soundness of a game state: grids agree on dimensions,
    /// component maps are well formed, every live entity has a position,
    /// all positions are on the map, stuns still have turns to run, and
    /// the player, when present, is live with a position and health.
    pub open spec fn wf(self) -> bool {
        &&& self.map.wf()
        &&& self.fov_map.wf()
        &&& self.fov_map.width == self.map.width
        &&& self.fov_map.height == self.map.height
        &&& forall|x: int, y: int|
            self.map.in_bounds(x, y) ==> #[trigger] self.fov_map.spec_transparent(x, y) == (
            self.map.spec_tile(x, y) != Tile::Wall)
        &&& self.tiles_seen@.len() == self.map.width * self.map.height
        &&& self.entity_gen.wf()
        &&& self.components.enemies.wf()
        &&& self.components.health.wf()
        &&& self.components.draws.wf()
        &&& self.components.positions.wf()
        &&& self.components.stuns.wf()
        &&& self.components.ui_transforms.wf()
        &&& self.components.ui_bars.wf()
        &&& self.components.ui_rects.wf()
        &&& self.components.ui_labels.wf()
        &&& forall|id: u32|
            self.entity_gen.spec_contains(id) ==> self.components.positions@.contains_key(id)
        &&& forall|id: u32|
            #[trigger] self.components.positions@.contains_key(id)
                ==> self.entity_gen.spec_contains(id)
        &&& forall|id: u32|
            #[trigger] self.components.enemies@.contains_key(id)
                ==> self.entity_gen.spec_contains(id)
        &&& forall|id: u32|
            #[trigger] self.components.health@.contains_key(id) ==> self.entity_gen.spec_contains(
                id,
            )
        &&& forall|id: u32|
            #[trigger] self.components.stuns@.contains_key(id) ==> self.entity_gen.spec_contains(
                id,
            )
        &&& forall|id: u32|
            self.components.positions@.contains_key(id) ==> {
                let p = self.components.positions@[id];
                p.0 < self.map.width && p.1 < self.map.height
            }
        &&& forall|id: u32|
            self.components.stuns@.contains_key(id)
                ==> self.components.stuns@[id].duration >= 1
        &&& match self.components.player {
            Some((e, _)) => self.entity_gen.spec_contains(e.0)
                && self.components.positions@.contains_key(e.0)
                && self.components.health@.contains_key(e.0)
                && !self.components.enemies@.contains_key(e.0),
            None => true,
        }
    }

    /// Between turns no corpse lingers: every stored health has hit
    /// points left, because the dead are reaped at the end of each turn.
    pub open spec fn healths_positive(self) -> bool {
        forall|id: u32|
            self.components.health@.contains_key(id) ==> self.components.health@[id].hp > 0
    }

    /// The turn queue holds at least one live entity, so a turn can
    /// always pick an actor.
    pub open spec fn has_live_actor(self) -> bool {
        exists|i: int|
            0 <= i < self.turn_order@.len() && self.entity_gen.spec_contains(
                (#[trigger] self.turn_order@[i]).0,
            )
    }

    /// Chebyshev-distance-1 test between two component positions.
    pub fn is_nearby(p1: &Position, p2: &Position) -> (r: bool)
        ensures
            r == spec_nearby(*p1, *p2),
    {
        let dx = p1.0 as i32 - p2.0 as i32;
        let dy = p1.1 as i32 - p2.1 as i32;
        let adx = if dx >= 0 {
            dx
        } else {
            -dx
        };
        let ady = if dy >= 0 {
            dy
        } else {
            -dy
        };
        adx <= 1 && ady <= 1
    }

    /// All entities whose position is within Chebyshev distance one of the
    /// given position, in increasing identifier order.
    pub fn nearby(position: &Position, positions: &CompMap<Position>) -> (r: Vec<Entity>)
        requires
            positions.wf(),
        ensures
            forall|i: int, j: int| 0 <= i < j < r@.len() ==> r@[i].0 < r@[j].0,
            forall|i: int|
                0 <= i < r@.len() ==> positions@.contains_key((#[trigger] r@[i]).0)
                    && spec_nearby(positions@[r@[i].0], *position),
            forall|id: u32|
                positions@.contains_key(id) && spec_nearby(positions@[id], *position)
                    ==> r@.contains(Entity(id)),
    {
        let keys = positions.keys();
        let mut r: Vec<Entity> = Vec::new();
        let mut i: usize = 0;
        while i < keys.len()
            invariant
                positions.wf(),
                i <= keys@.len(),
                forall|p: int, q: int| 0 <= p < q < keys@.len() ==> keys@[p] < keys@[q],
                forall|p: int|
                    0 <= p < keys@.len() ==> positions@.contains_key(#[trigger] keys@[p]),
                forall|id: u32| positions@.contains_key(id) ==> keys@.contains(id),
                forall|p: int, q: int| 0 <= p < q < r@.len() ==> r@[p].0 < r@[q].0,
                forall|p: int|
                    0 <= p < r@.len() ==> positions@.contains_key((#[trigger] r@[p]).0)
                        && spec_nearby(positions@[r@[p].0], *position),
                forall|p: int| 0 <= p < r@.len() ==> exists|q: int|
                    0 <= q < i && keys@[q] == (#[trigger] r@[p]).0,
                forall|id: u32|
                    (exists|q: int| 0 <= q < i && #[trigger] keys@[q] == id) && spec_nearby(
                        positions@[id],
                        *position,
                    ) ==> r@.contains(Entity(id)),
            decreases keys@.len() - i,
        {
            let id = keys[i];
            let p = positions.get(id);
            match p {
                Some(p) => {
                    if Self::is_nearby(p, position) {
                        let ghost r0 = r@;
                        proof {
                            assert forall|p2: int| 0 <= p2 < r0.len() implies r0[p2].0
                                < keys@[i as int] by {
                                let q = choose|q: int| 0 <= q < i && keys@[q] == r0[p2].0;
                            }
                        }
                        r.push(Entity(id));
                        proof {
                            assert(r@[r@.len() - 1] == Entity(id));
                            assert forall|p2: int| 0 <= p2 < r@.len() implies exists|q: int|
                                0 <= q < i + 1 && keys@[q] == (#[trigger] r@[p2]).0 by {
                                if p2 < r@.len() - 1 {
                                    assert(r@[p2] == r0[p2]);
                                    let q = choose|q: int| 0 <= q < i && keys@[q] == r0[p2].0;
                                    assert(0 <= q < i + 1 && keys@[q] == r@[p2].0);
                                } else {
                                    assert(keys@[i as int] == r@[p2].0);
                                }
                            }
                            assert forall|idq: u32|
                                (exists|q: int| 0 <= q < i + 1 && #[trigger] keys@[q] == idq)
                                    && spec_nearby(positions@[idq], *position) implies r@.contains(
                                Entity(idq),
                            ) by {
                                let q = choose|q: int| 0 <= q < i + 1 && keys@[q] == idq;
                                if q < i {
                                    assert(r0.contains(Entity(idq)));
                                    let k = choose|k: int|
                                        0 <= k < r0.len() && r0[k] == Entity(idq);
                                    assert(r@[k] == Entity(idq));
                                } else {
                                    assert(r@[r@.len() - 1] == Entity(idq));
                                }
                            }
                        }
                    } else {
                        proof {
                            assert forall|idq: u32|
                                (exists|q: int| 0 <= q < i + 1 && #[trigger] keys@[q] == idq)
                                    && spec_nearby(positions@[idq], *position) implies r@.contains(
                                Entity(idq),
                            ) by {
                                let q = choose|q: int| 0 <= q < i + 1 && keys@[q] == idq;
                                assert(q < i || idq == keys@[i as int]);
                            }
                        }
                    }
                },
                None => {},
            }
            i = i + 1;
        }
        proof {
            assert forall|id: u32|
                positions@.contains_key(id) && spec_nearby(positions@[id], *position)
                    implies r@.contains(Entity(id)) by {
                assert(keys@.contains(id));
                let q = choose|q: int| 0 <= q < keys@.len() && keys@[q] == id;
            }
        }
        r
    }

    /// Whether pursuit may not enter the cell: off the map or a wall.
    fn blocked(map: &GameMap, x: i32, y: i32) -> (r: bool)
        requires
            map.wf(),
        ensures
            r == spec_blocked(*map, x as int, y as int),
    {
        if x < 0 || y < 0 || x >= map.width as i32 || y >= map.height as i32 {
            true
        } else {
            map.tile(Pos::new(x, y)) == Tile::Wall
        }
    }

    /// Compute one pursuit step on the map.
    fn step_simple(map: &GameMap, from: Position, target: Position) -> (r: Position)
        requires
            map.wf(),
        ensures
            r == spec_step(*map, from, target),
            r == from || map.in_bounds(r.0 as int, r.1 as int),
    {
        let fx = from.0 as i32;
        let fy = from.1 as i32;
        let dx: i32 = if target.0 > from.0 {
            1
        } else if target.0 < from.0 {
            -1
        } else {
            0
        };
        let dy: i32 = if target.1 > from.1 {
            1
        } else if target.1 < from.1 {
            -1
        } else {
            0
        };
        let nx = fx + dx;
        let ny = fy + dy;
        if !Self::blocked(map, nx, ny) {
            Position(nx as u16, ny as u16)
        } else if !Self::blocked(map, nx, fy) {
            Position(nx as u16, from.1)
        } else if !Self::blocked(map, fx, ny) {
            Position(from.0, ny as u16)
        } else {
            from
        }
    }

    /// Run the Simple movement policy for one enemy: step toward the
    /// target, falling back to an axis-aligned step when the diagonal is
    /// blocked. Returns None, changing nothing, if the entity lacks an
    /// enemy or position component.
    pub fn move_towards(&mut self, entity: Entity, target: (u16, u16)) -> (r: Option<()>)
        requires
            old(self).wf(),
        ensures
            final(self).wf(),
            r.is_some() == (old(self).components.enemies@.contains_key(entity.0) && old(self).components.positions@.contains_key(entity.0)),
            r.is_some() ==> final(self).components.positions@ == old(self).components.positions@.insert(
                entity.0,
                spec_step(
                    old(self).map,
                    old(self).components.positions@[entity.0],
                    Position(target.0, target.1),
                ),
            ),
            r.is_none() ==> final(self).components.positions@ == old(self).components.positions@,
            final(self).components.player == old(self).components.player,
            final(self).components.enemies@ == old(self).components.enemies@,
            final(self).components.health@ == old(self).components.health@,
            final(self).components.draws@ == old(self).components.draws@,
            final(self).components.stuns@ == old(self).components.stuns@,
            final(self).components.ui_transforms@ == old(self).components.ui_transforms@,
            final(self).components.ui_bars@ == old(self).components.ui_bars@,
            final(self).components.ui_rects@ == old(self).components.ui_rects@,
            final(self).components.ui_labels@ == old(self).components.ui_labels@,
            final(self).entity_gen == old(self).entity_gen,
            final(self).map == old(self).map,
            final(self).dungeon == old(self).dungeon,
            final(self).fov_map == old(self).fov_map,
            final(self).tiles_seen == old(self).tiles_seen,
            final(self).turn_order == old(self).turn_order,
    {
        let has_enemy = self.components.enemies.contains_key(entity.0);
        let has_pos = self.components.positions.contains_key(entity.0);
        if !has_enemy || !has_pos {
            return None;
        }
        let enemy = *self.components.enemies.get(entity.0).unwrap();
        let from = *self.components.positions.get(entity.0).unwrap();
        match enemy.movement {
            EnemyMovement::Simple => {
                let next = Self::step_simple(&self.map, from, Position(target.0, target.1));
                self.components.positions.insert(entity.0, next);
            },
        }
        Some(())
    }

    /// Remove one entity: free its identifier and clear every component
    /// entry keyed by it.
    fn remove(&mut self, entity: Entity)
        requires
            old(self).wf(),
        ensures
            final(self).wf(),
            forall|id: u32|
                final(self).entity_gen.spec_contains(id) <==> (old(self).entity_gen.spec_contains(
                    id,
                ) && id != entity.0),
            final(self).components.positions@ == old(self).components.positions@.remove(entity.0),
            final(self).components.enemies@ == old(self).components.enemies@.remove(entity.0),
            final(self).components.health@ == old(self).components.health@.remove(entity.0),
            final(self).components.draws@ == old(self).components.draws@.remove(entity.0),
            final(self).components.stuns@ == old(self).components.stuns@.remove(entity.0),
            final(self).components.ui_transforms@ == old(self).components.ui_transforms@.remove(
                entity.0,
            ),
            final(self).components.ui_bars@ == old(self).components.ui_bars@.remove(entity.0),
            final(self).components.ui_rects@ == old(self).components.ui_rects@.remove(entity.0),
            final(self).components.ui_labels@ == old(self).components.ui_labels@.remove(entity.0),
            final(self).components.player == (match old(self).components.player {
                Some((e, p)) => if e == entity {
                    None
                } else {
                    Some((e, p))
                },
                None => None,
            }),
            final(self).map == old(self).map,
            final(self).dungeon == old(self).dungeon,
            final(self).fov_map == old(self).fov_map,
            final(self).tiles_seen == old(self).tiles_seen,
            final(self).turn_order == old(self).turn_order,
    {
        self.entity_gen.remove(&entity);
        self.components.remove_all(entity);
        proof {
            if self.components.player.is_some() {
                let (e, _) = self.components.player.unwrap();
                assert(self.entity_gen.spec_contains(e.0));
            }
        }
    }
}

/// The map after dropping the identifiers of the first `j` listed
/// entities.
spec fn remove_ids<T>(m: Map<u32, T>, d: Seq<Entity>, j: int) -> Map<u32, T>
    decreases j,
{
    if j <= 0 {
        m
    } else {
        remove_ids(m, d, j - 1).remove(d[j - 1].0)
    }
}

/// Dropping a prefix of identifiers removes exactly those keys and keeps
/// every other entry unchanged.
proof fn lemma_remove_ids_props<T>(m: Map<u32, T>, d: Seq<Entity>, j: int)
    requires
        0 <= j <= d.len(),
    ensures
        forall|id: u32| #![trigger remove_ids(m, d, j).contains_key(id)]
            remove_ids(m, d, j).contains_key(id) <==> (m.contains_key(id) && !id_in_prefix(
                d,
                j,
                id,
            )),
        forall|id: u32| #[trigger]
            remove_ids(m, d, j).contains_key(id) ==> remove_ids(m, d, j)[id] == m[id],
    decreases j,
{
    if j <= 0 {
        assert forall|id: u32| !id_in_prefix(d, j, id) by {
            if id_in_prefix(d, j, id) {
                let k = choose|k: int| 0 <= k < j && (#[trigger] d[k]).0 == id;
            }
        }
    } else {
        lemma_remove_ids_props(m, d, j - 1);
        assert(remove_ids(m, d, j) == remove_ids(m, d, j - 1).remove(d[j - 1].0));
        assert forall|id: u32|
            remove_ids(m, d, j).contains_key(id) <==> (m.contains_key(id) && !id_in_prefix(
                d,
                j,
                id,
            )) by {
            lemma_id_in_prefix_step(d, j - 1, id);
            assert(id_in_prefix(d, (j - 1) + 1, id) == id_in_prefix(d, j, id));
            assert(remove_ids(m, d, j - 1).contains_key(id) <==> (m.contains_key(id)
                && !id_in_prefix(d, j - 1, id)));
        }
    }
}

/// An entity whose health has run out and which is due for removal.
pub open spec fn spec_dead(c: AllComponents, id: u32) -> bool {
    c.health@.contains_key(id) && c.health@[id].hp == 0
}

/// What the end-of-turn reap does: every entity whose health ran out
/// disappears from the identifier store and from every component mapping,
/// the player tag included; every other entry is kept unchanged.
pub open spec fn reap_effect(
    c: AllComponents,
    g: EntityGenerator,
    c2: AllComponents,
    g2: EntityGenerator,
) -> bool {
    &&& forall|id: u32| g2.spec_contains(id) <==> (g.spec_contains(id) && !spec_dead(c, id))
    &&& forall|id: u32|
        c2.health@.contains_key(id) <==> (c.health@.contains_key(id) && !spec_dead(c, id))
    &&& forall|id: u32| #[trigger] c2.health@.contains_key(id) ==> c2.health@[id] == c.health@[id]
    &&& forall|id: u32|
        c2.positions@.contains_key(id) <==> (c.positions@.contains_key(id) && !spec_dead(c, id))
    &&& forall|id: u32| #[trigger]
        c2.positions@.contains_key(id) ==> c2.positions@[id] == c.positions@[id]
    &&& forall|id: u32|
        c2.enemies@.contains_key(id) <==> (c.enemies@.contains_key(id) && !spec_dead(c, id))
    &&& forall|id: u32| #[trigger]
        c2.enemies@.contains_key(id) ==> c2.enemies@[id] == c.enemies@[id]
    &&& forall|id: u32|
        c2.stuns@.contains_key(id) <==> (c.stuns@.contains_key(id) && !spec_dead(c, id))
    &&& forall|id: u32| #[trigger] c2.stuns@.contains_key(id) ==> c2.stuns@[id] == c.stuns@[id]
    &&& forall|id: u32|
        c2.draws@.contains_key(id) <==> (c.draws@.contains_key(id) && !spec_dead(c, id))
    &&& forall|id: u32| #[trigger] c2.draws@.contains_key(id) ==> c2.draws@[id] == c.draws@[id]
    &&& forall|id: u32|
        c2.ui_transforms@.contains_key(id) <==> (c.ui_transforms@.contains_key(id) && !spec_dead(
            c,
            id,
        ))
    &&& forall|id: u32| #[trigger]
        c2.ui_transforms@.contains_key(id) ==> c2.ui_transforms@[id] == c.ui_transforms@[id]
    &&& forall|id: u32|
        c2.ui_bars@.contains_key(id) <==> (c.ui_bars@.contains_key(id) && !spec_dead(c, id))
    &&& forall|id: u32| #[trigger]
        c2.ui_bars@.contains_key(id) ==> c2.ui_bars@[id] == c.ui_bars@[id]
    &&& forall|id: u32|
        c2.ui_rects@.contains_key(id) <==> (c.ui_rects@.contains_key(id) && !spec_dead(c, id))
    &&& forall|id: u32| #[trigger]
        c2.ui_rects@.contains_key(id) ==> c2.ui_rects@[id] == c.ui_rects@[id]
    &&& forall|id: u32|
        c2.ui_labels@.contains_key(id) <==> (c.ui_labels@.contains_key(id) && !spec_dead(c, id))
    &&& forall|id: u32| #[trigger]
        c2.ui_labels@.contains_key(id) ==> c2.ui_labels@[id] == c.ui_labels@[id]
    &&& c2.player == (match c.player {
        Some((e, p)) => if spec_dead(c, e.0) {
            None
        } else {
            Some((e, p))
        },
        None => None,
    })
}

/// Whether one of the first `j` entities of the list carries this
/// identifier.
pub open spec fn id_in_prefix(d: Seq<Entity>, j: int, id: u32) -> bool {
    exists|k: int| 0 <= k < j && (#[trigger] d[k]).0 == id
}

/// Extending the prefix by one adds exactly that entity's identifier.
proof fn lemma_id_in_prefix_step(d: Seq<Entity>, j: int, id: u32)
    requires
        0 <= j < d.len(),
    ensures
        id_in_prefix(d, j + 1, id) == (id_in_prefix(d, j, id) || id == d[j].0),
{
    if id_in_prefix(d, j + 1, id) {
        let k = choose|k: int| 0 <= k < j + 1 && (#[trigger] d[k]).0 == id;
        if k < j {
            assert(id_in_prefix(d, j, id));
        }
    }
    if id_in_prefix(d, j, id) {
        let k = choose|k: int| 0 <= k < j && (#[trigger] d[k]).0 == id;
        assert(0 <= k < j + 1 && d[k].0 == id);
    }
    if id == d[j].0 {
        assert(0 <= j < j + 1 && d[j].0 == id);
    }
}

impl Game {
    /// Reap the dead: fully remove every entity whose health reached
    /// zero, clearing all its components and freeing its identifier.
    pub fn remove_dead(&mut self)
        requires
            old(self).wf(),
        ensures
            final(self).wf(),
            final(self).healths_positive(),
            reap_effect(
                old(self).components,
                old(self).entity_gen,
                final(self).components,
                final(self).entity_gen,
            ),
            final(self).map == old(self).map,
            final(self).dungeon == old(self).dungeon,
            final(self).fov_map == old(self).fov_map,
            final(self).tiles_seen == old(self).tiles_seen,
            final(self).turn_order == old(self).turn_order,
    {
        let ghost c0 = self.components;
        let ghost g0 = self.entity_gen;
        let keys = self.components.health.keys();
        let mut dead: Vec<Entity> = Vec::new();
        let mut i: usize = 0;
        while i < keys.len()
            invariant
                self == old(self),
                c0 == self.components,
                self.components.health.wf(),
                i <= keys@.len(),
                forall|p: int, q: int| 0 <= p < q < keys@.len() ==> keys@[p] < keys@[q],
                forall|p: int|
                    0 <= p < keys@.len() ==> c0.health@.contains_key(#[trigger] keys@[p]),
                forall|id: u32| c0.health@.contains_key(id) ==> keys@.contains(id),
                forall|p: int, q: int| 0 <= p < q < dead@.len() ==> dead@[p].0 < dead@[q].0,
                forall|p: int| 0 <= p < dead@.len() ==> spec_dead(c0, (#[trigger] dead@[p]).0),
                forall|p: int| 0 <= p < dead@.len() ==> exists|q: int|
                    0 <= q < i && keys@[q] == (#[trigger] dead@[p]).0,
                forall|id: u32|
                    (exists|q: int| 0 <= q < i && #[trigger] keys@[q] == id) && spec_dead(c0, id)
                        ==> dead@.contains(Entity(id)),
            decreases keys@.len() - i,
        {
            let id = keys[i];
            let h = self.components.health.get(id);
            match h {
                Some(h) => {
                    if h.hp == 0 {
                        let ghost d0 = dead@;
                        proof {
                            assert forall|p2: int| 0 <= p2 < d0.len() implies d0[p2].0
                                < keys@[i as int] by {
                                let q = choose|q: int| 0 <= q < i && keys@[q] == d0[p2].0;
                            }
                        }
                        dead.push(Entity(id));
                        proof {
                            assert(dead@[dead@.len() - 1] == Entity(id));
                            assert forall|p2: int| 0 <= p2 < dead@.len() implies exists|q: int|
                                0 <= q < i + 1 && keys@[q] == (#[trigger] dead@[p2]).0 by {
                                if p2 < dead@.len() - 1 {
                                    assert(dead@[p2] == d0[p2]);
                                    let q = choose|q: int| 0 <= q < i && keys@[q] == d0[p2].0;
                                    assert(0 <= q < i + 1 && keys@[q] == dead@[p2].0);
                                } else {
                                    assert(keys@[i as int] == dead@[p2].0);
                                }
                            }
                            assert forall|idq: u32|
                                (exists|q: int| 0 <= q < i + 1 && #[trigger] keys@[q] == idq)
                                    && spec_dead(c0, idq) implies dead@.contains(Entity(idq)) by {
                                let q = choose|q: int| 0 <= q < i + 1 && keys@[q] == idq;
                                if q < i {
                                    assert(d0.contains(Entity(idq)));
                                    let k = choose|k: int|
                                        0 <= k < d0.len() && d0[k] == Entity(idq);
                                    assert(dead@[k] == Entity(idq));
                                } else {
                                    assert(dead@[dead@.len() - 1] == Entity(idq));
                                }
                            }
                        }
                    } else {
                        proof {
                            assert forall|idq: u32|
                                (exists|q: int| 0 <= q < i + 1 && #[trigger] keys@[q] == idq)
                                    && spec_dead(c0, idq) implies dead@.contains(Entity(idq)) by {
                                let q = choose|q: int| 0 <= q < i + 1 && keys@[q] == idq;
                                assert(q < i || idq == keys@[i as int]);
                            }
                        }
                    }
                },
                None => {},
            }
            i = i + 1;
        }
        proof {
            assert forall|id: u32| spec_dead(c0, id) implies dead@.contains(Entity(id)) by {
                assert(keys@.contains(id));
                let q = choose|q: int| 0 <= q < keys@.len() && keys@[q] == id;
            }
        }
        let ghost d = dead@;
        let mut j: usize = 0;
        while j < dead.len()
            invariant
                dead@ == d,
                self.wf(),
                j <= d.len(),
                c0 == old(self).components,
                g0 == old(self).entity_gen,
                forall|p: int, q: int| 0 <= p < q < d.len() ==> d[p].0 < d[q].0,
                forall|p: int| 0 <= p < d.len() ==> spec_dead(c0, (#[trigger] d[p]).0),
                forall|id: u32| spec_dead(c0, id) ==> d.contains(Entity(id)),
                forall|id: u32| #![trigger g0.spec_contains(id)]
                    self.entity_gen.spec_contains(id) <==> (g0.spec_contains(id)
                        && !id_in_prefix(d, j as int, id)),
                self.components.health@ == remove_ids(c0.health@, d, j as int),
                self.components.positions@ == remove_ids(c0.positions@, d, j as int),
                self.components.enemies@ == remove_ids(c0.enemies@, d, j as int),
                self.components.stuns@ == remove_ids(c0.stuns@, d, j as int),
                self.components.draws@ == remove_ids(c0.draws@, d, j as int),
                self.components.ui_transforms@ == remove_ids(c0.ui_transforms@, d, j as int),
                self.components.ui_bars@ == remove_ids(c0.ui_bars@, d, j as int),
                self.components.ui_rects@ == remove_ids(c0.ui_rects@, d, j as int),
                self.components.ui_labels@ == remove_ids(c0.ui_labels@, d, j as int),
                self.components.player == (match c0.player {
                    Some((e, p)) => if id_in_prefix(d, j as int, e.0) {
                        None
                    } else {
                        Some((e, p))
                    },
                    None => None,
                }),
                self.map == old(self).map,
                self.dungeon == old(self).dungeon,
                self.fov_map == old(self).fov_map,
                self.tiles_seen == old(self).tiles_seen,
                self.turn_order == old(self).turn_order,
            decreases d.len() - j,
        {
            let e = dead[j];
            let ghost j0 = j as int;
            let ghost gprev = self.entity_gen;
            self.remove(e);
            proof {
                assert(remove_ids(c0.health@, d, j + 1) == remove_ids(c0.health@, d, j as int)
                    .remove(d[j as int].0));
                assert(remove_ids(c0.positions@, d, j + 1) == remove_ids(
                    c0.positions@,
                    d,
                    j as int,
                ).remove(d[j as int].0));
                assert(remove_ids(c0.enemies@, d, j + 1) == remove_ids(c0.enemies@, d, j as int)
                    .remove(d[j as int].0));
                assert(remove_ids(c0.stuns@, d, j + 1) == remove_ids(c0.stuns@, d, j as int)
                    .remove(d[j as int].0));
                assert(remove_ids(c0.draws@, d, j + 1) == remove_ids(c0.draws@, d, j as int)
                    .remove(d[j as int].0));
                assert(remove_ids(c0.ui_transforms@, d, j + 1) == remove_ids(
                    c0.ui_transforms@,
                    d,
                    j as int,
                ).remove(d[j as int].0));
                assert(remove_ids(c0.ui_bars@, d, j + 1) == remove_ids(c0.ui_bars@, d, j as int)
                    .remove(d[j as int].0));
                assert(remove_ids(c0.ui_rects@, d, j + 1) == remove_ids(c0.ui_rects@, d, j as int)
                    .remove(d[j as int].0));
                assert(remove_ids(c0.ui_labels@, d, j + 1) == remove_ids(
                    c0.ui_labels@,
                    d,
                    j as int,
                ).remove(d[j as int].0));
                assert forall|id: u32| #![trigger g0.spec_contains(id)]
                    self.entity_gen.spec_contains(id) <==> (g0.spec_contains(id)
                        && !id_in_prefix(d, j + 1, id)) by {
                    lemma_id_in_prefix_step(d, j as int, id);
                    assert(gprev.spec_contains(id) <==> (g0.spec_contains(id)
                        && !id_in_prefix(d, j as int, id)));
                }
                if c0.player.is_some() {
                    let (pe, _) = c0.player.unwrap();
                    lemma_id_in_prefix_step(d, j as int, pe.0);
                }
            }
            j = j + 1;
            proof {
                assert(j as int == j0 + 1);
                assert forall|id: u32| #![trigger g0.spec_contains(id)]
                    self.entity_gen.spec_contains(id) <==> (g0.spec_contains(id)
                        && !id_in_prefix(d, j as int, id)) by {
                    assert(j as int == j0 + 1);
                    lemma_id_in_prefix_step(d, j0, id);
                    assert(gprev.spec_contains(id) <==> (g0.spec_contains(id)
                        && !id_in_prefix(d, j0, id)));
                    assert(self.entity_gen.spec_contains(id) <==> (gprev.spec_contains(id) && id
                        != e.0));
                    assert(id_in_prefix(d, j0 + 1, id) == (id_in_prefix(d, j0, id) || id
                        == e.0));
                    assert(id_in_prefix(d, j as int, id) == id_in_prefix(
                        d,
                        j0 + 1,
                        id,
                    ));
                }
            }
        }
        proof {
            lemma_remove_ids_props(c0.health@, d, d.len() as int);
            lemma_remove_ids_props(c0.positions@, d, d.len() as int);
            lemma_remove_ids_props(c0.enemies@, d, d.len() as int);
            lemma_remove_ids_props(c0.stuns@, d, d.len() as int);
            lemma_remove_ids_props(c0.draws@, d, d.len() as int);
            lemma_remove_ids_props(c0.ui_transforms@, d, d.len() as int);
            lemma_remove_ids_props(c0.ui_bars@, d, d.len() as int);
            lemma_remove_ids_props(c0.ui_rects@, d, d.len() as int);
            lemma_remove_ids_props(c0.ui_labels@, d, d.len() as int);
        }
        proof {
            assert forall|id: u32| #![trigger id_in_prefix(d, d.len() as int, id)]
                id_in_prefix(d, d.len() as int, id) == spec_dead(c0, id) by {
                if id_in_prefix(d, d.len() as int, id) {
                    let k = choose|k: int| 0 <= k < d.len() && (#[trigger] d[k]).0 == id;
                }
                if spec_dead(c0, id) {
                    assert(d.contains(Entity(id)));
                    let k = choose|k: int| 0 <= k < d.len() && d[k] == Entity(id);
                    assert(d[k].0 == id);
                }
            }
        }
    }
}

impl Game {
    /// Spawn the player: a fresh entity with the player tag, ten hit
    /// points, no armor, and an '@' glyph, appended to the turn queue.
    /// Assigning the tag replaces any previous holder, so at most one
    /// entity ever carries it.
    pub fn generate_player(&mut self, pos: (u16, u16)) -> (e: Entity)
        requires
            old(self).wf(),
            old(self).entity_gen.spec_max() + 1 < u32::MAX,
            pos.0 < old(self).map.width,
            pos.1 < old(self).map.height,
        ensures
            final(self).wf(),
            e.0 == old(self).entity_gen.spec_max() + 1,
            !old(self).entity_gen.spec_contains(e.0),
            final(self).entity_gen.spec_max() == e.0,
            forall|id: u32|
                final(self).entity_gen.spec_contains(id) <==> (old(self).entity_gen.spec_contains(
                    id,
                ) || id == e.0),
            final(self).components.player == Some((e, Player {  })),
            final(self).components.positions@ == old(self).components.positions@.insert(
                e.0,
                Position(pos.0, pos.1),
            ),
            final(self).components.health@ == old(self).components.health@.insert(
                e.0,
                (Health { hp: 10, ac: 0 }),
            ),
            final(self).components.draws@ == old(self).components.draws@.insert(
                e.0,
                Draw::Char('@', (Rgb { r: 255, g: 255, b: 255 })),
            ),
            final(self).components.enemies@ == old(self).components.enemies@,
            final(self).components.stuns@ == old(self).components.stuns@,
            final(self).turn_order@ == old(self).turn_order@.push(e),
            final(self).map == old(self).map,
            final(self).dungeon == old(self).dungeon,
            final(self).fov_map == old(self).fov_map,
            final(self).tiles_seen == old(self).tiles_seen,
            old(self).healths_positive() ==> final(self).healths_positive(),
    {
        let e = self.entity_gen.generate();
        self.components.player = Some((e, Player {  }));
        self.components.positions.insert(e.0, Position(pos.0, pos.1));
        self.components.health.insert(e.0, Health { hp: 10, ac: 0 });
        self.components.draws.insert(e.0, Draw::Char('@', crate::color::white()));
        self.turn_order.push_back(e);
        e
    }

    /// Spawn one basic enemy: five hit points, no armor, a '#' glyph, the
    /// Simple pursuit policy, appended to the turn queue.
    pub fn generate_basic_enemy(&mut self, pos: (u16, u16)) -> (e: Entity)
        requires
            old(self).wf(),
            old(self).entity_gen.spec_max() + 1 < u32::MAX,
            pos.0 < old(self).map.width,
            pos.1 < old(self).map.height,
        ensures
            final(self).wf(),
            e.0 == old(self).entity_gen.spec_max() + 1,
            !old(self).entity_gen.spec_contains(e.0),
            final(self).entity_gen.spec_max() == e.0,
            forall|id: u32|
                final(self).entity_gen.spec_contains(id) <==> (old(self).entity_gen.spec_contains(
                    id,
                ) || id == e.0),
            final(self).components.player == old(self).components.player,
            final(self).components.positions@ == old(self).components.positions@.insert(
                e.0,
                Position(pos.0, pos.1),
            ),
            final(self).components.health@ == old(self).components.health@.insert(
                e.0,
                (Health { hp: 5, ac: 0 }),
            ),
            final(self).components.draws@ == old(self).components.draws@.insert(
                e.0,
                Draw::Char('#', (Rgb { r: 255, g: 255, b: 0 })),
            ),
            final(self).components.enemies@ == old(self).components.enemies@.insert(
                e.0,
                (Enemy { movement: EnemyMovement::Simple }),
            ),
            final(self).components.stuns@ == old(self).components.stuns@,
            final(self).turn_order@ == old(self).turn_order@.push(e),
            final(self).map == old(self).map,
            final(self).dungeon == old(self).dungeon,
            final(self).fov_map == old(self).fov_map,
            final(self).tiles_seen == old(self).tiles_seen,
            old(self).healths_positive() ==> final(self).healths_positive(),
    {
        let e = self.entity_gen.generate();
        self.components.positions.insert(e.0, Position(pos.0, pos.1));
        self.components.health.insert(e.0, Health { hp: 5, ac: 0 });
        self.components.draws.insert(e.0, Draw::Char('#', crate::color::yellow()));
        self.components.enemies.insert(e.0, Enemy { movement: EnemyMovement::Simple });
        self.turn_order.push_back(e);
        e
    }

    /// One basic enemy stands seeded at the center of room `k`: five hit
    /// points, no armor, the '#' glyph, the Simple pursuit policy, under
    /// entity identifier room-index-plus-one.
    pub open spec fn enemy_seeded_at(c: AllComponents, rooms: Seq<RectRoom>, k: int) -> bool {
        let id = (k + 1) as u32;
        let cc = rooms[k].spec_center();
        &&& c.positions@.contains_key(id)
        &&& c.positions@[id] == Position(cc.0 as u16, cc.1 as u16)
        &&& c.health@.contains_key(id)
        &&& c.health@[id] == (Health { hp: 5, ac: 0 })
        &&& c.enemies@.contains_key(id)
        &&& c.enemies@[id] == (Enemy { movement: EnemyMovement::Simple })
        &&& c.draws@.contains_key(id)
        &&& c.draws@[id] == Draw::Char('#', (Rgb { r: 255, g: 255, b: 0 }))
    }

    /// One basic enemy stands seeded at the center of each of the rooms
    /// with index 1 up to `upto`.
    pub open spec fn enemies_seeded(c: AllComponents, rooms: Seq<RectRoom>, upto: int) -> bool {
        forall|k: int| 1 <= k < upto ==> #[trigger] Self::enemy_seeded_at(c, rooms, k)
    }

    /// Seeding one more enemy, with identifier one past the room index,
    /// extends the seeded prefix by one room.
    proof fn lemma_enemies_seeded_step(
        cpre: AllComponents,
        c: AllComponents,
        rooms: Seq<RectRoom>,
        k: int,
        e: Entity,
    )
        requires
            1 <= k < rooms.len(),
            rooms.len() <= 0xFFFF,
            Self::enemies_seeded(cpre, rooms, k),
            e.0 == k + 1,
            c.positions@ == cpre.positions@.insert(
                e.0,
                ({
                    let cc = rooms[k].spec_center();
                    Position(cc.0 as u16, cc.1 as u16)
                }),
            ),
            c.health@ == cpre.health@.insert(e.0, (Health { hp: 5, ac: 0 })),
            c.enemies@ == cpre.enemies@.insert(e.0, (Enemy { movement: EnemyMovement::Simple })),
            c.draws@ == cpre.draws@.insert(e.0, Draw::Char('#', (Rgb { r: 255, g: 255, b: 0 }))),
        ensures
            Self::enemies_seeded(c, rooms, k + 1),
    {
        assert forall|kk: int| 1 <= kk < k + 1 implies #[trigger] Self::enemy_seeded_at(
            c,
            rooms,
            kk,
        ) by {
            let id = (kk + 1) as u32;
            if kk < k {
                assert(Self::enemy_seeded_at(cpre, rooms, kk));
                assert(id != e.0);
                assert(c.positions@[id] == cpre.positions@[id]);
                assert(c.health@[id] == cpre.health@[id]);
                assert(c.enemies@[id] == cpre.enemies@[id]);
                assert(c.draws@[id] == cpre.draws@[id]);
            } else {
                assert(kk == k && id == e.0);
            }
        }
    }

    /// Build a fresh game from the stock configuration: generate the
    /// dungeon, rasterize it, derive the field-of-view grid, then spawn
    /// the player at the first accepted room's center and one basic enemy
    /// at the center of every other room, queued in that order. The stock
    /// configuration attempts thirty rooms, so at least one is accepted
    /// and the player always spawns.
    pub fn new(rng: &mut rand::rngs::StdRng) -> (g: Game)
        ensures
            g.wf(),
            g.healths_positive(),
            g.dungeon.wf(),
            g.dungeon.config == (DungeonConfig { size: (80, 45), room_size: (6, 10), max_rooms: 30 }),
            g.map.width == g.dungeon.config.size.0,
            g.map.height == g.dungeon.config.size.1,
            forall|x: int, y: int|
                g.map.in_bounds(x, y) ==> g.map.spec_tile(x, y) == g.dungeon.rasterized_tile(x, y),
            g.dungeon.rect_rooms@.len() >= 1,
            g.has_live_actor(),
            // one entity per accepted room: the player, then one enemy per
            // further room, queued in room order
            forall|id: u32|
                g.entity_gen.spec_contains(id) <==> 1 <= id <= g.dungeon.rect_rooms@.len(),
            g.turn_order@.len() == g.dungeon.rect_rooms@.len(),
            forall|i: int|
                0 <= i < g.turn_order@.len() ==> g.turn_order@[i] == Entity((i + 1) as u32),
            // the player: the tag, the first room's center, ten hit
            // points, the '@' glyph, no enemy behavior
            g.components.player == Some((Entity(1), Player {  })),
            g.components.positions@.contains_key(1),
            g.components.positions@[1] == ({
                let c = g.dungeon.rect_rooms@[0].spec_center();
                Position(c.0 as u16, c.1 as u16)
            }),
            g.components.health@.contains_key(1),
            g.components.health@[1] == (Health { hp: 10, ac: 0 }),
            g.components.draws@.contains_key(1),
            g.components.draws@[1] == Draw::Char('@', (Rgb { r: 255, g: 255, b: 255 })),
            !g.components.enemies@.contains_key(1),
            // the enemies: one per further room at its center, five hit
            // points, the '#' glyph, the Simple pursuit policy
            Self::enemies_seeded(
                g.components,
                g.dungeon.rect_rooms@,
                g.dungeon.rect_rooms@.len() as int,
            ),
            // no stuns yet, and nothing remembered yet
            g.components.stuns@ == Map::<u32, Stun>::empty(),
            forall|j: int| 0 <= j < g.tiles_seen@.len() ==> !g.tiles_seen@[j],
    {
        let config = DungeonConfig::default();
        let dungeon = config.generate(rng);
        let map = dungeon.as_map();
        let fov_map = fov_map_from_map(&map);
        let n = map.tiles().len();
        let mut tiles_seen: Vec<bool> = Vec::new();
        let mut i: usize = 0;
        while i < n
            invariant
                i <= n,
                tiles_seen@.len() == i,
                forall|j: int| 0 <= j < i ==> !tiles_seen@[j],
            decreases n - i,
        {
            tiles_seen.push(false);
            i = i + 1;
        }
        let mut game = Game {
            entity_gen: EntityGenerator::new(),
            components: AllComponents::new(),
            dungeon,
            map,
            fov_map,
            tiles_seen,
            turn_order: VecDeque::new(),
        };
        let n_rooms = game.dungeon.rect_rooms.len();
        proof {
            assert(game.dungeon.rect_rooms@[0].proper());
            lemma_center_in_room(
                game.dungeon.rect_rooms@[0],
                game.map.width as int,
                game.map.height as int,
            );
        }
        let c = game.dungeon.rect_rooms[0].center();
        game.generate_player((c.x as u16, c.y as u16));
        let ghost g1 = game;
        let mut k: usize = 1;
        while k < n_rooms
            invariant
                game.wf(),
                game.healths_positive(),
                game.dungeon == g1.dungeon,
                game.map == g1.map,
                game.fov_map == g1.fov_map,
                game.tiles_seen == g1.tiles_seen,
                forall|j: int| 0 <= j < g1.tiles_seen@.len() ==> !g1.tiles_seen@[j],
                game.dungeon.wf(),
                game.map.width == game.dungeon.config.size.0,
                game.map.height == game.dungeon.config.size.1,
                n_rooms == game.dungeon.rect_rooms@.len(),
                n_rooms <= u16::MAX,
                1 <= k <= n_rooms,
                game.entity_gen.spec_max() == k,
                forall|id: u32| game.entity_gen.spec_contains(id) <==> 1 <= id <= k,
                game.turn_order@.len() == k,
                forall|i2: int|
                    0 <= i2 < k ==> game.turn_order@[i2] == Entity((i2 + 1) as u32),
                game.components.player == Some((Entity(1), Player {  })),
                c.x == game.dungeon.rect_rooms@[0].spec_center().0,
                c.y == game.dungeon.rect_rooms@[0].spec_center().1,
                game.components.positions@.contains_key(1),
                game.components.positions@[1] == Position(c.x as u16, c.y as u16),
                game.components.health@.contains_key(1),
                game.components.health@[1] == (Health { hp: 10, ac: 0 }),
                game.components.draws@.contains_key(1),
                game.components.draws@[1] == Draw::Char('@', (Rgb { r: 255, g: 255, b: 255 })),
                !game.components.enemies@.contains_key(1),
                Self::enemies_seeded(game.components, game.dungeon.rect_rooms@, k as int),
                game.components.stuns@ == Map::<u32, Stun>::empty(),
            decreases n_rooms - k,
        {
            proof {
                assert(game.dungeon.rect_rooms@[k as int].proper());
                lemma_center_in_room(
                    game.dungeon.rect_rooms@[k as int],
                    game.map.width as int,
                    game.map.height as int,
                );
            }
            let ck = game.dungeon.rect_rooms[k].center();
            let ghost gpre = game;
            let e = game.generate_basic_enemy((ck.x as u16, ck.y as u16));
            proof {
                assert(e.0 == k + 1);
                Self::lemma_enemies_seeded_step(
                    gpre.components,
                    game.components,
                    game.dungeon.rect_rooms@,
                    k as int,
                    e,
                );
            }
            k = k + 1;
            proof {
                assert(Self::enemies_seeded(
                    game.components,
                    game.dungeon.rect_rooms@,
                    k as int,
                )) by {
                    assert(k as int == (k - 1) + 1);
                }
            }
        }
        proof {
            assert(game.turn_order@[0] == Entity(1));
            assert(game.entity_gen.spec_contains(1));
            assert(game.has_live_actor());
        }
        game
    }
}

/// The two component stores hold the same data: the same player tag and
/// the same per-kind mappings.
pub open spec fn comps_eq(a: AllComponents, b: AllComponents) -> bool {
    &&& a.player == b.player
    &&& a.positions@ == b.positions@
    &&& a.health@ == b.health@
    &&& a.enemies@ == b.enemies@
    &&& a.draws@ == b.draws@
    &&& a.stuns@ == b.stuns@
    &&& a.ui_transforms@ == b.ui_transforms@
    &&& a.ui_bars@ == b.ui_bars@
    &&& a.ui_rects@ == b.ui_rects@
    &&& a.ui_labels@ == b.ui_labels@
}

/// Whether the player's swing reaches this entity: an enemy standing
/// within Chebyshev distance one of the player, with health to damage.
pub open spec fn attack_target(c: AllComponents, ppos: Position, id: u32) -> bool {
    &&& c.enemies@.contains_key(id)
    &&& c.positions@.contains_key(id)
    &&& spec_nearby(c.positions@[id], ppos)
    &&& c.health@.contains_key(id)
}

/// What a player attack does to the component store: every target takes
/// two damage, and a target not already stunned may (depending on the coin
/// flips drawn) gain a fresh five-turn stun. Nothing else changes. With no
/// player, or a player without a position, nothing changes at all.
pub open spec fn player_attack_effect(oldc: AllComponents, newc: AllComponents) -> bool {
    match oldc.player {
        None => comps_eq(newc, oldc),
        Some((pe, _)) => if !oldc.positions@.contains_key(pe.0) {
            comps_eq(newc, oldc)
        } else {
            let ppos = oldc.positions@[pe.0];
            &&& newc.player == oldc.player
            &&& newc.positions@ == oldc.positions@
            &&& newc.enemies@ == oldc.enemies@
            &&& newc.draws@ == oldc.draws@
            &&& newc.ui_transforms@ == oldc.ui_transforms@
            &&& newc.ui_bars@ == oldc.ui_bars@
            &&& newc.ui_rects@ == oldc.ui_rects@
            &&& newc.ui_labels@ == oldc.ui_labels@
            &&& forall|id: u32|
                newc.health@.contains_key(id) == oldc.health@.contains_key(id)
            &&& forall|id: u32| #[trigger]
                newc.health@.contains_key(id) ==> newc.health@[id] == (if attack_target(
                    oldc,
                    ppos,
                    id,
                ) {
                    oldc.health@[id].damaged(2)
                } else {
                    oldc.health@[id]
                })
            &&& forall|id: u32|
                !attack_target(oldc, ppos, id) ==> (#[trigger] newc.stuns@.contains_key(id)
                    == oldc.stuns@.contains_key(id) && (newc.stuns@.contains_key(id)
                    ==> newc.stuns@[id] == oldc.stuns@[id]))
            &&& forall|id: u32|
                #[trigger] attack_target(oldc, ppos, id) ==> ((newc.stuns@.contains_key(id)
                    == oldc.stuns@.contains_key(id) && (newc.stuns@.contains_key(id)
                    ==> newc.stuns@[id] == oldc.stuns@[id])) || (!oldc.stuns@.contains_key(id)
                    && newc.stuns@.contains_key(id) && newc.stuns@[id] == (Stun {
                    duration: 5,
                })))
        },
    }
}

impl Game {
    /// Resolve the player's melee swing: every enemy within Chebyshev
    /// distance one takes two damage and, on a coin flip, gains a
    /// five-turn stun unless already stunned.
    pub fn player_attack(&mut self, rng: &mut rand::rngs::StdRng)
        requires
            old(self).wf(),
        ensures
            final(self).wf(),
            player_attack_effect(old(self).components, final(self).components),
            final(self).entity_gen == old(self).entity_gen,
            final(self).map == old(self).map,
            final(self).dungeon == old(self).dungeon,
            final(self).fov_map == old(self).fov_map,
            final(self).tiles_seen == old(self).tiles_seen,
            final(self).turn_order == old(self).turn_order,
    {
        let ghost c0 = self.components;
        let pe = match &self.components.player {
            Some((e, _)) => Entity(e.0),
            None => {
                return ;
            },
        };
        let ppos = *self.components.positions.get(pe.0).unwrap();
        let targets = Self::nearby(&ppos, &self.components.positions);
        let ghost ts = targets@;
        let mut i: usize = 0;
        while i < targets.len()
            invariant
                self.wf(),
                targets@ == ts,
                i <= ts.len(),
                c0 == old(self).components,
                c0.player == Some((pe, Player {  })),
                c0.player == self.components.player,
                c0.positions@.contains_key(pe.0),
                ppos == c0.positions@[pe.0],
                forall|p: int, q: int| 0 <= p < q < ts.len() ==> ts[p].0 < ts[q].0,
                forall|p: int|
                    0 <= p < ts.len() ==> c0.positions@.contains_key((#[trigger] ts[p]).0)
                        && spec_nearby(c0.positions@[ts[p].0], ppos),
                forall|id: u32|
                    c0.positions@.contains_key(id) && spec_nearby(c0.positions@[id], ppos)
                        ==> ts.contains(Entity(id)),
                self.components.positions@ == c0.positions@,
                self.components.enemies@ == c0.enemies@,
                self.components.draws@ == c0.draws@,
                self.components.ui_transforms@ == c0.ui_transforms@,
                self.components.ui_bars@ == c0.ui_bars@,
                self.components.ui_rects@ == c0.ui_rects@,
                self.components.ui_labels@ == c0.ui_labels@,
                self.entity_gen == old(self).entity_gen,
                self.map == old(self).map,
                self.dungeon == old(self).dungeon,
                self.fov_map == old(self).fov_map,
                self.tiles_seen == old(self).tiles_seen,
                self.turn_order == old(self).turn_order,
                forall|id: u32|
                    self.components.health@.contains_key(id) == c0.health@.contains_key(id),
                forall|id: u32| #[trigger]
                    self.components.health@.contains_key(id) ==> self.components.health@[id] == (
                    if attack_target(c0, ppos, id) && id_in_prefix(ts, i as int, id) {
                        c0.health@[id].damaged(2)
                    } else {
                        c0.health@[id]
                    }),
                forall|id: u32|
                    !(attack_target(c0, ppos, id) && id_in_prefix(ts, i as int, id)) ==> (
                    #[trigger] self.components.stuns@.contains_key(id) == c0.stuns@.contains_key(
                        id,
                    ) && (self.components.stuns@.contains_key(id)
                        ==> self.components.stuns@[id] == c0.stuns@[id])),
                forall|id: u32|
                    attack_target(c0, ppos, id) && #[trigger] id_in_prefix(ts, i as int, id) ==> ((
                    self.components.stuns@.contains_key(id) == c0.stuns@.contains_key(id) && (
                    self.components.stuns@.contains_key(id) ==> self.components.stuns@[id]
                        == c0.stuns@[id])) || (!c0.stuns@.contains_key(id)
                        && self.components.stuns@.contains_key(id) && self.components.stuns@[id]
                        == (Stun { duration: 5 }))),
            decreases ts.len() - i,
        {
            let ghost i0 = i as int;
            let target = targets[i];
            let id = target.0;
            proof {
                assert forall|idq: u32| id_in_prefix(ts, i0, idq) implies idq != id by {
                    let k = choose|k: int| 0 <= k < i0 && (#[trigger] ts[k]).0 == idq;
                }
            }
            if self.components.enemies.contains_key(id) {
                let h = self.components.health.get(id);
                match h {
                    Some(h) => {
                        let mut h2 = *h;
                        h2.take_damage(2);
                        self.components.health.insert(id, h2);
                        let coin = rand_coin(rng);
                        if coin && !self.components.stuns.contains_key(id) {
                            self.components.stuns.insert(id, Stun { duration: 5 });
                        }
                    },
                    None => {},
                }
            }
            i = i + 1;
            proof {
                assert forall|idq: u32| #![trigger id_in_prefix(ts, i as int, idq)]
                    id_in_prefix(ts, i as int, idq) == (id_in_prefix(ts, i0, idq) || idq
                        == id) by {
                    assert(i as int == i0 + 1);
                    lemma_id_in_prefix_step(ts, i0, idq);
                    assert(id_in_prefix(ts, i0 + 1, idq) == (id_in_prefix(ts, i0, idq) || idq
                        == ts[i0].0));
                    assert(id_in_prefix(ts, i as int, idq) == id_in_prefix(ts, i0 + 1, idq));
                }
            }
        }
        proof {
            assert forall|id: u32|
                attack_target(c0, ppos, id) implies #[trigger] id_in_prefix(
                ts,
                ts.len() as int,
                id,
            ) by {
                assert(ts.contains(Entity(id)));
                let k = choose|k: int| 0 <= k < ts.len() && ts[k] == Entity(id);
                assert((ts[k]).0 == id);
            }
        }
    }
}

/// Whether a command asks for a directional move.
pub open spec fn is_move_command(cmd: Command) -> bool {
    cmd == Command::MoveUp || cmd == Command::MoveDown || cmd == Command::MoveLeft || cmd
        == Command::MoveRight
}

/// The signed cell offset of a directional command; zero for the rest.
pub open spec fn spec_move_delta(cmd: Command) -> (int, int) {
    match cmd {
        Command::MoveUp => (0, -1),
        Command::MoveDown => (0, 1),
        Command::MoveLeft => (-1, 0),
        Command::MoveRight => (1, 0),
        _ => (0, 0),
    }
}

/// How one scheduling step ended: the player quit (the terminal state of
/// the loop), or a turn was played and the actor ended it inside (true)
/// or outside (false) the player's last computed field of view.
#[derive(Debug, Clone, Copy, PartialEq, Eq, Structural)]
pub enum TurnOutcome {
    Quit,
    Played(bool),
}

/// What one player command does to the component store: nothing happens
/// without a player or for Quit and Other; Attack resolves melee against
/// every adjacent enemy; a directional command moves the player only onto
/// an in-bounds non-wall cell and is silently ignored otherwise.
pub open spec fn player_cmd_effect(
    c: AllComponents,
    m: GameMap,
    cmd: Command,
    c2: AllComponents,
) -> bool {
    match c.player {
        None => comps_eq(c2, c),
        Some((pe, _)) => if cmd == Command::Attack {
            player_attack_effect(c, c2)
        } else if is_move_command(cmd) {
            let ppos = c.positions@[pe.0];
            let tx = ppos.0 + spec_move_delta(cmd).0;
            let ty = ppos.1 + spec_move_delta(cmd).1;
            if m.in_bounds(tx, ty) && m.spec_tile(tx, ty) != Tile::Wall {
                &&& c2.positions@ == c.positions@.insert(pe.0, Position(tx as u16, ty as u16))
                &&& c2.player == c.player
                &&& c2.health@ == c.health@
                &&& c2.enemies@ == c.enemies@
                &&& c2.draws@ == c.draws@
                &&& c2.stuns@ == c.stuns@
                &&& c2.ui_transforms@ == c.ui_transforms@
                &&& c2.ui_bars@ == c.ui_bars@
                &&& c2.ui_rects@ == c.ui_rects@
                &&& c2.ui_labels@ == c.ui_labels@
            } else {
                comps_eq(c2, c)
            }
        } else {
            comps_eq(c2, c)
        },
    }
}

/// What one enemy phase does to the component store: a missing player or
/// position makes it a no-op; a stunned enemy only ticks its stun down;
/// an enemy adjacent to the player strikes for one damage; otherwise the
/// enemy takes one pursuit step toward the player.
pub open spec fn npc_turn_effect(
    c: AllComponents,
    m: GameMap,
    npc: Entity,
    c2: AllComponents,
) -> bool {
    match c.player {
        None => comps_eq(c2, c),
        Some((pe, _)) => if !c.positions@.contains_key(pe.0) || !c.positions@.contains_key(
            npc.0,
        ) {
            comps_eq(c2, c)
        } else {
            let ppos = c.positions@[pe.0];
            let npos = c.positions@[npc.0];
            &&& c2.player == c.player
            &&& c2.enemies@ == c.enemies@
            &&& c2.draws@ == c.draws@
            &&& c2.ui_transforms@ == c.ui_transforms@
            &&& c2.ui_bars@ == c.ui_bars@
            &&& c2.ui_rects@ == c.ui_rects@
            &&& c2.ui_labels@ == c.ui_labels@
            &&& if c.stuns@.contains_key(npc.0) {
                &&& c2.positions@ == c.positions@
                &&& c2.health@ == c.health@
                &&& c2.stuns@ == (match stun_after_phase(Some(c.stuns@[npc.0])) {
                    None => c.stuns@.remove(npc.0),
                    Some(st) => c.stuns@.insert(npc.0, st),
                })
            } else if spec_nearby(ppos, npos) {
                &&& c2.positions@ == c.positions@
                &&& c2.stuns@ == c.stuns@
                &&& c2.health@ == c.health@.insert(pe.0, c.health@[pe.0].damaged(1))
            } else {
                &&& c2.health@ == c.health@
                &&& c2.stuns@ == c.stuns@
                &&& c2.positions@ == (if c.enemies@.contains_key(npc.0) {
                    c.positions@.insert(npc.0, spec_step(m, npos, ppos))
                } else {
                    c.positions@
                })
            }
        },
    }
}

impl Game {
    /// Resolve one player command. Quit changes nothing and reports the
    /// turn loop should stop; a directional move is applied only when the
    /// target cell is in bounds and not a wall, and is silently ignored
    /// otherwise; an attack resolves melee against every adjacent enemy;
    /// any other command is consumed without effect. Without a player,
    /// nothing happens and the loop is told to stop.
    pub fn player_turn(&mut self, cmd: Command, rng: &mut rand::rngs::StdRng) -> (r: bool)
        requires
            old(self).wf(),
        ensures
            final(self).wf(),
            r == (old(self).components.player.is_some() && cmd != Command::Quit),
            player_cmd_effect(old(self).components, old(self).map, cmd, final(self).components),
            final(self).entity_gen == old(self).entity_gen,
            final(self).map == old(self).map,
            final(self).dungeon == old(self).dungeon,
            final(self).fov_map == old(self).fov_map,
            final(self).tiles_seen == old(self).tiles_seen,
            final(self).turn_order == old(self).turn_order,
            // Quit, Other and the playerless case consume the command
            // without mutating anything at all
            old(self).components.player.is_none() ==> *final(self) == *old(self),
            cmd == Command::Quit ==> *final(self) == *old(self),
            cmd == Command::Other ==> *final(self) == *old(self),
            // a rejected move (out of bounds or into a wall) also leaves
            // the state untouched
            is_move_command(cmd) && old(self).components.player.is_some() ==> {
                let pe = old(self).components.player.unwrap().0;
                let ppos = old(self).components.positions@[pe.0];
                let tx = ppos.0 + spec_move_delta(cmd).0;
                let ty = ppos.1 + spec_move_delta(cmd).1;
                !(old(self).map.in_bounds(tx, ty) && old(self).map.spec_tile(tx, ty)
                    != Tile::Wall) ==> *final(self) == *old(self)
            },
    {
        let pe = match &self.components.player {
            Some((e, _)) => Entity(e.0),
            None => {
                return false;
            },
        };
        match cmd {
            Command::Quit => false,
            Command::Attack => {
                self.player_attack(rng);
                true
            },
            Command::MoveUp | Command::MoveDown | Command::MoveLeft | Command::MoveRight => {
                let ppos = *self.components.positions.get(pe.0).unwrap();
                let (dx, dy): (i32, i32) = match cmd {
                    Command::MoveUp => (0, -1),
                    Command::MoveDown => (0, 1),
                    Command::MoveLeft => (-1, 0),
                    _ => (1, 0),
                };
                let tx = ppos.0 as i32 + dx;
                let ty = ppos.1 as i32 + dy;
                if 0 <= tx && tx < self.map.width as i32 && 0 <= ty && ty < self.map.height as i32
                {
                    if self.map.tile(Pos::new(tx, ty)) != Tile::Wall {
                        self.components.positions.insert(pe.0, Position(tx as u16, ty as u16));
                    }
                }
                true
            },
            Command::Other => true,
        }
    }

    /// Run one enemy's phase: with no player, or with the enemy or the
    /// player lacking a position, the phase is a no-op; a stunned enemy
    /// only ticks its stun down (losing it at zero); an enemy adjacent to
    /// the player strikes for one damage; otherwise it pursues the player
    /// one step.
    pub fn npc_turn(&mut self, npc_entity: Entity)
        requires
            old(self).wf(),
        ensures
            final(self).wf(),
            npc_turn_effect(
                old(self).components,
                old(self).map,
                npc_entity,
                final(self).components,
            ),
            final(self).entity_gen == old(self).entity_gen,
            final(self).map == old(self).map,
            final(self).dungeon == old(self).dungeon,
            final(self).fov_map == old(self).fov_map,
            final(self).tiles_seen == old(self).tiles_seen,
            final(self).turn_order == old(self).turn_order,
    {
        let pe = match &self.components.player {
            Some((e, _)) => Entity(e.0),
            None => {
                return ;
            },
        };
        let ppos = match self.components.positions.get(pe.0) {
            Some(p) => *p,
            None => {
                return ;
            },
        };
        let npos = match self.components.positions.get(npc_entity.0) {
            Some(p) => *p,
            None => {
                return ;
            },
        };
        let stunned = self.components.stuns.contains_key(npc_entity.0);
        if stunned {
            let st = *self.components.stuns.get(npc_entity.0).unwrap();
            let nd = st.duration - 1;
            if nd == 0 {
                self.components.stuns.remove(npc_entity.0);
            } else {
                self.components.stuns.insert(npc_entity.0, Stun { duration: nd });
            }
        } else if Self::is_nearby(&ppos, &npos) {
            let h = *self.components.health.get(pe.0).unwrap();
            let mut h2 = h;
            h2.take_damage(1);
            self.components.health.insert(pe.0, h2);
        } else {
            self.move_towards(npc_entity, (ppos.0, ppos.1));
        }
    }

    /// Run one full scheduling step: rotate the queue to the next live
    /// entity, let it act (the player through the input collaborator, an
    /// enemy through its policy), then reap the dead. A player Quit is
    /// surfaced as the terminal outcome; otherwise the outcome reports
    /// whether the acting entity ended its turn inside the player's last
    /// computed field of view, the embedding program's redraw hint.
    pub fn turn<I: InputHandler>(&mut self, input: &mut I, rng: &mut rand::rngs::StdRng) -> (r:
        TurnOutcome)
        requires
            old(self).wf(),
            old(self).has_live_actor(),
            old(self).healths_positive(),
        ensures
            final(self).wf(),
            final(self).has_live_actor(),
            final(self).healths_positive(),
            final(self).map == old(self).map,
            final(self).dungeon == old(self).dungeon,
            final(self).fov_map == old(self).fov_map,
            final(self).tiles_seen == old(self).tiles_seen,
            // the dead-skipping rotation: the stale prefix of the queue is
            // discarded, the first live entity acts and moves to the back;
            // its action (a command's effect for the player, the policy
            // phase for an enemy) and then the reap take the components
            // from the old state to the final one, and the outcome is
            // Quit exactly for a player Quit, else the actor's
            // end-of-turn visibility
            exists|k: int|
                #![trigger old(self).turn_order@.subrange(k + 1, old(self).turn_order@.len() as int)]
                {
                    &&& 0 <= k < old(self).turn_order@.len()
                    &&& old(self).entity_gen.spec_contains(old(self).turn_order@[k].0)
                    &&& forall|i: int|
                        0 <= i < k ==> !old(self).entity_gen.spec_contains(
                            (#[trigger] old(self).turn_order@[i]).0,
                        )
                    &&& final(self).turn_order@ == old(self).turn_order@.subrange(
                        k + 1,
                        old(self).turn_order@.len() as int,
                    ).push(old(self).turn_order@[k])
                    &&& ({
                        let actor = old(self).turn_order@[k];
                        let is_player = match old(self).components.player {
                            None => true,
                            Some((pe, _)) => pe.0 == actor.0,
                        };
                        let vis = if final(self).components.positions@.contains_key(actor.0) {
                            old(self).fov_map.spec_visible(
                                final(self).components.positions@[actor.0].0 as int,
                                final(self).components.positions@[actor.0].1 as int,
                            )
                        } else {
                            true
                        };
                        if is_player {
                            exists|cmd: Command, mid: AllComponents|
                                {
                                    &&& #[trigger] player_cmd_effect(
                                        old(self).components,
                                        old(self).map,
                                        cmd,
                                        mid,
                                    )
                                    &&& reap_effect(
                                        mid,
                                        old(self).entity_gen,
                                        final(self).components,
                                        final(self).entity_gen,
                                    )
                                    &&& r == (if old(self).components.player.is_some() && cmd
                                        == Command::Quit {
                                        TurnOutcome::Quit
                                    } else {
                                        TurnOutcome::Played(vis)
                                    })
                                }
                        } else {
                            &&& exists|mid: AllComponents|
                                #[trigger] npc_turn_effect(
                                    old(self).components,
                                    old(self).map,
                                    actor,
                                    mid,
                                ) && reap_effect(
                                    mid,
                                    old(self).entity_gen,
                                    final(self).components,
                                    final(self).entity_gen,
                                )
                            &&& r == TurnOutcome::Played(vis)
                        }
                    })
                },
            // entities are only ever removed by a turn, never conjured
            forall|id: u32|
                final(self).entity_gen.spec_contains(id) ==> old(self).entity_gen.spec_contains(
                    id,
                ),
    {
        let ghost q0 = self.turn_order@;
        let ghost mut jg: int = 0;
        let mut turn_entity = self.turn_order.pop_front().unwrap();
        proof {
            if !self.entity_gen.spec_contains(turn_entity.0) {
                let i = choose|i: int|
                    0 <= i < q0.len() && self.entity_gen.spec_contains((#[trigger] q0[i]).0);
                assert(i >= 1);
                assert(self.turn_order@[i - 1] == q0[i]);
            }
        }
        while !self.entity_gen.contains(&turn_entity)
            invariant
                self.components == old(self).components,
                self.entity_gen == old(self).entity_gen,
                self.map == old(self).map,
                self.dungeon == old(self).dungeon,
                self.fov_map == old(self).fov_map,
                self.tiles_seen == old(self).tiles_seen,
                self.wf(),
                self.healths_positive(),
                q0 == old(self).turn_order@,
                0 <= jg < q0.len(),
                turn_entity == q0[jg],
                self.turn_order@ == q0.subrange(jg + 1, q0.len() as int),
                forall|i: int|
                    0 <= i < jg ==> !self.entity_gen.spec_contains((#[trigger] q0[i]).0),
                self.entity_gen.spec_contains(turn_entity.0) || exists|i: int|
                    0 <= i < self.turn_order@.len() && self.entity_gen.spec_contains(
                        (#[trigger] self.turn_order@[i]).0,
                    ),
            decreases self.turn_order@.len(),
        {
            let ghost q1 = self.turn_order@;
            proof {
                let i = choose|i: int|
                    0 <= i < q1.len() && self.entity_gen.spec_contains((#[trigger] q1[i]).0);
            }
            turn_entity = self.turn_order.pop_front().unwrap();
            proof {
                jg = jg + 1;
                assert(turn_entity == q1[0] && q1[0] == q0[jg]);
                assert(self.turn_order@ =~= q0.subrange(jg + 1, q0.len() as int));
                if !self.entity_gen.spec_contains(turn_entity.0) {
                    let i = choose|i: int|
                        0 <= i < q1.len() && self.entity_gen.spec_contains((#[trigger] q1[i]).0);
                    assert(i >= 1);
                    assert(self.turn_order@[i - 1] == q1[i]);
                }
            }
        }
        self.turn_order.push_back(turn_entity);
        proof {
            assert(self.turn_order@ == q0.subrange(jg + 1, q0.len() as int).push(q0[jg]));
        }
        let is_player_entity = match &self.components.player {
            Some((e, _)) => e.0 == turn_entity.0,
            None => true,
        };
        let mut quit = false;
        let ghost mut gcmd: Command = Command::Other;
        if is_player_entity {
            match &self.components.player {
                Some(_) => {
                    let cmd = input.wait_for_keypress();
                    let cont = self.player_turn(cmd, rng);
                    quit = !cont;
                    proof {
                        gcmd = cmd;
                    }
                },
                None => {},
            }
        } else {
            self.npc_turn(turn_entity);
        }
        let ghost mid_c = self.components;
        proof {
            if is_player_entity {
                assert(player_cmd_effect(old(self).components, old(self).map, gcmd, mid_c));
            } else {
                assert(npc_turn_effect(
                    old(self).components,
                    old(self).map,
                    turn_entity,
                    mid_c,
                ));
            }
            assert(self.entity_gen == old(self).entity_gen);
            assert(self.turn_order@[self.turn_order@.len() - 1] == turn_entity);
            assert(self.components.health@.contains_key(turn_entity.0) ==> self.components.health@[turn_entity.0].hp
                > 0);
        }
        self.remove_dead();
        proof {
            assert(reap_effect(
                mid_c,
                old(self).entity_gen,
                self.components,
                self.entity_gen,
            ));
            assert(self.entity_gen.spec_contains(turn_entity.0));
            assert(self.turn_order@[self.turn_order@.len() - 1] == turn_entity);
        }
        let p = self.components.positions.get(turn_entity.0);
        let vis = match p {
            None => true,
            Some(p) => {
                let px = p.0;
                let py = p.1;
                self.fov_map.is_in_fov(px, py)
            },
        };
        if quit {
            TurnOutcome::Quit
        } else {
            TurnOutcome::Played(vis)
        }
    }
}

/// Halve each channel and push blue up, the dimmed tint of remembered but
/// currently invisible tiles. The blue boost cannot overflow: a halved
/// channel is at most 127.
pub open spec fn spec_darken(c: Rgb) -> Rgb {
    Rgb { r: (c.r / 2) as u8, g: (c.g / 2) as u8, b: (c.b / 2 + 100) as u8 }
}

/// The background color of a tile: none for unexcavated void, grey for
/// ground, lighter grey for walls; dimmed when drawn from memory.
pub open spec fn spec_tile_color(tile: Tile, darkened: bool) -> Option<Rgb> {
    let base = match tile {
        Tile::Empty => None,
        Tile::Ground => Some(Rgb { r: 95, g: 95, b: 95 }),
        Tile::Wall => Some(Rgb { r: 223, g: 223, b: 223 }),
    };
    if darkened {
        match base {
            None => None,
            Some(c) => Some(spec_darken(c)),
        }
    } else {
        base
    }
}

/// Decide a tile's background color for this frame.
pub fn tile_color(tile: Tile, darkened: bool) -> (r: Option<Rgb>)
    ensures
        r == spec_tile_color(tile, darkened),
{
    let base: Option<Rgb> = match tile {
        Tile::Empty => None,
        Tile::Ground => Some(Rgb { r: 95, g: 95, b: 95 }),
        Tile::Wall => Some(Rgb { r: 223, g: 223, b: 223 }),
    };
    if darkened {
        match base {
            None => None,
            Some(c) => Some(Rgb { r: c.r / 2, g: c.g / 2, b: c.b / 2 + 100 }),
        }
    } else {
        base
    }
}

/// One background cell to paint this frame.
#[derive(Debug, Clone, Copy, PartialEq, Eq, Structural)]
pub struct TileDraw {
    pub x: u16,
    pub y: u16,
    pub color: Rgb,
}

/// One entity glyph to draw on top of the tiles this frame.
#[derive(Debug, Clone, Copy, PartialEq, Eq, Structural)]
pub struct GlyphDraw {
    pub x: u16,
    pub y: u16,
    pub glyph: char,
    pub color: Rgb,
}

/// Everything the render collaborator needs for one frame: the map pass,
/// then the entity pass drawn on top.
pub struct Frame {
    pub tiles: Vec<TileDraw>,
    pub glyphs: Vec<GlyphDraw>,
}

impl Game {
    /// What the map pass shows at a cell: full brightness when currently
    /// visible, dimmed when only remembered, nothing when never seen.
    pub open spec fn tile_draw_expected(self, x: int, y: int) -> Option<Rgb> {
        if self.fov_map.spec_visible(x, y) {
            spec_tile_color(self.map.spec_tile(x, y), false)
        } else if self.spec_seen(x, y) {
            spec_tile_color(self.map.spec_tile(x, y), true)
        } else {
            None
        }
    }

    /// Whether the entity pass draws this entity: it has a glyph and a
    /// position inside the player's current field of view.
    pub open spec fn glyph_drawable(self, id: u32) -> bool {
        &&& self.components.draws@.contains_key(id)
        &&& self.components.positions@.contains_key(id)
        &&& self.fov_map.spec_visible(
            self.components.positions@[id].0 as int,
            self.components.positions@[id].1 as int,
        )
    }

    /// The map-pass entry for one cell: one colored cell, or nothing for
    /// a cell that is neither visible nor remembered (or is unexcavated).
    pub open spec fn tile_entry(self, x: int, y: int) -> Seq<TileDraw> {
        match self.tile_draw_expected(x, y) {
            Some(c) => seq![TileDraw { x: x as u16, y: y as u16, color: c }],
            None => Seq::empty(),
        }
    }

    /// The map-pass entries of row `y`, for columns before `x`.
    pub open spec fn row_entries_upto(self, y: int, x: int) -> Seq<TileDraw>
        decreases x,
    {
        if x <= 0 {
            Seq::empty()
        } else {
            self.row_entries_upto(y, x - 1) + self.tile_entry(x - 1, y)
        }
    }

    /// The map-pass entries of all rows before `y`, in row-major order.
    pub open spec fn rows_entries_upto(self, y: int) -> Seq<TileDraw>
        decreases y,
    {
        if y <= 0 {
            Seq::empty()
        } else {
            self.rows_entries_upto(y - 1) + self.row_entries_upto(y - 1, self.map.width as int)
        }
    }

    /// The remembered grid after absorbing visibility for the first `k`
    /// cells in row-major order.
    pub open spec fn seen_after(self, k: int) -> Seq<bool> {
        Seq::new(
            self.tiles_seen@.len(),
            |i: int|
                if i < k {
                    self.tiles_seen@[i] || self.fov_map.visible@[i]
                } else {
                    self.tiles_seen@[i]
                },
        )
    }

    /// The map pass: list every cell to paint, fully lit when visible and
    /// dimmed when merely remembered, and remember every currently
    /// visible cell for later frames. Entries come in row-major order.
    pub fn draw_map(&mut self) -> (r: Vec<TileDraw>)
        requires
            old(self).wf(),
        ensures
            final(self).wf(),
            final(self).components == old(self).components,
            final(self).entity_gen == old(self).entity_gen,
            final(self).map == old(self).map,
            final(self).dungeon == old(self).dungeon,
            final(self).fov_map == old(self).fov_map,
            final(self).turn_order == old(self).turn_order,
            final(self).tiles_seen@ == old(self).seen_after(
                old(self).map.width * old(self).map.height,
            ),
            forall|x: int, y: int|
                old(self).map.in_bounds(x, y) ==> final(self).spec_seen(x, y) == (old(
                    self,
                ).spec_seen(x, y) || old(self).fov_map.spec_visible(x, y)),
            r@ == old(self).rows_entries_upto(old(self).map.height as int),
    {
        let ghost g0 = *self;
        let w = self.map.width;
        let h = self.map.height;
        let mut r: Vec<TileDraw> = Vec::new();
        let mut y: u16 = 0;
        while y < h
            invariant
                self.wf(),
                g0.wf(),
                w == self.map.width,
                h == self.map.height,
                y <= h,
                self.components == g0.components,
                self.entity_gen == g0.entity_gen,
                self.map == g0.map,
                self.dungeon == g0.dungeon,
                self.fov_map == g0.fov_map,
                self.turn_order == g0.turn_order,
                self.tiles_seen@ == g0.seen_after(y * w),
                r@ == g0.rows_entries_upto(y as int),
            decreases h - y,
        {
            let mut x: u16 = 0;
            while x < w
                invariant
                    self.wf(),
                    g0.wf(),
                    w == self.map.width,
                    h == self.map.height,
                    y < h,
                    x <= w,
                    self.components == g0.components,
                    self.entity_gen == g0.entity_gen,
                    self.map == g0.map,
                    self.dungeon == g0.dungeon,
                    self.fov_map == g0.fov_map,
                    self.turn_order == g0.turn_order,
                    self.tiles_seen@ == g0.seen_after(y * w + x),
                    r@ == g0.rows_entries_upto(y as int) + g0.row_entries_upto(y as int, x as int),
                decreases w - x,
            {
                let ghost x0 = x as int;
                let vis = self.fov_map.is_in_fov(x, y);
                let n = self.tiles_seen.len();
                proof {
                    lemma_grid_index(w as int, h as int, x as int, y as int);
                    assert(h * w == w * h) by (nonlinear_arith);
                    assert(grid_index(w as int, x as int, y as int) < n);
                }
                let seen_idx = y as usize * w as usize + x as usize;
                let ghost k = y * w + x;
                let mut darkened: Option<bool> = None;
                if vis {
                    self.tiles_seen.set(seen_idx, true);
                    darkened = Some(false);
                } else if self.tiles_seen[seen_idx] {
                    darkened = Some(true);
                }
                proof {
                    assert(g0.spec_seen(x as int, y as int) == g0.tiles_seen@[k as int]);
                    assert(g0.fov_map.spec_visible(x as int, y as int)
                        == g0.fov_map.visible@[k as int]);
                    assert(self.tiles_seen@ =~= g0.seen_after(k + 1));
                    assert(darkened == (if g0.fov_map.spec_visible(x as int, y as int) {
                        Some(false)
                    } else if g0.spec_seen(x as int, y as int) {
                        Some(true)
                    } else {
                        Option::<bool>::None
                    }));
                }
                match darkened {
                    Some(dk) => {
                        let c = tile_color(self.map.tile(Pos::new(x as i32, y as i32)), dk);
                        match c {
                            Some(color) => {
                                r.push(TileDraw { x, y, color });
                            },
                            None => {},
                        }
                    },
                    None => {},
                }
                proof {
                    assert(g0.row_entries_upto(y as int, x0 + 1) == g0.row_entries_upto(
                        y as int,
                        x0,
                    ) + g0.tile_entry(x0, y as int));
                    assert(r@ =~= g0.rows_entries_upto(y as int) + g0.row_entries_upto(
                        y as int,
                        x0 + 1,
                    ));
                }
                x = x + 1;
            }
            proof {
                assert(g0.rows_entries_upto(y as int + 1) == g0.rows_entries_upto(y as int)
                    + g0.row_entries_upto(y as int, w as int));
                assert((y + 1) * w == y * w + w) by (nonlinear_arith);
            }
            y = y + 1;
        }
        proof {
            assert(h * w == w * h) by (nonlinear_arith);
            assert(self.tiles_seen@ == g0.seen_after(w * h));
            assert forall|x: int, y2: int| g0.map.in_bounds(x, y2) implies self.spec_seen(x, y2)
                == (g0.spec_seen(x, y2) || g0.fov_map.spec_visible(x, y2)) by {
                lemma_grid_index(w as int, h as int, x, y2);
            }
        }
        r
    }

    /// The entity-pass entry for one entity: its glyph at its position,
    /// tinted dark red while stunned; nothing if it has no glyph or
    /// position or stands outside the field of view.
    pub open spec fn glyph_entry(self, id: u32) -> Seq<GlyphDraw> {
        if self.glyph_drawable(id) {
            match self.components.draws@[id] {
                Draw::Char(ch, col) => seq![
                    GlyphDraw {
                        x: self.components.positions@[id].0,
                        y: self.components.positions@[id].1,
                        glyph: ch,
                        color: col.spec_mul(
                            if self.components.stuns@.contains_key(id) {
                                Rgb { r: 191, g: 0, b: 0 }
                            } else {
                                Rgb { r: 255, g: 255, b: 255 }
                            },
                        ),
                    },
                ],
            }
        } else {
            Seq::empty()
        }
    }

    /// The entity-pass entries for the first `j` identifiers of a key
    /// list.
    pub open spec fn glyph_entries_upto(self, ks: Seq<u32>, j: int) -> Seq<GlyphDraw>
        decreases j,
    {
        if j <= 0 {
            Seq::empty()
        } else {
            self.glyph_entries_upto(ks, j - 1) + self.glyph_entry(ks[j - 1])
        }
    }

    /// A strictly increasing list of exactly the keys of a mapping.
    pub open spec fn is_key_list<T>(m: Map<u32, T>, ks: Seq<u32>) -> bool {
        &&& forall|i: int, j: int| 0 <= i < j < ks.len() ==> ks[i] < ks[j]
        &&& forall|i: int| 0 <= i < ks.len() ==> m.contains_key(#[trigger] ks[i])
        &&& forall|id: u32| m.contains_key(id) ==> ks.contains(id)
    }

    /// The entity pass: one glyph per drawable entity inside the current
    /// field of view, tinted dark red while stunned, in increasing
    /// identifier order.
    pub fn draw_characters(&self) -> (r: Vec<GlyphDraw>)
        requires
            self.wf(),
        ensures
            exists|ks: Seq<u32>|
                #[trigger] Self::is_key_list(self.components.draws@, ks) && r@
                    == self.glyph_entries_upto(ks, ks.len() as int),
    {
        let keys = self.components.draws.keys();
        let mut r: Vec<GlyphDraw> = Vec::new();
        let mut i: usize = 0;
        while i < keys.len()
            invariant
                self.wf(),
                i <= keys@.len(),
                Self::is_key_list(self.components.draws@, keys@),
                r@ == self.glyph_entries_upto(keys@, i as int),
            decreases keys@.len() - i,
        {
            let ghost i0 = i as int;
            let id = keys[i];
            let d = *self.components.draws.get(id).unwrap();
            let p = self.components.positions.get(id);
            match p {
                Some(p) => {
                    let px = p.0;
                    let py = p.1;
                    if self.fov_map.is_in_fov(px, py) {
                        let tint = if self.components.stuns.contains_key(id) {
                            crate::color::dark_red()
                        } else {
                            crate::color::white()
                        };
                        match d {
                            Draw::Char(ch, col) => {
                                r.push(
                                    GlyphDraw { x: px, y: py, glyph: ch, color: col.mul(tint) },
                                );
                            },
                        }
                    }
                },
                None => {},
            }
            proof {
                assert(self.glyph_entries_upto(keys@, i0 + 1) == self.glyph_entries_upto(
                    keys@,
                    i0,
                ) + self.glyph_entry(keys@[i0]));
                assert(r@ =~= self.glyph_entries_upto(keys@, i0 + 1));
            }
            i = i + 1;
        }
        proof {
            assert(Self::is_key_list(self.components.draws@, keys@) && r@
                == self.glyph_entries_upto(keys@, keys@.len() as int));
        }
        r
    }

    /// Produce one frame: recompute the field of view from the player's
    /// position with radius 15, then run the map pass and the entity
    /// pass. Without a player nothing is recomputed or drawn.
    pub fn draw(&mut self) -> (f: Frame)
        requires
            old(self).wf(),
        ensures
            final(self).wf(),
            final(self).components == old(self).components,
            final(self).entity_gen == old(self).entity_gen,
            final(self).map == old(self).map,
            final(self).dungeon == old(self).dungeon,
            final(self).turn_order == old(self).turn_order,
            old(self).components.player.is_none() ==> *final(self) == *old(self) && f.tiles@.len()
                == 0 && f.glyphs@.len() == 0,
            old(self).components.player.is_some() ==> {
                let pe = old(self).components.player.unwrap().0;
                let ppos = old(self).components.positions@[pe.0];
                let mid = Game { fov_map: final(self).fov_map, ..*old(self) };
                &&& forall|x: int, y: int|
                    old(self).map.in_bounds(x, y) ==> final(self).fov_map.spec_visible(x, y)
                        == old(self).fov_map.spec_vis(ppos.0 as int, ppos.1 as int, x, y, 15)
                &&& forall|x: int, y: int|
                    old(self).map.in_bounds(x, y) ==> final(self).spec_seen(x, y) == (old(
                        self,
                    ).spec_seen(x, y) || final(self).fov_map.spec_visible(x, y))
                &&& f.tiles@ == mid.rows_entries_upto(old(self).map.height as int)
                &&& exists|ks: Seq<u32>|
                    #[trigger] Self::is_key_list(final(self).components.draws@, ks) && f.glyphs@
                        == final(self).glyph_entries_upto(ks, ks.len() as int)
            },
    {
        let pe = match &self.components.player {
            Some((e, _)) => Entity(e.0),
            None => {
                return Frame { tiles: Vec::new(), glyphs: Vec::new() };
            },
        };
        let ppos = *self.components.positions.get(pe.0).unwrap();
        self.fov_map.compute_fov(ppos.0, ppos.1, 15);
        proof {
            assert forall|x: int, y: int| self.map.in_bounds(x, y)
                implies #[trigger] self.fov_map.spec_transparent(x, y) == (self.map.spec_tile(x, y)
                != Tile::Wall) by {
                assert(old(self).fov_map.spec_transparent(x, y) == (self.map.spec_tile(x, y)
                    != Tile::Wall));
            }
        }
        let tiles = self.draw_map();
        let glyphs = self.draw_characters();
        Frame { tiles, glyphs }
    }
}

/// How one enemy phase advances a stun: the remaining-turn counter ticks
/// down, and the stun disappears when it reaches zero.
pub open spec fn stun_after_phase(s: Option<Stun>) -> Option<Stun> {
    match s {
        Some(st) => if st.duration <= 1 {
            None
        } else {
            Some(Stun { duration: (st.duration - 1) as u16 })
        },
        None => None,
    }
}

/// A stun after `k` enemy phases.
pub open spec fn stun_after_phases(s: Option<Stun>, k: int) -> Option<Stun>
    decreases k,
{
    if k <= 0 {
        s
    } else {
        stun_after_phase(stun_after_phases(s, k - 1))
    }
}

/// A stun of duration d suppresses exactly d enemy phases: it is still
/// present entering each of the first d phases (each of which only ticks
/// it down), and it is gone from the d-th phase on, so the entity's
/// policy runs again.
pub proof fn lemma_stun_suppresses_exactly(d: u16, k: int)
    requires
        1 <= d,
        0 <= k,
    ensures
        stun_after_phases(Some(Stun { duration: d }), k) == (if k < d {
            Some(Stun { duration: (d - k) as u16 })
        } else {
            Option::<Stun>::None
        }),
        k < d ==> stun_after_phases(Some(Stun { duration: d }), k).is_some(),
        k >= d ==> stun_after_phases(Some(Stun { duration: d }), k).is_none(),
    decreases k,
{
    if k > 0 {
        lemma_stun_suppresses_exactly(d, k - 1);
    }
}

/// At the game level: a Wall cell strictly between the observer and the
/// target on their shared row, column or diagonal hides the target,
/// whatever the radius — walls are exactly the opaque cells of the
/// field-of-view grid, and they block sight beyond themselves.
pub proof fn lemma_wall_hides_target(
    g: Game,
    ox: int,
    oy: int,
    wx: int,
    wy: int,
    tx: int,
    ty: int,
    radius: int,
)
    requires
        g.wf(),
        g.map.in_bounds(wx, wy),
        g.map.spec_tile(wx, wy) == Tile::Wall,
        crate::fov::aligned_between(ox, oy, wx, wy, tx, ty),
    ensures
        !g.fov_map.spec_vis(ox, oy, tx, ty, radius),
{
    assert(!g.fov_map.spec_transparent(wx, wy));
    crate::fov::lemma_fov_blocked(g.fov_map, ox, oy, wx, wy, tx, ty, radius);
}

/// Movement fallback: an enemy whose diagonal step lands on a wall but
/// whose horizontal-only step is open moves horizontally - not
/// vertically, and not in place.
pub proof fn lemma_step_fallback_horizontal(m: GameMap, from: Position, target: Position)
    requires
        m.wf(),
        target.0 != from.0,
        target.1 != from.1,
        spec_blocked(
            m,
            from.0 + sgn(target.0 - from.0),
            from.1 + sgn(target.1 - from.1),
        ),
        !spec_blocked(m, from.0 + sgn(target.0 - from.0), from.1 as int),
    ensures
        spec_step(m, from, target) == Position(
            (from.0 + sgn(target.0 - from.0)) as u16,
            from.1,
        ),
        spec_step(m, from, target).0 != from.0,
        spec_step(m, from, target).1 == from.1,
{
}

} // verus!
