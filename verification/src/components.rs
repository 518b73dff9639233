use vstd::prelude::*;
use crate::color::Rgb;
use crate::entity::Entity;
use crate::ints::imax;

verus! {

/// How an entity is rendered: one character glyph with a foreground color.
#[derive(Debug, Clone, Copy, PartialEq, Eq, Structural)]
pub enum Draw {
    Char(char, Rgb),
}

/// Hit points plus armor class. Damage up to the armor class is absorbed.
#[derive(Debug, Clone, Copy, PartialEq, Eq, Structural)]
pub struct Health {
    pub hp: u32,
    pub ac: u32,
}

/// A cell an entity stands on, in map coordinates.
#[derive(Debug, Clone, Copy, PartialEq, Eq, Structural)]
pub struct Position(pub u16, pub u16);

/// The movement policy an enemy follows on its turn.
#[derive(Debug, Clone, Copy, PartialEq, Eq, Structural)]
pub enum EnemyMovement {
    Simple,
}

/// Marks an entity as an enemy and carries its movement policy.
#[derive(Debug, Clone, Copy, PartialEq, Eq, Structural)]
pub struct Enemy {
    pub movement: EnemyMovement,
}

/// A timed status that suppresses an entity's actions while it lasts.
#[derive(Debug, Clone, Copy, PartialEq, Eq, Structural)]
pub struct Stun {
    pub duration: u16,
}

/// The singleton tag of the player entity.
#[derive(Debug, Clone, Copy, PartialEq, Eq, Structural)]
pub struct Player {}

#[derive(Debug, Clone, Copy, PartialEq, Eq, Hash, Structural)]
pub enum UIPanel {
    Left,
    Bottom,
    Right,
}

/// Where a widget sits inside its panel.
#[derive(Debug, Clone, Copy, PartialEq, Eq)]
pub struct UITransform {
    pub pos: (u16, u16),
    pub size: (u16, u16),
    pub panel: UIPanel,
}

/// A labelled gauge: current value over maximum, drawn as a filled bar.
#[derive(Debug, Clone, PartialEq, Eq)]
pub struct UIBar {
    pub label: String,
    pub value: u32,
    pub maximum: u32,
    pub empty_color: Rgb,
    pub fill_color: Rgb,
}

#[derive(Debug, Clone, Copy, PartialEq, Eq, Structural)]
pub struct UIRect;

#[derive(Debug, Clone, PartialEq, Eq)]
pub struct UILabel(pub String);

impl Health {
    /// The health left after a hit: damage up to the armor class is
    /// absorbed; the rest reduces hit points, clamped at zero.
    pub open spec fn damaged(self, damage: u32) -> Health {
        if damage <= self.ac {
            self
        } else if damage - self.ac >= self.hp {
            Health { hp: 0, ac: self.ac }
        } else {
            Health { hp: (self.hp - (damage - self.ac)) as u32, ac: self.ac }
        }
    }

    /// Apply a hit. Damage at or below the armor class costs no hit
    /// points; anything above it costs the difference, and hit points
    /// never underflow below zero.
    pub fn take_damage(&mut self, damage: u32)
        ensures
            *final(self) == old(self).damaged(damage),
            final(self).ac == old(self).ac,
            damage <= old(self).ac ==> final(self).hp == old(self).hp,
            damage > old(self).ac ==> final(self).hp == imax(
                0,
                old(self).hp - (damage - old(self).ac),
            ),
    {
        if damage <= self.ac {
            return ;
        }
        let excess = damage - self.ac;
        let hp_taken = if excess < self.hp {
            excess
        } else {
            self.hp
        };
        self.hp = self.hp - hp_taken;
    }
}

/// One component kind's storage: a slot per entity identifier, viewed as a
/// partial map from identifier to component.
pub struct CompMap<T> {
    pub slots: Vec<Option<T>>,
}

impl<T> View for CompMap<T> {
    type V = Map<u32, T>;

    open spec fn view(&self) -> Map<u32, T> {
        Map::new(
            |k: u32| k < self.slots@.len() && self.slots@[k as int].is_some(),
            |k: u32| self.slots@[k as int].unwrap(),
        )
    }
}

impl<T> CompMap<T> {
    /// Slots never outnumber the identifier space, so every slot index is
    /// a valid identifier.
    pub open spec fn wf(self) -> bool {
        self.slots@.len() <= u32::MAX
    }

    pub fn new() -> (r: Self)
        ensures
            r@ == Map::<u32, T>::empty(),
            r.wf(),
    {
        let r = CompMap { slots: Vec::new() };
        proof {
            assert(r@ =~= Map::<u32, T>::empty());
        }
        r
    }

    pub fn contains_key(&self, id: u32) -> (r: bool)
        ensures
            r == self@.contains_key(id),
    {
        (id as usize) < self.slots.len() && self.slots[id as usize].is_some()
    }

    pub fn get(&self, id: u32) -> (r: Option<&T>)
        ensures
            r.is_some() == self@.contains_key(id),
            r.is_some() ==> *r.unwrap() == self@[id],
    {
        if (id as usize) < self.slots.len() {
            self.slots[id as usize].as_ref()
        } else {
            None
        }
    }

    /// Insert or replace the component of one entity.
    pub fn insert(&mut self, id: u32, v: T)
        requires
            id < u32::MAX,
        ensures
            final(self)@ == old(self)@.insert(id, v),
            old(self).wf() ==> final(self).wf(),
    {
        while self.slots.len() <= id as usize
            invariant
                id < u32::MAX,
                forall|k: int|
                    0 <= k < self.slots@.len() ==> self.slots@[k] == (if k < old(
                        self,
                    ).slots@.len() {
                        old(self).slots@[k]
                    } else {
                        Option::<T>::None
                    }),
                self.slots@.len() >= old(self).slots@.len(),
                self.slots@.len() == old(self).slots@.len() || self.slots@.len() <= id + 1,
            decreases id + 1 - self.slots@.len(),
        {
            self.slots.push(None);
        }
        self.slots.set(id as usize, Some(v));
        proof {
            assert(final(self)@ =~= old(self)@.insert(id, v));
        }
    }

    /// Drop the component of one entity, if it has one.
    pub fn remove(&mut self, id: u32)
        ensures
            final(self)@ == old(self)@.remove(id),
            final(self).wf() == old(self).wf(),
    {
        if (id as usize) < self.slots.len() {
            self.slots.set(id as usize, None);
        }
        proof {
            assert(final(self)@ =~= old(self)@.remove(id));
        }
    }

    /// The identifiers that currently have this component, in increasing
    /// order.
    pub fn keys(&self) -> (r: Vec<u32>)
        requires
            self.wf(),
        ensures
            forall|i: int, j: int| 0 <= i < j < r@.len() ==> r@[i] < r@[j],
            forall|i: int| 0 <= i < r@.len() ==> self@.contains_key(#[trigger] r@[i]),
            forall|id: u32| self@.contains_key(id) ==> r@.contains(id),
    {
        let n = self.slots.len();
        let mut r: Vec<u32> = Vec::new();
        let mut i: usize = 0;
        while i < n
            invariant
                self.wf(),
                n == self.slots@.len(),
                n <= u32::MAX + 1,
                i <= n,
                forall|p: int, q: int| 0 <= p < q < r@.len() ==> r@[p] < r@[q],
                forall|p: int| 0 <= p < r@.len() ==> r@[p] < i,
                forall|p: int| 0 <= p < r@.len() ==> self@.contains_key(#[trigger] r@[p]),
                forall|id: u32| id < i && self@.contains_key(id) ==> r@.contains(id),
            decreases n - i,
        {
            if self.slots[i].is_some() {
                let ghost r0 = r@;
                r.push(i as u32);
                proof {
                    assert(r@[r@.len() - 1] == i as u32);
                    assert forall|id: u32| id < i + 1 && self@.contains_key(id) implies r@.contains(
                        id,
                    ) by {
                        if id < i {
                            assert(r0.contains(id));
                            let k = choose|k: int| 0 <= k < r0.len() && r0[k] == id;
                            assert(r@[k] == id);
                        } else {
                            assert(id == i as u32);
                            assert(r@[r@.len() - 1] == id);
                        }
                    }
                }
            }
            i = i + 1;
        }
        r
    }
}

/// Every component mapping of the game, all keyed by entity identifier,
/// plus the distinguished player tag, held by at most one entity because
/// it lives in a single optional slot.
pub struct AllComponents {
    pub player: Option<(Entity, Player)>,
    pub enemies: CompMap<Enemy>,
    pub health: CompMap<Health>,
    pub draws: CompMap<Draw>,
    pub positions: CompMap<Position>,
    pub stuns: CompMap<Stun>,
    pub ui_transforms: CompMap<UITransform>,
    pub ui_bars: CompMap<UIBar>,
    pub ui_rects: CompMap<UIRect>,
    pub ui_labels: CompMap<UILabel>,
}

impl AllComponents {
    pub fn new() -> (r: Self)
        ensures
            r.player.is_none(),
            r.enemies@ == Map::<u32, Enemy>::empty(),
            r.health@ == Map::<u32, Health>::empty(),
            r.draws@ == Map::<u32, Draw>::empty(),
            r.positions@ == Map::<u32, Position>::empty(),
            r.stuns@ == Map::<u32, Stun>::empty(),
            r.ui_transforms@ == Map::<u32, UITransform>::empty(),
            r.ui_bars@ == Map::<u32, UIBar>::empty(),
            r.ui_rects@ == Map::<u32, UIRect>::empty(),
            r.ui_labels@ == Map::<u32, UILabel>::empty(),
            r.enemies.wf(),
            r.health.wf(),
            r.draws.wf(),
            r.positions.wf(),
            r.stuns.wf(),
            r.ui_transforms.wf(),
            r.ui_bars.wf(),
            r.ui_rects.wf(),
            r.ui_labels.wf(),
    {
        AllComponents {
            player: None,
            enemies: CompMap::new(),
            health: CompMap::new(),
            draws: CompMap::new(),
            positions: CompMap::new(),
            stuns: CompMap::new(),
            ui_transforms: CompMap::new(),
            ui_bars: CompMap::new(),
            ui_rects: CompMap::new(),
            ui_labels: CompMap::new(),
        }
    }

    /// Clear every component entry of one entity, and the player tag if
    /// this entity held it. The single removal path that keeps no mapping
    /// dangling.
    pub fn remove_all(&mut self, entity: Entity)
        ensures
            final(self).player == (match old(self).player {
                Some((e, p)) => if e == entity {
                    None
                } else {
                    Some((e, p))
                },
                None => None,
            }),
            final(self).enemies@ == old(self).enemies@.remove(entity.0),
            final(self).health@ == old(self).health@.remove(entity.0),
            final(self).draws@ == old(self).draws@.remove(entity.0),
            final(self).positions@ == old(self).positions@.remove(entity.0),
            final(self).stuns@ == old(self).stuns@.remove(entity.0),
            final(self).ui_transforms@ == old(self).ui_transforms@.remove(entity.0),
            final(self).ui_bars@ == old(self).ui_bars@.remove(entity.0),
            final(self).ui_rects@ == old(self).ui_rects@.remove(entity.0),
            final(self).ui_labels@ == old(self).ui_labels@.remove(entity.0),
            final(self).enemies.wf() == old(self).enemies.wf(),
            final(self).health.wf() == old(self).health.wf(),
            final(self).draws.wf() == old(self).draws.wf(),
            final(self).positions.wf() == old(self).positions.wf(),
            final(self).stuns.wf() == old(self).stuns.wf(),
            final(self).ui_transforms.wf() == old(self).ui_transforms.wf(),
            final(self).ui_bars.wf() == old(self).ui_bars.wf(),
            final(self).ui_rects.wf() == old(self).ui_rects.wf(),
            final(self).ui_labels.wf() == old(self).ui_labels.wf(),
    {
        match &self.player {
            Some((e, _)) => {
                if e.0 == entity.0 {
                    self.player = None;
                }
            },
            None => {},
        }
        self.enemies.remove(entity.0);
        self.health.remove(entity.0);
        self.draws.remove(entity.0);
        self.positions.remove(entity.0);
        self.stuns.remove(entity.0);
        self.ui_transforms.remove(entity.0);
        self.ui_bars.remove(entity.0);
        self.ui_rects.remove(entity.0);
        self.ui_labels.remove(entity.0);
    }
}

} // verus!
