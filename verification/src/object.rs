use vstd::prelude::*;
use crate::color::Rgb;
use crate::ints::iabs;
use crate::pos::Pos;

verus! {

/// Can take damage: armor absorbs part of a hit, hit points never
/// underflow. Implementors say what a hit leaves behind through
/// `spec_damaged`.
pub trait Damage: Sized {
    spec fn spec_damaged(self, damage: u32) -> Self;

    fn take_damage(&mut self, damage: u32)
        ensures
            *final(self) == old(self).spec_damaged(damage),
    ;
}

/// Hit points plus armor class for a standalone actor.
#[derive(Debug, Clone, Copy, PartialEq, Eq, Structural)]
pub struct Health {
    pub hp: u32,
    pub ac: u32,
}

impl Damage for Health {
    /// Damage up to the armor class is absorbed; the rest costs hit
    /// points, clamped at zero.
    open spec fn spec_damaged(self, damage: u32) -> Health {
        if damage <= self.ac {
            self
        } else if damage - self.ac >= self.hp {
            Health { hp: 0, ac: self.ac }
        } else {
            Health { hp: (self.hp - (damage - self.ac)) as u32, ac: self.ac }
        }
    }

    fn take_damage(&mut self, damage: u32) {
        if damage <= self.ac {
            return ;
        }
        let excess = damage - self.ac;
        let hp_taken = if excess < self.hp {
            excess
        } else {
            self.hp
        };
        self.hp = self.hp - hp_taken;
    }
}

/// The movement policy of a standalone enemy.
#[derive(Debug, Clone, Copy, PartialEq, Eq, Structural)]
pub enum Movement {
    Simple,
}

/// A standalone enemy actor carrying its own position, health, look and
/// stun state.
#[derive(Debug, Clone, Copy, PartialEq, Eq, Structural)]
pub struct Enemy {
    pub pos: Pos,
    pub health: Health,
    pub color: Rgb,
    pub ch: char,
    pub movement: Movement,
    pub stun_duration: u16,
    pub stunned_turns_left: u16,
}

impl Enemy {
    /// Strike a target for one point of damage.
    pub fn attack<T: Damage>(&mut self, target: &mut T)
        ensures
            *final(self) == *old(self),
            *final(target) == old(target).spec_damaged(1),
    {
        target.take_damage(1);
    }

    /// Whether the target stands within Chebyshev distance one.
    pub fn can_attack(&mut self, target: Pos) -> (r: bool)
        requires
            i32::MIN < self.pos.x - target.x <= i32::MAX,
            i32::MIN < self.pos.y - target.y <= i32::MAX,
        ensures
            *final(self) == *old(self),
            r == (iabs(old(self).pos.x - target.x) <= 1 && iabs(old(self).pos.y - target.y)
                <= 1),
    {
        let dx = self.pos.x - target.x;
        let dy = self.pos.y - target.y;
        let adx = if dx >= 0 {
            dx
        } else {
            -dx
        };
        let ady = if dy >= 0 {
            dy
        } else {
            -dy
        };
        adx <= 1 && ady <= 1
    }

    /// Begin a fresh stun for this enemy's configured duration.
    pub fn stun(&mut self)
        ensures
            final(self).stunned_turns_left == old(self).stun_duration,
            final(self).pos == old(self).pos,
            final(self).health == old(self).health,
            final(self).color == old(self).color,
            final(self).ch == old(self).ch,
            final(self).movement == old(self).movement,
            final(self).stun_duration == old(self).stun_duration,
    {
        self.stunned_turns_left = self.stun_duration;
    }
}

/// The stock enemy: a yellow '#' with the Simple policy, no armor, and a
/// five-turn stun when stunned.
pub fn basic_enemy(pos: Pos, hp: u32) -> (e: Enemy)
    ensures
        e == (Enemy {
            pos,
            health: Health { hp, ac: 0 },
            color: Rgb { r: 255, g: 255, b: 0 },
            ch: '#',
            movement: Movement::Simple,
            stun_duration: 5,
            stunned_turns_left: 0,
        }),
{
    Enemy {
        pos,
        health: Health { hp, ac: 0 },
        color: crate::color::yellow(),
        ch: '#',
        movement: Movement::Simple,
        stun_duration: 5,
        stunned_turns_left: 0,
    }
}

/// The standalone player actor: a position and health.
#[derive(Debug, Clone, Copy, PartialEq, Eq, Structural)]
pub struct Player {
    pub pos: Pos,
    pub health: Health,
}

impl Player {
    /// A fresh player at a position with full hit points and no armor.
    pub fn new(pos: Pos, max_hp: u32) -> (p: Self)
        ensures
            p == (Player { pos, health: Health { hp: max_hp, ac: 0 } }),
    {
        Player { pos, health: Health { hp: max_hp, ac: 0 } }
    }

    /// Whether the target stands within Chebyshev distance one.
    pub fn can_reach(&mut self, target: Pos) -> (r: bool)
        requires
            i32::MIN < self.pos.x - target.x <= i32::MAX,
            i32::MIN < self.pos.y - target.y <= i32::MAX,
        ensures
            *final(self) == *old(self),
            r == (iabs(old(self).pos.x - target.x) <= 1 && iabs(old(self).pos.y - target.y)
                <= 1),
    {
        let dx = self.pos.x - target.x;
        let dy = self.pos.y - target.y;
        let adx = if dx >= 0 {
            dx
        } else {
            -dx
        };
        let ady = if dy >= 0 {
            dy
        } else {
            -dy
        };
        adx <= 1 && ady <= 1
    }
}

} // verus!
