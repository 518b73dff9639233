//! A turn-based dungeon-crawler core: procedural dungeon generation, an
//! entity/component store, a turn scheduler, tile-based field-of-view, and
//! map-aware enemy pathing. Rendering and keyboard polling are left to the
//! embedding program, which feeds the core abstract commands and consumes
//! the draw lists it produces.

pub mod color;
pub mod components;
pub mod dungeon;
pub mod entity;
pub mod fov;
pub mod game;
pub mod input;
pub mod ints;
pub mod map;
pub mod object;
pub mod pos;
pub mod rng;
