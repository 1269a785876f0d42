//! Simulation core of a 2D arena game: an entity-component store with
//! deferred destruction, typed event queues, and a fixed-shape quad-tree that
//! arbitrates placement, movement and collision of axis-aligned boxes.
use vstd::prelude::*;

pub mod bounds;
pub mod entity;
pub mod column;
pub mod world;
pub mod events;
pub mod collider;
pub mod ecs;
pub mod quad_tree;
pub mod components;
pub mod arena;
pub mod laws;
