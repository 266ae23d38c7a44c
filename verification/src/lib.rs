//! An in-memory entity-component store: sparse-set containers, joins across
//! containers by entity id, and two-phase update passes.

pub mod component;
pub mod entity;
pub mod join;
pub mod join_mut;
pub mod model;
pub mod registry;
pub mod system;
pub mod world;
