//! Spawn dispatch on replicated entities and priority-ordered event modifiers,
//! as verified decisions over plain values.
//!
//! An entity store, a replication layer and a scheduler surround this library
//! and are no part of it. Once per tick they hand it what they see: the
//! pending inputs and the attached modifiers of a pipeline, the sightings of
//! the entities that hold a data component. The library calls the registered
//! callbacks in the order that its contracts state and hands back what is to
//! be emitted.

pub mod config;
pub mod context;
pub mod pipeline;
pub mod pipeline_laws;
pub mod prelude;
pub mod priority;
pub mod spawn;
pub mod store;
