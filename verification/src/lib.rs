//! A tabletop-style character-progression and dice-resolution engine.
//!
//! The crate owns a world of players, each with ability scores, an
//! inventory, and timed status effects, and resolves dice rolls through a
//! pipeline of hooks contributed by those effects and items.

pub mod dice;
pub mod model;
pub mod pipeline;
pub mod registry;
pub mod snapshot;
pub mod store;
mod rng;
pub mod text;
