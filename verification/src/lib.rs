//! A procedural world-generation and chunk-streaming core.
//!
//! The world is a grid of fixed-size chunks, each a grid of tiles drawn from a
//! biome-specific distribution. A store keeps every chunk in exactly one of two
//! partitions, resident (drawn) or dormant (retained), and a streaming pass
//! moves chunks between them as a viewer moves, emitting and sweeping placement
//! records for the renderer.

pub mod chunk;
pub mod coords;
pub mod mapbuilder;
pub mod records;
pub mod rng;
pub mod rules;
pub mod score;
pub mod states;
pub mod store;
pub mod streaming;
pub mod tiles;

pub use coords::Coord;
