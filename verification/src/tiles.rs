//! Tile and biome enumerations: the closed vocabularies of the world grid.

use vstd::prelude::*;

verus! {

/// Terrain kind of a single tile.
#[derive(Clone, Copy, Debug, PartialEq, Eq, Hash, Structural)]
pub enum TileType {
    Grass,
    Sand,
    Snow,
    Stone,
    Water,
}

/// Smallest addressable world cell: one terrain kind, immutable once generated.
#[derive(Clone, Copy, Debug, PartialEq, Eq, Hash, Structural)]
pub struct Tile {
    pub tile_type: TileType,
}

/// Terrain category that parameterizes a chunk's per-tile random generation.
/// `Derendered` is a sentinel, used only as the placeholder biome of chunks
/// reconstructed from placement records; generation never draws it.
#[derive(Clone, Copy, Debug, PartialEq, Eq, Hash, Structural)]
pub enum BiomeType {
    Desert,
    Forest,
    Mountain,
    Ocean,
    Plains,
    Tundra,
    Derendered,
}

impl BiomeType {
    /// The six categories that the map generator draws from; everything
    /// but the `Derendered` sentinel.
    pub open spec fn is_generatable(self) -> bool {
        self !is Derendered
    }
}

/// An absolute integer pixel position.
#[derive(Clone, Copy, Debug, PartialEq, Eq, Hash, Structural)]
pub struct Position(pub i32, pub i32);

} // verus!
