//! Chunk generation: per-tile weighted random draws, parameterized by biome.
//!
//! Every random draw enters through `crate::rng` as a bare integer below a
//! bound; the mapping from a drawn value to a tile or biome is a verified
//! total function with an exact contract, so the generator's behaviour is
//! pinned down for every value the generator may hand back.

use vstd::prelude::*;

use crate::rng::{random_below, thread_rng_handle};
use crate::tiles::{BiomeType, Tile, TileType};

verus! {

/// Side length, in tiles, of a generated (square) chunk.
pub const CHUNK_SIDE: usize = 40;

/// Side length, in chunks, of the generated (square) world grid.
pub const CHUNKS: usize = 10;

/// Fixed-size rectangular partition of the world: a tile grid tagged with
/// the biome that generated it (or the `Derendered` sentinel when the grid
/// was reconstructed from placement records).
#[derive(Clone, Debug, PartialEq, Eq)]
pub struct Chunk {
    pub tiles: Vec<Vec<Tile>>,
    pub biome: BiomeType,
}

impl Chunk {
    /// A square grid of the given side whose every tile is one the biome
    /// can yield.
    pub open spec fn is_generated(self, biome: BiomeType, side: int) -> bool {
        &&& self.biome == biome
        &&& self.tiles@.len() == side
        &&& forall|i: int| 0 <= i < side ==> (#[trigger] self.tiles@[i])@.len() == side
        &&& forall|i: int, j: int|
            0 <= i < side && 0 <= j < side ==> biome_yields(
                biome,
                (#[trigger] self.tiles@[i]@[j]).tile_type,
            )
    }
}

/// The tile kind that a draw of `roll` produces under each biome's
/// distribution: a seven-in-ten weighting for the rolled biomes, a uniform
/// two-in-three pick for Plains, Water always for Ocean, and Grass for the
/// `Derendered` sentinel (which generation never draws).
pub open spec fn tile_for(biome: BiomeType, roll: u32) -> TileType {
    match biome {
        BiomeType::Desert => if roll < 7 {
            TileType::Sand
        } else {
            TileType::Stone
        },
        BiomeType::Forest => if roll < 7 {
            TileType::Grass
        } else {
            TileType::Stone
        },
        BiomeType::Mountain => if roll < 7 {
            TileType::Stone
        } else {
            TileType::Snow
        },
        BiomeType::Ocean => TileType::Water,
        BiomeType::Plains => if roll < 2 {
            TileType::Grass
        } else {
            TileType::Stone
        },
        BiomeType::Tundra => if roll < 7 {
            TileType::Snow
        } else {
            TileType::Stone
        },
        BiomeType::Derendered => TileType::Grass,
    }
}

/// Whether a tile kind lies in the support of the biome's distribution:
/// the kinds that some draw can produce.
pub open spec fn biome_yields(biome: BiomeType, t: TileType) -> bool {
    match biome {
        BiomeType::Desert => t == TileType::Sand || t == TileType::Stone,
        BiomeType::Forest => t == TileType::Grass || t == TileType::Stone,
        BiomeType::Mountain => t == TileType::Stone || t == TileType::Snow,
        BiomeType::Ocean => t == TileType::Water,
        BiomeType::Plains => t == TileType::Grass || t == TileType::Stone,
        BiomeType::Tundra => t == TileType::Snow || t == TileType::Stone,
        BiomeType::Derendered => t == TileType::Grass,
    }
}

/// The tile that a drawn value produces, exactly as `tile_for` states.
pub fn pick_tile(biome: BiomeType, roll: u32) -> (t: Tile)
    ensures
        t.tile_type == tile_for(biome, roll),
        biome_yields(biome, t.tile_type),
{
    let kind = match biome {
        BiomeType::Desert => if roll < 7 {
            TileType::Sand
        } else {
            TileType::Stone
        },
        BiomeType::Forest => if roll < 7 {
            TileType::Grass
        } else {
            TileType::Stone
        },
        BiomeType::Mountain => if roll < 7 {
            TileType::Stone
        } else {
            TileType::Snow
        },
        BiomeType::Ocean => TileType::Water,
        BiomeType::Plains => if roll < 2 {
            TileType::Grass
        } else {
            TileType::Stone
        },
        BiomeType::Tundra => if roll < 7 {
            TileType::Snow
        } else {
            TileType::Stone
        },
        BiomeType::Derendered => TileType::Grass,
    };
    Tile { tile_type: kind }
}

/// The biome that a drawn value below six selects for a grid cell.
pub open spec fn biome_for(roll: u32) -> BiomeType {
    if roll == 0 {
        BiomeType::Desert
    } else if roll == 1 {
        BiomeType::Forest
    } else if roll == 2 {
        BiomeType::Mountain
    } else if roll == 3 {
        BiomeType::Ocean
    } else if roll == 4 {
        BiomeType::Plains
    } else {
        BiomeType::Tundra
    }
}

/// The biome that a drawn value selects, exactly as `biome_for` states;
/// never the `Derendered` sentinel.
pub fn pick_biome(roll: u32) -> (b: BiomeType)
    ensures
        b == biome_for(roll),
        b.is_generatable(),
{
    match roll {
        0 => BiomeType::Desert,
        1 => BiomeType::Forest,
        2 => BiomeType::Mountain,
        3 => BiomeType::Ocean,
        4 => BiomeType::Plains,
        _ => BiomeType::Tundra,
    }
}

/// Generates one square chunk of the given side: every tile is drawn
/// independently from the biome's distribution, so every tile of the result
/// lies in the biome's support — and an Ocean chunk is all Water whatever
/// the generator returns.
pub fn generate_chunk_sized(biome: BiomeType, side: usize) -> (c: Chunk)
    ensures
        c.is_generated(biome, side as int),
        biome == BiomeType::Ocean ==> forall|i: int, j: int|
            0 <= i < side && 0 <= j < side ==> (#[trigger] c.tiles@[i]@[j]).tile_type
                == TileType::Water,
{
    let mut rng = thread_rng_handle();
    let mut tiles: Vec<Vec<Tile>> = Vec::new();
    let mut i: usize = 0;
    while i < side
        invariant
            i <= side,
            tiles@.len() == i,
            forall|r: int| 0 <= r < i ==> (#[trigger] tiles@[r])@.len() == side,
            forall|r: int, k: int|
                0 <= r < i && 0 <= k < side ==> biome_yields(
                    biome,
                    (#[trigger] tiles@[r]@[k]).tile_type,
                ),
        decreases side - i,
    {
        let mut row: Vec<Tile> = Vec::new();
        let mut j: usize = 0;
        while j < side
            invariant
                j <= side,
                row@.len() == j,
                forall|k: int| 0 <= k < j ==> biome_yields(biome, row@[k].tile_type),
            decreases side - j,
        {
            let roll = match biome {
                BiomeType::Ocean | BiomeType::Derendered => 0u32,
                BiomeType::Plains => random_below(&mut rng, 3),
                _ => random_below(&mut rng, 10),
            };
            let tile = pick_tile(biome, roll);
            row.push(tile);
            j = j + 1;
        }
        tiles.push(row);
        i = i + 1;
    }
    Chunk { tiles, biome }
}

/// Generates one square chunk of the standard side.
pub fn generate_chunk(biome: BiomeType) -> (c: Chunk)
    ensures
        c.is_generated(biome, CHUNK_SIDE as int),
        biome == BiomeType::Ocean ==> forall|i: int, j: int|
            0 <= i < CHUNK_SIDE && 0 <= j < CHUNK_SIDE ==> (#[trigger] c.tiles@[i]@[j]).tile_type
                == TileType::Water,
{
    generate_chunk_sized(biome, CHUNK_SIDE)
}

/// Generates the full world: a square grid of chunks, each cell's biome
/// drawn uniformly from the six real categories, each chunk generated by
/// `generate_chunk`. No adjacency constraint is consulted during the draw;
/// the rule tables of `crate::rules` exist but generation places biomes
/// freely, as documented there.
pub fn generate_map() -> (grid: Vec<Vec<Chunk>>)
    ensures
        grid@.len() == CHUNKS,
        forall|i: int| 0 <= i < CHUNKS ==> (#[trigger] grid@[i])@.len() == CHUNKS,
        forall|i: int, j: int|
            0 <= i < CHUNKS && 0 <= j < CHUNKS ==> {
                let c = #[trigger] grid@[i]@[j];
                c.is_generated(c.biome, CHUNK_SIDE as int) && c.biome.is_generatable()
            },
{
    let mut rng = thread_rng_handle();
    let mut grid: Vec<Vec<Chunk>> = Vec::new();
    let mut i: usize = 0;
    while i < CHUNKS
        invariant
            i <= CHUNKS,
            grid@.len() == i,
            forall|r: int| 0 <= r < i ==> (#[trigger] grid@[r])@.len() == CHUNKS,
            forall|r: int, k: int|
                0 <= r < i && 0 <= k < CHUNKS ==> {
                    let c = #[trigger] grid@[r]@[k];
                    c.is_generated(c.biome, CHUNK_SIDE as int) && c.biome.is_generatable()
                },
        decreases CHUNKS - i,
    {
        let mut row: Vec<Chunk> = Vec::new();
        let mut j: usize = 0;
        while j < CHUNKS
            invariant
                j <= CHUNKS,
                row@.len() == j,
                forall|k: int| 0 <= k < j ==> {
                    let c = #[trigger] row@[k];
                    c.is_generated(c.biome, CHUNK_SIDE as int) && c.biome.is_generatable()
                },
            decreases CHUNKS - j,
        {
            let roll = random_below(&mut rng, 6);
            let biome = pick_biome(roll);
            let chunk = generate_chunk(biome);
            row.push(chunk);
            j = j + 1;
        }
        grid.push(row);
        i = i + 1;
    }
    grid
}

} // verus!
