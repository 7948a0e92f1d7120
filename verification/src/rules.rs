//! Adjacency rule tables for tiles and biomes.
//!
//! The tables state which tile kinds and which biomes may sit next to each
//! other. They are retained as data with exact contracts, but the map
//! generator deliberately does not consult them: biomes are placed with no
//! adjacency constraint (see `crate::chunk::generate_map`). Wiring the
//! constraint in would be a design change, not a fix.

use vstd::prelude::*;

use crate::tiles::{BiomeType, TileType};

verus! {

/// Ruleset for tile adjacency: each tile kind with the kinds allowed
/// beside it. Water may only border sand.
pub fn get_adjacency_rules() -> (rules: Vec<(TileType, Vec<TileType>)>)
    ensures
        rules@.len() == 5,
        rules@[0].0 == TileType::Grass && rules@[0].1@ == seq![TileType::Grass, TileType::Sand],
        rules@[1].0 == TileType::Sand && rules@[1].1@ == seq![TileType::Sand, TileType::Grass],
        rules@[2].0 == TileType::Snow && rules@[2].1@ == seq![TileType::Snow, TileType::Stone],
        rules@[3].0 == TileType::Stone && rules@[3].1@ == seq![TileType::Stone, TileType::Snow],
        rules@[4].0 == TileType::Water && rules@[4].1@ == seq![TileType::Water, TileType::Sand],
{
    let mut rules: Vec<(TileType, Vec<TileType>)> = Vec::new();
    rules.push((TileType::Grass, make_pair(TileType::Grass, TileType::Sand)));
    rules.push((TileType::Sand, make_pair(TileType::Sand, TileType::Grass)));
    rules.push((TileType::Snow, make_pair(TileType::Snow, TileType::Stone)));
    rules.push((TileType::Stone, make_pair(TileType::Stone, TileType::Snow)));
    rules.push((TileType::Water, make_pair(TileType::Water, TileType::Sand)));
    rules
}

/// A two-entry neighbour list.
fn make_pair(a: TileType, b: TileType) -> (v: Vec<TileType>)
    ensures
        v@ == seq![a, b],
{
    let mut v: Vec<TileType> = Vec::new();
    v.push(a);
    v.push(b);
    v
}

/// Rules for biome adjacency: each real biome with the biomes allowed
/// beside it. Ocean may only border itself.
pub fn get_biome_rules() -> (rules: Vec<(BiomeType, Vec<BiomeType>)>)
    ensures
        rules@.len() == 6,
        rules@[0].0 == BiomeType::Desert && rules@[0].1@ == seq![
            BiomeType::Desert,
            BiomeType::Plains,
        ],
        rules@[1].0 == BiomeType::Forest && rules@[1].1@ == seq![
            BiomeType::Forest,
            BiomeType::Plains,
        ],
        rules@[2].0 == BiomeType::Mountain && rules@[2].1@ == seq![
            BiomeType::Mountain,
            BiomeType::Tundra,
        ],
        rules@[3].0 == BiomeType::Ocean && rules@[3].1@ == seq![BiomeType::Ocean],
        rules@[4].0 == BiomeType::Plains && rules@[4].1@ == seq![
            BiomeType::Plains,
            BiomeType::Desert,
            BiomeType::Forest,
        ],
        rules@[5].0 == BiomeType::Tundra && rules@[5].1@ == seq![
            BiomeType::Tundra,
            BiomeType::Mountain,
        ],
{
    let mut rules: Vec<(BiomeType, Vec<BiomeType>)> = Vec::new();

    let mut desert: Vec<BiomeType> = Vec::new();
    desert.push(BiomeType::Desert);
    desert.push(BiomeType::Plains);
    rules.push((BiomeType::Desert, desert));

    let mut forest: Vec<BiomeType> = Vec::new();
    forest.push(BiomeType::Forest);
    forest.push(BiomeType::Plains);
    rules.push((BiomeType::Forest, forest));

    let mut mountain: Vec<BiomeType> = Vec::new();
    mountain.push(BiomeType::Mountain);
    mountain.push(BiomeType::Tundra);
    rules.push((BiomeType::Mountain, mountain));

    let mut ocean: Vec<BiomeType> = Vec::new();
    ocean.push(BiomeType::Ocean);
    rules.push((BiomeType::Ocean, ocean));

    let mut plains: Vec<BiomeType> = Vec::new();
    plains.push(BiomeType::Plains);
    plains.push(BiomeType::Desert);
    plains.push(BiomeType::Forest);
    rules.push((BiomeType::Plains, plains));

    let mut tundra: Vec<BiomeType> = Vec::new();
    tundra.push(BiomeType::Tundra);
    tundra.push(BiomeType::Mountain);
    rules.push((BiomeType::Tundra, tundra));

    rules
}

} // verus!
