//! An older, flat map-building vocabulary kept alongside the chunked
//! generator: tiles addressed by absolute position, a wider biome palette,
//! and a biome adjacency table. Nothing in the streaming core consults it.

use vstd::prelude::*;

verus! {

/// A flat map: a bag of positioned tiles with overall dimensions.
#[derive(Clone, Debug, Default, PartialEq, Eq)]
pub struct TileMap {
    pub tiles: Vec<Tile>,
    pub width: i32,
    pub height: i32,
}

/// A positioned tile of the flat map.
#[derive(Clone, Copy, Debug, Default, PartialEq, Eq, Structural)]
pub struct Tile {
    pub x: i32,
    pub y: i32,
    pub tile_type: TileType,
}

/// Terrain palette of the flat map.
#[derive(Clone, Copy, Debug, Default, PartialEq, Eq, Hash, Structural)]
pub enum TileType {
    #[default]
    Grass,
    Water,
    Sand,
    Stone,
    Tree,
    Bush,
    Rock,
    Dirt,
    Mountain,
    Snow,
    Ice,
    Lava,
    Void,
}

/// A chunk of the flat map: positioned tiles, dimensions and a biome tag.
#[derive(Clone, Debug, Default, PartialEq, Eq)]
pub struct Chunk {
    pub tiles: Vec<Tile>,
    pub width: i32,
    pub height: i32,
    pub biome: Biome,
}

/// Biome palette of the flat map.
#[derive(Clone, Copy, Debug, Default, PartialEq, Eq, Hash, Structural)]
pub enum Biome {
    #[default]
    Grassland,
    Desert,
    Tundra,
    Taiga,
    Rainforest,
    Savanna,
    Alpine,
    Wetland,
    Swamp,
    Ocean,
    Beach,
    Volcanic,
    Void,
}

/// The adjacency table of the flat map's first six biomes: each may border
/// any of the other five, in the order the table lists them.
pub fn biome_adjacency() -> (adjacency: Vec<(Biome, Vec<Biome>)>)
    ensures
        adjacency@.len() == 6,
        adjacency@[0].0 == Biome::Grassland && adjacency@[0].1@ == seq![
            Biome::Desert,
            Biome::Tundra,
            Biome::Taiga,
            Biome::Rainforest,
            Biome::Savanna,
        ],
        adjacency@[1].0 == Biome::Desert && adjacency@[1].1@ == seq![
            Biome::Grassland,
            Biome::Tundra,
            Biome::Taiga,
            Biome::Rainforest,
            Biome::Savanna,
        ],
        adjacency@[2].0 == Biome::Tundra && adjacency@[2].1@ == seq![
            Biome::Grassland,
            Biome::Desert,
            Biome::Taiga,
            Biome::Rainforest,
            Biome::Savanna,
        ],
        adjacency@[3].0 == Biome::Taiga && adjacency@[3].1@ == seq![
            Biome::Grassland,
            Biome::Desert,
            Biome::Tundra,
            Biome::Rainforest,
            Biome::Savanna,
        ],
        adjacency@[4].0 == Biome::Rainforest && adjacency@[4].1@ == seq![
            Biome::Grassland,
            Biome::Desert,
            Biome::Tundra,
            Biome::Taiga,
            Biome::Savanna,
        ],
        adjacency@[5].0 == Biome::Savanna && adjacency@[5].1@ == seq![
            Biome::Grassland,
            Biome::Desert,
            Biome::Tundra,
            Biome::Taiga,
            Biome::Rainforest,
        ],
{
    let mut adjacency: Vec<(Biome, Vec<Biome>)> = Vec::new();
    adjacency.push((Biome::Grassland, neighbours_without(0)));
    adjacency.push((Biome::Desert, neighbours_without(1)));
    adjacency.push((Biome::Tundra, neighbours_without(2)));
    adjacency.push((Biome::Taiga, neighbours_without(3)));
    adjacency.push((Biome::Rainforest, neighbours_without(4)));
    adjacency.push((Biome::Savanna, neighbours_without(5)));
    adjacency
}

/// The first six biomes in table order.
spec fn sixth_biome(i: int) -> Biome {
    if i == 0 {
        Biome::Grassland
    } else if i == 1 {
        Biome::Desert
    } else if i == 2 {
        Biome::Tundra
    } else if i == 3 {
        Biome::Taiga
    } else if i == 4 {
        Biome::Rainforest
    } else {
        Biome::Savanna
    }
}

/// The other five of the first six biomes, in table order.
fn neighbours_without(skip: usize) -> (v: Vec<Biome>)
    requires
        skip < 6,
    ensures
        v@.len() == 5,
        forall|i: int| 0 <= i < 5 ==> v@[i] == sixth_biome(if i < skip { i } else { i + 1 }),
{
    let mut v: Vec<Biome> = Vec::new();
    let all = [
        Biome::Grassland,
        Biome::Desert,
        Biome::Tundra,
        Biome::Taiga,
        Biome::Rainforest,
        Biome::Savanna,
    ];
    let mut i: usize = 0;
    while i < 6
        invariant
            i <= 6,
            skip < 6,
            all@.len() == 6,
            forall|k: int| 0 <= k < 6 ==> all@[k] == sixth_biome(k),
            v@.len() == (if i <= skip {
                i as int
            } else {
                i - 1
            }),
            forall|k: int|
                0 <= k < v@.len() ==> v@[k] == sixth_biome(
                    if k < skip {
                        k
                    } else {
                        k + 1
                    },
                ),
        decreases 6 - i,
    {
        if i != skip {
            v.push(all[i]);
        }
        i = i + 1;
    }
    v
}

} // verus!
