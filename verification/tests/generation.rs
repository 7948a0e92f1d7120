use chunk_stream::chunk::{
    generate_chunk, generate_chunk_sized, generate_map, pick_biome, pick_tile, CHUNKS, CHUNK_SIDE,
};
use chunk_stream::rules::{get_adjacency_rules, get_biome_rules};
use chunk_stream::mapbuilder::{biome_adjacency, Biome};
use chunk_stream::tiles::{BiomeType, TileType};

#[test]
fn ocean_chunks_are_pure_water() {
    for _ in 0..3 {
        let chunk = generate_chunk(BiomeType::Ocean);
        assert_eq!(chunk.tiles.len(), CHUNK_SIDE);
        for row in &chunk.tiles {
            assert_eq!(row.len(), CHUNK_SIDE);
            for tile in row {
                assert_eq!(tile.tile_type, TileType::Water);
            }
        }
    }
}

#[test]
fn desert_sand_fraction_is_near_seven_tenths() {
    let mut sand: u64 = 0;
    let mut total: u64 = 0;
    for _ in 0..10 {
        let chunk = generate_chunk(BiomeType::Desert);
        for row in &chunk.tiles {
            for tile in row {
                total += 1;
                match tile.tile_type {
                    TileType::Sand => sand += 1,
                    TileType::Stone => {}
                    other => panic!("desert produced {:?}", other),
                }
            }
        }
    }
    assert_eq!(total, 16_000);
    // 70% of 16,000 is 11,200; allow five points of tolerance either way.
    assert!(sand * 100 >= total * 65, "sand fraction too low: {}/{}", sand, total);
    assert!(sand * 100 <= total * 75, "sand fraction too high: {}/{}", sand, total);
}

#[test]
fn pick_tile_matches_the_distribution_table() {
    for roll in 0..10 {
        let expected = if roll < 7 { TileType::Sand } else { TileType::Stone };
        assert_eq!(pick_tile(BiomeType::Desert, roll).tile_type, expected);

        let expected = if roll < 7 { TileType::Grass } else { TileType::Stone };
        assert_eq!(pick_tile(BiomeType::Forest, roll).tile_type, expected);

        let expected = if roll < 7 { TileType::Stone } else { TileType::Snow };
        assert_eq!(pick_tile(BiomeType::Mountain, roll).tile_type, expected);

        let expected = if roll < 7 { TileType::Snow } else { TileType::Stone };
        assert_eq!(pick_tile(BiomeType::Tundra, roll).tile_type, expected);

        assert_eq!(pick_tile(BiomeType::Ocean, roll).tile_type, TileType::Water);
        assert_eq!(pick_tile(BiomeType::Derendered, roll).tile_type, TileType::Grass);
    }
    assert_eq!(pick_tile(BiomeType::Plains, 0).tile_type, TileType::Grass);
    assert_eq!(pick_tile(BiomeType::Plains, 1).tile_type, TileType::Grass);
    assert_eq!(pick_tile(BiomeType::Plains, 2).tile_type, TileType::Stone);
}

#[test]
fn pick_biome_covers_the_six_real_biomes() {
    assert_eq!(pick_biome(0), BiomeType::Desert);
    assert_eq!(pick_biome(1), BiomeType::Forest);
    assert_eq!(pick_biome(2), BiomeType::Mountain);
    assert_eq!(pick_biome(3), BiomeType::Ocean);
    assert_eq!(pick_biome(4), BiomeType::Plains);
    assert_eq!(pick_biome(5), BiomeType::Tundra);
}

#[test]
fn generated_map_is_ten_by_ten_of_square_chunks() {
    let map = generate_map();
    assert_eq!(map.len(), CHUNKS);
    for row in &map {
        assert_eq!(row.len(), CHUNKS);
        for chunk in row {
            assert_ne!(chunk.biome, BiomeType::Derendered);
            assert_eq!(chunk.tiles.len(), CHUNK_SIDE);
            for tile_row in &chunk.tiles {
                assert_eq!(tile_row.len(), CHUNK_SIDE);
            }
        }
    }
}

#[test]
fn generated_tiles_stay_in_their_biome_support() {
    let map = generate_map();
    for row in &map {
        for chunk in row {
            for tile_row in &chunk.tiles {
                for tile in tile_row {
                    let ok = match chunk.biome {
                        BiomeType::Desert => {
                            tile.tile_type == TileType::Sand || tile.tile_type == TileType::Stone
                        }
                        BiomeType::Forest | BiomeType::Plains => {
                            tile.tile_type == TileType::Grass || tile.tile_type == TileType::Stone
                        }
                        BiomeType::Mountain => {
                            tile.tile_type == TileType::Stone || tile.tile_type == TileType::Snow
                        }
                        BiomeType::Ocean => tile.tile_type == TileType::Water,
                        BiomeType::Tundra => {
                            tile.tile_type == TileType::Snow || tile.tile_type == TileType::Stone
                        }
                        BiomeType::Derendered => false,
                    };
                    assert!(ok, "{:?} yielded {:?}", chunk.biome, tile.tile_type);
                }
            }
        }
    }
}

#[test]
fn sized_generation_respects_the_side() {
    let chunk = generate_chunk_sized(BiomeType::Tundra, 3);
    assert_eq!(chunk.tiles.len(), 3);
    for row in &chunk.tiles {
        assert_eq!(row.len(), 3);
    }
    let empty = generate_chunk_sized(BiomeType::Plains, 0);
    assert_eq!(empty.tiles.len(), 0);
}

#[test]
fn tile_adjacency_table_contents() {
    let rules = get_adjacency_rules();
    assert_eq!(rules.len(), 5);
    assert_eq!(rules[0].0, TileType::Grass);
    assert_eq!(rules[0].1, vec![TileType::Grass, TileType::Sand]);
    assert_eq!(rules[4].0, TileType::Water);
    assert_eq!(rules[4].1, vec![TileType::Water, TileType::Sand]);
}

#[test]
fn biome_adjacency_table_contents() {
    let rules = get_biome_rules();
    assert_eq!(rules.len(), 6);
    assert_eq!(rules[3].0, BiomeType::Ocean);
    assert_eq!(rules[3].1, vec![BiomeType::Ocean]);
    assert_eq!(rules[4].0, BiomeType::Plains);
    assert_eq!(
        rules[4].1,
        vec![BiomeType::Plains, BiomeType::Desert, BiomeType::Forest]
    );
}

#[test]
fn legacy_biome_adjacency_lists_the_other_five() {
    let table = biome_adjacency();
    assert_eq!(table.len(), 6);
    assert_eq!(table[0].0, Biome::Grassland);
    assert_eq!(
        table[0].1,
        vec![Biome::Desert, Biome::Tundra, Biome::Taiga, Biome::Rainforest, Biome::Savanna]
    );
    assert_eq!(table[5].0, Biome::Savanna);
    assert_eq!(
        table[5].1,
        vec![Biome::Grassland, Biome::Desert, Biome::Tundra, Biome::Taiga, Biome::Rainforest]
    );
}
