use chunk_stream::chunk::{generate_chunk_sized, Chunk};
use chunk_stream::coords::Coord;
use chunk_stream::records::{derender_chunks, render_map, Placement, ID};
use chunk_stream::store::ChunkStore;
use chunk_stream::streaming::derender_unloaded;
use chunk_stream::tiles::{BiomeType, Position, Tile, TileType};

fn t(kind: TileType) -> Tile {
    Tile { tile_type: kind }
}

fn sample_chunk() -> Chunk {
    Chunk {
        tiles: vec![
            vec![t(TileType::Sand), t(TileType::Grass), t(TileType::Stone)],
            vec![t(TileType::Water), t(TileType::Snow), t(TileType::Sand)],
        ],
        biome: BiomeType::Desert,
    }
}

fn kind_counts(rows: &Vec<Vec<Tile>>) -> [usize; 5] {
    let mut counts = [0; 5];
    for row in rows {
        for tile in row {
            let slot = match tile.tile_type {
                TileType::Grass => 0,
                TileType::Sand => 1,
                TileType::Snow => 2,
                TileType::Stone => 3,
                TileType::Water => 4,
            };
            counts[slot] += 1;
        }
    }
    counts
}

#[test]
fn flatten_emits_one_record_per_tile_row_major() {
    let map = vec![vec![sample_chunk()]];
    let records = render_map(&map);
    assert_eq!(records.len(), 6);
    let expected = [
        (0, 0, TileType::Sand),
        (60, 0, TileType::Grass),
        (120, 0, TileType::Stone),
        (0, 60, TileType::Water),
        (60, 60, TileType::Snow),
        (120, 60, TileType::Sand),
    ];
    for (i, (record, (x, y, kind))) in records.iter().zip(expected.iter()).enumerate() {
        assert_eq!(record.pos, Position(*x, *y));
        assert_eq!(record.coord, Coord { x: *x, y: *y });
        assert_eq!(record.tile_type, *kind);
        assert_eq!(record.id, ID(i as u32));
    }
}

#[test]
fn flatten_offsets_chunks_by_their_grid_position() {
    let map = vec![
        vec![sample_chunk(), sample_chunk()],
        vec![sample_chunk(), sample_chunk()],
    ];
    let records = render_map(&map);
    assert_eq!(records.len(), 24);
    // first tile of the second chunk of the first row
    assert_eq!(records[6].pos, Position(420, 0));
    // first tile of the first chunk of the second row
    assert_eq!(records[12].pos, Position(0, 420));
    // first tile of the second chunk of the second row
    assert_eq!(records[18].pos, Position(420, 420));
    // every record of one emission carries its index as its id
    for (i, record) in records.iter().enumerate() {
        assert_eq!(record.id, ID(i as u32));
    }
}

#[test]
fn three_records_rebuild_one_dormant_chunk() {
    let records = vec![
        Placement {
            pos: Position(0, 0),
            coord: Coord { x: 0, y: 0 },
            tile_type: TileType::Sand,
            id: ID(0),
        },
        Placement {
            pos: Position(60, 0),
            coord: Coord { x: 60, y: 0 },
            tile_type: TileType::Water,
            id: ID(0),
        },
        Placement {
            pos: Position(500, 0),
            coord: Coord { x: 500, y: 0 },
            tile_type: TileType::Snow,
            id: ID(0),
        },
    ];
    let store = derender_chunks(records, 10);
    assert_eq!(store.resident_len(), 0);
    assert_eq!(store.dormant_len(), 2);

    let near = store.dormant_get(Coord { x: 0, y: 0 }).expect("group at the origin");
    assert_eq!(near.biome, BiomeType::Derendered);
    assert_eq!(near.tiles, vec![vec![t(TileType::Sand), t(TileType::Water)]]);

    let far = store.dormant_get(Coord { x: 1, y: 0 }).expect("group one partition over");
    assert_eq!(far.tiles, vec![vec![t(TileType::Snow)]]);
}

#[test]
fn compaction_preserves_the_tile_kind_multiset() {
    let map = vec![vec![sample_chunk()]];
    let before = kind_counts(&map[0][0].tiles);
    let records = render_map(&map);
    let store = derender_chunks(records, 10);

    let rebuilt = store.dormant_get(Coord { x: 0, y: 0 }).expect("one group");
    assert_eq!(store.dormant_len(), 1);
    assert_eq!(kind_counts(&rebuilt.tiles), before);
    let total: usize = rebuilt.tiles.iter().map(|row| row.len()).sum();
    assert_eq!(total, 6);
}

#[test]
fn rebuild_rows_fill_to_the_given_width() {
    let map = vec![vec![sample_chunk()]];
    let records = render_map(&map);
    let store = derender_chunks(records, 2);
    let rebuilt = store.dormant_get(Coord { x: 0, y: 0 }).expect("one group");
    assert_eq!(rebuilt.tiles.len(), 3);
    for row in &rebuilt.tiles {
        assert_eq!(row.len(), 2);
    }
    // observed order is kept: row-major over the flattened chunk
    assert_eq!(rebuilt.tiles[0], vec![t(TileType::Sand), t(TileType::Grass)]);
    assert_eq!(rebuilt.tiles[1], vec![t(TileType::Stone), t(TileType::Water)]);
    assert_eq!(rebuilt.tiles[2], vec![t(TileType::Snow), t(TileType::Sand)]);
}

#[test]
fn sweep_deletes_exactly_the_dormant_groups_records() {
    let mut store = ChunkStore::new();
    store.insert_dormant(
        Coord { x: 0, y: 0 },
        Chunk { tiles: vec![vec![t(TileType::Grass)]], biome: BiomeType::Derendered },
    );
    let mut records = vec![
        Placement {
            pos: Position(10, 10),
            coord: Coord { x: 10, y: 10 },
            tile_type: TileType::Grass,
            id: ID(0),
        },
        Placement {
            pos: Position(500, 0),
            coord: Coord { x: 500, y: 0 },
            tile_type: TileType::Stone,
            id: ID(0),
        },
    ];
    derender_unloaded(&mut records, &store);
    assert_eq!(records.len(), 1);
    assert_eq!(records[0].tile_type, TileType::Stone);
}

#[test]
fn same_width_roundtrip_reproduces_the_grid() {
    // With the rebuild width equal to the generated side, flattening and
    // reconstructing gives back the very same tile grid, not just the
    // same multiset.
    let chunk = generate_chunk_sized(chunk_stream::tiles::BiomeType::Mountain, 4);
    let original = chunk.tiles.clone();
    let map = vec![vec![chunk]];
    let records = render_map(&map);
    let store = derender_chunks(records, 4);
    let rebuilt = store.dormant_get(Coord { x: 0, y: 0 }).expect("one group");
    assert_eq!(rebuilt.tiles, original);
    assert_eq!(rebuilt.biome, BiomeType::Derendered);
}
