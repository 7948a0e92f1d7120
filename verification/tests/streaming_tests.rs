use chunk_stream::chunk::Chunk;
use chunk_stream::coords::{chunk_coord_of, window_contains, world_to_chunk, Coord};
use chunk_stream::records::ID;
use chunk_stream::store::ChunkStore;
use chunk_stream::streaming::{
    chunk_loader, chunk_loader_timer, loading_transition, render_loaded, ChunkLoading, ChunkTimer,
};
use chunk_stream::tiles::{BiomeType, Tile, TileType};

fn tiny_chunk(kind: TileType) -> Chunk {
    Chunk { tiles: vec![vec![Tile { tile_type: kind }]], biome: BiomeType::Derendered }
}

fn full_grid_store() -> ChunkStore {
    let mut store = ChunkStore::new();
    for x in 0..10 {
        for y in 0..10 {
            store.insert_dormant(Coord { x, y }, tiny_chunk(TileType::Grass));
        }
    }
    store
}

#[test]
fn window_at_origin_promotes_exactly_the_intersection() {
    let mut store = full_grid_store();
    let changed = chunk_loader(&mut store, Coord { x: 0, y: 0 }, 3, 2);
    assert!(changed);
    for x in -5..15 {
        for y in -5..15 {
            let c = Coord { x, y };
            let exists = (0..10).contains(&x) && (0..10).contains(&y);
            let in_window = (-3..=3).contains(&x) && (-2..=2).contains(&y);
            assert_eq!(store.resident_contains(c), exists && in_window);
            assert_eq!(store.dormant_contains(c), exists && !in_window);
        }
    }
    assert_eq!(store.resident_len(), 12);
    assert_eq!(store.dormant_len(), 88);
}

#[test]
fn a_second_pass_with_the_same_viewer_changes_nothing() {
    let mut store = full_grid_store();
    assert!(chunk_loader(&mut store, Coord { x: 0, y: 0 }, 3, 2));
    assert!(!chunk_loader(&mut store, Coord { x: 0, y: 0 }, 3, 2));
    assert_eq!(store.resident_len(), 12);
}

#[test]
fn eviction_follows_the_viewer() {
    let mut store = full_grid_store();
    assert_eq!(store.dormant_len(), 100);

    let changed = chunk_loader(&mut store, Coord { x: 5, y: 5 }, 3, 2);
    assert!(changed);
    assert_eq!(store.resident_len(), 7 * 5);
    assert_eq!(store.dormant_len(), 100 - 7 * 5);
    for x in 0..10 {
        for y in 0..10 {
            let c = Coord { x, y };
            let in_window = (2..=8).contains(&x) && (3..=7).contains(&y);
            assert_eq!(store.resident_contains(c), in_window);
            assert_eq!(store.dormant_contains(c), !in_window);
            assert!(!(store.resident_contains(c) && store.dormant_contains(c)));
        }
    }

    let changed = chunk_loader(&mut store, Coord { x: 0, y: 0 }, 3, 2);
    assert!(changed);
    assert_eq!(store.resident_len(), 4 * 3);
    assert_eq!(store.dormant_len(), 100 - 4 * 3);
    for x in 0..10 {
        for y in 0..10 {
            let c = Coord { x, y };
            let in_window = (0..=3).contains(&x) && (0..=2).contains(&y);
            assert_eq!(store.resident_contains(c), in_window);
            assert_eq!(store.dormant_contains(c), !in_window);
            assert!(!(store.resident_contains(c) && store.dormant_contains(c)));
        }
    }
}

#[test]
fn materialize_emits_resident_tiles_at_partition_offsets() {
    let mut store = ChunkStore::new();
    let chunk = Chunk {
        tiles: vec![vec![Tile { tile_type: TileType::Sand }, Tile { tile_type: TileType::Snow }]],
        biome: BiomeType::Desert,
    };
    store.insert_dormant(Coord { x: 1, y: 0 }, chunk);
    assert!(chunk_loader(&mut store, Coord { x: 1, y: 0 }, 1, 1));

    let records = render_loaded(&store, true);
    assert_eq!(records.len(), 2);
    assert_eq!(records[0].pos.0, 400);
    assert_eq!(records[0].pos.1, 0);
    assert_eq!(records[0].coord, Coord { x: 400, y: 0 });
    assert_eq!(records[0].tile_type, TileType::Sand);
    assert_eq!(records[0].id, ID(0));
    assert_eq!(records[1].pos.0, 460);
    assert_eq!(records[1].tile_type, TileType::Snow);
    assert_eq!(records[1].id, ID(1));

    let none = render_loaded(&store, false);
    assert!(none.is_empty());
}

#[test]
fn full_transition_streams_records_with_the_viewer() {
    let mut store = ChunkStore::new();
    store.insert_dormant(Coord { x: 0, y: 0 }, tiny_chunk(TileType::Grass));
    store.insert_dormant(Coord { x: 5, y: 5 }, tiny_chunk(TileType::Snow));
    let mut records = Vec::new();

    loading_transition(&mut store, &mut records, Coord { x: 0, y: 0 }, 1, 1);
    assert_eq!(records.len(), 1);
    assert_eq!(records[0].tile_type, TileType::Grass);
    assert_eq!(records[0].pos.0, 0);
    assert!(store.resident_contains(Coord { x: 0, y: 0 }));
    assert!(store.dormant_contains(Coord { x: 5, y: 5 }));

    loading_transition(&mut store, &mut records, Coord { x: 5, y: 5 }, 1, 1);
    assert_eq!(records.len(), 1);
    assert_eq!(records[0].tile_type, TileType::Snow);
    assert_eq!(records[0].pos.0, 2000);
    assert!(store.dormant_contains(Coord { x: 0, y: 0 }));
    assert!(store.resident_contains(Coord { x: 5, y: 5 }));
}

#[test]
fn world_to_chunk_rounds_to_nearest() {
    assert_eq!(world_to_chunk(0, 0), Coord { x: 0, y: 0 });
    assert_eq!(world_to_chunk(199, -199), Coord { x: 0, y: 0 });
    assert_eq!(world_to_chunk(200, 0), Coord { x: 1, y: 0 });
    assert_eq!(world_to_chunk(-200, 601), Coord { x: -1, y: 2 });
    assert_eq!(world_to_chunk(399, -401), Coord { x: 1, y: -1 });
}

#[test]
fn record_positions_map_back_by_truncating_division() {
    assert_eq!(chunk_coord_of(Coord { x: 399, y: 400 }), Coord { x: 0, y: 1 });
    assert_eq!(chunk_coord_of(Coord { x: -1, y: -400 }), Coord { x: 0, y: -1 });
    assert_eq!(chunk_coord_of(Coord { x: -401, y: 801 }), Coord { x: -1, y: 2 });
}

#[test]
fn window_membership_is_a_box() {
    let center = Coord { x: 1, y: -1 };
    assert!(window_contains(center, 3, 2, Coord { x: 4, y: 1 }));
    assert!(!window_contains(center, 3, 2, Coord { x: 5, y: 0 }));
    assert!(!window_contains(center, 3, 2, Coord { x: 0, y: 2 }));
    assert!(window_contains(center, 0, 0, center));
}

#[test]
fn timer_flips_the_state_each_period() {
    let mut timer = ChunkTimer::default();
    assert_eq!(timer.period_ms, 500);
    assert_eq!(timer.elapsed_ms, 0);

    let state = ChunkLoading::default();
    assert_eq!(state, ChunkLoading::NotLoading);

    let state = chunk_loader_timer(state, &mut timer, 250);
    assert_eq!(state, ChunkLoading::NotLoading);
    assert_eq!(timer.elapsed_ms, 250);

    let state = chunk_loader_timer(state, &mut timer, 250);
    assert_eq!(state, ChunkLoading::Loading);
    assert_eq!(timer.elapsed_ms, 0);

    let state = chunk_loader_timer(state, &mut timer, 1000);
    assert_eq!(state, ChunkLoading::NotLoading);
    assert_eq!(timer.elapsed_ms, 0);

    let state = chunk_loader_timer(state, &mut timer, 100);
    assert_eq!(state, ChunkLoading::NotLoading);
    assert_eq!(timer.elapsed_ms, 100);
}
