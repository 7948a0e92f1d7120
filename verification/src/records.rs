//! Placement records: the visual projection of tiles.
//!
//! Flattening walks a chunk grid row-major and emits one record per tile at
//! its absolute world position; compaction groups records back into chunks
//! by coarse coordinate. Both directions carry exact contracts, and the
//! round trip provably preserves the multiset of tile kinds.

use vstd::prelude::*;

use crate::chunk::Chunk;
use crate::coords::{chunk_of, Coord, CHUNK_HEIGHT, CHUNK_WIDTH, TILE_HEIGHT, TILE_WIDTH};
use crate::store::{
    assoc_map, distinct_keys, has_key, lemma_assoc_map_dom, lemma_assoc_map_index,
    lemma_distinct_push, lemma_has_key_push, ChunkStore,
};
use crate::tiles::{BiomeType, Position, Tile, TileType};

verus! {

/// Numeric identity a renderer keys a drawable by: each emission pass
/// stamps its records with their index, so within one pass every record
/// carries a distinct id.
#[derive(Clone, Copy, Debug, PartialEq, Eq, Hash, Structural)]
pub struct ID(pub u32);

/// One drawable tile: world position, terrain kind, the absolute integer
/// coordinate it was stamped with, and a numeric id for the renderer.
#[derive(Clone, Copy, Debug, PartialEq, Eq, Structural)]
pub struct Placement {
    pub pos: Position,
    pub coord: Coord,
    pub tile_type: TileType,
    pub id: ID,
}

/// The record emitted for the tile in row `r`, column `k` of a grid whose
/// origin sits at world position `(bx, by)`, before ids are stamped:
/// `stamp_ids` replaces the zero placeholder with the record's index in
/// the emission.
pub open spec fn placement_at(bx: int, by: int, r: int, k: int, t: Tile) -> Placement {
    Placement {
        pos: Position((bx + k * TILE_WIDTH) as i32, (by + r * TILE_HEIGHT) as i32),
        coord: Coord { x: (bx + k * TILE_WIDTH) as i32, y: (by + r * TILE_HEIGHT) as i32 },
        tile_type: t.tile_type,
        id: ID(0),
    }
}

/// Records of one tile row, left to right.
pub open spec fn row_records(bx: int, by: int, r: int, row: Seq<Tile>) -> Seq<Placement>
    decreases row.len(),
{
    if row.len() == 0 {
        Seq::empty()
    } else {
        row_records(bx, by, r, row.drop_last()).push(
            placement_at(bx, by, r, row.len() - 1, row.last()),
        )
    }
}

/// Records of a whole tile grid, rows in order.
pub open spec fn grid_records(bx: int, by: int, rows: Seq<Vec<Tile>>) -> Seq<Placement>
    decreases rows.len(),
{
    if rows.len() == 0 {
        Seq::empty()
    } else {
        grid_records(bx, by, rows.drop_last()) + row_records(
            bx,
            by,
            rows.len() - 1,
            rows.last()@,
        )
    }
}

/// Records of one row of chunks, whose `j`-th chunk's grid starts at
/// `(j * CHUNK_WIDTH, by)`.
pub open spec fn chunks_row_records(by: int, row: Seq<Chunk>) -> Seq<Placement>
    decreases row.len(),
{
    if row.len() == 0 {
        Seq::empty()
    } else {
        chunks_row_records(by, row.drop_last()) + grid_records(
            (row.len() - 1) * CHUNK_WIDTH,
            by,
            row.last().tiles@,
        )
    }
}

/// Records of the whole generated map, chunk rows in order, the `i`-th row
/// of chunks offset vertically by `i * CHUNK_HEIGHT`.
pub open spec fn map_records(grid: Seq<Vec<Chunk>>) -> Seq<Placement>
    decreases grid.len(),
{
    if grid.len() == 0 {
        Seq::empty()
    } else {
        map_records(grid.drop_last()) + chunks_row_records(
            (grid.len() - 1) * CHUNK_HEIGHT,
            grid.last()@,
        )
    }
}

/// The same records with each one's id replaced by its index in the
/// sequence (truncated to 32 bits for indices beyond `u32` range): the
/// identity an emission pass hands the renderer.
pub open spec fn stamp_ids(s: Seq<Placement>) -> Seq<Placement> {
    Seq::new(
        s.len(),
        |i: int|
            Placement {
                pos: s[i].pos,
                coord: s[i].coord,
                tile_type: s[i].tile_type,
                id: ID(i as u32),
            },
    )
}

/// Overwrites each record's id with its index in the vector.
pub(crate) fn assign_ids(records: &mut Vec<Placement>)
    ensures
        final(records)@ == stamp_ids(old(records)@),
{
    let n = records.len();
    let mut i: usize = 0;
    while i < n
        invariant
            n == records@.len(),
            n == old(records)@.len(),
            i <= n,
            forall|j: int| 0 <= j < i ==> records@[j] == stamp_ids(old(records)@)[j],
            forall|j: int| i <= j < n ==> records@[j] == old(records)@[j],
        decreases n - i,
    {
        let p = records[i];
        let id_val = #[verifier::truncate] (i as u32);
        let stamped = Placement { pos: p.pos, coord: p.coord, tile_type: p.tile_type, id: ID(id_val) };
        proof {
            assert(p == old(records)@[i as int]);
            assert(id_val == i as u32);
            assert(stamp_ids(old(records)@)[i as int] == Placement {
                pos: old(records)@[i as int].pos,
                coord: old(records)@[i as int].coord,
                tile_type: old(records)@[i as int].tile_type,
                id: ID(i as u32),
            });
            assert(stamped == stamp_ids(old(records)@)[i as int]);
        }
        *vstd::std_specs::vec::vec_index_mut(records, i) = stamped;
        i = i + 1;
    }
    proof {
        assert(records@ =~= stamp_ids(old(records)@));
    }
}

/// A tile grid small enough that all world positions stay in range.
pub open spec fn chunk_dims_ok(ch: Chunk) -> bool {
    &&& ch.tiles@.len() <= 1000
    &&& forall|i: int| 0 <= i < ch.tiles@.len() ==> (#[trigger] ch.tiles@[i])@.len() <= 1000
}

/// A chunk grid small enough that all world positions stay in range.
pub open spec fn map_dims_ok(grid: Seq<Vec<Chunk>>) -> bool {
    &&& grid.len() <= 1000
    &&& forall|i: int| 0 <= i < grid.len() ==> (#[trigger] grid[i])@.len() <= 1000
    &&& forall|i: int, j: int|
        0 <= i < grid.len() && 0 <= j < grid[i]@.len() ==> chunk_dims_ok(
            (#[trigger] grid[i]@[j]),
        )
}

/// Appends the records of one chunk's grid, origin `(bx, by)`, row-major.
pub(crate) fn chunk_records_into(out: &mut Vec<Placement>, bx: i32, by: i32, ch: &Chunk)
    requires
        chunk_dims_ok(*ch),
        -1_000_000_000 <= bx <= 1_000_000_000,
        -1_000_000_000 <= by <= 1_000_000_000,
    ensures
        final(out)@ == old(out)@ + grid_records(bx as int, by as int, ch.tiles@),
{
    let ghost rows = ch.tiles@;
    proof {
        assert(old(out)@ + grid_records(bx as int, by as int, rows.take(0)) =~= old(out)@);
    }
    let nrows = ch.tiles.len();
    let mut r: usize = 0;
    while r < nrows
        invariant
            nrows == rows.len(),
            rows == ch.tiles@,
            chunk_dims_ok(*ch),
            -1_000_000_000 <= bx <= 1_000_000_000,
            -1_000_000_000 <= by <= 1_000_000_000,
            r <= nrows,
            out@ == old(out)@ + grid_records(bx as int, by as int, rows.take(r as int)),
        decreases nrows - r,
    {
        let row = &ch.tiles[r];
        let ghost tiles_row = row@;
        let ncols = row.len();
        let ghost out_at_row = out@;
        let mut k: usize = 0;
        while k < ncols
            invariant
                ncols == tiles_row.len(),
                tiles_row == ch.tiles@[r as int]@,
                row@ == tiles_row,
                ncols <= 1000,
                -1_000_000_000 <= bx <= 1_000_000_000,
                -1_000_000_000 <= by <= 1_000_000_000,
                r < rows.len(),
                rows.len() <= 1000,
                rows == ch.tiles@,
                k <= ncols,
                out@ == out_at_row + row_records(
                    bx as int,
                    by as int,
                    r as int,
                    tiles_row.take(k as int),
                ),
            decreases ncols - k,
        {
            let x = bx + (k as i32) * TILE_WIDTH;
            let y = by + (r as i32) * TILE_HEIGHT;
            let t = row[k];
            out.push(
                Placement { pos: Position(x, y), coord: Coord { x, y }, tile_type: t.tile_type, id: ID(0) },
            );
            proof {
                assert(tiles_row.take(k + 1).drop_last() =~= tiles_row.take(k as int));
                assert(tiles_row.take(k + 1).last() == tiles_row[k as int]);
            }
            k = k + 1;
        }
        proof {
            assert(tiles_row.take(ncols as int) =~= tiles_row);
            assert(rows.take(r + 1).drop_last() =~= rows.take(r as int));
            assert(rows.take(r + 1).last() == rows[r as int]);
            assert(out@ == old(out)@ + grid_records(bx as int, by as int, rows.take(r + 1)));
        }
        r = r + 1;
    }
    proof {
        assert(rows.take(nrows as int) =~= rows);
    }
}

/// The initial flatten: walks the generated map row-major — chunk offsets
/// accumulating by chunk width and height, tile offsets by tile width and
/// height — and emits one placement record per tile, stamped with its
/// absolute integer coordinate, its kind, and its index in the emission
/// as its id.
pub fn render_map(map: &Vec<Vec<Chunk>>) -> (records: Vec<Placement>)
    requires
        map_dims_ok(map@),
    ensures
        records@ == stamp_ids(map_records(map@)),
{
    let ghost grid = map@;
    let mut out: Vec<Placement> = Vec::new();
    proof {
        assert(map_records(grid.take(0)) =~= Seq::<Placement>::empty());
    }
    let nrows = map.len();
    let mut i: usize = 0;
    while i < nrows
        invariant
            nrows == grid.len(),
            grid == map@,
            map_dims_ok(grid),
            i <= nrows,
            out@ == map_records(grid.take(i as int)),
        decreases nrows - i,
    {
        let row = &map[i];
        let ghost chunks_row = row@;
        let ncols = row.len();
        let ghost out_at_row = out@;
        let by = (i as i32) * CHUNK_HEIGHT;
        let mut j: usize = 0;
        while j < ncols
            invariant
                ncols == chunks_row.len(),
                chunks_row == map@[i as int]@,
                row@ == chunks_row,
                ncols <= 1000,
                i < grid.len(),
                grid.len() <= 1000,
                grid == map@,
                map_dims_ok(grid),
                by == i * CHUNK_HEIGHT,
                0 <= by <= 420_000,
                j <= ncols,
                out@ == out_at_row + chunks_row_records(by as int, chunks_row.take(j as int)),
            decreases ncols - j,
        {
            let bx = (j as i32) * CHUNK_WIDTH;
            proof {
                assert(chunk_dims_ok(grid[i as int]@[j as int]));
            }
            chunk_records_into(&mut out, bx, by, &row[j]);
            proof {
                assert(chunks_row.take(j + 1).drop_last() =~= chunks_row.take(j as int));
                assert(chunks_row.take(j + 1).last() == chunks_row[j as int]);
            }
            j = j + 1;
        }
        proof {
            assert(chunks_row.take(ncols as int) =~= chunks_row);
            assert(grid.take(i + 1).drop_last() =~= grid.take(i as int));
            assert(grid.take(i + 1).last() == grid[i as int]);
        }
        i = i + 1;
    }
    proof {
        assert(grid.take(nrows as int) =~= grid);
    }
    assign_ids(&mut out);
    out
}

/// The kinds of one tile row, in order.
pub open spec fn row_kinds(row: Seq<Tile>) -> Seq<TileType> {
    row.map_values(|t: Tile| t.tile_type)
}

/// The kinds of a whole tile grid, row-major.
pub open spec fn rows_kinds(rows: Seq<Vec<Tile>>) -> Seq<TileType>
    decreases rows.len(),
{
    if rows.len() == 0 {
        Seq::empty()
    } else {
        rows_kinds(rows.drop_last()) + row_kinds(rows.last()@)
    }
}

/// The kinds of a sequence of records, in order.
pub open spec fn record_kinds(s: Seq<Placement>) -> Seq<TileType> {
    s.map_values(|p: Placement| p.tile_type)
}

/// The kinds of one row of chunks, chunk by chunk.
pub open spec fn chunks_row_kinds(row: Seq<Chunk>) -> Seq<TileType>
    decreases row.len(),
{
    if row.len() == 0 {
        Seq::empty()
    } else {
        chunks_row_kinds(row.drop_last()) + rows_kinds(row.last().tiles@)
    }
}

/// The kinds of the whole generated map, row-major.
pub open spec fn map_kinds(grid: Seq<Vec<Chunk>>) -> Seq<TileType>
    decreases grid.len(),
{
    if grid.len() == 0 {
        Seq::empty()
    } else {
        map_kinds(grid.drop_last()) + chunks_row_kinds(grid.last()@)
    }
}

/// The kinds held by a sequence of store entries, entry by entry.
pub open spec fn store_kinds(entries: Seq<(Coord, Chunk)>) -> Seq<TileType>
    decreases entries.len(),
{
    if entries.len() == 0 {
        Seq::empty()
    } else {
        store_kinds(entries.drop_last()) + rows_kinds(entries.last().1.tiles@)
    }
}

/// Record kinds distribute over concatenation.
proof fn lemma_record_kinds_add(a: Seq<Placement>, b: Seq<Placement>)
    ensures
        record_kinds(a + b) == record_kinds(a) + record_kinds(b),
{
    assert(record_kinds(a + b) =~= record_kinds(a) + record_kinds(b));
}

/// One row's records carry exactly the row's kinds, in order.
proof fn lemma_row_records_kinds(bx: int, by: int, r: int, row: Seq<Tile>)
    ensures
        record_kinds(row_records(bx, by, r, row)) == row_kinds(row),
    decreases row.len(),
{
    if row.len() > 0 {
        lemma_row_records_kinds(bx, by, r, row.drop_last());
        let p = placement_at(bx, by, r, row.len() - 1, row.last());
        assert(record_kinds(row_records(bx, by, r, row)) =~= record_kinds(
            row_records(bx, by, r, row.drop_last()),
        ).push(p.tile_type));
        assert(row_kinds(row) =~= row_kinds(row.drop_last()).push(row.last().tile_type));
        assert(record_kinds(row_records(bx, by, r, row)) =~= row_kinds(row));
    } else {
        assert(record_kinds(row_records(bx, by, r, row)) =~= row_kinds(row));
    }
}

/// One grid's records carry exactly the grid's kinds, row-major: a
/// flattened chunk loses no tile and invents none.
pub proof fn lemma_grid_records_kinds(bx: int, by: int, rows: Seq<Vec<Tile>>)
    ensures
        record_kinds(grid_records(bx, by, rows)) == rows_kinds(rows),
    decreases rows.len(),
{
    if rows.len() > 0 {
        lemma_grid_records_kinds(bx, by, rows.drop_last());
        lemma_row_records_kinds(bx, by, rows.len() - 1, rows.last()@);
        lemma_record_kinds_add(
            grid_records(bx, by, rows.drop_last()),
            row_records(bx, by, rows.len() - 1, rows.last()@),
        );
    } else {
        assert(record_kinds(grid_records(bx, by, rows)) =~= rows_kinds(rows));
    }
}

/// One chunk row's records carry exactly its chunks' kinds.
proof fn lemma_chunks_row_records_kinds(by: int, row: Seq<Chunk>)
    ensures
        record_kinds(chunks_row_records(by, row)) == chunks_row_kinds(row),
    decreases row.len(),
{
    if row.len() > 0 {
        lemma_chunks_row_records_kinds(by, row.drop_last());
        lemma_grid_records_kinds((row.len() - 1) * CHUNK_WIDTH, by, row.last().tiles@);
        lemma_record_kinds_add(
            chunks_row_records(by, row.drop_last()),
            grid_records((row.len() - 1) * CHUNK_WIDTH, by, row.last().tiles@),
        );
    } else {
        assert(record_kinds(chunks_row_records(by, row)) =~= chunks_row_kinds(row));
    }
}

/// Flattening emits exactly one record per tile, in row-major order, so the
/// sequence of emitted tile kinds — and hence its multiset — equals the
/// map's own.
pub proof fn lemma_flatten_preserves_kinds(grid: Seq<Vec<Chunk>>)
    ensures
        record_kinds(map_records(grid)) == map_kinds(grid),
        record_kinds(stamp_ids(map_records(grid))) == map_kinds(grid),
    decreases grid.len(),
{
    assert(record_kinds(stamp_ids(map_records(grid))) =~= record_kinds(map_records(grid)));
    if grid.len() > 0 {
        lemma_flatten_preserves_kinds(grid.drop_last());
        lemma_chunks_row_records_kinds((grid.len() - 1) * CHUNK_HEIGHT, grid.last()@);
        lemma_record_kinds_add(
            map_records(grid.drop_last()),
            chunks_row_records((grid.len() - 1) * CHUNK_HEIGHT, grid.last()@),
        );
    } else {
        assert(record_kinds(map_records(grid)) =~= map_kinds(grid));
    }
}

/// The chunk coordinate a record is grouped under: its stamped coordinate
/// integer-divided by the partition size.
pub open spec fn rec_group(p: Placement) -> Coord {
    chunk_of(p.coord)
}

/// Some record of the sequence falls in this group.
pub open spec fn rec_has_group(s: Seq<Placement>, c: Coord) -> bool {
    exists|i: int| 0 <= i < s.len() && rec_group(#[trigger] s[i]) == c
}

/// The kinds of the records grouped under `c`, in observed order.
pub open spec fn group_kinds(s: Seq<Placement>, c: Coord) -> Seq<TileType>
    decreases s.len(),
{
    if s.len() == 0 {
        Seq::empty()
    } else {
        group_kinds(s.drop_last(), c) + (if rec_group(s.last()) == c {
            seq![s.last().tile_type]
        } else {
            Seq::empty()
        })
    }
}

/// The row structure a reconstructed chunk has: every row filled to the
/// rebuild width except the last, which holds the remainder.
pub open spec fn rebuilt_shape(rows: Seq<Vec<Tile>>, w: int) -> bool {
    &&& rows.len() >= 1
    &&& forall|i: int| 0 <= i < rows.len() - 1 ==> (#[trigger] rows[i])@.len() == w
    &&& 1 <= rows.last()@.len() <= w
}

/// Appending a record extends its own group's kinds and no other's.
proof fn lemma_group_kinds_push(s: Seq<Placement>, p: Placement)
    ensures
        forall|c: Coord| #![auto]
            group_kinds(s.push(p), c) == (if rec_group(p) == c {
                group_kinds(s, c).push(p.tile_type)
            } else {
                group_kinds(s, c)
            }),
{
    assert forall|c: Coord| #![auto]
        group_kinds(s.push(p), c) == (if rec_group(p) == c {
            group_kinds(s, c).push(p.tile_type)
        } else {
            group_kinds(s, c)
        }) by {
        assert(s.push(p).drop_last() =~= s);
        assert(s.push(p).last() == p);
        if rec_group(p) == c {
            assert(group_kinds(s, c) + seq![p.tile_type] =~= group_kinds(s, c).push(
                p.tile_type,
            ));
        } else {
            assert(group_kinds(s, c) + Seq::<TileType>::empty() =~= group_kinds(s, c));
        }
    }
}

/// Appending a record adds exactly its own group to the occupied groups.
proof fn lemma_rec_has_group_push(s: Seq<Placement>, p: Placement)
    ensures
        forall|c: Coord| #![auto]
            rec_has_group(s.push(p), c) <==> rec_has_group(s, c) || c == rec_group(p),
{
    assert forall|c: Coord| #![auto]
        rec_has_group(s.push(p), c) <==> rec_has_group(s, c) || c == rec_group(p) by {
        if rec_has_group(s.push(p), c) {
            let i = choose|i: int|
                0 <= i < s.push(p).len() && rec_group(#[trigger] s.push(p)[i]) == c;
            if i < s.len() {
                assert(s.push(p)[i] == s[i]);
                assert(rec_group(#[trigger] s[i]) == c);
            } else {
                assert(s.push(p)[s.len() as int] == p);
            }
        }
        if rec_has_group(s, c) {
            let i = choose|i: int| 0 <= i < s.len() && rec_group(#[trigger] s[i]) == c;
            assert(s.push(p)[i] == s[i]);
            assert(rec_group(#[trigger] s.push(p)[i]) == c);
        }
        if c == rec_group(p) {
            assert(rec_group(#[trigger] s.push(p)[s.len() as int]) == c);
        }
    }
}

/// A group no record falls in has no kinds.
proof fn lemma_group_kinds_empty(s: Seq<Placement>, c: Coord)
    requires
        !rec_has_group(s, c),
    ensures
        group_kinds(s, c) == Seq::<TileType>::empty(),
    decreases s.len(),
{
    if s.len() > 0 {
        assert(!rec_has_group(s.drop_last(), c)) by {
            if rec_has_group(s.drop_last(), c) {
                let i = choose|i: int|
                    0 <= i < s.drop_last().len() && rec_group(#[trigger] s.drop_last()[i]) == c;
                assert(s.drop_last()[i] == s[i]);
                assert(rec_group(#[trigger] s[i]) == c);
            }
        }
        lemma_group_kinds_empty(s.drop_last(), c);
        assert(rec_group(s.last()) != c) by {
            assert(s[s.len() - 1] == s.last());
            if rec_group(s.last()) == c {
                assert(rec_group(#[trigger] s[s.len() - 1]) == c);
            }
        }
        assert(group_kinds(s, c) =~= Seq::<TileType>::empty());
    }
}

/// Updating one entry's chunk by one appended kind inserts that kind into
/// the store's kind multiset.
proof fn lemma_store_kinds_update(s: Seq<(Coord, Chunk)>, i: int, e2: (Coord, Chunk), t: TileType)
    requires
        0 <= i < s.len(),
        rows_kinds(e2.1.tiles@) == rows_kinds(s[i].1.tiles@).push(t),
    ensures
        store_kinds(s.update(i, e2)).to_multiset() == store_kinds(s).to_multiset().insert(t),
    decreases s.len(),
{
    broadcast use vstd::seq_lib::group_to_multiset_ensures;
    broadcast use vstd::multiset::group_multiset_axioms;

    let upd = s.update(i, e2);
    if i == s.len() - 1 {
        assert(upd.drop_last() =~= s.drop_last());
        assert(upd.last() == e2);
        vstd::seq_lib::lemma_multiset_commutative(
            store_kinds(s.drop_last()),
            rows_kinds(e2.1.tiles@),
        );
        vstd::seq_lib::lemma_multiset_commutative(
            store_kinds(s.drop_last()),
            rows_kinds(s.last().1.tiles@),
        );
        assert(rows_kinds(e2.1.tiles@).to_multiset() =~= rows_kinds(
            s.last().1.tiles@,
        ).to_multiset().insert(t));
        assert(store_kinds(upd).to_multiset() =~= store_kinds(s).to_multiset().insert(t));
    } else {
        assert(upd.drop_last() =~= s.drop_last().update(i, e2));
        assert(upd.last() == s.last());
        assert(s.drop_last()[i] == s[i]);
        lemma_store_kinds_update(s.drop_last(), i, e2, t);
        vstd::seq_lib::lemma_multiset_commutative(
            store_kinds(s.drop_last().update(i, e2)),
            rows_kinds(s.last().1.tiles@),
        );
        vstd::seq_lib::lemma_multiset_commutative(
            store_kinds(s.drop_last()),
            rows_kinds(s.last().1.tiles@),
        );
        assert(store_kinds(upd).to_multiset() =~= store_kinds(s).to_multiset().insert(t));
    }
}

/// Replacing an entry under the same key leaves the occupied keys as they
/// were, and keeps them distinct.
proof fn lemma_update_same_key(s: Seq<(Coord, Chunk)>, i: int, e2: (Coord, Chunk))
    requires
        0 <= i < s.len(),
        e2.0 == s[i].0,
        distinct_keys(s),
    ensures
        distinct_keys(s.update(i, e2)),
        forall|c: Coord| #![auto] has_key(s.update(i, e2), c) <==> has_key(s, c),
{
    let upd = s.update(i, e2);
    assert forall|p: int, q: int|
        0 <= p < q < upd.len() implies (#[trigger] upd[p]).0 != (#[trigger] upd[q]).0 by {
        assert((#[trigger] s[p]).0 != (#[trigger] s[q]).0);
    }
    assert forall|c: Coord| #![auto] has_key(upd, c) <==> has_key(s, c) by {
        if has_key(upd, c) {
            let k = choose|k: int| 0 <= k < upd.len() && (#[trigger] upd[k]).0 == c;
            assert((#[trigger] s[k]).0 == c);
        }
        if has_key(s, c) {
            let k = choose|k: int| 0 <= k < s.len() && (#[trigger] s[k]).0 == c;
            assert((#[trigger] upd[k]).0 == c);
        }
    }
}

/// Starts a reconstructed chunk from its first record's tile, under the
/// `Derendered` placeholder biome.
fn seed_chunk(t: Tile, w: usize) -> (ch: Chunk)
    requires
        w >= 1,
    ensures
        ch.biome == BiomeType::Derendered,
        rebuilt_shape(ch.tiles@, w as int),
        rows_kinds(ch.tiles@) == seq![t.tile_type],
{
    let mut row: Vec<Tile> = Vec::new();
    row.push(t);
    let mut tiles: Vec<Vec<Tile>> = Vec::new();
    tiles.push(row);
    let ch = Chunk { tiles, biome: BiomeType::Derendered };
    proof {
        assert(ch.tiles@.drop_last() =~= Seq::<Vec<Tile>>::empty());
        assert(ch.tiles@.last()@ =~= seq![t]);
        assert(row_kinds(seq![t]) =~= seq![t.tile_type]);
        assert(rows_kinds(Seq::<Vec<Tile>>::empty()) + seq![t.tile_type] =~= seq![t.tile_type]);
        assert(rows_kinds(ch.tiles@) == rows_kinds(ch.tiles@.drop_last()) + row_kinds(
            ch.tiles@.last()@,
        ));
        assert(rows_kinds(ch.tiles@) =~= seq![t.tile_type]);
    }
    ch
}

/// Appends one tile to a reconstructed chunk: into the last row while it is
/// short of the rebuild width, else into a fresh row.
fn push_tile(ch: &mut Chunk, t: Tile, w: usize)
    requires
        w >= 1,
        rebuilt_shape(old(ch).tiles@, w as int),
    ensures
        final(ch).biome == old(ch).biome,
        rebuilt_shape(final(ch).tiles@, w as int),
        rows_kinds(final(ch).tiles@) == rows_kinds(old(ch).tiles@).push(t.tile_type),
{
    let ghost rows0 = ch.tiles@;
    let mut last = ch.tiles.pop().unwrap();
    if last.len() < w {
        last.push(t);
        ch.tiles.push(last);
        proof {
            let rows1 = ch.tiles@;
            assert(rows1.drop_last() =~= rows0.drop_last());
            assert(rows1.last()@ == rows0.last()@.push(t));
            assert(row_kinds(rows0.last()@.push(t)) =~= row_kinds(rows0.last()@).push(
                t.tile_type,
            ));
            assert(rows_kinds(rows1) =~= rows_kinds(rows0).push(t.tile_type));
            assert forall|i: int| 0 <= i < rows1.len() - 1 implies (#[trigger] rows1[i])@.len()
                == w by {
                assert(rows1[i] == rows0[i]);
            }
        }
    } else {
        ch.tiles.push(last);
        let mut row: Vec<Tile> = Vec::new();
        row.push(t);
        ch.tiles.push(row);
        proof {
            let rows1 = ch.tiles@;
            assert(rows1.drop_last() =~= rows0);
            assert(rows1.last()@ =~= seq![t]);
            assert(row_kinds(seq![t]) =~= seq![t.tile_type]);
            assert(rows_kinds(rows1) =~= rows_kinds(rows0).push(t.tile_type));
            assert forall|i: int| 0 <= i < rows1.len() - 1 implies (#[trigger] rows1[i])@.len()
                == w by {
                if i < rows1.len() - 2 {
                    assert(rows1[i] == rows0[i]);
                } else {
                    assert(rows1[i] == rows0.last());
                }
            }
        }
    }
}

/// Finds the entry keyed by `c`, if one exists.
fn find_group(groups: &Vec<(Coord, Chunk)>, c: Coord) -> (r: Option<usize>)
    ensures
        match r {
            Some(i) => i < groups@.len() && groups@[i as int].0 == c,
            None => !has_key(groups@, c),
        },
{
    let n = groups.len();
    let mut i: usize = 0;
    while i < n
        invariant
            n == groups@.len(),
            i <= n,
            forall|k: int| 0 <= k < i ==> (#[trigger] groups@[k]).0 != c,
        decreases n - i,
    {
        if groups[i].0 == c {
            return Some(i);
        }
        i = i + 1;
    }
    proof {
        if has_key(groups@, c) {
            let k = choose|k: int| 0 <= k < groups@.len() && (#[trigger] groups@[k]).0 == c;
            assert(groups@[k].0 != c);
        }
    }
    None
}

/// The compaction pass: consumes the placement records, groups them by
/// coarse coordinate, rebuilds one chunk per group — appending tiles in
/// observed order into rows of the rebuild width — and files every rebuilt
/// chunk as dormant. Nothing is left resident, each group's chunk carries
/// exactly that group's kinds in order, and the store as a whole holds
/// exactly the records' kind multiset.
pub fn derender_chunks(records: Vec<Placement>, width: usize) -> (store: ChunkStore)
    requires
        width >= 1,
    ensures
        store.inv(),
        store.resident@.len() == 0,
        forall|c: Coord| #![auto]
            store.dormant_map().dom().contains(c) <==> rec_has_group(records@, c),
        forall|c: Coord| #![auto]
            store.dormant_map().dom().contains(c) ==> {
                let ch = store.dormant_map()[c];
                &&& ch.biome == BiomeType::Derendered
                &&& rebuilt_shape(ch.tiles@, width as int)
                &&& rows_kinds(ch.tiles@) == group_kinds(records@, c)
            },
        store_kinds(store.dormant@).to_multiset() == record_kinds(records@).to_multiset(),
{
    broadcast use vstd::seq_lib::group_to_multiset_ensures;
    broadcast use vstd::multiset::group_multiset_axioms;

    let ghost recs = records@;
    let mut groups: Vec<(Coord, Chunk)> = Vec::new();
    let n = records.len();
    proof {
        assert(recs.take(0) =~= Seq::<Placement>::empty());
        assert(store_kinds(groups@).to_multiset() =~= record_kinds(recs.take(0)).to_multiset());
    }
    let mut idx: usize = 0;
    while idx < n
        invariant
            n == recs.len(),
            recs == records@,
            width >= 1,
            idx <= n,
            distinct_keys(groups@),
            forall|c: Coord| #![auto] has_key(groups@, c) <==> rec_has_group(recs.take(idx as int), c),
            forall|i: int|
                0 <= i < groups@.len() ==> {
                    let e = #[trigger] groups@[i];
                    &&& e.1.biome == BiomeType::Derendered
                    &&& rebuilt_shape(e.1.tiles@, width as int)
                    &&& rows_kinds(e.1.tiles@) == group_kinds(recs.take(idx as int), e.0)
                },
            store_kinds(groups@).to_multiset() == record_kinds(recs.take(idx as int)).to_multiset(),
        decreases n - idx,
    {
        let p = records[idx];
        let key = crate::coords::chunk_coord_of(p.coord);
        let ghost prefix = recs.take(idx as int);
        let ghost prefix2 = recs.take(idx + 1);
        proof {
            assert(prefix2.drop_last() =~= prefix);
            assert(prefix2.last() == recs[idx as int]);
            lemma_group_kinds_push(prefix, p);
            lemma_rec_has_group_push(prefix, p);
            assert(record_kinds(prefix2) =~= record_kinds(prefix).push(p.tile_type));
        }
        match find_group(&groups, key) {
            Some(g) => {
                let ghost groups0 = groups@;
                let entry = vstd::std_specs::vec::vec_index_mut(&mut groups, g);
                push_tile(&mut entry.1, Tile { tile_type: p.tile_type }, width);
                proof {
                    let e2 = groups@[g as int];
                    assert(e2.0 == groups0[g as int].0);
                    assert(groups@ =~= groups0.update(g as int, e2));
                    lemma_update_same_key(groups0, g as int, e2);
                    lemma_store_kinds_update(groups0, g as int, e2, p.tile_type);
                    record_kinds(prefix).to_multiset_ensures();
                    assert(record_kinds(prefix2).to_multiset() == record_kinds(
                        prefix,
                    ).to_multiset().insert(p.tile_type));
                    assert(store_kinds(groups@).to_multiset() == record_kinds(
                        prefix2,
                    ).to_multiset());
                    assert forall|c: Coord| #![auto]
                        has_key(groups@, c) <==> rec_has_group(prefix2, c) by {
                        assert(has_key(groups@, c) <==> has_key(groups0, c));
                        assert((#[trigger] groups0[g as int]).0 == key);
                        assert(rec_has_group(prefix2, c) <==> rec_has_group(prefix, c) || c
                            == rec_group(p));
                    }
                    assert forall|i: int| 0 <= i < groups@.len() implies {
                        let e = #[trigger] groups@[i];
                        &&& e.1.biome == BiomeType::Derendered
                        &&& rebuilt_shape(e.1.tiles@, width as int)
                        &&& rows_kinds(e.1.tiles@) == group_kinds(prefix2, e.0)
                    } by {
                        if i != g {
                            assert(groups@[i] == groups0[i]);
                            assert(groups0[i].0 != key);
                        }
                    }
                }
            }
            None => {
                proof {
                    lemma_group_kinds_empty(prefix, key);
                }
                let seeded = seed_chunk(Tile { tile_type: p.tile_type }, width);
                let ghost groups0 = groups@;
                proof {
                    lemma_distinct_push(groups0, (key, seeded));
                    lemma_has_key_push(groups0, (key, seeded));
                }
                groups.push((key, seeded));
                proof {
                    assert(groups@.drop_last() =~= groups0);
                    assert(groups@.last() == (key, seeded));
                    assert(rows_kinds(seeded.tiles@) =~= group_kinds(prefix2, key)) by {
                        assert(group_kinds(prefix, key) =~= Seq::<TileType>::empty());
                        assert(group_kinds(prefix2, key) =~= group_kinds(prefix, key).push(
                            p.tile_type,
                        ));
                    }
                    assert(store_kinds(groups@) == store_kinds(groups0) + rows_kinds(
                        seeded.tiles@,
                    ));
                    vstd::seq_lib::lemma_multiset_commutative(
                        store_kinds(groups0),
                        rows_kinds(seeded.tiles@),
                    );
                    assert(seq![p.tile_type] =~= Seq::<TileType>::empty().push(p.tile_type));
                    Seq::<TileType>::empty().to_multiset_ensures();
                    record_kinds(prefix).to_multiset_ensures();
                    assert(rows_kinds(seeded.tiles@).to_multiset() == Seq::<
                        TileType,
                    >::empty().to_multiset().insert(p.tile_type));
                    assert(record_kinds(prefix2).to_multiset() == record_kinds(
                        prefix,
                    ).to_multiset().insert(p.tile_type));
                    assert(store_kinds(groups@).to_multiset() =~= record_kinds(
                        prefix2,
                    ).to_multiset());
                    assert forall|c: Coord| #![auto]
                        has_key(groups@, c) <==> rec_has_group(prefix2, c) by {
                        assert(has_key(groups@, c) <==> has_key(groups0, c) || c == key);
                        assert(rec_has_group(prefix2, c) <==> rec_has_group(prefix, c) || c
                            == rec_group(p));
                    }
                    assert forall|i: int| 0 <= i < groups@.len() implies {
                        let e = #[trigger] groups@[i];
                        &&& e.1.biome == BiomeType::Derendered
                        &&& rebuilt_shape(e.1.tiles@, width as int)
                        &&& rows_kinds(e.1.tiles@) == group_kinds(prefix2, e.0)
                    } by {
                        if i < groups@.len() - 1 {
                            assert(groups@[i] == groups0[i]);
                            assert(groups0[i].0 != key);
                        }
                    }
                }
            }
        }
        idx = idx + 1;
    }
    proof {
        assert(recs.take(n as int) =~= recs);
    }
    let store = ChunkStore { resident: Vec::new(), dormant: groups };
    proof {
        lemma_assoc_map_dom(store.dormant@);
        assert forall|c: Coord| #![auto]
            store.dormant_map().dom().contains(c) <==> rec_has_group(records@, c) by {
            assert(assoc_map(store.dormant@).dom().contains(c) <==> has_key(store.dormant@, c));
        }
        assert forall|c: Coord| #![auto]
            store.dormant_map().dom().contains(c) implies {
            let ch = store.dormant_map()[c];
            &&& ch.biome == BiomeType::Derendered
            &&& rebuilt_shape(ch.tiles@, width as int)
            &&& rows_kinds(ch.tiles@) == group_kinds(records@, c)
        } by {
            assert(assoc_map(store.dormant@).dom().contains(c) <==> has_key(store.dormant@, c));
            assert(has_key(store.dormant@, c));
            let i = choose|i: int|
                0 <= i < store.dormant@.len() && (#[trigger] store.dormant@[i]).0 == c;
            lemma_assoc_map_index(store.dormant@, i);
        }
    }
    store
}

} // verus!
