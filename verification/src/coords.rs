//! Chunk-grid coordinates and the geometry constants of the world.

use vstd::prelude::*;

verus! {

/// World-unit length of one chunk partition. A placement record's stamped
/// pixel position, divided by this, names the chunk that owns the record.
pub const PARTITION_SIZE: i32 = 400;

/// Spacing between neighbouring tiles of one chunk, in world units.
pub const TILE_WIDTH: i32 = 60;

/// Spacing between neighbouring tiles of one chunk, in world units.
pub const TILE_HEIGHT: i32 = 60;

/// Horizontal offset between neighbouring chunks of the generated grid.
pub const CHUNK_WIDTH: i32 = 7 * TILE_WIDTH;

/// Vertical offset between neighbouring chunks of the generated grid.
pub const CHUNK_HEIGHT: i32 = 7 * TILE_HEIGHT;

/// Integer locator identifying a chunk's position in the chunk grid,
/// or a record's absolute pixel position. Equality is by value.
#[derive(Clone, Copy, Debug, PartialEq, Eq, Hash, Structural)]
pub struct Coord {
    pub x: i32,
    pub y: i32,
}

/// Division truncated toward zero, as Rust's `/` computes it on signed
/// integers: the streaming passes use it to turn a pixel position back
/// into a chunk coordinate.
pub open spec fn div_trunc(a: int, b: int) -> int
    recommends
        b > 0,
{
    if a >= 0 {
        a / b
    } else {
        -((-a) / b)
    }
}

/// The chunk coordinate owning the pixel position `p`.
pub open spec fn chunk_of(p: Coord) -> Coord {
    Coord {
        x: div_trunc(p.x as int, PARTITION_SIZE as int) as i32,
        y: div_trunc(p.y as int, PARTITION_SIZE as int) as i32,
    }
}

/// Maps a record's stamped pixel position to the chunk coordinate owning it.
pub fn chunk_coord_of(p: Coord) -> (c: Coord)
    ensures
        c == chunk_of(p),
{
    proof {
        lemma_div_trunc_fits(p.x as int, PARTITION_SIZE as int);
        lemma_div_trunc_fits(p.y as int, PARTITION_SIZE as int);
    }
    Coord { x: p.x / PARTITION_SIZE, y: p.y / PARTITION_SIZE }
}

/// Truncating division shrinks magnitude, so the quotient of an `i32`
/// by a positive divisor stays in `i32` range.
proof fn lemma_div_trunc_fits(a: int, b: int)
    requires
        b > 0,
        i32::MIN <= a <= i32::MAX,
    ensures
        i32::MIN <= div_trunc(a, b) <= i32::MAX,
{
    if a >= 0 {
        vstd::arithmetic::div_mod::lemma_div_is_ordered_by_denominator(a, 1, b);
    } else {
        vstd::arithmetic::div_mod::lemma_div_is_ordered_by_denominator(-a, 1, b);
    }
}

/// A chunk coordinate small enough that every world position derived from
/// it stays within 32-bit range.
pub open spec fn coord_in_range(c: Coord) -> bool {
    &&& -1_000_000 <= c.x <= 1_000_000
    &&& -1_000_000 <= c.y <= 1_000_000
}

/// Whether `c` lies inside the visibility window of horizontal radius `hr`
/// and vertical radius `vr` around `center`: within `hr` chunks on the x
/// axis and `vr` chunks on the y axis.
pub open spec fn in_window(center: Coord, hr: int, vr: int, c: Coord) -> bool {
    &&& center.x - hr <= c.x <= center.x + hr
    &&& center.y - vr <= c.y <= center.y + vr
}

/// Decides window membership; widening to 64 bits keeps the bound
/// arithmetic exact for any 32-bit inputs.
pub fn window_contains(center: Coord, hr: i32, vr: i32, c: Coord) -> (r: bool)
    ensures
        r == in_window(center, hr as int, vr as int, c),
{
    let cx = center.x as i64;
    let cy = center.y as i64;
    let x = c.x as i64;
    let y = c.y as i64;
    cx - (hr as i64) <= x && x <= cx + (hr as i64) && cy - (vr as i64) <= y && y <= cy + (vr as i64)
}

/// Division by the partition size rounded to the nearest integer, ties away
/// from zero: how a viewer's world position names its chunk coordinate.
pub open spec fn round_div_partition(a: int) -> int {
    if a >= 0 {
        (a + PARTITION_SIZE / 2) / (PARTITION_SIZE as int)
    } else {
        -(((-a) + PARTITION_SIZE / 2) / (PARTITION_SIZE as int))
    }
}

/// The chunk coordinate nearest a viewer's world position.
pub fn world_to_chunk(x: i32, y: i32) -> (c: Coord)
    requires
        -2_000_000_000 <= x <= 2_000_000_000,
        -2_000_000_000 <= y <= 2_000_000_000,
    ensures
        c.x == round_div_partition(x as int),
        c.y == round_div_partition(y as int),
{
    Coord { x: round_to_partition(x), y: round_to_partition(y) }
}

/// One axis of `world_to_chunk`.
fn round_to_partition(a: i32) -> (r: i32)
    requires
        -2_000_000_000 <= a <= 2_000_000_000,
    ensures
        r == round_div_partition(a as int),
{
    if a >= 0 {
        (a + PARTITION_SIZE / 2) / PARTITION_SIZE
    } else {
        -((-a + PARTITION_SIZE / 2) / PARTITION_SIZE)
    }
}

} // verus!
