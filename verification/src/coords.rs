//! Translation between world positions, chunk coordinates and in-chunk element
//! positions, and the indexing of the nine neighbor slots of a chunk.
//!
//! A world position maps to the chunk holding it by floor-division of each
//! axis by the chunk side; the vertical chunk axis is negated, so chunk
//! coordinates grow upward while element rows grow downward. The element
//! position inside that chunk is the euclidean remainder, never negative.

use crate::rect::Pos;
use vstd::arithmetic::div_mod::{lemma_fundamental_div_mod, lemma_fundamental_div_mod_converse};
use vstd::prelude::*;

verus! {

/// The side length of a square chunk, in cells.
pub const CHUNK_SIZE: usize = 64;

pub const CHUNK_SIZE_I32: i32 = 64;

/// World coordinates handed to the translation functions stay within this
/// bound, so that intermediate arithmetic fits in a machine integer.
pub const MAX_WORLD_COORD: i32 = 0x4000_0000;

pub open spec fn world_coord_in_bounds(p: Pos) -> bool {
    &&& -MAX_WORLD_COORD <= p.x <= MAX_WORLD_COORD
    &&& -MAX_WORLD_COORD <= p.y <= MAX_WORLD_COORD
}

/// Floor division of a coordinate by the chunk side.
fn div_euclid_chunk(v: i32) -> (r: i32)
    requires
        -MAX_WORLD_COORD <= v <= MAX_WORLD_COORD,
    ensures
        r == v as int / CHUNK_SIZE as int,
{
    if v >= 0 {
        v / CHUNK_SIZE_I32
    } else {
        let w = -v;
        let q = (w + CHUNK_SIZE_I32 - 1) / CHUNK_SIZE_I32;
        proof {
            lemma_fundamental_div_mod(w as int + 63, 64);
            let rr = (w as int + 63) % 64;
            lemma_fundamental_div_mod_converse(v as int, 64, -(q as int), 63 - rr);
        }
        -q
    }
}

/// Euclidean remainder of a coordinate by the chunk side: the in-chunk cell
/// index on that axis, always in `[0, CHUNK_SIZE)`.
fn rem_euclid_chunk(v: i32) -> (r: i32)
    requires
        -MAX_WORLD_COORD <= v <= MAX_WORLD_COORD,
    ensures
        r == v as int % CHUNK_SIZE as int,
        0 <= r < CHUNK_SIZE_I32,
{
    let q = div_euclid_chunk(v);
    proof {
        lemma_fundamental_div_mod(v as int, 64);
    }
    v - q * CHUNK_SIZE_I32
}

/// The chunk coordinate holding a world position, as a value.
pub open spec fn world_to_chunk_spec(p: Pos) -> Pos {
    Pos { x: (p.x as int / CHUNK_SIZE as int) as i32, y: (-(p.y as int / CHUNK_SIZE as int)) as i32 }
}

/// The in-chunk cell position of a world position, as a value.
pub open spec fn world_to_element_spec(p: Pos) -> Pos {
    Pos { x: (p.x as int % CHUNK_SIZE as int) as i32, y: (p.y as int % CHUNK_SIZE as int) as i32 }
}

/// The coordinate of the chunk holding a world position; the vertical axis is
/// negated, so chunk coordinates grow upward while world rows grow downward.
pub fn world_to_chunk_position(world_position: Pos) -> (r: Pos)
    requires
        world_coord_in_bounds(world_position),
    ensures
        r.x == world_position.x as int / CHUNK_SIZE as int,
        r.y == -(world_position.y as int / CHUNK_SIZE as int),
        r == world_to_chunk_spec(world_position),
{
    Pos { x: div_euclid_chunk(world_position.x), y: -div_euclid_chunk(world_position.y) }
}

/// The world position of a chunk's first cell on each axis.
pub fn chunk_to_world_position(chunk_position: Pos) -> (r: Pos)
    requires
        -0x100_0000 <= chunk_position.x <= 0x100_0000,
        -0x100_0000 <= chunk_position.y <= 0x100_0000,
    ensures
        r.x == chunk_position.x * CHUNK_SIZE,
        r.y == chunk_position.y * CHUNK_SIZE,
{
    Pos { x: chunk_position.x * CHUNK_SIZE_I32, y: chunk_position.y * CHUNK_SIZE_I32 }
}

/// The in-chunk cell position of a world position, on both axes in
/// `[0, CHUNK_SIZE)`.
pub fn world_to_element_position(world_position: Pos) -> (r: Pos)
    requires
        world_coord_in_bounds(world_position),
    ensures
        r.x == world_position.x as int % CHUNK_SIZE as int,
        r.y == world_position.y as int % CHUNK_SIZE as int,
        0 <= r.x < CHUNK_SIZE_I32,
        0 <= r.y < CHUNK_SIZE_I32,
        r == world_to_element_spec(world_position),
{
    Pos { x: rem_euclid_chunk(world_position.x), y: rem_euclid_chunk(world_position.y) }
}

/// The neighbor-slot index of a unit chunk offset, laid out row-major over
/// `(dx, dy)` in `{-1, 0, 1}` squared.
pub open spec fn dir_to_index_spec(dir: Pos) -> int {
    (dir.x + 1) + (dir.y + 1) * 3
}

/// The unit chunk offset of a neighbor-slot index.
pub open spec fn dir_of_index_spec(j: int) -> Pos {
    Pos { x: (j % 3 - 1) as i32, y: (j / 3 - 1) as i32 }
}

pub fn dir_to_index(dir: Pos) -> (r: usize)
    requires
        -1 <= dir.x <= 1,
        -1 <= dir.y <= 1,
    ensures
        r == dir_to_index_spec(dir),
        r < 9,
{
    ((dir.x + 1) + (dir.y + 1) * 3) as usize
}

pub fn dir_of_index(j: usize) -> (r: Pos)
    requires
        j < 9,
    ensures
        r == dir_of_index_spec(j as int),
        -1 <= r.x <= 1,
        -1 <= r.y <= 1,
{
    Pos { x: (j % 3) as i32 - 1, y: (j / 3) as i32 - 1 }
}

} // verus!
