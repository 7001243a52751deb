//! The transform between global block coordinates and chunk-local ones.

use vstd::prelude::*;

verus! {

/// The chunk that holds a global coordinate along one horizontal axis:
/// the coordinate divided by the chunk size, rounded towards minus
/// infinity.
pub open spec fn chunk_of(world: int) -> int {
    world / 16
}

/// The position of a global coordinate inside its chunk along one
/// horizontal axis.
pub open spec fn local_of(world: int) -> int {
    world % 16
}

/// Splits a global coordinate along one horizontal axis into the chunk
/// that holds it and the position inside that chunk.
pub fn localize(world: i32) -> (result: (i32, usize))
    ensures
        result.0 == chunk_of(world as int),
        result.1 == local_of(world as int),
        0 <= result.1 < 16,
        result.0 * 16 + result.1 == world,
{
    let chunk: i32 = if world >= 0 {
        world / 16
    } else {
        (world + 1) / 16 - 1
    };
    let local: i32 = world - chunk * 16;
    (chunk, local as usize)
}

/// The transform is floor division with its remainder: the local part
/// lies in the chunk and the two parts give the global coordinate back.
pub proof fn lemma_localize_invertible(world: int)
    ensures
        0 <= local_of(world) < 16,
        chunk_of(world) * 16 + local_of(world) == world,
        chunk_of(world) * 16 <= world < (chunk_of(world) + 1) * 16,
{
}

/// A chunk coordinate and a position inside the chunk are the parts of
/// exactly one global coordinate.
pub proof fn lemma_localize_unique(chunk: int, local: int)
    requires
        0 <= local < 16,
    ensures
        chunk_of(chunk * 16 + local) == chunk,
        local_of(chunk * 16 + local) == local,
{
}

} // verus!
