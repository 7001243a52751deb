//! What holds of the world's operations: the cache only grows, an edit
//! is read back, an edit survives storing and reloading, and edits take
//! effect in the order in which they are applied.

use crate::block_map::{empty_grid, in_bounds};
use crate::block_type::BlockType;
use crate::chunk::{lemma_chunk_of_grid, lemma_edited};
use crate::chunk_utils::spec_from_serialized;
use crate::codec_laws::{
    heights_survive, lemma_decoded_len, lemma_payload_decodes, lemma_round_trip,
};
use crate::coords::{lemma_localize_invertible, local_of};
use crate::layout::spec_chunk_dir;
use crate::terrain::{generated_grid, lemma_generated_grid_len};
use crate::world::{chunk_at, source_at, ChunkSource, WorldView};
use vstd::prelude::*;

verus! {

/// A source gives only well-formed chunks.
pub proof fn lemma_chunk_from_wf(
    world: WorldView,
    at: (i32, i32),
    source: ChunkSource,
    site: Option<(usize, usize)>,
)
    ensures
        world.chunk_from(at, source, site) matches Ok(chunk) ==> chunk.wf(),
{
    let dir = spec_chunk_dir(world.save_dir);
    match source {
        ChunkSource::Absent => {},
        ChunkSource::Stored(payload) => {
            match spec_from_serialized(payload@) {
                Ok(grid) => {
                    lemma_decoded_len(payload@, empty_grid());
                    lemma_chunk_of_grid(dir, at.0 as int, at.1 as int, grid);
                },
                Err(_) => {},
            }
        },
        ChunkSource::Sampled(samples) => {
            lemma_generated_grid_len(samples@, site);
            lemma_chunk_of_grid(
                dir,
                at.0 as int,
                at.1 as int,
                generated_grid(samples@, site),
            );
        },
    }
}

/// The cache only grows: a fetch keeps the world well formed, leaves
/// every chunk that was cached as it was, and has the chunk that was
/// asked for cached afterwards.
pub proof fn lemma_fetch(
    world: WorldView,
    at: (i32, i32),
    source: ChunkSource,
    site: Option<(usize, usize)>,
)
    requires
        world.wf(),
    ensures
        world.fetch(at, source, site) matches Ok((after, _)) ==> {
            &&& after.wf()
            &&& after.seed == world.seed
            &&& after.save_dir == world.save_dir
            &&& after.chunks.contains_key(at)
            &&& forall|other: (i32, i32)| #[trigger]
                world.chunks.contains_key(other) ==> after.chunks.contains_key(other)
                    && after.chunks[other] == world.chunks[other]
            &&& forall|other: (i32, i32)| #[trigger]
                after.chunks.contains_key(other) ==> other == at || world.chunks.contains_key(
                    other,
                )
        },
{
    lemma_chunk_from_wf(world, at, source, site);
}

/// What an answer to a run of requests holds: one entry for each chunk
/// that was fetched, in the order of the requests, tagged with the
/// coordinates that were asked for and carrying the payload of the chunk
/// that is cached there afterwards, which can be decoded. Where nothing
/// was refused there is an entry for every request. The world stays well
/// formed and keeps every chunk that was cached as it was.
pub proof fn lemma_served(
    world: WorldView,
    coords: Seq<(i32, i32)>,
    sources: Seq<ChunkSource>,
    sites: Seq<Option<(usize, usize)>>,
    n: int,
)
    requires
        world.wf(),
        0 <= n <= coords.len(),
    ensures
        ({
            let (after, chunks, error) = world.fetch_all(coords, sources, sites, n);
            &&& after.wf()
            &&& after.seed == world.seed
            &&& after.save_dir == world.save_dir
            &&& chunks.len() <= n
            &&& error.is_none() <==> chunks.len() == n
            &&& forall|i: int|
                0 <= i < chunks.len() ==> {
                    let entry = #[trigger] chunks[i];
                    &&& (entry.chunk_x, entry.chunk_z) == coords[i]
                    &&& after.chunks.contains_key(coords[i])
                    &&& entry.payload == after.chunks[coords[i]].payload()
                    &&& spec_from_serialized(entry.payload) is Ok
                }
            &&& forall|other: (i32, i32)| #[trigger]
                world.chunks.contains_key(other) ==> after.chunks.contains_key(other)
                    && after.chunks[other] == world.chunks[other]
        }),
    decreases n,
{
    if n > 0 {
        lemma_served(world, coords, sources, sites, n - 1);
        let (before, chunks, error) = world.fetch_all(coords, sources, sites, n - 1);
        if error.is_none() {
            let at = coords[n - 1];
            let source = source_at(sources, n - 1);
            lemma_fetch(before, at, source, sites[n - 1]);
            match before.fetch(at, source, sites[n - 1]) {
                Ok((next, created)) => {
                    let grown = world.fetch_all(coords, sources, sites, n).1;
                    lemma_payload_decodes(
                        next.chunks[at].mesh,
                        next.chunks[at].grid,
                    );
                    assert forall|i: int| 0 <= i < grown.len() implies {
                        let entry = #[trigger] grown[i];
                        &&& (entry.chunk_x, entry.chunk_z) == coords[i]
                        &&& next.chunks.contains_key(coords[i])
                        &&& entry.payload == next.chunks[coords[i]].payload()
                        &&& spec_from_serialized(entry.payload) is Ok
                    } by {
                        if i < chunks.len() {
                            assert(grown[i] == chunks[i]);
                            assert(before.chunks.contains_key(coords[i]));
                        }
                    }
                },
                Err(_) => {},
            }
        }
    }
}

/// An edit is read back: after a block was set at a global coordinate,
/// the world is well formed, the block is there, and every other block
/// of the chunks that were cached is what it was.
pub proof fn lemma_edit_reads_back(
    world: WorldView,
    world_x: i32,
    world_y: i32,
    world_z: i32,
    block: BlockType,
    source: ChunkSource,
    site: Option<(usize, usize)>,
)
    requires
        world.wf(),
    ensures
        world.edit(world_x, world_y, world_z, block, source, site) matches Ok(after) ==> {
            &&& after.wf()
            &&& after.block_at(world_x, world_y, world_z) == Some(block)
            &&& forall|x: i32, y: i32, z: i32|
                (x, y, z) != (world_x, world_y, world_z) && world.block_at(x, y, z).is_some()
                    ==> #[trigger] after.block_at(x, y, z) == world.block_at(x, y, z)
        },
{
    let at = chunk_at(world_x, world_z);
    lemma_localize_invertible(world_x as int);
    lemma_localize_invertible(world_z as int);
    if world.edit(world_x, world_y, world_z, block, source, site) is Ok {
        let after = world.edit(world_x, world_y, world_z, block, source, site).unwrap();
        lemma_fetch(world, at, source, site);
        let fetched = world.fetch(at, source, site).unwrap().0;
        let lx = local_of(world_x as int);
        let lz = local_of(world_z as int);
        lemma_edited(fetched.chunks[at], lx, world_y as int, lz, block);
        assert forall|x: i32, y: i32, z: i32|
            (x, y, z) != (world_x, world_y, world_z) && world.block_at(
                x,
                y,
                z,
            ).is_some() implies #[trigger] after.block_at(x, y, z) == world.block_at(x, y, z) by {
            lemma_localize_invertible(x as int);
            lemma_localize_invertible(z as int);
            let other = chunk_at(x, z);
            if other == at {
                assert(in_bounds(local_of(x as int), y as int, local_of(z as int)));
                assert((local_of(x as int), y as int, local_of(z as int)) != (
                    lx,
                    world_y as int,
                    lz,
                ));
            }
        }
    }
}

/// An edit survives storing and reloading: where the layers 127, 254
/// and 255 of a cached chunk are air, a world that gets the chunk's
/// payload as the stored source of that chunk caches a chunk with the
/// same blocks under the same path.
pub proof fn lemma_reload(
    world: WorldView,
    at: (i32, i32),
    fresh: WorldView,
    stored: Vec<u8>,
    site: Option<(usize, usize)>,
)
    requires
        world.wf(),
        world.chunks.contains_key(at),
        heights_survive(world.chunks[at].grid),
        stored@ == world.chunks[at].payload(),
        fresh.save_dir == world.save_dir,
        !fresh.chunks.contains_key(at),
    ensures
        fresh.fetch(at, ChunkSource::Stored(stored), site) matches Ok((after, created)) && !created
            && after.chunks.contains_key(at) && after.chunks[at].grid == world.chunks[at].grid
            && after.chunks[at].save_path == world.chunks[at].save_path
            && after.chunks[at].mesh.to_set() == world.chunks[at].mesh.to_set(),
{
    let chunk = world.chunks[at];
    lemma_round_trip(chunk.mesh, chunk.grid);
}

/// Edits take effect in the order in which they are applied: of two
/// edits applied one after the other, each is read back afterwards,
/// unless both set the same coordinate, where the later one is read.
pub proof fn lemma_edits_in_order(
    world: WorldView,
    first: (i32, i32, i32),
    first_block: BlockType,
    first_source: ChunkSource,
    first_site: Option<(usize, usize)>,
    second: (i32, i32, i32),
    second_block: BlockType,
    second_source: ChunkSource,
    second_site: Option<(usize, usize)>,
)
    requires
        world.wf(),
    ensures
        world.edit(first.0, first.1, first.2, first_block, first_source, first_site) matches Ok(
            between,
        ) ==> (between.edit(
            second.0,
            second.1,
            second.2,
            second_block,
            second_source,
            second_site,
        ) matches Ok(after) ==> {
            &&& after.block_at(second.0, second.1, second.2) == Some(second_block)
            &&& first != second ==> after.block_at(first.0, first.1, first.2) == Some(
                first_block,
            )
        }),
{
    lemma_edit_reads_back(world, first.0, first.1, first.2, first_block, first_source, first_site);
    if world.edit(first.0, first.1, first.2, first_block, first_source, first_site) is Ok {
        let between = world.edit(
            first.0,
            first.1,
            first.2,
            first_block,
            first_source,
            first_site,
        ).unwrap();
        lemma_edit_reads_back(
            between,
            second.0,
            second.1,
            second.2,
            second_block,
            second_source,
            second_site,
        );
        if between.edit(second.0, second.1, second.2, second_block, second_source, second_site)
            is Ok {
            let after = between.edit(
                second.0,
                second.1,
                second.2,
                second_block,
                second_source,
                second_site,
            ).unwrap();
            if first != second {
                assert(after.block_at(first.0, first.1, first.2) == between.block_at(
                    first.0,
                    first.1,
                    first.2,
                ));
            }
        }
    }
}

} // verus!
