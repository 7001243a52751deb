//! The world: the cache of its chunks, its seed and the directory it is
//! kept in. It is the one entry point for fetching chunks and for editing
//! blocks at global coordinates.
//!
//! The world does no input or output. What has to come from outside, the
//! stored payload of a chunk or the noise samples for a new one, is handed
//! in as a `ChunkSource`; what has to go to the store is handed back as a
//! `ChunkWrite`.

use crate::block_map::{column_top, top_as_int, CHUNK_HEIGHT};
use crate::block_type::BlockType;
use crate::chunk::{chunk_of_grid, valid_site, Chunk, ChunkView};
use crate::chunk_utils::{spec_from_serialized, DecodeError};
use crate::coord_map::CoordMap;
use crate::coords::{chunk_of, local_of, localize};
use crate::layout::{
    chunk_dir, chunk_path, parse_seed, seed_text, spec_chunk_dir, spec_chunk_path,
    spec_parse_seed, spec_world_dir, world_dir,
};
use crate::layout::decimal;
use crate::terrain::{generated_grid, sample_error, ColumnSample, TerrainError};
use vstd::prelude::*;

verus! {

/// What the caller supplies for a chunk that may have to be created.
#[derive(Debug, Clone)]
pub enum ChunkSource {
    /// Nothing. This is enough for a chunk that is in the cache.
    Absent,
    /// The payload that was found in the chunk's file.
    Stored(Vec<u8>),
    /// The noise samples of the chunk, one per column, x major and z
    /// minor. The chunk has no file yet.
    Sampled(Vec<ColumnSample>),
}

/// Why an operation on the world was refused.
#[derive(Debug, PartialEq, Eq, Clone, Copy, Structural)]
pub enum WorldError {
    /// The chunk is not in the cache and no source was supplied for it.
    SourceRequired,
    /// The stored payload of the chunk could not be decoded.
    Decode(DecodeError),
    /// The samples of the chunk give no terrain.
    Terrain(TerrainError),
    /// The height of a block to edit lies outside the world.
    HeightOutOfRange { world_y: i32 },
    /// The text of the seed file is no seed.
    InvalidSeed,
}

/// A file that the caller has to write so that the store follows the
/// world.
#[derive(Debug, Clone)]
pub struct ChunkWrite {
    pub path: String,
    pub payload: Vec<u8>,
}

/// One chunk of the answer to a request for chunks.
#[derive(Debug, Clone)]
pub struct ChunkData {
    pub chunk_x: i32,
    pub chunk_z: i32,
    /// The chunk, encoded.
    pub payload: Vec<u8>,
    /// The chunk was generated for this request and has no file yet: the
    /// caller has to store the payload under the chunk's path.
    pub created: bool,
}

/// The answer to a request for chunks: the chunks that were fetched, in
/// the order of the request, and the reason why fetching stopped, if it
/// stopped before the end.
#[derive(Debug, Clone)]
pub struct ChunkBatch {
    pub chunks: Vec<ChunkData>,
    pub error: Option<WorldError>,
}

/// What a world is, as plain mathematical values.
pub struct WorldView {
    pub seed: u32,
    pub save_dir: Seq<char>,
    /// The cached chunks by their chunk coordinates.
    pub chunks: Map<(i32, i32), ChunkView>,
}

/// One chunk of an answer, as plain mathematical values.
pub struct ChunkDataView {
    pub chunk_x: i32,
    pub chunk_z: i32,
    pub payload: Seq<u8>,
    pub created: bool,
}

impl View for ChunkData {
    type V = ChunkDataView;

    open spec fn view(&self) -> ChunkDataView {
        ChunkDataView {
            chunk_x: self.chunk_x,
            chunk_z: self.chunk_z,
            payload: self.payload@,
            created: self.created,
        }
    }
}

/// The views of the chunks of an answer.
pub open spec fn batch_view(chunks: Seq<ChunkData>) -> Seq<ChunkDataView> {
    Seq::new(chunks.len(), |i: int| chunks[i]@)
}

impl WorldView {
    /// Every cached chunk is well formed, knows its own coordinates and
    /// is stored under the path that the layout gives it.
    pub open spec fn wf(self) -> bool {
        forall|at: (i32, i32)| #[trigger]
            self.chunks.contains_key(at) ==> {
                &&& self.chunks[at].wf()
                &&& self.chunks[at].x == at.0
                &&& self.chunks[at].z == at.1
                &&& self.chunks[at].save_path == spec_chunk_path(
                    spec_chunk_dir(self.save_dir),
                    at.0 as int,
                    at.1 as int,
                )
            }
    }

    /// The chunk that a source gives at `at`, or why it gives none.
    pub open spec fn chunk_from(
        self,
        at: (i32, i32),
        source: ChunkSource,
        site: Option<(usize, usize)>,
    ) -> Result<ChunkView, WorldError> {
        let dir = spec_chunk_dir(self.save_dir);
        match source {
            ChunkSource::Absent => Err(WorldError::SourceRequired),
            ChunkSource::Stored(payload) => match spec_from_serialized(payload@) {
                Ok(grid) => Ok(chunk_of_grid(dir, at.0 as int, at.1 as int, grid)),
                Err(error) => Err(WorldError::Decode(error)),
            },
            ChunkSource::Sampled(samples) => match sample_error(samples@) {
                Some(error) => Err(WorldError::Terrain(error)),
                None => Ok(
                    chunk_of_grid(dir, at.0 as int, at.1 as int, generated_grid(samples@, site)),
                ),
            },
        }
    }

    /// Fetching the chunk at `at`: a cached chunk is left as it is and
    /// the source is not looked at; otherwise the chunk is made from the
    /// source and cached. The flag says whether the chunk was generated
    /// and so has to be stored.
    pub open spec fn fetch(
        self,
        at: (i32, i32),
        source: ChunkSource,
        site: Option<(usize, usize)>,
    ) -> Result<(WorldView, bool), WorldError> {
        if self.chunks.contains_key(at) {
            Ok((self, false))
        } else {
            match self.chunk_from(at, source, site) {
                Ok(chunk) => Ok(
                    (
                        WorldView { chunks: self.chunks.insert(at, chunk), ..self },
                        source is Sampled,
                    ),
                ),
                Err(error) => Err(error),
            }
        }
    }

    /// Setting the block at a global coordinate: the chunk that holds
    /// the coordinate is fetched and the block is set in it.
    pub open spec fn edit(
        self,
        world_x: i32,
        world_y: i32,
        world_z: i32,
        block: BlockType,
        source: ChunkSource,
        site: Option<(usize, usize)>,
    ) -> Result<WorldView, WorldError> {
        let at = (chunk_of(world_x as int) as i32, chunk_of(world_z as int) as i32);
        if !(0 <= world_y < CHUNK_HEIGHT) {
            Err(WorldError::HeightOutOfRange { world_y })
        } else {
            match self.fetch(at, source, site) {
                Ok((fetched, _)) => Ok(
                    WorldView {
                        chunks: fetched.chunks.insert(
                            at,
                            fetched.chunks[at].edited(
                                local_of(world_x as int),
                                world_y as int,
                                local_of(world_z as int),
                                block,
                            ),
                        ),
                        ..fetched
                    },
                ),
                Err(error) => Err(error),
            }
        }
    }

    /// Serving the first `n` of a run of requests for chunks, one after
    /// the other: the world afterwards, the chunks of the answer and the
    /// reason why serving stopped, if it did. Serving stops at the first
    /// chunk that cannot be fetched.
    pub open spec fn fetch_all(
        self,
        coords: Seq<(i32, i32)>,
        sources: Seq<ChunkSource>,
        sites: Seq<Option<(usize, usize)>>,
        n: int,
    ) -> (WorldView, Seq<ChunkDataView>, Option<WorldError>)
        decreases n,
    {
        if n <= 0 {
            (self, Seq::empty(), None)
        } else {
            let (world, chunks, error) = self.fetch_all(coords, sources, sites, n - 1);
            if error.is_some() {
                (world, chunks, error)
            } else {
                let at = coords[n - 1];
                match world.fetch(at, source_at(sources, n - 1), sites[n - 1]) {
                    Ok((next, created)) => (
                        next,
                        chunks.push(
                            ChunkDataView {
                                chunk_x: at.0,
                                chunk_z: at.1,
                                payload: next.chunks[at].payload(),
                                created,
                            },
                        ),
                        None,
                    ),
                    Err(found) => (world, chunks, Some(found)),
                }
            }
        }
    }

    /// What has to be written to store the cached chunk at `at`.
    pub open spec fn chunk_write(self, at: (i32, i32)) -> ChunkWriteView {
        ChunkWriteView { path: self.chunks[at].save_path, payload: self.chunks[at].payload() }
    }

    /// The block at a global coordinate, if its chunk is cached.
    pub open spec fn block_at(self, world_x: i32, world_y: i32, world_z: i32) -> Option<BlockType> {
        let at = (chunk_of(world_x as int) as i32, chunk_of(world_z as int) as i32);
        if self.chunks.contains_key(at) && 0 <= world_y < CHUNK_HEIGHT {
            Some(
                self.chunks[at].at(
                    local_of(world_x as int),
                    world_y as int,
                    local_of(world_z as int),
                ),
            )
        } else {
            None
        }
    }

    /// The highest block of the column at a global coordinate, if its
    /// chunk is cached: the height of that block, or `None` for a column
    /// of air.
    pub open spec fn highest_in_column(self, world_x: i32, world_z: i32) -> Option<Option<int>> {
        let at = chunk_at(world_x, world_z);
        if self.chunks.contains_key(at) {
            Some(
                column_top(
                    self.chunks[at].grid,
                    local_of(world_x as int),
                    local_of(world_z as int),
                    CHUNK_HEIGHT - 1,
                ),
            )
        } else {
            None
        }
    }
}

/// A file to write, as plain mathematical values.
pub struct ChunkWriteView {
    pub path: Seq<char>,
    pub payload: Seq<u8>,
}

impl View for ChunkWrite {
    type V = ChunkWriteView;

    open spec fn view(&self) -> ChunkWriteView {
        ChunkWriteView { path: self.path@, payload: self.payload@ }
    }
}

/// The server-side world.
#[derive(Debug, Clone)]
pub struct World {
    chunks: CoordMap<Chunk>,
    seed: u32,
    save_dir: String,
}

impl View for World {
    type V = WorldView;

    closed spec fn view(&self) -> WorldView {
        WorldView {
            seed: self.seed,
            save_dir: self.save_dir@,
            chunks: Map::new(
                |at: (i32, i32)| self.chunks@.contains_key(at),
                |at: (i32, i32)| self.chunks@[at]@,
            ),
        }
    }
}

/// The source for the request at position `i`: where the caller supplied
/// fewer sources than requests, the rest is absent.
pub open spec fn source_at(sources: Seq<ChunkSource>, i: int) -> ChunkSource {
    if 0 <= i < sources.len() {
        sources[i]
    } else {
        ChunkSource::Absent
    }
}

/// Every site of a run is valid.
pub open spec fn valid_sites(sites: Seq<Option<(usize, usize)>>) -> bool {
    forall|i: int| 0 <= i < sites.len() ==> valid_site(#[trigger] sites[i])
}

/// Serving a run of requests took the world from `before` to `after`
/// and gave `batch`.
pub open spec fn served(
    before: WorldView,
    after: WorldView,
    coords: Seq<(i32, i32)>,
    sources: Seq<ChunkSource>,
    sites: Seq<Option<(usize, usize)>>,
    batch: ChunkBatch,
) -> bool {
    before.fetch_all(coords, sources, sites, coords.len() as int) == (
        after,
        batch_view(batch.chunks@),
        batch.error,
    )
}

/// The world of the given name and seed before any chunk is cached.
pub open spec fn fresh_world(name: Seq<char>, seed: u32) -> WorldView {
    WorldView { seed, save_dir: spec_world_dir(name), chunks: Map::empty() }
}

/// The seed of a world that is opened, and the text to write to its seed
/// file, if any: the seed that the seed file holds, or else the clock's
/// milliseconds cut to the width of a seed, which are then to be written.
pub open spec fn seed_choice(stored_seed: Option<&str>, clock_millis: u128) -> Result<
    (u32, Option<Seq<char>>),
    WorldError,
> {
    match stored_seed {
        Some(text) => match spec_parse_seed(text@) {
            Some(seed) => Ok((seed, None)),
            None => Err(WorldError::InvalidSeed),
        },
        None => {
            let seed = (clock_millis % 0x1_0000_0000) as u32;
            Ok((seed, Some(decimal(seed as nat))))
        },
    }
}

/// The characters of an optional text.
pub open spec fn text_view(text: Option<String>) -> Option<Seq<char>> {
    match text {
        Some(text) => Some(text@),
        None => None,
    }
}

/// A fetch took the world from `before` to `after` and gave `result`.
pub open spec fn fetched(
    before: WorldView,
    after: WorldView,
    at: (i32, i32),
    source: ChunkSource,
    site: Option<(usize, usize)>,
    result: Result<bool, WorldError>,
) -> bool {
    match before.fetch(at, source, site) {
        Ok((world, created)) => after == world && result == Ok::<bool, WorldError>(created),
        Err(error) => after == before && result == Err::<bool, WorldError>(error),
    }
}

/// An edit took the world from `before` to `after`.
pub open spec fn edited(
    before: WorldView,
    after: WorldView,
    world_x: i32,
    world_y: i32,
    world_z: i32,
    block: BlockType,
    source: ChunkSource,
    site: Option<(usize, usize)>,
    error: Option<WorldError>,
) -> bool {
    match before.edit(world_x, world_y, world_z, block, source, site) {
        Ok(world) => after == world && error.is_none(),
        Err(found) => after == before && error == Some(found),
    }
}

impl World {
    /// See `WorldView::wf`.
    pub open spec fn wf(&self) -> bool {
        self@.wf()
    }

    /// A world without chunks, kept under `worlds/` in the directory
    /// named.
    pub fn new_with_seed(save_dir: &str, seed: u32) -> (world: World)
        ensures
            world.wf(),
            world@ == fresh_world(save_dir@, seed),
    {
        let world = World { chunks: CoordMap::new(), seed, save_dir: world_dir(save_dir) };
        assert(world@.chunks =~= Map::<(i32, i32), ChunkView>::empty());
        world
    }

    /// A world without chunks whose seed is the one found in its seed
    /// file or, where there is no seed file yet, the clock's milliseconds
    /// cut to the width of a seed. In that case the text to write to the
    /// seed file is handed back. A seed file that holds no seed is
    /// refused.
    pub fn new(save_dir: &str, stored_seed: Option<&str>, clock_millis: u128) -> (result: Result<
        (World, Option<String>),
        WorldError,
    >)
        ensures
            match seed_choice(stored_seed, clock_millis) {
                Ok((seed, text)) => result matches Ok((world, to_write)) && world.wf() && world@
                    == fresh_world(save_dir@, seed) && text_view(to_write) == text,
                Err(error) => result matches Err(found) && found == error,
            },
    {
        match stored_seed {
            Some(text) => match parse_seed(text) {
                Some(seed) => Ok((World::new_with_seed(save_dir, seed), None)),
                None => Err(WorldError::InvalidSeed),
            },
            None => {
                let seed = (clock_millis % 0x1_0000_0000) as u32;
                Ok((World::new_with_seed(save_dir, seed), Some(seed_text(seed))))
            },
        }
    }

    /// The seed from which the world's noise is derived.
    pub fn seed(&self) -> (seed: u32)
        ensures
            seed == self@.seed,
    {
        self.seed
    }

    /// The directory the world is kept in.
    pub fn save_dir(&self) -> (dir: &String)
        ensures
            dir@ == self@.save_dir,
    {
        &self.save_dir
    }

    /// The path under which the chunk at (x, z) is stored.
    pub fn chunk_path(&self, chunk_x: i32, chunk_z: i32) -> (path: String)
        ensures
            path@ == spec_chunk_path(spec_chunk_dir(self@.save_dir), chunk_x as int, chunk_z as int),
    {
        let dir = chunk_dir(self.save_dir.as_str());
        chunk_path(dir.as_str(), chunk_x, chunk_z)
    }

    /// The chunk at (x, z), if it is cached.
    pub fn get_chunk(&self, chunk_x: i32, chunk_z: i32) -> (result: Option<&Chunk>)
        ensures
            match result {
                Some(chunk) => self@.chunks.contains_key((chunk_x, chunk_z)) && chunk@
                    == self@.chunks[(chunk_x, chunk_z)],
                None => !self@.chunks.contains_key((chunk_x, chunk_z)),
            },
    {
        self.chunks.get(chunk_x, chunk_z)
    }

    /// The chunk at (x, z), if it is cached, for changing it in place.
    /// The world is what it was but for that chunk, which is what the
    /// caller leaves behind: the world stays well formed as long as the
    /// caller only edits the chunk and does not put another in its place.
    pub fn get_chunk_mut(&mut self, chunk_x: i32, chunk_z: i32) -> (result: Option<&mut Chunk>)
        ensures
            result is Some <==> old(self)@.chunks.contains_key((chunk_x, chunk_z)),
            result matches Some(chunk) ==> chunk@ == old(self)@.chunks[(chunk_x, chunk_z)],
            final(self)@.seed == old(self)@.seed,
            final(self)@.save_dir == old(self)@.save_dir,
            final(self)@.chunks == match result {
                Some(chunk) => old(self)@.chunks.insert((chunk_x, chunk_z), final(chunk)@),
                None => old(self)@.chunks,
            },
    {
        self.chunks.get_mut(chunk_x, chunk_z)
    }

    /// Splits a global coordinate into chunk coordinates and the local
    /// coordinate inside that chunk, rounding towards minus infinity.
    pub fn localize_coords_to_chunk(&self, world_x: i32, world_z: i32) -> (result: (
        i32,
        i32,
        usize,
        usize,
    ))
        ensures
            result.0 == chunk_of(world_x as int),
            result.1 == chunk_of(world_z as int),
            result.2 == local_of(world_x as int),
            result.3 == local_of(world_z as int),
            0 <= result.2 < 16,
            0 <= result.3 < 16,
            result.0 * 16 + result.2 == world_x,
            result.1 * 16 + result.3 == world_z,
    {
        let (chunk_x, local_x) = localize(world_x);
        let (chunk_z, local_z) = localize(world_z);
        (chunk_x, chunk_z, local_x, local_z)
    }

    /// The highest block of the column at a global coordinate. There is
    /// an answer exactly if the chunk that holds the column is cached; no
    /// chunk is created for the question. The answer is the height of the
    /// highest block, or `None` for a column of air.
    pub fn highest_in_column(&self, world_x: i32, world_z: i32) -> (result: Option<Option<usize>>)
        requires
            self.wf(),
        ensures
            result is Some <==> self@.chunks.contains_key(chunk_at(world_x, world_z)),
            result matches Some(top) ==> top_as_int(top) == column_top(
                self@.chunks[chunk_at(world_x, world_z)].grid,
                local_of(world_x as int),
                local_of(world_z as int),
                CHUNK_HEIGHT - 1,
            ),
            top_of_cached(result) == self@.highest_in_column(world_x, world_z),
    {
        let (chunk_x, chunk_z, local_x, local_z) = self.localize_coords_to_chunk(world_x, world_z);
        match self.get_chunk(chunk_x, chunk_z) {
            Some(chunk) => Some(chunk.top_of_column(local_x, local_z)),
            None => None,
        }
    }

    /// Fetches the chunk at (x, z): the cached one, or else a new one
    /// made from the source and cached from now on. A chunk that comes
    /// from samples gets, with nine chances in ten, a tree at a random
    /// site; nothing else is left to chance. The flag that comes with the
    /// chunk says that it was generated and has to be stored.
    pub fn get_or_insert_chunk(&mut self, chunk_x: i32, chunk_z: i32, source: &ChunkSource) -> (result:
        Result<(&Chunk, bool), WorldError>)
        requires
            old(self).wf(),
        ensures
            final(self).wf(),
            exists|site: Option<(usize, usize)>|
                valid_site(site) && #[trigger] fetched(
                    old(self)@,
                    final(self)@,
                    (chunk_x, chunk_z),
                    *source,
                    site,
                    created_flag(result),
                ),
            result matches Ok((chunk, _)) ==> final(self)@.chunks.contains_key((chunk_x, chunk_z))
                && chunk@ == final(self)@.chunks[(chunk_x, chunk_z)],
    {
        let created = match self.insert_missing(chunk_x, chunk_z, source) {
            Ok(created) => created,
            Err(error) => {
                return Err(error);
            },
        };
        Ok((self.chunks.get(chunk_x, chunk_z).unwrap(), created))
    }

    /// Sets the block at a global coordinate. The chunk that holds the
    /// coordinate is fetched as by `get_or_insert_chunk`, the block is set
    /// in it, and what has to be written to the chunk's file is handed
    /// back. A height outside the world is refused before anything is
    /// fetched, and a refusal of any kind leaves the world as it was.
    pub fn set_block(
        &mut self,
        world_x: i32,
        world_y: i32,
        world_z: i32,
        block: BlockType,
        source: &ChunkSource,
    ) -> (result: Result<ChunkWrite, WorldError>)
        requires
            old(self).wf(),
        ensures
            final(self).wf(),
            exists|site: Option<(usize, usize)>|
                valid_site(site) && #[trigger] edited(
                    old(self)@,
                    final(self)@,
                    world_x,
                    world_y,
                    world_z,
                    block,
                    *source,
                    site,
                    error_of(result),
                ),
            result matches Ok(write) ==> write@ == final(self)@.chunk_write(
                (chunk_of(world_x as int) as i32, chunk_of(world_z as int) as i32),
            ),
    {
        let ghost before = self@;
        if world_y < 0 || world_y >= 256 {
            let error = WorldError::HeightOutOfRange { world_y };
            assert(edited(
                before,
                self@,
                world_x,
                world_y,
                world_z,
                block,
                *source,
                None,
                Some(error),
            ));
            return Err(error);
        }
        let (chunk_x, chunk_z, local_x, local_z) = self.localize_coords_to_chunk(world_x, world_z);
        let ghost at = (chunk_x, chunk_z);
        match self.insert_missing(chunk_x, chunk_z, source) {
            Ok(_) => {},
            Err(error) => {
                proof {
                    let site = choose|site: Option<(usize, usize)>|
                        valid_site(site) && #[trigger] fetched(
                            before,
                            self@,
                            at,
                            *source,
                            site,
                            Err(error),
                        );
                    assert(edited(
                        before,
                        self@,
                        world_x,
                        world_y,
                        world_z,
                        block,
                        *source,
                        site,
                        Some(error),
                    ));
                }
                return Err(error);
            },
        }
        let ghost site = choose|site: Option<(usize, usize)>|
            valid_site(site) && exists|created: bool| #[trigger]
                fetched(before, self@, at, *source, site, Ok(created));
        let ghost fetched_world = self@;
        let chunk = self.chunks.get_mut(chunk_x, chunk_z).unwrap();
        chunk.put_block(local_x, world_y as usize, local_z, block);
        let write = ChunkWrite { path: chunk.save_path().clone(), payload: chunk.payload() };
        proof {
            let after = fetched_world.chunks[at].edited(
                local_x as int,
                world_y as int,
                local_z as int,
                block,
            );
            assert(self@.chunks =~= fetched_world.chunks.insert(at, after));
            assert(edited(
                before,
                self@,
                world_x,
                world_y,
                world_z,
                block,
                *source,
                site,
                None,
            ));
        }
        Ok(write)
    }

    /// Fetches the chunks at the coordinates given, in their order, each
    /// as by `get_or_insert_chunk` with the source at the same position,
    /// and encodes them. A position for which no source was supplied has
    /// the absent source. The answer holds one entry for every chunk that
    /// was fetched, tagged with its coordinates. Fetching stops at the
    /// first chunk that cannot be fetched; the answer then names the
    /// reason and holds the chunks before that one.
    pub fn get_chunks(&mut self, coords: &Vec<(i32, i32)>, sources: &Vec<ChunkSource>) -> (batch:
        ChunkBatch)
        requires
            old(self).wf(),
        ensures
            final(self).wf(),
            exists|sites: Seq<Option<(usize, usize)>>|
                sites.len() == coords@.len() && valid_sites(sites) && #[trigger] served(
                    old(self)@,
                    final(self)@,
                    coords@,
                    sources@,
                    sites,
                    batch,
                ),
    {
        let ghost before = self@;
        let ghost mut sites: Seq<Option<(usize, usize)>> = Seq::empty();
        let absent = ChunkSource::Absent;
        let mut chunks: Vec<ChunkData> = Vec::new();
        let mut error: Option<WorldError> = None;
        let mut i: usize = 0;
        while i < coords.len() && error.is_none()
            invariant
                i <= coords.len(),
                self.wf(),
                absent == ChunkSource::Absent,
                sites.len() == i,
                valid_sites(sites),
                before.fetch_all(coords@, sources@, sites, i as int) == (
                    self@,
                    batch_view(chunks@),
                    error,
                ),
            decreases coords.len() - i + if error.is_none() { 1nat } else { 0nat },
        {
            let (chunk_x, chunk_z) = coords[i];
            let source = if i < sources.len() {
                &sources[i]
            } else {
                &absent
            };
            let ghost world = self@;
            let ghost served_chunks = batch_view(chunks@);
            let result = self.insert_missing(chunk_x, chunk_z, source);
            let ghost site = choose|site: Option<(usize, usize)>|
                valid_site(site) && #[trigger] fetched(
                    world,
                    self@,
                    (chunk_x, chunk_z),
                    *source,
                    site,
                    result,
                );
            proof {
                let grown = sites.push(site);
                lemma_fetch_all_prefix(before, coords@, sources@, sites, grown, i as int);
                sites = grown;
            }
            match result {
                Ok(created) => {
                    let payload = self.chunks.get(chunk_x, chunk_z).unwrap().payload();
                    chunks.push(ChunkData { chunk_x, chunk_z, payload, created });
                    assert(batch_view(chunks@) =~= served_chunks.push(
                        ChunkDataView {
                            chunk_x,
                            chunk_z,
                            payload: self@.chunks[(chunk_x, chunk_z)].payload(),
                            created,
                        },
                    ));
                },
                Err(found) => {
                    error = Some(found);
                },
            }
            i += 1;
        }
        proof {
            let rest = coords@.len() - i;
            let all = sites + Seq::new(rest as nat, |j: int| None::<(usize, usize)>);
            lemma_fetch_all_prefix(before, coords@, sources@, sites, all, i as int);
            lemma_fetch_all_stops(before, coords@, sources@, all, i as int, coords@.len() as int);
            assert(served(
                before,
                self@,
                coords@,
                sources@,
                all,
                ChunkBatch { chunks, error },
            ));
        }
        ChunkBatch { chunks, error }
    }

    /// Makes sure that the chunk at (x, z) is cached, see
    /// `get_or_insert_chunk`.
    fn insert_missing(&mut self, chunk_x: i32, chunk_z: i32, source: &ChunkSource) -> (result: Result<
        bool,
        WorldError,
    >)
        requires
            old(self).wf(),
        ensures
            final(self).wf(),
            exists|site: Option<(usize, usize)>|
                valid_site(site) && #[trigger] fetched(
                    old(self)@,
                    final(self)@,
                    (chunk_x, chunk_z),
                    *source,
                    site,
                    result,
                ),
            result is Ok ==> final(self)@.chunks.contains_key((chunk_x, chunk_z)),
    {
        let ghost at = (chunk_x, chunk_z);
        let ghost before = self@;
        if self.chunks.contains(chunk_x, chunk_z) {
            assert(fetched(before, self@, at, *source, None, Ok(false)));
            return Ok(false);
        }
        let dir = chunk_dir(self.save_dir.as_str());
        match source {
            ChunkSource::Absent => {
                assert(fetched(before, self@, at, *source, None, Err(WorldError::SourceRequired)));
                Err(WorldError::SourceRequired)
            },
            ChunkSource::Stored(payload) => {
                let path = chunk_path(dir.as_str(), chunk_x, chunk_z);
                match Chunk::from(path, payload, chunk_x, chunk_z) {
                    Ok(chunk) => {
                        self.chunks.insert(chunk_x, chunk_z, chunk);
                        assert(self@.chunks =~= before.chunks.insert(at, chunk@));
                        assert(fetched(before, self@, at, *source, None, Ok(false)));
                        Ok(false)
                    },
                    Err(error) => {
                        assert(fetched(
                            before,
                            self@,
                            at,
                            *source,
                            None,
                            Err(WorldError::Decode(error)),
                        ));
                        Err(WorldError::Decode(error))
                    },
                }
            },
            ChunkSource::Sampled(samples) => {
                match Chunk::new(chunk_x, chunk_z, samples, dir.as_str()) {
                    Ok(chunk) => {
                        let ghost site = choose|site: Option<(usize, usize)>|
                            valid_site(site) && chunk@ == #[trigger] chunk_of_grid(
                                dir@,
                                chunk_x as int,
                                chunk_z as int,
                                generated_grid(samples@, site),
                            );
                        self.chunks.insert(chunk_x, chunk_z, chunk);
                        assert(self@.chunks =~= before.chunks.insert(at, chunk@));
                        assert(fetched(before, self@, at, *source, site, Ok(true)));
                        Ok(true)
                    },
                    Err(error) => {
                        assert(fetched(
                            before,
                            self@,
                            at,
                            *source,
                            None,
                            Err(WorldError::Terrain(error)),
                        ));
                        Err(WorldError::Terrain(error))
                    },
                }
            },
        }
    }
}

/// Serving the first `n` requests depends on the first `n` sites only.
pub proof fn lemma_fetch_all_prefix(
    world: WorldView,
    coords: Seq<(i32, i32)>,
    sources: Seq<ChunkSource>,
    sites: Seq<Option<(usize, usize)>>,
    longer: Seq<Option<(usize, usize)>>,
    n: int,
)
    requires
        n <= sites.len() <= longer.len(),
        forall|i: int| 0 <= i < sites.len() ==> sites[i] == longer[i],
    ensures
        world.fetch_all(coords, sources, sites, n) == world.fetch_all(coords, sources, longer, n),
    decreases n,
{
    if n > 0 {
        lemma_fetch_all_prefix(world, coords, sources, sites, longer, n - 1);
    }
}

/// Once serving has stopped, or the requests have run out, nothing more
/// happens.
pub proof fn lemma_fetch_all_stops(
    world: WorldView,
    coords: Seq<(i32, i32)>,
    sources: Seq<ChunkSource>,
    sites: Seq<Option<(usize, usize)>>,
    n: int,
    m: int,
)
    requires
        0 <= n <= m,
        n == m || world.fetch_all(coords, sources, sites, n).2.is_some(),
    ensures
        world.fetch_all(coords, sources, sites, m) == world.fetch_all(coords, sources, sites, n),
    decreases m - n,
{
    if n < m {
        lemma_fetch_all_stops(world, coords, sources, sites, n, m - 1);
    }
}

/// The chunk coordinates of a global coordinate.
pub open spec fn chunk_at(world_x: i32, world_z: i32) -> (i32, i32) {
    (chunk_of(world_x as int) as i32, chunk_of(world_z as int) as i32)
}

/// The answer to a question for the highest block of a column, with the
/// height as a mathematical integer.
pub open spec fn top_of_cached(answer: Option<Option<usize>>) -> Option<Option<int>> {
    match answer {
        Some(top) => Some(top_as_int(top)),
        None => None,
    }
}

/// The error of a result, if it is one.
pub open spec fn error_of<T>(result: Result<T, WorldError>) -> Option<WorldError> {
    match result {
        Ok(_) => None,
        Err(error) => Some(error),
    }
}

/// The flag of a fetch without the chunk that came with it.
pub open spec fn created_flag(result: Result<(&Chunk, bool), WorldError>) -> Result<
    bool,
    WorldError,
> {
    match result {
        Ok((_, created)) => Ok(created),
        Err(error) => Err(error),
    }
}

} // verus!
