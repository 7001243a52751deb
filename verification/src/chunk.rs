//! One chunk of the world: its grid, the list of its blocks other than
//! air, its coordinates and the path it is stored under.

use crate::block_map::{
    cell_index, column_top, entry_index, in_bounds, lemma_cell_coord_in_bounds,
    lemma_cell_index_bijective, lemma_occupied_cells_match, mesh_entry, mesh_matches,
    occupied_cells, top_as_int, BlockMap, BoundsError, CHUNK_CELLS,
};
pub use crate::block_map::{CHUNK_HEIGHT, CHUNK_SIZE};
use crate::block_type::BlockType;
use crate::chunk_utils::{
    encode_chunk, from_serialized, spec_from_serialized, spec_to_serialized, BlocksInMesh,
    DecodeError,
};
use crate::layout::{chunk_path, spec_chunk_path};
use crate::terrain::{
    generate_terrain, generated_grid, is_tree_site, roll_tree_site, sample_error, ColumnSample,
    TerrainError,
};
use vstd::prelude::*;

verus! {

/// What a chunk is, as plain mathematical values.
pub struct ChunkView {
    /// Chunk coordinate along x.
    pub x: int,
    /// Chunk coordinate along z.
    pub z: int,
    /// The path the chunk is stored under.
    pub save_path: Seq<char>,
    /// The cells in flat order.
    pub grid: Seq<BlockType>,
    /// The occupancy list.
    pub mesh: Seq<(usize, usize, usize)>,
}

impl ChunkView {
    /// The occupancy list names exactly the blocks of the grid that are
    /// not air, each once.
    pub open spec fn wf(self) -> bool {
        &&& self.grid.len() == CHUNK_CELLS
        &&& mesh_matches(self.mesh, self.grid)
    }

    /// The material at a local coordinate.
    pub open spec fn at(self, x: int, y: int, z: int) -> BlockType {
        self.grid[cell_index(x, y, z)]
    }

    /// The chunk after the block at a local coordinate was set.
    pub open spec fn edited(self, x: int, y: int, z: int, block: BlockType) -> ChunkView {
        ChunkView {
            grid: self.grid.update(cell_index(x, y, z), block),
            mesh: mesh_after_edit(
                self.mesh,
                (x as usize, y as usize, z as usize),
                self.at(x, y, z),
                block,
            ),
            ..self
        }
    }

    /// The payload under which the chunk is stored and sent.
    pub open spec fn payload(self) -> Seq<u8> {
        spec_to_serialized(self.mesh, self.grid)
    }
}

/// The chunk at (x, z) that is kept in `chunk_dir` and holds `grid`.
pub open spec fn chunk_of_grid(chunk_dir: Seq<char>, x: int, z: int, grid: Seq<BlockType>) -> ChunkView {
    ChunkView {
        x,
        z,
        save_path: spec_chunk_path(chunk_dir, x, z),
        grid,
        mesh: occupied_cells(grid),
    }
}

/// A tree was tried nowhere, or at a site that keeps the margin from the
/// chunk's edge.
pub open spec fn valid_site(site: Option<(usize, usize)>) -> bool {
    site matches Some(at) ==> is_tree_site(at)
}

/// A 16 x 256 x 16 column of voxels at integer chunk coordinates.
#[derive(Debug, Clone)]
pub struct Chunk {
    blocks: BlockMap,
    blocks_in_mesh: BlocksInMesh,
    x: i32,
    z: i32,
    save_path: String,
}

impl View for Chunk {
    type V = ChunkView;

    closed spec fn view(&self) -> ChunkView {
        ChunkView {
            x: self.x as int,
            z: self.z as int,
            save_path: self.save_path@,
            grid: self.blocks@,
            mesh: self.blocks_in_mesh@,
        }
    }
}

/// The occupancy list after the block at `entry` changed from `before`
/// to `after`: a block that replaces air is added at the end, a block
/// that gives way to air is taken out, and the rest keeps its order.
pub open spec fn mesh_after_edit(
    mesh: Seq<(usize, usize, usize)>,
    entry: (usize, usize, usize),
    before: BlockType,
    after: BlockType,
) -> Seq<(usize, usize, usize)> {
    if before == BlockType::Air && after != BlockType::Air {
        mesh.push(entry)
    } else if before != BlockType::Air && after == BlockType::Air {
        mesh.remove(mesh.index_of(entry))
    } else {
        mesh
    }
}

impl Chunk {
    /// The occupancy list names exactly the blocks of the grid that are
    /// not air, each once.
    pub open spec fn wf(&self) -> bool {
        self@.wf()
    }

    /// The material at a local coordinate.
    pub open spec fn at(&self, x: int, y: int, z: int) -> BlockType {
        self@.at(x, y, z)
    }

    /// Generates the chunk at (x, z) of the world kept in `chunk_dir`
    /// from its samples: the base terrain, and with nine chances in ten a
    /// tree at a random site, where one can stand there. Which site is
    /// tried, if any, is not determined; the rest is.
    pub fn new(x_offset: i32, z_offset: i32, samples: &Vec<ColumnSample>, chunk_dir: &str) -> (result:
        Result<Chunk, TerrainError>)
        ensures
            match sample_error(samples@) {
                Some(error) => result matches Err(found) && found == error,
                None => result matches Ok(chunk) && chunk.wf() && exists|
                    site: Option<(usize, usize)>,
                |
                    valid_site(site) && chunk@ == #[trigger] chunk_of_grid(
                        chunk_dir@,
                        x_offset as int,
                        z_offset as int,
                        generated_grid(samples@, site),
                    ),
            },
    {
        let site = roll_tree_site();
        Chunk::generate(x_offset, z_offset, samples, site, chunk_dir)
    }

    /// Generates the chunk at (x, z) of the world kept in `chunk_dir`
    /// from its samples and the site at which a tree is tried, if any.
    pub fn generate(
        x_offset: i32,
        z_offset: i32,
        samples: &Vec<ColumnSample>,
        site: Option<(usize, usize)>,
        chunk_dir: &str,
    ) -> (result: Result<Chunk, TerrainError>)
        ensures
            match sample_error(samples@) {
                Some(error) => result matches Err(found) && found == error,
                None => result matches Ok(chunk) && chunk.wf() && chunk@ == chunk_of_grid(
                    chunk_dir@,
                    x_offset as int,
                    z_offset as int,
                    generated_grid(samples@, site),
                ),
            },
    {
        match generate_terrain(samples, site) {
            Ok(blocks) => Ok(
                Chunk::from_blocks(chunk_path(chunk_dir, x_offset, z_offset), blocks, x_offset, z_offset),
            ),
            Err(error) => Err(error),
        }
    }

    /// Builds the chunk at (x, z) from the payload it was stored as.
    pub fn from(save_path: String, contents: &Vec<u8>, x: i32, z: i32) -> (result: Result<
        Chunk,
        DecodeError,
    >)
        ensures
            match spec_from_serialized(contents@) {
                Ok(grid) => result matches Ok(chunk) && chunk.wf() && chunk@ == (ChunkView {
                    x: x as int,
                    z: z as int,
                    save_path: save_path@,
                    grid,
                    mesh: occupied_cells(grid),
                }),
                Err(error) => result matches Err(found) && found == error,
            },
    {
        match from_serialized(contents) {
            Ok((blocks_in_mesh, blocks)) => {
                proof {
                    lemma_occupied_cells_match(blocks@);
                }
                Ok(Chunk { blocks, blocks_in_mesh, x, z, save_path })
            },
            Err(error) => Err(error),
        }
    }

    /// Builds the chunk at (x, z) around a grid.
    pub fn from_blocks(save_path: String, blocks: BlockMap, x: i32, z: i32) -> (chunk: Chunk)
        requires
            blocks.wf(),
        ensures
            chunk.wf(),
            chunk@ == (ChunkView {
                x: x as int,
                z: z as int,
                save_path: save_path@,
                grid: blocks@,
                mesh: occupied_cells(blocks@),
            }),
    {
        let blocks_in_mesh = blocks.occupied_cells();
        Chunk { blocks, blocks_in_mesh, x, z, save_path }
    }

    /// Chunk coordinate along x.
    pub fn x(&self) -> (x: i32)
        ensures
            x == self@.x,
    {
        self.x
    }

    /// Chunk coordinate along z.
    pub fn z(&self) -> (z: i32)
        ensures
            z == self@.z,
    {
        self.z
    }

    /// The path the chunk is stored under.
    pub fn save_path(&self) -> (path: &String)
        ensures
            path@ == self@.save_path,
    {
        &self.save_path
    }

    /// The grid.
    pub fn blocks(&self) -> (blocks: &BlockMap)
        ensures
            blocks@ == self@.grid,
    {
        &self.blocks
    }

    /// The occupancy list.
    pub fn blocks_in_mesh(&self) -> (mesh: &BlocksInMesh)
        ensures
            mesh@ == self@.mesh,
    {
        &self.blocks_in_mesh
    }

    /// The payload under which the chunk is stored and sent.
    pub fn payload(&self) -> (payload: Vec<u8>)
        requires
            self.wf(),
        ensures
            payload@ == self@.payload(),
    {
        encode_chunk(&self.blocks_in_mesh, &self.blocks)
    }

    /// Reads the material at a local coordinate; a coordinate outside the
    /// chunk is rejected.
    pub fn get_block(&self, x: usize, y: usize, z: usize) -> (result: Result<
        BlockType,
        BoundsError,
    >)
        requires
            self.wf(),
        ensures
            in_bounds(x as int, y as int, z as int) ==> result == Ok::<BlockType, BoundsError>(
                self.at(x as int, y as int, z as int),
            ),
            !in_bounds(x as int, y as int, z as int) ==> result == Err::<BlockType, BoundsError>(
                BoundsError { x, y, z },
            ),
    {
        self.blocks.get(x, y, z)
    }

    /// Sets the material at a local coordinate and keeps the occupancy
    /// list in step: a block that replaces air is added to the list, a
    /// block replaced by air is taken out of it, and nothing is ever
    /// listed twice. A coordinate outside the chunk is rejected and
    /// changes nothing.
    pub fn set_block(&mut self, x: usize, y: usize, z: usize, block: BlockType) -> (result: Result<
        (),
        BoundsError,
    >)
        requires
            old(self).wf(),
        ensures
            final(self).wf(),
            in_bounds(x as int, y as int, z as int) ==> result == Ok::<(), BoundsError>(())
                && final(self)@ == old(self)@.edited(x as int, y as int, z as int, block),
            !in_bounds(x as int, y as int, z as int) ==> result == Err::<(), BoundsError>(
                BoundsError { x, y, z },
            ) && final(self)@ == old(self)@,
    {
        if x < CHUNK_SIZE && y < CHUNK_HEIGHT && z < CHUNK_SIZE {
            self.put_block(x, y, z, block);
            Ok(())
        } else {
            Err(BoundsError { x, y, z })
        }
    }

    /// Sets the material at a local coordinate inside the chunk, see
    /// `set_block`.
    pub(crate) fn put_block(&mut self, x: usize, y: usize, z: usize, block: BlockType)
        requires
            old(self).wf(),
            in_bounds(x as int, y as int, z as int),
        ensures
            final(self).wf(),
            final(self)@ == old(self)@.edited(x as int, y as int, z as int, block),
    {
        let before = self.blocks.cell(y * 256 + x * 16 + z);
        let ghost old_grid = self.blocks@;
        let ghost old_mesh = self.blocks_in_mesh@;
        let ghost target = cell_index(x as int, y as int, z as int);
        proof {
            lemma_cell_index_bijective(x as int, y as int, z as int);
        }
        self.blocks.set_cell(y * 256 + x * 16 + z, block);
        if before == BlockType::Air && block != BlockType::Air {
            self.blocks_in_mesh.push((x, y, z));
            proof {
                lemma_mesh_gains(old_mesh, old_grid, (x, y, z), block);
            }
        } else if before != BlockType::Air && block == BlockType::Air {
            let at = find_entry(&self.blocks_in_mesh, x, y, z);
            proof {
                assert(old_mesh.contains(mesh_entry(target)));
                lemma_mesh_loses(old_mesh, old_grid, (x, y, z));
            }
            let found = at.unwrap();
            self.blocks_in_mesh.remove(found);
        } else {
            proof {
                lemma_mesh_stays(old_mesh, old_grid, (x, y, z), block);
            }
        }
    }

    /// The highest y of column (x, z) that holds a block other than air,
    /// or `None` for a column of air; a column outside the chunk is
    /// rejected.
    pub fn highest_in_column(&self, x: usize, z: usize) -> (result: Result<
        Option<usize>,
        BoundsError,
    >)
        requires
            self.wf(),
        ensures
            in_bounds(x as int, 0, z as int) ==> (result matches Ok(top) && top_as_int(top)
                == column_top(self@.grid, x as int, z as int, CHUNK_HEIGHT - 1)),
            !in_bounds(x as int, 0, z as int) ==> result == Err::<Option<usize>, BoundsError>(
                BoundsError { x, y: 0, z },
            ),
    {
        self.blocks.highest_in_column(x, z)
    }

    /// The highest y of column (x, z) that holds a block other than air,
    /// for a column inside the chunk.
    pub(crate) fn top_of_column(&self, x: usize, z: usize) -> (top: Option<usize>)
        requires
            self.wf(),
            in_bounds(x as int, 0, z as int),
        ensures
            top_as_int(top) == column_top(self@.grid, x as int, z as int, CHUNK_HEIGHT - 1),
    {
        self.blocks.top_of_column(x, CHUNK_HEIGHT - 1, z)
    }
}

/// Setting a block keeps a chunk well formed, puts the block where it
/// was set and leaves every other block as it was.
pub proof fn lemma_edited(chunk: ChunkView, x: int, y: int, z: int, block: BlockType)
    requires
        chunk.wf(),
        in_bounds(x, y, z),
    ensures
        chunk.edited(x, y, z, block).wf(),
        chunk.edited(x, y, z, block).at(x, y, z) == block,
        forall|ox: int, oy: int, oz: int|
            in_bounds(ox, oy, oz) && (ox, oy, oz) != (x, y, z) ==> #[trigger] chunk.edited(
                x,
                y,
                z,
                block,
            ).at(ox, oy, oz) == chunk.at(ox, oy, oz),
{
    let entry = (x as usize, y as usize, z as usize);
    let before = chunk.at(x, y, z);
    lemma_cell_index_bijective(x, y, z);
    if before == BlockType::Air && block != BlockType::Air {
        lemma_mesh_gains(chunk.mesh, chunk.grid, entry, block);
    } else if before != BlockType::Air && block == BlockType::Air {
        lemma_mesh_loses(chunk.mesh, chunk.grid, entry);
    } else {
        lemma_mesh_stays(chunk.mesh, chunk.grid, entry, block);
    }
    assert forall|ox: int, oy: int, oz: int|
        in_bounds(ox, oy, oz) && (ox, oy, oz) != (x, y, z) implies #[trigger] chunk.edited(
        x,
        y,
        z,
        block,
    ).at(ox, oy, oz) == chunk.at(ox, oy, oz) by {
        lemma_cell_index_bijective(ox, oy, oz);
    }
}

/// A chunk built around a grid is well formed.
pub proof fn lemma_chunk_of_grid(chunk_dir: Seq<char>, x: int, z: int, grid: Seq<BlockType>)
    requires
        grid.len() == CHUNK_CELLS,
    ensures
        chunk_of_grid(chunk_dir, x, z, grid).wf(),
{
    lemma_occupied_cells_match(grid);
}

/// The position of a coordinate in an occupancy list, if it is listed.
fn find_entry(mesh: &BlocksInMesh, x: usize, y: usize, z: usize) -> (found: Option<usize>)
    ensures
        match found {
            Some(i) => i < mesh@.len() && mesh@[i as int] == (x, y, z) && forall|j: int|
                0 <= j < i ==> mesh@[j] != (x, y, z),
            None => !mesh@.contains((x, y, z)),
        },
{
    let mut i: usize = 0;
    while i < mesh.len()
        invariant
            i <= mesh.len(),
            forall|j: int| 0 <= j < i ==> mesh@[j] != (x, y, z),
        decreases mesh.len() - i,
    {
        let (ex, ey, ez) = mesh[i];
        if ex == x && ey == y && ez == z {
            return Some(i);
        }
        i += 1;
    }
    None
}

/// Adding a block where air was adds its coordinate to the list.
proof fn lemma_mesh_gains(
    mesh: Seq<(usize, usize, usize)>,
    grid: Seq<BlockType>,
    entry: (usize, usize, usize),
    block: BlockType,
)
    requires
        grid.len() == CHUNK_CELLS,
        mesh_matches(mesh, grid),
        in_bounds(entry.0 as int, entry.1 as int, entry.2 as int),
        grid[entry_index(entry)] == BlockType::Air,
        block != BlockType::Air,
    ensures
        mesh_matches(mesh.push(entry), grid.update(entry_index(entry), block)),
{
    let target = entry_index(entry);
    let grown = mesh.push(entry);
    let after = grid.update(target, block);
    lemma_cell_index_bijective(entry.0 as int, entry.1 as int, entry.2 as int);
    assert forall|i: int| 0 <= i < mesh.len() implies entry_index(#[trigger] mesh[i])
        != target by {
        assert(grid[entry_index(mesh[i])] != BlockType::Air);
    }
    assert forall|i: int| 0 <= i < grown.len() implies in_bounds(
        (#[trigger] grown[i]).0 as int,
        grown[i].1 as int,
        grown[i].2 as int,
    ) && after[entry_index(grown[i])] != BlockType::Air by {
        if i < mesh.len() {
            assert(grown[i] == mesh[i]);
            lemma_cell_index_bijective(mesh[i].0 as int, mesh[i].1 as int, mesh[i].2 as int);
        }
    }
    assert forall|i: int, j: int| 0 <= i < grown.len() && 0 <= j < grown.len() && i
        != j implies grown[i] != grown[j] by {
        if i < mesh.len() {
            assert(grown[i] == mesh[i]);
        }
        if j < mesh.len() {
            assert(grown[j] == mesh[j]);
        }
    }
    assert forall|k: int| 0 <= k < CHUNK_CELLS && #[trigger] after[k]
        != BlockType::Air implies grown.contains(mesh_entry(k)) by {
        if k == target {
            assert(grown[mesh.len() as int] == mesh_entry(k));
        } else {
            assert(grid[k] != BlockType::Air);
            let i = choose|i: int| 0 <= i < mesh.len() && mesh[i] == mesh_entry(k);
            assert(grown[i] == mesh_entry(k));
        }
    }
}

/// Putting air where a block was takes its coordinate out of the list.
proof fn lemma_mesh_loses(
    mesh: Seq<(usize, usize, usize)>,
    grid: Seq<BlockType>,
    entry: (usize, usize, usize),
)
    requires
        grid.len() == CHUNK_CELLS,
        mesh_matches(mesh, grid),
        in_bounds(entry.0 as int, entry.1 as int, entry.2 as int),
        grid[entry_index(entry)] != BlockType::Air,
    ensures
        mesh.contains(entry),
        0 <= mesh.index_of(entry) < mesh.len(),
        mesh[mesh.index_of(entry)] == entry,
        forall|i: int| 0 <= i < mesh.len() && mesh[i] == entry ==> i == mesh.index_of(entry),
        mesh_matches(
            mesh.remove(mesh.index_of(entry)),
            grid.update(entry_index(entry), BlockType::Air),
        ),
{
    let target = entry_index(entry);
    lemma_cell_index_bijective(entry.0 as int, entry.1 as int, entry.2 as int);
    assert(mesh.contains(mesh_entry(target)));
    let witness = choose|i: int| 0 <= i < mesh.len() && mesh[i] == entry;
    let at = mesh.index_of(entry);
    assert(0 <= at < mesh.len() && mesh[at] == entry);
    let shrunk = mesh.remove(at);
    let after = grid.update(target, BlockType::Air);
    assert forall|i: int| 0 <= i < shrunk.len() implies in_bounds(
        (#[trigger] shrunk[i]).0 as int,
        shrunk[i].1 as int,
        shrunk[i].2 as int,
    ) && after[entry_index(shrunk[i])] != BlockType::Air && shrunk[i] != entry by {
        let from = if i < at {
            i
        } else {
            i + 1
        };
        assert(shrunk[i] == mesh[from]);
        assert(mesh[from] != mesh[at]);
        lemma_cell_index_bijective(
            mesh[from].0 as int,
            mesh[from].1 as int,
            mesh[from].2 as int,
        );
        assert(grid[entry_index(mesh[from])] != BlockType::Air);
    }
    assert forall|i: int, j: int| 0 <= i < shrunk.len() && 0 <= j < shrunk.len() && i
        != j implies shrunk[i] != shrunk[j] by {
        let from_i = if i < at {
            i
        } else {
            i + 1
        };
        let from_j = if j < at {
            j
        } else {
            j + 1
        };
        assert(shrunk[i] == mesh[from_i]);
        assert(shrunk[j] == mesh[from_j]);
    }
    assert forall|k: int| 0 <= k < CHUNK_CELLS && #[trigger] after[k]
        != BlockType::Air implies shrunk.contains(mesh_entry(k)) by {
        assert(k != target);
        assert(grid[k] != BlockType::Air);
        let i = choose|i: int| 0 <= i < mesh.len() && mesh[i] == mesh_entry(k);
        lemma_cell_coord_in_bounds(k);
        assert(mesh[i] != entry);
        if i < at {
            assert(shrunk[i] == mesh[i]);
        } else {
            assert(shrunk[i - 1] == mesh[i]);
        }
    }
}

/// Replacing a block by a block, or air by air, leaves the list as it is.
proof fn lemma_mesh_stays(
    mesh: Seq<(usize, usize, usize)>,
    grid: Seq<BlockType>,
    entry: (usize, usize, usize),
    block: BlockType,
)
    requires
        grid.len() == CHUNK_CELLS,
        mesh_matches(mesh, grid),
        in_bounds(entry.0 as int, entry.1 as int, entry.2 as int),
        (grid[entry_index(entry)] == BlockType::Air) == (block == BlockType::Air),
    ensures
        mesh_matches(mesh, grid.update(entry_index(entry), block)),
{
    let target = entry_index(entry);
    let after = grid.update(target, block);
    lemma_cell_index_bijective(entry.0 as int, entry.1 as int, entry.2 as int);
    assert forall|i: int| 0 <= i < mesh.len() implies after[entry_index(#[trigger] mesh[i])]
        != BlockType::Air by {
        assert(grid[entry_index(mesh[i])] != BlockType::Air);
        lemma_cell_index_bijective(mesh[i].0 as int, mesh[i].1 as int, mesh[i].2 as int);
    }
    assert forall|k: int| 0 <= k < CHUNK_CELLS && #[trigger] after[k]
        != BlockType::Air implies mesh.contains(mesh_entry(k)) by {
        assert(grid[k] != BlockType::Air);
    }
}

} // verus!
