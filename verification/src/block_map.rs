//! The dense voxel grid of one chunk.

use crate::block_type::BlockType;
use vstd::arithmetic::div_mod::{lemma_fundamental_div_mod, lemma_fundamental_div_mod_converse};
use vstd::prelude::*;

verus! {

/// Extent of a chunk along x and along z.
pub const CHUNK_SIZE: usize = 16;

/// Extent of a chunk along y.
pub const CHUNK_HEIGHT: usize = 256;

/// Number of cells in one y-layer of a chunk.
pub const LAYER_CELLS: usize = 256;

/// Number of cells in a chunk.
pub const CHUNK_CELLS: usize = 65536;

/// A local coordinate lies inside a chunk.
pub open spec fn in_bounds(x: int, y: int, z: int) -> bool {
    0 <= x < CHUNK_SIZE && 0 <= y < CHUNK_HEIGHT && 0 <= z < CHUNK_SIZE
}

/// Position of a local coordinate in the flat grid: layers follow each
/// other from the bottom up, and inside a layer x is the major and z the
/// minor axis.
pub open spec fn cell_index(x: int, y: int, z: int) -> int {
    y * 256 + x * 16 + z
}

/// The local coordinate (x, y, z) of a position in the flat grid.
pub open spec fn cell_coord(index: int) -> (int, int, int) {
    ((index % 256) / 16, index / 256, index % 16)
}

/// The grid in which every cell is air.
pub open spec fn empty_grid() -> Seq<BlockType> {
    Seq::new(CHUNK_CELLS as nat, |i: int| BlockType::Air)
}

/// The highest y at or below `y` at which column (x, z) of `grid` holds a
/// block other than air; `None` if there is no such y.
pub open spec fn column_top(grid: Seq<BlockType>, x: int, z: int, y: int) -> Option<int>
    decreases y + 1,
{
    if y < 0 {
        None
    } else if grid[cell_index(x, y, z)] != BlockType::Air {
        Some(y)
    } else {
        column_top(grid, x, z, y - 1)
    }
}

/// The local coordinate of a position in the flat grid, as it stands in an
/// occupancy list.
pub open spec fn mesh_entry(index: int) -> (usize, usize, usize) {
    (cell_coord(index).0 as usize, cell_coord(index).1 as usize, cell_coord(index).2 as usize)
}

/// The position in the flat grid of an entry of an occupancy list.
pub open spec fn entry_index(entry: (usize, usize, usize)) -> int {
    cell_index(entry.0 as int, entry.1 as int, entry.2 as int)
}

/// Every entry of an occupancy list lies inside the chunk.
pub open spec fn mesh_in_bounds(mesh: Seq<(usize, usize, usize)>) -> bool {
    forall|i: int|
        0 <= i < mesh.len() ==> in_bounds(
            (#[trigger] mesh[i]).0 as int,
            mesh[i].1 as int,
            mesh[i].2 as int,
        )
}

/// An occupancy list belongs to a grid: it names every cell that is not
/// air, each once, and names nothing else.
pub open spec fn mesh_matches(mesh: Seq<(usize, usize, usize)>, grid: Seq<BlockType>) -> bool {
    &&& mesh_in_bounds(mesh)
    &&& mesh.no_duplicates()
    &&& forall|i: int|
        0 <= i < mesh.len() ==> grid[entry_index(#[trigger] mesh[i])] != BlockType::Air
    &&& forall|k: int|
        0 <= k < CHUNK_CELLS && #[trigger] grid[k] != BlockType::Air ==> mesh.contains(
            mesh_entry(k),
        )
}

/// The coordinates of the first `n` cells of a grid that are not air, in
/// flat order.
pub open spec fn occupied_upto(grid: Seq<BlockType>, n: int) -> Seq<(usize, usize, usize)>
    decreases n,
{
    if n <= 0 {
        Seq::empty()
    } else if grid[n - 1] != BlockType::Air {
        occupied_upto(grid, n - 1).push(mesh_entry(n - 1))
    } else {
        occupied_upto(grid, n - 1)
    }
}

/// The occupancy list of a grid in flat order: layers from the bottom
/// up, and inside a layer x major and z minor.
pub open spec fn occupied_cells(grid: Seq<BlockType>) -> Seq<(usize, usize, usize)> {
    occupied_upto(grid, CHUNK_CELLS as int)
}

/// A coordinate that lies outside the chunk it was used on.
#[derive(Debug, PartialEq, Eq, Clone, Copy, Structural)]
pub struct BoundsError {
    pub x: usize,
    pub y: usize,
    pub z: usize,
}

/// The voxel grid of one chunk: a material for every local coordinate,
/// air unless set otherwise.
#[derive(Debug, Clone, PartialEq, Eq)]
pub struct BlockMap {
    cells: Vec<BlockType>,
}

impl View for BlockMap {
    type V = Seq<BlockType>;

    /// The cells in flat order, see `cell_index`.
    closed spec fn view(&self) -> Seq<BlockType> {
        self.cells@
    }
}

impl BlockMap {
    /// The grid holds exactly one cell per local coordinate.
    pub open spec fn wf(&self) -> bool {
        self@.len() == CHUNK_CELLS
    }

    /// The material at a local coordinate.
    pub open spec fn at(&self, x: int, y: int, z: int) -> BlockType {
        self@[cell_index(x, y, z)]
    }

    /// A grid of air.
    pub fn new() -> (map: BlockMap)
        ensures
            map.wf(),
            map@ == empty_grid(),
    {
        let mut cells: Vec<BlockType> = Vec::new();
        let mut i: usize = 0;
        while i < CHUNK_CELLS
            invariant
                i <= CHUNK_CELLS,
                cells@.len() == i,
                forall|j: int| 0 <= j < i ==> cells@[j] == BlockType::Air,
            decreases CHUNK_CELLS - i,
        {
            cells.push(BlockType::Air);
            i += 1;
        }
        assert(cells@ =~= empty_grid());
        BlockMap { cells }
    }

    /// Reads the material at a local coordinate; a coordinate outside the
    /// chunk is rejected.
    pub fn get(&self, x: usize, y: usize, z: usize) -> (result: Result<BlockType, BoundsError>)
        requires
            self.wf(),
        ensures
            in_bounds(x as int, y as int, z as int) ==> result == Ok::<BlockType, BoundsError>(
                self.at(x as int, y as int, z as int),
            ),
            !in_bounds(x as int, y as int, z as int) ==> result == Err::<BlockType, BoundsError>(
                BoundsError { x, y, z },
            ),
    {
        if x < CHUNK_SIZE && y < CHUNK_HEIGHT && z < CHUNK_SIZE {
            Ok(self.cells[y * 256 + x * 16 + z])
        } else {
            Err(BoundsError { x, y, z })
        }
    }

    /// Writes the material at a local coordinate and leaves every other
    /// cell as it was; a coordinate outside the chunk is rejected and
    /// changes nothing.
    pub fn set(&mut self, x: usize, y: usize, z: usize, block: BlockType) -> (result: Result<
        (),
        BoundsError,
    >)
        requires
            old(self).wf(),
        ensures
            final(self).wf(),
            in_bounds(x as int, y as int, z as int) ==> result == Ok::<(), BoundsError>(())
                && final(self)@ == old(self)@.update(cell_index(x as int, y as int, z as int), block),
            !in_bounds(x as int, y as int, z as int) ==> result == Err::<(), BoundsError>(
                BoundsError { x, y, z },
            ) && final(self)@ == old(self)@,
    {
        if x < CHUNK_SIZE && y < CHUNK_HEIGHT && z < CHUNK_SIZE {
            self.cells.set(y * 256 + x * 16 + z, block);
            Ok(())
        } else {
            Err(BoundsError { x, y, z })
        }
    }

    /// The material at a position of the flat grid.
    pub(crate) fn cell(&self, index: usize) -> (block: BlockType)
        requires
            self.wf(),
            index < CHUNK_CELLS,
        ensures
            block == self@[index as int],
    {
        self.cells[index]
    }

    /// Writes the material at a position of the flat grid.
    pub(crate) fn set_cell(&mut self, index: usize, block: BlockType)
        requires
            old(self).wf(),
            index < CHUNK_CELLS,
        ensures
            final(self).wf(),
            final(self)@ == old(self)@.update(index as int, block),
    {
        self.cells.set(index, block);
    }

    /// The coordinates of all blocks other than air, in flat order.
    pub fn occupied_cells(&self) -> (mesh: Vec<(usize, usize, usize)>)
        requires
            self.wf(),
        ensures
            mesh@ == occupied_cells(self@),
            mesh_matches(mesh@, self@),
    {
        let mut mesh: Vec<(usize, usize, usize)> = Vec::new();
        let mut i: usize = 0;
        while i < CHUNK_CELLS
            invariant
                i <= CHUNK_CELLS,
                self.wf(),
                mesh@ == occupied_upto(self@, i as int),
            decreases CHUNK_CELLS - i,
        {
            if self.cells[i] != BlockType::Air {
                mesh.push(((i % 256) / 16, i / 256, i % 16));
            }
            i += 1;
        }
        proof {
            lemma_occupied_cells_match(self@);
        }
        mesh
    }

    /// The highest y of column (x, z) that holds a block other than air,
    /// or `None` for a column of air; a column outside the chunk is
    /// rejected.
    pub fn highest_in_column(&self, x: usize, z: usize) -> (result: Result<
        Option<usize>,
        BoundsError,
    >)
        requires
            self.wf(),
        ensures
            in_bounds(x as int, 0, z as int) ==> (result matches Ok(top) && top_as_int(top)
                == column_top(self@, x as int, z as int, CHUNK_HEIGHT - 1)),
            !in_bounds(x as int, 0, z as int) ==> result == Err::<Option<usize>, BoundsError>(
                BoundsError { x, y: 0, z },
            ),
    {
        if x < CHUNK_SIZE && z < CHUNK_SIZE {
            Ok(self.top_of_column(x, CHUNK_HEIGHT - 1, z))
        } else {
            Err(BoundsError { x, y: 0, z })
        }
    }

    /// The highest y at or below `y` at which column (x, z) holds a block
    /// other than air, or `None` if there is only air from `y` down; a
    /// coordinate outside the chunk is rejected.
    pub fn highest_in_column_from_y(&self, x: usize, y: usize, z: usize) -> (result: Result<
        Option<usize>,
        BoundsError,
    >)
        requires
            self.wf(),
        ensures
            in_bounds(x as int, y as int, z as int) ==> (result matches Ok(top) && top_as_int(top)
                == column_top(self@, x as int, z as int, y as int)),
            !in_bounds(x as int, y as int, z as int) ==> result == Err::<
                Option<usize>,
                BoundsError,
            >(BoundsError { x, y, z }),
    {
        if x < CHUNK_SIZE && y < CHUNK_HEIGHT && z < CHUNK_SIZE {
            Ok(self.top_of_column(x, y, z))
        } else {
            Err(BoundsError { x, y, z })
        }
    }

    /// The highest y at or below `y` at which column (x, z) holds a block
    /// other than air, for a coordinate inside the chunk.
    pub(crate) fn top_of_column(&self, x: usize, y: usize, z: usize) -> (top: Option<usize>)
        requires
            self.wf(),
            in_bounds(x as int, y as int, z as int),
        ensures
            top_as_int(top) == column_top(self@, x as int, z as int, y as int),
    {
        let mut cur: usize = y;
        loop
            invariant
                self.wf(),
                x < CHUNK_SIZE,
                z < CHUNK_SIZE,
                cur <= y < CHUNK_HEIGHT,
                column_top(self@, x as int, z as int, y as int) == column_top(
                    self@,
                    x as int,
                    z as int,
                    cur as int,
                ),
            decreases cur,
        {
            if self.cells[cur * 256 + x * 16 + z] != BlockType::Air {
                return Some(cur);
            }
            if cur == 0 {
                assert(column_top(self@, x as int, z as int, -1) is None);
                return None;
            }
            cur -= 1;
        }
    }
}

/// An optional height as an optional mathematical integer.
pub open spec fn top_as_int(top: Option<usize>) -> Option<int> {
    match top {
        Some(y) => Some(y as int),
        None => None,
    }
}

/// `cell_index` and `cell_coord` are inverse to each other on a chunk, so
/// distinct local coordinates are distinct cells.
pub proof fn lemma_cell_index_bijective(x: int, y: int, z: int)
    requires
        in_bounds(x, y, z),
    ensures
        0 <= cell_index(x, y, z) < CHUNK_CELLS,
        cell_coord(cell_index(x, y, z)) == (x, y, z),
{
    let index = cell_index(x, y, z);
    lemma_fundamental_div_mod_converse(index, 256, y, x * 16 + z);
    lemma_fundamental_div_mod_converse(x * 16 + z, 16, x, z);
    lemma_fundamental_div_mod_converse(index, 16, y * 16 + x, z);
}

/// Every position of the flat grid is the cell of one local coordinate.
pub proof fn lemma_cell_coord_in_bounds(index: int)
    requires
        0 <= index < CHUNK_CELLS,
    ensures
        in_bounds(cell_coord(index).0, cell_coord(index).1, cell_coord(index).2),
        cell_index(cell_coord(index).0, cell_coord(index).1, cell_coord(index).2) == index,
{
    let in_layer = index % 256;
    lemma_fundamental_div_mod(index, 256);
    lemma_fundamental_div_mod(in_layer, 16);
    lemma_fundamental_div_mod_converse(
        index,
        16,
        (index / 256) * 16 + in_layer / 16,
        in_layer % 16,
    );
}

/// The occupancy list of a grid in flat order belongs to that grid.
pub proof fn lemma_occupied_cells_match(grid: Seq<BlockType>)
    requires
        grid.len() == CHUNK_CELLS,
    ensures
        mesh_matches(occupied_cells(grid), grid),
{
    lemma_occupied_upto(grid, CHUNK_CELLS as int);
    let mesh = occupied_cells(grid);
    assert forall|i: int| 0 <= i < mesh.len() implies in_bounds(
        (#[trigger] mesh[i]).0 as int,
        mesh[i].1 as int,
        mesh[i].2 as int,
    ) by {
        assert(entry_index(mesh[i]) < CHUNK_CELLS);
    }
}

/// The entries of `occupied_upto(grid, n)` are cells below `n` that are
/// not air, no two of them the same, and none such is missing.
proof fn lemma_occupied_upto(grid: Seq<BlockType>, n: int)
    requires
        0 <= n <= CHUNK_CELLS,
        grid.len() == CHUNK_CELLS,
    ensures
        occupied_upto(grid, n).no_duplicates(),
        forall|i: int|
            0 <= i < occupied_upto(grid, n).len() ==> {
                let entry = #[trigger] occupied_upto(grid, n)[i];
                &&& in_bounds(entry.0 as int, entry.1 as int, entry.2 as int)
                &&& 0 <= entry_index(entry) < n
                &&& grid[entry_index(entry)] != BlockType::Air
            },
        forall|k: int|
            0 <= k < n && #[trigger] grid[k] != BlockType::Air ==> occupied_upto(grid, n).contains(
                mesh_entry(k),
            ),
    decreases n,
{
    if n > 0 {
        lemma_occupied_upto(grid, n - 1);
        let rest = occupied_upto(grid, n - 1);
        let all = occupied_upto(grid, n);
        lemma_cell_coord_in_bounds(n - 1);
        if grid[n - 1] != BlockType::Air {
            let added = mesh_entry(n - 1);
            assert(all == rest.push(added));
            assert(entry_index(added) == n - 1);
            assert forall|i: int, j: int| 0 <= i < all.len() && 0 <= j < all.len() && i
                != j implies all[i] != all[j] by {
                if i < rest.len() {
                    assert(all[i] == rest[i]);
                }
                if j < rest.len() {
                    assert(all[j] == rest[j]);
                }
            }
            assert forall|k: int| 0 <= k < n && #[trigger] grid[k]
                != BlockType::Air implies all.contains(mesh_entry(k)) by {
                if k < n - 1 {
                    let at = choose|i: int| 0 <= i < rest.len() && rest[i] == mesh_entry(k);
                    assert(all[at] == mesh_entry(k));
                } else {
                    assert(all[rest.len() as int] == added);
                }
            }
        }
    }
}

/// What `column_top` finds: the block at the result is not air and all
/// above it up to `y` is air, and without a result the column is air from
/// `y` down.
pub proof fn lemma_column_top(grid: Seq<BlockType>, x: int, z: int, y: int)
    ensures
        match column_top(grid, x, z, y) {
            Some(top) => 0 <= top <= y && grid[cell_index(x, top, z)] != BlockType::Air
                && forall|u: int| top < u <= y ==> grid[cell_index(x, u, z)] == BlockType::Air,
            None => forall|u: int| 0 <= u <= y ==> grid[cell_index(x, u, z)] == BlockType::Air,
        },
    decreases y + 1,
{
    if y >= 0 && grid[cell_index(x, y, z)] == BlockType::Air {
        lemma_column_top(grid, x, z, y - 1);
    }
}

} // verus!
