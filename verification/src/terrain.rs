//! Terrain generation: the blocks of a chunk from one height sample per
//! column, and the tree that may stand on it.
//!
//! The samples come from coherent noise and are a function of the chunk
//! coordinates and the world seed. Everything here is a function of the
//! samples, except the choice of where a tree is tried, which is random.

use crate::block_map::{
    cell_coord, cell_index, column_top, lemma_cell_coord_in_bounds, lemma_cell_index_bijective,
    lemma_column_top, BlockMap, CHUNK_CELLS, CHUNK_HEIGHT, CHUNK_SIZE, LAYER_CELLS,
};
use crate::block_type::BlockType;
use crate::random::random_below;
use vstd::prelude::*;

verus! {

/// Columns lower than this are shoreline.
pub const SHORE_LIMIT: usize = 10;

/// Height up to which a shoreline column is filled with sand and water.
pub const WATER_LEVEL: usize = 9;

/// Height around which, shifted by the snow offset of the column, the
/// surface turns to stone and then to snow.
pub const SNOW_LINE: usize = 30;

/// Height above which the layer under the surface is stone, not dirt.
pub const DIRT_LIMIT: usize = 20;

/// A tree is tried with a chance of `TREE_CHANCE` in `TREE_ODDS`.
pub const TREE_CHANCE: u32 = 9;

/// See `TREE_CHANCE`.
pub const TREE_ODDS: u32 = 10;

/// A tree site keeps this distance from the chunk's edge.
pub const TREE_MARGIN: usize = 3;

/// Number of positions along one axis at which a tree site may lie.
pub const TREE_SPAN: u32 = 11;

/// Number of blocks the crown of a tree rises above its ground.
pub const TREE_HEIGHT: usize = 5;

/// Number of blocks of log in the trunk of a tree.
pub const TRUNK_HEIGHT: usize = 3;

/// What the noise says of one column: the height level, which is the
/// noise-derived height factor scaled and cut to an integer, and the
/// offset by which the snow line is shifted there.
#[derive(Debug, PartialEq, Eq, Clone, Copy, Structural)]
pub struct ColumnSample {
    pub level: usize,
    pub snow_offset: usize,
}

/// Why a set of samples gives no terrain.
#[derive(Debug, PartialEq, Eq, Clone, Copy, Structural)]
pub enum TerrainError {
    /// There is not one sample for each column of the chunk.
    SampleCount,
    /// A sample asks for a column higher than the chunk.
    ColumnTooHigh,
}

/// The height of the column that a sample asks for.
pub open spec fn column_height(sample: ColumnSample) -> int {
    sample.level + 1
}

/// The block on top of a column that is no shoreline.
pub open spec fn surface_block(height: int, snow_offset: int) -> BlockType {
    if height > SNOW_LINE + snow_offset {
        BlockType::Snow
    } else if height > SNOW_LINE - snow_offset {
        BlockType::Stone
    } else if height == SHORE_LIMIT {
        BlockType::Sand
    } else {
        BlockType::Grass
    }
}

/// The block at height `y` of a column of the given height.
///
/// A column below the shore limit is shoreline: sand under its own
/// height, water above that up to the water level. Any other column has
/// its surface block on top, dirt or stone right under it and stone
/// below. Above the column is air.
pub open spec fn column_block(height: int, snow_offset: int, y: int) -> BlockType {
    if height < SHORE_LIMIT {
        if y >= WATER_LEVEL {
            BlockType::Air
        } else if y < height - 1 {
            BlockType::Sand
        } else {
            BlockType::Water
        }
    } else if y >= height {
        BlockType::Air
    } else if y == height - 1 {
        surface_block(height, snow_offset)
    } else if y > height - 3 {
        if height > DIRT_LIMIT {
            BlockType::Stone
        } else {
            BlockType::Dirt
        }
    } else {
        BlockType::Stone
    }
}

/// What is wrong with a set of samples, if anything.
pub open spec fn sample_error(samples: Seq<ColumnSample>) -> Option<TerrainError> {
    if samples.len() != LAYER_CELLS {
        Some(TerrainError::SampleCount)
    } else if exists|i: int| 0 <= i < samples.len() && column_height(#[trigger] samples[i])
        > CHUNK_HEIGHT {
        Some(TerrainError::ColumnTooHigh)
    } else {
        None
    }
}

/// The sample of column (x, z): samples are x major and z minor.
pub open spec fn sample_at(samples: Seq<ColumnSample>, x: int, z: int) -> ColumnSample {
    samples[x * 16 + z]
}

/// The grid of the base terrain that a set of samples asks for.
pub open spec fn base_terrain(samples: Seq<ColumnSample>) -> Seq<BlockType> {
    Seq::new(
        CHUNK_CELLS as nat,
        |k: int|
            {
                let (x, y, z) = cell_coord(k);
                let sample = sample_at(samples, x, z);
                column_block(column_height(sample), sample.snow_offset as int, y)
            },
    )
}

/// A tree grows on this ground.
pub open spec fn supports_tree(ground: BlockType) -> bool {
    ground != BlockType::Water && ground != BlockType::Stone && ground != BlockType::Sand
        && ground != BlockType::Snow
}

/// The height of the ground on which a tree at column (x, z) would
/// stand, if a tree can stand there: the column is not on the chunk's
/// edge, it has a topmost block, that block supports a tree and the crown
/// stays inside the chunk.
pub open spec fn tree_ground(grid: Seq<BlockType>, x: int, z: int) -> Option<int> {
    if 1 <= x < CHUNK_SIZE - 1 && 1 <= z < CHUNK_SIZE - 1 {
        match column_top(grid, x, z, CHUNK_HEIGHT - 1) {
            Some(top) => if top + TREE_HEIGHT < CHUNK_HEIGHT && supports_tree(
                grid[cell_index(x, top, z)],
            ) {
                Some(top)
            } else {
                None
            },
            None => None,
        }
    } else {
        None
    }
}

/// The block of a tree at an offset from the ground block under its
/// trunk: a trunk of three blocks of log, leaves in a ring around the top
/// of the trunk, and above the trunk leaves in a cross of five and a
/// single block on top.
pub open spec fn tree_block(dx: int, dy: int, dz: int) -> Option<BlockType> {
    if 1 <= dy <= TRUNK_HEIGHT && dx == 0 && dz == 0 {
        Some(BlockType::Log)
    } else if dy == TRUNK_HEIGHT && -1 <= dx <= 1 && -1 <= dz <= 1 {
        Some(BlockType::Leaves)
    } else if dy == 4 && ((dx == 0 && -1 <= dz <= 1) || (dz == 0 && -1 <= dx <= 1)) {
        Some(BlockType::Leaves)
    } else if dy == 5 && dx == 0 && dz == 0 {
        Some(BlockType::Leaves)
    } else {
        None
    }
}

/// The grid with a tree on column (x, z), or the grid as it is where no
/// tree can stand there.
pub open spec fn with_tree(grid: Seq<BlockType>, x: int, z: int) -> Seq<BlockType> {
    match tree_ground(grid, x, z) {
        Some(top) => Seq::new(
            grid.len(),
            |k: int|
                {
                    let (cx, cy, cz) = cell_coord(k);
                    match tree_block(cx - x, cy - top, cz - z) {
                        Some(block) => block,
                        None => grid[k],
                    }
                },
        ),
        None => grid,
    }
}

/// A column at which a tree may be tried: it keeps the margin from the
/// chunk's edge.
pub open spec fn is_tree_site(site: (usize, usize)) -> bool {
    TREE_MARGIN <= site.0 < TREE_MARGIN + TREE_SPAN && TREE_MARGIN <= site.1 < TREE_MARGIN
        + TREE_SPAN
}

/// The grid of a generated chunk: the base terrain, with a tree where one
/// was tried and can stand.
pub open spec fn generated_grid(samples: Seq<ColumnSample>, site: Option<(usize, usize)>) -> Seq<
    BlockType,
> {
    match site {
        Some((x, z)) => with_tree(base_terrain(samples), x as int, z as int),
        None => base_terrain(samples),
    }
}

/// A generated grid has one cell for every local coordinate.
pub proof fn lemma_generated_grid_len(samples: Seq<ColumnSample>, site: Option<(usize, usize)>)
    ensures
        generated_grid(samples, site).len() == CHUNK_CELLS,
{
}

/// The block at height `y` of a column of the given height.
pub fn column_block_at(height: usize, snow_offset: usize, y: usize) -> (block: BlockType)
    ensures
        block == column_block(height as int, snow_offset as int, y as int),
{
    if height < SHORE_LIMIT {
        if y >= WATER_LEVEL {
            BlockType::Air
        } else if y + 1 < height {
            BlockType::Sand
        } else {
            BlockType::Water
        }
    } else if y >= height {
        BlockType::Air
    } else if y == height - 1 {
        if height > SNOW_LINE && height - SNOW_LINE > snow_offset {
            BlockType::Snow
        } else if snow_offset >= SNOW_LINE || height > SNOW_LINE - snow_offset {
            BlockType::Stone
        } else if height == SHORE_LIMIT {
            BlockType::Sand
        } else {
            BlockType::Grass
        }
    } else if height - y < 3 {
        if height > DIRT_LIMIT {
            BlockType::Stone
        } else {
            BlockType::Dirt
        }
    } else {
        BlockType::Stone
    }
}

/// Checks a set of samples: one for each column, none higher than the
/// chunk.
pub fn check_samples(samples: &Vec<ColumnSample>) -> (result: Result<(), TerrainError>)
    ensures
        match sample_error(samples@) {
            Some(error) => result == Err::<(), TerrainError>(error),
            None => result == Ok::<(), TerrainError>(()),
        },
{
    if samples.len() != LAYER_CELLS {
        return Err(TerrainError::SampleCount);
    }
    let mut i: usize = 0;
    while i < LAYER_CELLS
        invariant
            i <= LAYER_CELLS,
            samples@.len() == LAYER_CELLS,
            forall|j: int| 0 <= j < i ==> column_height(#[trigger] samples@[j]) <= CHUNK_HEIGHT,
        decreases LAYER_CELLS - i,
    {
        if samples[i].level >= CHUNK_HEIGHT {
            return Err(TerrainError::ColumnTooHigh);
        }
        i += 1;
    }
    Ok(())
}

/// Builds the base terrain of a chunk from its samples.
///
/// The result is a function of the samples alone: the same samples give
/// the same grid, block for block.
pub fn generate_base_terrain(samples: &Vec<ColumnSample>) -> (result: Result<
    BlockMap,
    TerrainError,
>)
    ensures
        match sample_error(samples@) {
            Some(error) => result matches Err(found) && found == error,
            None => result matches Ok(blocks) && blocks.wf() && blocks@ == base_terrain(samples@),
        },
{
    match check_samples(samples) {
        Err(error) => {
            return Err(error);
        },
        Ok(()) => {},
    }
    let mut blocks = BlockMap::new();
    let mut k: usize = 0;
    while k < CHUNK_CELLS
        invariant
            k <= CHUNK_CELLS,
            blocks.wf(),
            samples@.len() == LAYER_CELLS,
            forall|i: int| 0 <= i < samples@.len() ==> (#[trigger] samples@[i]).level < CHUNK_HEIGHT,
            forall|j: int| 0 <= j < k ==> #[trigger] blocks@[j] == base_terrain(samples@)[j],
        decreases CHUNK_CELLS - k,
    {
        let x = (k % 256) / 16;
        let y = k / 256;
        let z = k % 16;
        let sample = samples[x * 16 + z];
        blocks.set_cell(k, column_block_at(sample.level + 1, sample.snow_offset, y));
        k += 1;
    }
    assert(blocks@ =~= base_terrain(samples@));
    Ok(blocks)
}

/// Plants a tree on column (x, z) where one can stand, and says whether
/// it did. A tree stands on the topmost block of a column that is not on
/// the chunk's edge, if that block is neither water nor stone, sand or
/// snow and the crown stays inside the chunk. Where none can stand, the
/// grid is left as it is.
pub fn place_tree(blocks: &mut BlockMap, x: usize, z: usize) -> (planted: bool)
    requires
        old(blocks).wf(),
    ensures
        final(blocks).wf(),
        planted == tree_ground(old(blocks)@, x as int, z as int).is_some(),
        final(blocks)@ == with_tree(old(blocks)@, x as int, z as int),
{
    if !(1 <= x && x < CHUNK_SIZE - 1 && 1 <= z && z < CHUNK_SIZE - 1) {
        return false;
    }
    let top = match blocks.highest_in_column(x, z) {
        Ok(Some(top)) => top,
        _ => {
            return false;
        },
    };
    proof {
        lemma_column_top(blocks@, x as int, z as int, CHUNK_HEIGHT - 1);
    }
    if top + TREE_HEIGHT >= CHUNK_HEIGHT {
        return false;
    }
    let ground = blocks.cell(top * 256 + x * 16 + z);
    if ground == BlockType::Water || ground == BlockType::Stone || ground == BlockType::Sand
        || ground == BlockType::Snow {
        return false;
    }
    let ghost before = blocks@;
    let mut i: usize = 0;
    while i < 45
        invariant
            i <= 45,
            blocks.wf(),
            before.len() == CHUNK_CELLS,
            1 <= x < CHUNK_SIZE - 1,
            1 <= z < CHUNK_SIZE - 1,
            top + TREE_HEIGHT < CHUNK_HEIGHT,
            forall|k: int|
                0 <= k < CHUNK_CELLS ==> #[trigger] blocks@[k] == {
                    let (cx, cy, cz) = cell_coord(k);
                    match tree_block(cx - x, cy - top, cz - z) {
                        Some(block) => if crown_order(cx - x, cy - top, cz - z) < i {
                            block
                        } else {
                            before[k]
                        },
                        None => before[k],
                    }
                },
        decreases 45 - i,
    {
        let dy = i / 9 + 1;
        let dx = (i % 9) / 3;
        let dz = i % 3;
        let ghost prior = blocks@;
        let target = (top + dy) * 256 + (x + dx - 1) * 16 + (z + dz - 1);
        proof {
            lemma_cell_index_bijective(x + dx - 1, top + dy, z + dz - 1);
        }
        match crown_block_at(dx, dy, dz) {
            Some(block) => {
                blocks.set_cell(target, block);
            },
            None => {},
        }
        proof {
            assert forall|k: int| 0 <= k < CHUNK_CELLS implies #[trigger] blocks@[k] == {
                let (cx, cy, cz) = cell_coord(k);
                match tree_block(cx - x, cy - top, cz - z) {
                    Some(block) => if crown_order(cx - x, cy - top, cz - z) < i + 1 {
                        block
                    } else {
                        before[k]
                    },
                    None => before[k],
                }
            } by {
                lemma_cell_coord_in_bounds(k);
                let (cx, cy, cz) = cell_coord(k);
                if k == target {
                    assert(cx == x + dx - 1 && cy == top + dy && cz == z + dz - 1);
                    assert(crown_order(cx - x, cy - top, cz - z) == i);
                } else {
                    assert(blocks@[k] == prior[k]);
                    if tree_block(cx - x, cy - top, cz - z).is_some() {
                        assert(crown_order(cx - x, cy - top, cz - z) != i);
                    }
                }
            }
        }
        i += 1;
    }
    assert(blocks@ =~= with_tree(before, x as int, z as int));
    true
}

/// The turn of the block at an offset from the ground when a tree is
/// planted: the box around the crown is gone through from the bottom up,
/// and inside a layer x major and z minor.
pub open spec fn crown_order(dx: int, dy: int, dz: int) -> int {
    (dy - 1) * 9 + (dx + 1) * 3 + (dz + 1)
}

/// The block of a tree at a position of the box around its crown; `dx`
/// and `dz` count from the low corner of the box.
fn crown_block_at(dx: usize, dy: usize, dz: usize) -> (block: Option<BlockType>)
    requires
        dx < 3,
        1 <= dy <= 5,
        dz < 3,
    ensures
        block == tree_block(dx - 1, dy as int, dz - 1),
{
    if dy <= TRUNK_HEIGHT && dx == 1 && dz == 1 {
        Some(BlockType::Log)
    } else if dy < TRUNK_HEIGHT {
        None
    } else if dy == TRUNK_HEIGHT {
        Some(BlockType::Leaves)
    } else if dy == 4 {
        if dx == 1 || dz == 1 {
            Some(BlockType::Leaves)
        } else {
            None
        }
    } else if dx == 1 && dz == 1 {
        Some(BlockType::Leaves)
    } else {
        None
    }
}

/// Draws whether a tree is tried on a new chunk, and where: the site
/// that `tree_site_for` gives for a roll and two offsets drawn at random.
pub fn roll_tree_site() -> (site: Option<(usize, usize)>)
    ensures
        exists|roll: u32, x_draw: u32, z_draw: u32|
            roll < TREE_ODDS && x_draw < TREE_SPAN && z_draw < TREE_SPAN && site
                == #[trigger] spec_tree_site(roll, x_draw, z_draw),
        site matches Some(at) ==> is_tree_site(at),
{
    let roll = random_below(TREE_ODDS);
    if roll < TREE_CHANCE {
        let x_draw = random_below(TREE_SPAN);
        let z_draw = random_below(TREE_SPAN);
        tree_site_for(roll, x_draw, z_draw)
    } else {
        assert(spec_tree_site(roll, 0, 0) is None);
        None
    }
}

/// The site at which a tree is tried for a roll and two offsets: none
/// unless the roll is below `TREE_CHANCE` and both offsets are below
/// `TREE_SPAN`, and else the column that lies the offsets beyond the
/// margin.
pub open spec fn spec_tree_site(roll: u32, x_draw: u32, z_draw: u32) -> Option<(usize, usize)> {
    if roll < TREE_CHANCE && x_draw < TREE_SPAN && z_draw < TREE_SPAN {
        Some(((x_draw + TREE_MARGIN) as usize, (z_draw + TREE_MARGIN) as usize))
    } else {
        None
    }
}

/// Decides from a roll and two offsets whether a tree is tried, and
/// where. Of ten rolls from 0 to 9, nine are below `TREE_CHANCE`.
pub fn tree_site_for(roll: u32, x_draw: u32, z_draw: u32) -> (site: Option<(usize, usize)>)
    ensures
        site == spec_tree_site(roll, x_draw, z_draw),
        site matches Some(at) ==> is_tree_site(at),
{
    if roll < TREE_CHANCE && x_draw < TREE_SPAN && z_draw < TREE_SPAN {
        Some((x_draw as usize + TREE_MARGIN, z_draw as usize + TREE_MARGIN))
    } else {
        None
    }
}

/// Builds the grid of a new chunk: the base terrain of the samples, and
/// on it a tree at the site given, if there is one and a tree can stand
/// there.
pub fn generate_terrain(samples: &Vec<ColumnSample>, site: Option<(usize, usize)>) -> (result:
    Result<BlockMap, TerrainError>)
    ensures
        match sample_error(samples@) {
            Some(error) => result matches Err(found) && found == error,
            None => result matches Ok(blocks) && blocks.wf() && blocks@ == generated_grid(
                samples@,
                site,
            ),
        },
{
    let mut blocks = match generate_base_terrain(samples) {
        Ok(blocks) => blocks,
        Err(error) => {
            return Err(error);
        },
    };
    match site {
        Some((x, z)) => {
            place_tree(&mut blocks, x, z);
        },
        None => {},
    }
    Ok(blocks)
}

} // verus!
