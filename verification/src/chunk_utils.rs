//! The layered codec that turns a chunk's voxels into a payload for disk
//! and wire, and back.
//!
//! A payload is a run of layers. A layer is the delimiter byte, two bytes
//! that carry its height, and one ordinal byte for each of the 256 cells
//! of the layer, air included, x major and z minor. Heights without a
//! layer stand for layers of air.

use crate::block_map::{
    cell_index, empty_grid, in_bounds, mesh_in_bounds, occupied_cells, BlockMap, BoundsError,
    CHUNK_HEIGHT, LAYER_CELLS,
};
use crate::block_type::{index_to_block, spec_index_to_block, BlockType};
use vstd::prelude::*;

verus! {

/// The byte that opens every layer. It is above every ordinal.
pub const LAYER_DELIMITER: u8 = 127;

/// Length of one encoded layer: delimiter, two height bytes, raster.
pub const LAYER_BYTES: usize = 259;

/// The local coordinates of a chunk's blocks other than air.
pub type BlocksInMesh = Vec<(usize, usize, usize)>;

/// Why a payload could not be decoded.
#[derive(Debug, PartialEq, Eq, Clone, Copy, Structural)]
pub enum DecodeError {
    /// A layer does not begin with the delimiter byte.
    MissingDelimiter,
    /// The payload ends inside a layer.
    Truncated,
    /// The two height bytes of a layer give a height outside the chunk.
    LayerOutOfRange,
    /// A raster byte is not the ordinal of any material.
    InvalidOrdinal,
}

/// First height byte of a layer: whether the height exceeds 127.
pub open spec fn layer_flag(y: int) -> int {
    if y > 127 {
        1
    } else {
        0
    }
}

/// Second height byte of a layer: the height modulo 127.
pub open spec fn layer_remainder(y: int) -> int {
    y % 127
}

/// The height that the two height bytes of a layer stand for.
pub open spec fn layer_height(flag: int, remainder: int) -> int {
    flag * 127 + remainder
}

/// The height bytes of `y` stand for `y` again. This holds of every
/// height of a chunk but 127, 254 and 255.
pub open spec fn height_survives(y: int) -> bool {
    layer_height(layer_flag(y), layer_remainder(y)) == y
}

/// The 256 cells of layer `y` of a grid, x major and z minor.
pub open spec fn layer_cells(grid: Seq<BlockType>, y: int) -> Seq<BlockType> {
    grid.subrange(y * 256, y * 256 + 256)
}

/// Layer `y` of a grid holds nothing but air.
pub open spec fn layer_is_empty(grid: Seq<BlockType>, y: int) -> bool {
    forall|i: int| 0 <= i < 256 ==> #[trigger] grid[y * 256 + i] == BlockType::Air
}

/// The ordinal bytes of a run of cells.
pub open spec fn raster(cells: Seq<BlockType>) -> Seq<u8> {
    Seq::new(cells.len(), |i: int| cells[i].spec_ordinal() as u8)
}

/// The encoding of layer `y` of a grid.
pub open spec fn encode_layer(grid: Seq<BlockType>, y: int) -> Seq<u8> {
    seq![LAYER_DELIMITER, layer_flag(y) as u8, layer_remainder(y) as u8] + raster(
        layer_cells(grid, y),
    )
}

/// The encodings of the layers below `n` whose height is in `listed`, in
/// ascending order of height.
pub open spec fn encode_layers(listed: Set<int>, grid: Seq<BlockType>, n: int) -> Seq<u8>
    decreases n,
{
    if n <= 0 {
        Seq::empty()
    } else if listed.contains(n - 1) {
        encode_layers(listed, grid, n - 1) + encode_layer(grid, n - 1)
    } else {
        encode_layers(listed, grid, n - 1)
    }
}

/// The heights at which an occupancy list has an entry.
pub open spec fn listed_layers(mesh: Seq<(usize, usize, usize)>) -> Set<int> {
    Set::new(|y: int| exists|i: int| 0 <= i < mesh.len() && (#[trigger] mesh[i]).1 == y)
}

/// The payload of a chunk: one layer for every height at which the
/// occupancy list has an entry, in ascending order, with the raster taken
/// from the grid.
pub open spec fn spec_to_serialized(mesh: Seq<(usize, usize, usize)>, grid: Seq<BlockType>) -> Seq<
    u8,
> {
    encode_layers(listed_layers(mesh), grid, CHUNK_HEIGHT as int)
}

/// The per-voxel form of a chunk: for every entry of the occupancy list,
/// in order, its x, y and z and the ordinal of the block there.
pub open spec fn spec_original_serialize(
    mesh: Seq<(usize, usize, usize)>,
    grid: Seq<BlockType>,
) -> Seq<u8>
    decreases mesh.len(),
{
    if mesh.len() == 0 {
        Seq::empty()
    } else {
        let entry = mesh.last();
        spec_original_serialize(mesh.drop_last(), grid) + seq![
            entry.0 as u8,
            entry.1 as u8,
            entry.2 as u8,
            grid[cell_index(entry.0 as int, entry.1 as int, entry.2 as int)].spec_ordinal() as u8,
        ]
    }
}

/// `error` names the first entry of an occupancy list that lies outside
/// the chunk.
pub open spec fn rejects_mesh(mesh: Seq<(usize, usize, usize)>, error: BoundsError) -> bool {
    exists|i: int|
        0 <= i < mesh.len() && !in_bounds(
            (#[trigger] mesh[i]).0 as int,
            mesh[i].1 as int,
            mesh[i].2 as int,
        ) && mesh_in_bounds(mesh.take(i)) && error == (BoundsError {
            x: mesh[i].0,
            y: mesh[i].1,
            z: mesh[i].2,
        })
}

/// Checks that every entry of an occupancy list lies inside the chunk,
/// and reports the first that does not.
pub fn check_mesh(blocks_in_mesh: &BlocksInMesh) -> (result: Result<(), BoundsError>)
    ensures
        mesh_in_bounds(blocks_in_mesh@) ==> result == Ok::<(), BoundsError>(()),
        !mesh_in_bounds(blocks_in_mesh@) ==> (result matches Err(error) && rejects_mesh(
            blocks_in_mesh@,
            error,
        )),
{
    let mut i: usize = 0;
    while i < blocks_in_mesh.len()
        invariant
            i <= blocks_in_mesh.len(),
            mesh_in_bounds(blocks_in_mesh@.take(i as int)),
        decreases blocks_in_mesh.len() - i,
    {
        let (x, y, z) = blocks_in_mesh[i];
        if !(x < 16 && y < 256 && z < 16) {
            return Err(BoundsError { x, y, z });
        }
        proof {
            let grown = blocks_in_mesh@.take(i + 1);
            assert forall|j: int| 0 <= j < grown.len() implies in_bounds(
                (#[trigger] grown[j]).0 as int,
                grown[j].1 as int,
                grown[j].2 as int,
            ) by {
                if j < i {
                    assert(blocks_in_mesh@.take(i as int)[j] == grown[j]);
                }
            }
        }
        i += 1;
    }
    assert(blocks_in_mesh@.take(i as int) =~= blocks_in_mesh@);
    Ok(())
}

/// Encodes a chunk for disk and wire.
///
/// The payload holds one layer for every height at which the occupancy
/// list has an entry, lowest first; the raster of a layer is read from the
/// grid. A list with an entry outside the chunk is rejected with its first
/// such entry.
pub fn to_serialized(blocks_in_mesh: &BlocksInMesh, blocks: &BlockMap) -> (result: Result<
    Vec<u8>,
    BoundsError,
>)
    requires
        blocks.wf(),
    ensures
        mesh_in_bounds(blocks_in_mesh@) ==> (result matches Ok(payload) && payload@
            == spec_to_serialized(blocks_in_mesh@, blocks@)),
        !mesh_in_bounds(blocks_in_mesh@) ==> (result matches Err(error) && rejects_mesh(
            blocks_in_mesh@,
            error,
        )),
{
    match check_mesh(blocks_in_mesh) {
        Ok(()) => Ok(encode_chunk(blocks_in_mesh, blocks)),
        Err(error) => Err(error),
    }
}

/// Encodes a chunk whose occupancy list lies inside the chunk.
pub(crate) fn encode_chunk(blocks_in_mesh: &BlocksInMesh, blocks: &BlockMap) -> (payload: Vec<u8>)
    requires
        blocks.wf(),
        mesh_in_bounds(blocks_in_mesh@),
    ensures
        payload@ == spec_to_serialized(blocks_in_mesh@, blocks@),
{
    let listed = mark_layers(blocks_in_mesh);
    let ghost layers = listed_layers(blocks_in_mesh@);
    let mut payload: Vec<u8> = Vec::new();
    let mut y: usize = 0;
    while y < CHUNK_HEIGHT
        invariant
            y <= CHUNK_HEIGHT,
            blocks.wf(),
            listed@.len() == CHUNK_HEIGHT,
            layers == listed_layers(blocks_in_mesh@),
            forall|h: int| 0 <= h < CHUNK_HEIGHT ==> (#[trigger] listed@[h] <==> layers.contains(h)),
            payload@ == encode_layers(layers, blocks@, y as int),
        decreases CHUNK_HEIGHT - y,
    {
        if listed[y] {
            push_layer(&mut payload, blocks, y);
        }
        y += 1;
    }
    payload
}

/// For every height of a chunk, whether the occupancy list has an entry
/// there.
fn mark_layers(blocks_in_mesh: &BlocksInMesh) -> (listed: Vec<bool>)
    requires
        mesh_in_bounds(blocks_in_mesh@),
    ensures
        listed@.len() == CHUNK_HEIGHT,
        forall|h: int|
            0 <= h < CHUNK_HEIGHT ==> (#[trigger] listed@[h] <==> listed_layers(
                blocks_in_mesh@,
            ).contains(h)),
{
    let mut listed: Vec<bool> = Vec::new();
    let mut h: usize = 0;
    while h < CHUNK_HEIGHT
        invariant
            h <= CHUNK_HEIGHT,
            listed@.len() == h,
            forall|k: int| 0 <= k < h ==> !(#[trigger] listed@[k]),
        decreases CHUNK_HEIGHT - h,
    {
        listed.push(false);
        h += 1;
    }
    let mut i: usize = 0;
    while i < blocks_in_mesh.len()
        invariant
            i <= blocks_in_mesh.len(),
            mesh_in_bounds(blocks_in_mesh@),
            listed@.len() == CHUNK_HEIGHT,
            forall|k: int|
                0 <= k < CHUNK_HEIGHT ==> (#[trigger] listed@[k] <==> exists|j: int|
                    0 <= j < i && (#[trigger] blocks_in_mesh@[j]).1 == k),
        decreases blocks_in_mesh.len() - i,
    {
        let (_, y, _) = blocks_in_mesh[i];
        let ghost before = listed@;
        listed.set(y, true);
        proof {
            assert forall|k: int| 0 <= k < CHUNK_HEIGHT implies (#[trigger] listed@[k]
                <==> exists|j: int| 0 <= j < i + 1 && (#[trigger] blocks_in_mesh@[j]).1 == k) by {
                if k == y {
                    assert(blocks_in_mesh@[i as int].1 == k);
                } else {
                    assert(listed@[k] == before[k]);
                }
            }
        }
        i += 1;
    }
    listed
}

/// Appends the encoding of layer `y` to a payload.
fn push_layer(payload: &mut Vec<u8>, blocks: &BlockMap, y: usize)
    requires
        blocks.wf(),
        y < CHUNK_HEIGHT,
    ensures
        final(payload)@ == old(payload)@ + encode_layer(blocks@, y as int),
{
    let ghost before = payload@;
    payload.push(LAYER_DELIMITER);
    payload.push(if y > 127 { 1u8 } else { 0u8 });
    payload.push((y % 127) as u8);
    let mut i: usize = 0;
    while i < LAYER_CELLS
        invariant
            i <= LAYER_CELLS,
            blocks.wf(),
            y < CHUNK_HEIGHT,
            payload@.len() == before.len() + 3 + i,
            payload@.take((before.len() + 3) as int) == before + seq![
                LAYER_DELIMITER,
                layer_flag(y as int) as u8,
                layer_remainder(y as int) as u8,
            ],
            forall|j: int|
                0 <= j < i ==> #[trigger] payload@[before.len() + 3 + j] == blocks@[y * 256
                    + j].spec_ordinal() as u8,
        decreases LAYER_CELLS - i,
    {
        let ghost prior = payload@;
        payload.push(blocks.cell(y * 256 + i).ordinal());
        assert(payload@.take((before.len() + 3) as int) =~= prior.take((before.len() + 3) as int));
        i += 1;
    }
    proof {
        let header = seq![
            LAYER_DELIMITER,
            layer_flag(y as int) as u8,
            layer_remainder(y as int) as u8,
        ];
        let body = raster(layer_cells(blocks@, y as int));
        let whole = before + (header + body);
        assert(payload@.len() == whole.len());
        assert forall|k: int| 0 <= k < whole.len() implies payload@[k] == whole[k] by {
            if k < before.len() + 3 {
                assert(payload@.take((before.len() + 3) as int)[k] == payload@[k]);
            } else {
                let j = k - before.len() - 3;
                assert(payload@[before.len() + 3 + j] == blocks@[y * 256 + j].spec_ordinal() as u8);
            }
        }
        assert(payload@ =~= whole);
    }
}

/// Writes a chunk in its per-voxel form: four bytes for every entry of
/// the occupancy list, in order. A list with an entry outside the chunk
/// is rejected with its first such entry.
pub fn original_serialize(blocks_in_mesh: &BlocksInMesh, blocks: &BlockMap) -> (result: Result<
    Vec<u8>,
    BoundsError,
>)
    requires
        blocks.wf(),
    ensures
        mesh_in_bounds(blocks_in_mesh@) ==> (result matches Ok(bytes) && bytes@
            == spec_original_serialize(blocks_in_mesh@, blocks@)),
        !mesh_in_bounds(blocks_in_mesh@) ==> (result matches Err(error) && rejects_mesh(
            blocks_in_mesh@,
            error,
        )),
{
    match check_mesh(blocks_in_mesh) {
        Err(error) => {
            return Err(error);
        },
        Ok(()) => {},
    }
    let mut bytes: Vec<u8> = Vec::new();
    let mut i: usize = 0;
    while i < blocks_in_mesh.len()
        invariant
            i <= blocks_in_mesh.len(),
            blocks.wf(),
            mesh_in_bounds(blocks_in_mesh@),
            bytes@ == spec_original_serialize(blocks_in_mesh@.take(i as int), blocks@),
        decreases blocks_in_mesh.len() - i,
    {
        let (x, y, z) = blocks_in_mesh[i];
        let block = blocks.cell(y * 256 + x * 16 + z);
        bytes.push(x as u8);
        bytes.push(y as u8);
        bytes.push(z as u8);
        bytes.push(block.ordinal());
        proof {
            let grown = blocks_in_mesh@.take(i + 1);
            assert(grown.drop_last() =~= blocks_in_mesh@.take(i as int));
            assert(grown.last() == blocks_in_mesh@[i as int]);
        }
        i += 1;
    }
    assert(blocks_in_mesh@.take(i as int) =~= blocks_in_mesh@);
    Ok(bytes)
}

/// The grid with layer `y` replaced by `cells`.
pub open spec fn put_layer(grid: Seq<BlockType>, y: int, cells: Seq<BlockType>) -> Seq<BlockType> {
    Seq::new(
        grid.len(),
        |i: int|
            if y * 256 <= i < y * 256 + 256 {
                cells[i - y * 256]
            } else {
                grid[i]
            },
    )
}

/// Every byte of a raster is the ordinal of a material.
pub open spec fn raster_is_valid(bytes: Seq<u8>) -> bool {
    forall|i: int| 0 <= i < bytes.len() ==> spec_index_to_block(#[trigger] bytes[i] as int).is_some()
}

/// The materials that the bytes of a valid raster stand for.
pub open spec fn raster_blocks(bytes: Seq<u8>) -> Seq<BlockType> {
    Seq::new(bytes.len(), |i: int| spec_index_to_block(bytes[i] as int).unwrap())
}

/// Reads the layers of a payload one after the other into a grid. A later
/// layer of the same height replaces an earlier one. The first fault
/// found, going through the payload from its start, is the error.
pub open spec fn decode_layers(bytes: Seq<u8>, grid: Seq<BlockType>) -> Result<
    Seq<BlockType>,
    DecodeError,
>
    decreases bytes.len(),
{
    if bytes.len() == 0 {
        Ok(grid)
    } else if bytes[0] != LAYER_DELIMITER {
        Err(DecodeError::MissingDelimiter)
    } else if bytes.len() < LAYER_BYTES {
        Err(DecodeError::Truncated)
    } else if layer_height(bytes[1] as int, bytes[2] as int) >= CHUNK_HEIGHT {
        Err(DecodeError::LayerOutOfRange)
    } else if !raster_is_valid(bytes.subrange(3, LAYER_BYTES as int)) {
        Err(DecodeError::InvalidOrdinal)
    } else {
        decode_layers(
            bytes.skip(LAYER_BYTES as int),
            put_layer(
                grid,
                layer_height(bytes[1] as int, bytes[2] as int),
                raster_blocks(bytes.subrange(3, LAYER_BYTES as int)),
            ),
        )
    }
}

/// The grid that a payload stands for, or the reason why it stands for
/// none: its layers read into a grid of air.
pub open spec fn spec_from_serialized(bytes: Seq<u8>) -> Result<Seq<BlockType>, DecodeError> {
    decode_layers(bytes, empty_grid())
}

/// Decodes a payload into a chunk's grid and its occupancy list.
///
/// Heights without a layer in the payload are air. The occupancy list
/// names the blocks other than air in flat order. A payload that is cut
/// short, lacks a delimiter, names a height outside the chunk or holds a
/// byte that is no ordinal is rejected.
pub fn from_serialized(serialized: &Vec<u8>) -> (result: Result<
    (BlocksInMesh, BlockMap),
    DecodeError,
>)
    ensures
        match spec_from_serialized(serialized@) {
            Ok(grid) => result matches Ok((mesh, blocks)) && blocks.wf() && blocks@ == grid
                && mesh@ == occupied_cells(grid),
            Err(error) => result matches Err(found) && found == error,
        },
{
    let mut blocks = BlockMap::new();
    let n = serialized.len();
    let mut pos: usize = 0;
    assert(serialized@.skip(0) =~= serialized@);
    while pos < n
        invariant
            pos <= n,
            n == serialized@.len(),
            blocks.wf(),
            spec_from_serialized(serialized@) == decode_layers(
                serialized@.skip(pos as int),
                blocks@,
            ),
        decreases n - pos,
    {
        let ghost rest = serialized@.skip(pos as int);
        let ghost before = blocks@;
        assert(rest[0] == serialized@[pos as int]);
        if serialized[pos] != LAYER_DELIMITER {
            return Err(DecodeError::MissingDelimiter);
        }
        if n - pos < LAYER_BYTES {
            return Err(DecodeError::Truncated);
        }
        assert(rest[1] == serialized@[pos + 1]);
        assert(rest[2] == serialized@[pos + 2]);
        let y: usize = serialized[pos + 1] as usize * 127 + serialized[pos + 2] as usize;
        if y >= CHUNK_HEIGHT {
            return Err(DecodeError::LayerOutOfRange);
        }
        let ghost cells = rest.subrange(3, LAYER_BYTES as int);
        let mut i: usize = 0;
        while i < LAYER_CELLS
            invariant
                i <= LAYER_CELLS,
                pos + LAYER_BYTES <= n,
                n == serialized@.len(),
                y < CHUNK_HEIGHT,
                blocks.wf(),
                before.len() == blocks@.len(),
                rest == serialized@.skip(pos as int),
                rest[0] == LAYER_DELIMITER,
                layer_height(rest[1] as int, rest[2] as int) == y,
                spec_from_serialized(serialized@) == decode_layers(rest, before),
                cells == rest.subrange(3, LAYER_BYTES as int),
                forall|j: int|
                    0 <= j < i ==> spec_index_to_block(#[trigger] cells[j] as int).is_some(),
                forall|k: int|
                    0 <= k < blocks@.len() ==> #[trigger] blocks@[k] == if y * 256 <= k < y * 256
                        + i {
                        spec_index_to_block(cells[k - y * 256] as int).unwrap()
                    } else {
                        before[k]
                    },
            decreases LAYER_CELLS - i,
        {
            assert(cells[i as int] == serialized@[pos + 3 + i]);
            match index_to_block(serialized[pos + 3 + i] as usize) {
                Some(block) => {
                    blocks.set_cell(y * 256 + i, block);
                },
                None => {
                    return Err(DecodeError::InvalidOrdinal);
                },
            }
            i += 1;
        }
        assert(blocks@ =~= put_layer(before, y as int, raster_blocks(cells)));
        assert(rest.skip(LAYER_BYTES as int) =~= serialized@.skip(pos + LAYER_BYTES));
        pos += LAYER_BYTES;
    }
    let mesh = blocks.occupied_cells();
    Ok((mesh, blocks))
}

} // verus!
