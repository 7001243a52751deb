//! What holds of the chunk codec: decoding inverts encoding, the order of
//! the occupancy list does not matter, and layers of air cost nothing.

use crate::block_map::{
    empty_grid, entry_index, in_bounds, lemma_cell_index_bijective, lemma_occupied_cells_match,
    mesh_entry, mesh_matches, occupied_cells, CHUNK_CELLS, CHUNK_HEIGHT,
};
use crate::block_type::{lemma_ordinal_round_trip, spec_index_to_block, BlockType};
use crate::chunk_utils::{
    decode_layers, encode_layer, encode_layers, height_survives, layer_cells, layer_flag,
    layer_height, layer_is_empty, layer_remainder, listed_layers, put_layer, raster,
    raster_blocks, raster_is_valid, spec_from_serialized, spec_to_serialized, DecodeError,
    LAYER_BYTES,
    LAYER_DELIMITER,
};
use vstd::prelude::*;

verus! {

/// The height at which the layer encoded for height `y` is decoded.
pub open spec fn decoded_height(y: int) -> int {
    layer_height(layer_flag(y), layer_remainder(y))
}

/// No block of the grid lies at a height whose bytes stand for another
/// height: the layers 127, 254 and 255 are air.
pub open spec fn heights_survive(grid: Seq<BlockType>) -> bool {
    layer_is_empty(grid, 127) && layer_is_empty(grid, 254) && layer_is_empty(grid, 255)
}

/// The number of heights below `n` that are in `listed`.
pub open spec fn layer_count(listed: Set<int>, n: int) -> nat
    decreases n,
{
    if n <= 0 {
        0
    } else if listed.contains(n - 1) {
        layer_count(listed, n - 1) + 1
    } else {
        layer_count(listed, n - 1)
    }
}

/// The grid after the layers below `n` whose height is in `listed` were
/// decoded into `start` in ascending order.
pub open spec fn apply_layers(
    start: Seq<BlockType>,
    listed: Set<int>,
    grid: Seq<BlockType>,
    n: int,
) -> Seq<BlockType>
    decreases n,
{
    if n <= 0 {
        start
    } else if listed.contains(n - 1) {
        put_layer(
            apply_layers(start, listed, grid, n - 1),
            decoded_height(n - 1),
            layer_cells(grid, n - 1),
        )
    } else {
        apply_layers(start, listed, grid, n - 1)
    }
}

/// The bytes of a height stand for that height, except at 127, 254 and
/// 255; they always stand for a height of the chunk.
pub proof fn lemma_height_bytes(y: int)
    requires
        0 <= y < CHUNK_HEIGHT,
    ensures
        0 <= layer_flag(y) <= 1,
        0 <= layer_remainder(y) < 127,
        0 <= decoded_height(y) < CHUNK_HEIGHT,
        height_survives(y) <==> y != 127 && y != 254 && y != 255,
        decoded_height(127) == 0,
        decoded_height(254) == 127,
        decoded_height(255) == 128,
{
}

/// Under an occupancy list that belongs to the grid, a height is listed
/// exactly if its layer holds a block other than air.
pub proof fn lemma_listed_iff_occupied(
    mesh: Seq<(usize, usize, usize)>,
    grid: Seq<BlockType>,
    y: int,
)
    requires
        grid.len() == CHUNK_CELLS,
        mesh_matches(mesh, grid),
        0 <= y < CHUNK_HEIGHT,
    ensures
        listed_layers(mesh).contains(y) <==> !layer_is_empty(grid, y),
{
    if listed_layers(mesh).contains(y) {
        let i = choose|i: int| 0 <= i < mesh.len() && (#[trigger] mesh[i]).1 == y;
        let entry = mesh[i];
        assert(in_bounds(entry.0 as int, entry.1 as int, entry.2 as int));
        assert(grid[entry_index(entry)] != BlockType::Air);
        assert(entry_index(entry) == y * 256 + (entry.0 * 16 + entry.2));
        assert(grid[y * 256 + (entry.0 * 16 + entry.2)] != BlockType::Air);
    }
    if !layer_is_empty(grid, y) {
        let c = choose|c: int| 0 <= c < 256 && #[trigger] grid[y * 256 + c] != BlockType::Air;
        let k = y * 256 + c;
        assert(grid[k] != BlockType::Air);
        assert(mesh.contains(mesh_entry(k)));
        let i = choose|i: int| 0 <= i < mesh.len() && mesh[i] == mesh_entry(k);
        assert(mesh[i].1 == y);
    }
}

/// Decoding a payload that begins with the encoding of a layer puts the
/// cells of that layer at the height its bytes stand for and goes on with
/// what follows.
pub proof fn lemma_decode_layer(
    grid: Seq<BlockType>,
    y: int,
    rest: Seq<u8>,
    start: Seq<BlockType>,
)
    requires
        grid.len() == CHUNK_CELLS,
        0 <= y < CHUNK_HEIGHT,
    ensures
        decode_layers(encode_layer(grid, y) + rest, start) == decode_layers(
            rest,
            put_layer(start, decoded_height(y), layer_cells(grid, y)),
        ),
{
    let bytes = encode_layer(grid, y) + rest;
    let cells = layer_cells(grid, y);
    lemma_height_bytes(y);
    assert(encode_layer(grid, y).len() == LAYER_BYTES);
    assert(bytes[0] == LAYER_DELIMITER);
    assert(bytes[1] == layer_flag(y) as u8);
    assert(bytes[2] == layer_remainder(y) as u8);
    let body = bytes.subrange(3, LAYER_BYTES as int);
    assert(body =~= raster(cells));
    assert forall|i: int| 0 <= i < body.len() implies spec_index_to_block(
        #[trigger] body[i] as int,
    ) == Some(cells[i]) by {
        lemma_ordinal_round_trip(cells[i]);
    }
    assert(raster_is_valid(body));
    assert(raster_blocks(body) =~= cells);
    assert(bytes.skip(LAYER_BYTES as int) =~= rest);
}

/// Decoding the encoding of the listed layers below `n`, followed by
/// anything, decodes those layers and goes on with what follows.
pub proof fn lemma_decode_layers(
    listed: Set<int>,
    grid: Seq<BlockType>,
    n: int,
    rest: Seq<u8>,
    start: Seq<BlockType>,
)
    requires
        grid.len() == CHUNK_CELLS,
        0 <= n <= CHUNK_HEIGHT,
    ensures
        decode_layers(encode_layers(listed, grid, n) + rest, start) == decode_layers(
            rest,
            apply_layers(start, listed, grid, n),
        ),
    decreases n,
{
    if n <= 0 {
        assert(encode_layers(listed, grid, n) + rest =~= rest);
    } else if listed.contains(n - 1) {
        let head = encode_layers(listed, grid, n - 1);
        let layer = encode_layer(grid, n - 1);
        assert((head + layer) + rest =~= head + (layer + rest));
        lemma_decode_layers(listed, grid, n - 1, layer + rest, start);
        lemma_decode_layer(grid, n - 1, rest, apply_layers(start, listed, grid, n - 1));
    } else {
        lemma_decode_layers(listed, grid, n - 1, rest, start);
    }
}

/// Decoding layers keeps the size of the grid, and leaves a cell alone
/// unless a listed layer is decoded at the height of that cell.
pub proof fn lemma_apply_layers_keeps(
    start: Seq<BlockType>,
    listed: Set<int>,
    grid: Seq<BlockType>,
    n: int,
    h: int,
)
    requires
        forall|y: int| 0 <= y < n && listed.contains(y) ==> decoded_height(y) != h,
    ensures
        apply_layers(start, listed, grid, n).len() == start.len(),
        forall|k: int|
            0 <= k < start.len() && h * 256 <= k < h * 256 + 256 ==> apply_layers(
                start,
                listed,
                grid,
                n,
            )[k] == start[k],
    decreases n,
{
    if n > 0 {
        lemma_apply_layers_keeps(start, listed, grid, n - 1, h);
    }
}

/// Where every listed height survives its encoding, decoding the listed
/// layers gives the cells of the grid in those layers and leaves the
/// others alone.
pub proof fn lemma_apply_layers_faithful(
    start: Seq<BlockType>,
    listed: Set<int>,
    grid: Seq<BlockType>,
    n: int,
)
    requires
        start.len() == CHUNK_CELLS,
        grid.len() == CHUNK_CELLS,
        0 <= n <= CHUNK_HEIGHT,
        forall|y: int| 0 <= y < n && listed.contains(y) ==> height_survives(y),
    ensures
        apply_layers(start, listed, grid, n).len() == CHUNK_CELLS,
        forall|k: int|
            0 <= k < CHUNK_CELLS ==> #[trigger] apply_layers(start, listed, grid, n)[k] == if k
                / 256 < n && listed.contains(k / 256) {
                grid[k]
            } else {
                start[k]
            },
    decreases n,
{
    if n > 0 {
        lemma_apply_layers_faithful(start, listed, grid, n - 1);
        let before = apply_layers(start, listed, grid, n - 1);
        let after = apply_layers(start, listed, grid, n);
        assert forall|k: int| 0 <= k < CHUNK_CELLS implies #[trigger] after[k] == if k / 256 < n
            && listed.contains(k / 256) {
            grid[k]
        } else {
            start[k]
        } by {
            assert(before[k] == if k / 256 < n - 1 && listed.contains(k / 256) {
                grid[k]
            } else {
                start[k]
            });
            if listed.contains(n - 1) {
                assert(height_survives(n - 1));
                if (n - 1) * 256 <= k < (n - 1) * 256 + 256 {
                    assert(k / 256 == n - 1);
                    assert(layer_cells(grid, n - 1)[k - (n - 1) * 256] == grid[k]);
                } else {
                    assert(k / 256 != n - 1);
                }
            }
        }
    }
}

/// An encoding spends one layer of bytes on each listed height and
/// nothing on the others.
pub proof fn lemma_payload_len(listed: Set<int>, grid: Seq<BlockType>, n: int)
    requires
        grid.len() == CHUNK_CELLS,
        0 <= n <= CHUNK_HEIGHT,
    ensures
        encode_layers(listed, grid, n).len() == LAYER_BYTES * layer_count(listed, n),
    decreases n,
{
    if n > 0 {
        lemma_payload_len(listed, grid, n - 1);
    }
}

/// Decoding inverts encoding: the payload of a chunk whose occupancy
/// list belongs to its grid decodes to the same grid, and the decoded
/// occupancy list names the same coordinates as the encoded one, in
/// whatever order that one was. This needs the layers 127, 254 and 255
/// to be air, because the height bytes of those layers stand for other
/// heights.
pub proof fn lemma_round_trip(mesh: Seq<(usize, usize, usize)>, grid: Seq<BlockType>)
    requires
        grid.len() == CHUNK_CELLS,
        mesh_matches(mesh, grid),
        heights_survive(grid),
    ensures
        spec_from_serialized(spec_to_serialized(mesh, grid)) == Ok::<Seq<BlockType>, DecodeError>(
            grid,
        ),
        occupied_cells(grid).to_set() == mesh.to_set(),
        mesh_matches(occupied_cells(grid), grid),
{
    let listed = listed_layers(mesh);
    let payload = spec_to_serialized(mesh, grid);
    assert forall|y: int| 0 <= y < CHUNK_HEIGHT && listed.contains(y) implies height_survives(
        y,
    ) by {
        lemma_listed_iff_occupied(mesh, grid, y);
        lemma_height_bytes(y);
    }
    lemma_decode_layers(listed, grid, CHUNK_HEIGHT as int, Seq::empty(), empty_grid());
    assert(payload + Seq::<u8>::empty() =~= payload);
    lemma_apply_layers_faithful(empty_grid(), listed, grid, CHUNK_HEIGHT as int);
    let decoded = apply_layers(empty_grid(), listed, grid, CHUNK_HEIGHT as int);
    assert forall|k: int| 0 <= k < CHUNK_CELLS implies decoded[k] == grid[k] by {
        let y = k / 256;
        lemma_listed_iff_occupied(mesh, grid, y);
        if !listed.contains(y) {
            assert(grid[y * 256 + (k - y * 256)] == BlockType::Air);
        }
    }
    assert(decoded =~= grid);
    lemma_occupied_cells_match(grid);
    lemma_matching_cells(occupied_cells(grid), mesh, grid);
}

/// Decoding keeps the size of the grid it decodes into.
pub proof fn lemma_decoded_len(bytes: Seq<u8>, start: Seq<BlockType>)
    ensures
        decode_layers(bytes, start) matches Ok(grid) ==> grid.len() == start.len(),
    decreases bytes.len(),
{
    if bytes.len() >= LAYER_BYTES {
        lemma_decoded_len(
            bytes.skip(LAYER_BYTES as int),
            put_layer(
                start,
                layer_height(bytes[1] as int, bytes[2] as int),
                raster_blocks(bytes.subrange(3, LAYER_BYTES as int)),
            ),
        );
    }
}

/// Every payload that the encoder gives can be decoded, whatever the
/// occupancy list and the grid it was given.
pub proof fn lemma_payload_decodes(mesh: Seq<(usize, usize, usize)>, grid: Seq<BlockType>)
    requires
        grid.len() == CHUNK_CELLS,
    ensures
        spec_from_serialized(spec_to_serialized(mesh, grid)) matches Ok(decoded) && decoded.len()
            == CHUNK_CELLS,
{
    let listed = listed_layers(mesh);
    let payload = spec_to_serialized(mesh, grid);
    lemma_decode_layers(listed, grid, CHUNK_HEIGHT as int, Seq::empty(), empty_grid());
    assert(payload + Seq::<u8>::empty() =~= payload);
    lemma_apply_layers_keeps(empty_grid(), listed, grid, CHUNK_HEIGHT as int, -1);
}

/// Two occupancy lists that belong to one grid name the same coordinates.
pub proof fn lemma_matching_cells(
    first: Seq<(usize, usize, usize)>,
    second: Seq<(usize, usize, usize)>,
    grid: Seq<BlockType>,
)
    requires
        grid.len() == CHUNK_CELLS,
        mesh_matches(first, grid),
        mesh_matches(second, grid),
    ensures
        first.to_set() == second.to_set(),
{
    assert forall|entry: (usize, usize, usize)| first.contains(entry) implies second.contains(
        entry,
    ) by {
        lemma_entry_listed(first, second, grid, entry);
    }
    assert forall|entry: (usize, usize, usize)| second.contains(entry) implies first.contains(
        entry,
    ) by {
        lemma_entry_listed(second, first, grid, entry);
    }
    assert(first.to_set() =~= second.to_set());
}

/// An entry of one occupancy list of a grid is an entry of every other.
proof fn lemma_entry_listed(
    first: Seq<(usize, usize, usize)>,
    second: Seq<(usize, usize, usize)>,
    grid: Seq<BlockType>,
    entry: (usize, usize, usize),
)
    requires
        grid.len() == CHUNK_CELLS,
        mesh_matches(first, grid),
        mesh_matches(second, grid),
        first.contains(entry),
    ensures
        second.contains(entry),
{
    let i = choose|i: int| 0 <= i < first.len() && first[i] == entry;
    assert(in_bounds(first[i].0 as int, first[i].1 as int, first[i].2 as int));
    assert(grid[entry_index(first[i])] != BlockType::Air);
    lemma_cell_index_bijective(entry.0 as int, entry.1 as int, entry.2 as int);
    let k = entry_index(entry);
    assert(grid[k] != BlockType::Air);
    assert(mesh_entry(k) == entry);
}

/// The payload depends on which coordinates the occupancy list names, not
/// on their order or on how often each is named.
pub proof fn lemma_order_irrelevant(
    first: Seq<(usize, usize, usize)>,
    second: Seq<(usize, usize, usize)>,
    grid: Seq<BlockType>,
)
    requires
        first.to_set() == second.to_set(),
    ensures
        spec_to_serialized(first, grid) == spec_to_serialized(second, grid),
{
    assert forall|y: int| listed_layers(first).contains(y) implies listed_layers(second).contains(
        y,
    ) by {
        lemma_layer_listed(first, second, y);
    }
    assert forall|y: int| listed_layers(second).contains(y) implies listed_layers(first).contains(
        y,
    ) by {
        lemma_layer_listed(second, first, y);
    }
    assert(listed_layers(first) =~= listed_layers(second));
}

/// A height listed by one occupancy list is listed by every list that
/// names the same coordinates.
proof fn lemma_layer_listed(
    first: Seq<(usize, usize, usize)>,
    second: Seq<(usize, usize, usize)>,
    y: int,
)
    requires
        first.to_set() == second.to_set(),
        listed_layers(first).contains(y),
    ensures
        listed_layers(second).contains(y),
{
    let i = choose|i: int| 0 <= i < first.len() && (#[trigger] first[i]).1 == y;
    assert(first.to_set().contains(first[i]));
    assert(second.contains(first[i]));
    let j = choose|j: int| 0 <= j < second.len() && second[j] == first[i];
    assert(second[j].1 == y);
}

/// A layer of air is left out of the payload: its height is not listed,
/// the encoding spends no byte on it, and the payload is as long as the
/// layers that hold a block take. Where no layer that holds a block is
/// decoded at the height of the layer of air, that height decodes to air.
pub proof fn lemma_empty_layer_omitted(
    mesh: Seq<(usize, usize, usize)>,
    grid: Seq<BlockType>,
    y: int,
)
    requires
        grid.len() == CHUNK_CELLS,
        mesh_matches(mesh, grid),
        0 <= y < CHUNK_HEIGHT,
        layer_is_empty(grid, y),
    ensures
        !listed_layers(mesh).contains(y),
        encode_layers(listed_layers(mesh), grid, y + 1) == encode_layers(
            listed_layers(mesh),
            grid,
            y,
        ),
        spec_to_serialized(mesh, grid).len() == LAYER_BYTES * layer_count(
            listed_layers(mesh),
            CHUNK_HEIGHT as int,
        ),
        (forall|other: int|
            0 <= other < CHUNK_HEIGHT && !layer_is_empty(grid, other) ==> decoded_height(other)
                != y) ==> (spec_from_serialized(spec_to_serialized(mesh, grid)) matches Ok(decoded)
            && decoded.len() == CHUNK_CELLS && layer_is_empty(decoded, y)),
{
    let listed = listed_layers(mesh);
    let payload = spec_to_serialized(mesh, grid);
    lemma_listed_iff_occupied(mesh, grid, y);
    lemma_payload_len(listed, grid, CHUNK_HEIGHT as int);
    if forall|other: int|
        0 <= other < CHUNK_HEIGHT && !layer_is_empty(grid, other) ==> decoded_height(other) != y {
        assert forall|other: int|
            0 <= other < CHUNK_HEIGHT && listed.contains(other) implies decoded_height(other)
            != y by {
            lemma_listed_iff_occupied(mesh, grid, other);
        }
        lemma_decode_layers(listed, grid, CHUNK_HEIGHT as int, Seq::empty(), empty_grid());
        assert(payload + Seq::<u8>::empty() =~= payload);
        lemma_apply_layers_keeps(empty_grid(), listed, grid, CHUNK_HEIGHT as int, y);
        let decoded = apply_layers(empty_grid(), listed, grid, CHUNK_HEIGHT as int);
        assert forall|i: int| 0 <= i < 256 implies #[trigger] decoded[y * 256 + i]
            == BlockType::Air by {
            assert(empty_grid()[y * 256 + i] == BlockType::Air);
        }
    }
}

} // verus!
