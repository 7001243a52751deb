use rustycraft::block_map::{BlockMap, BoundsError};
use rustycraft::block_type::BlockType;
use rustycraft::chunk::{Chunk, CHUNK_HEIGHT, CHUNK_SIZE};
use rustycraft::chunk_utils::{to_serialized, DecodeError};
use rustycraft::terrain::{generate_base_terrain, place_tree, ColumnSample, TerrainError};

fn empty_chunk() -> Chunk {
    Chunk::from_blocks(String::from("chunks/0_0"), BlockMap::new(), 0, 0)
}

fn flat(level: usize) -> Vec<ColumnSample> {
    vec![ColumnSample { level, snow_offset: 0 }; 256]
}

#[test]
fn chunk_reexports_its_dimensions() {
    assert_eq!(CHUNK_SIZE, 16);
    assert_eq!(CHUNK_HEIGHT, 256);
}

#[test]
fn chunk_knows_its_coordinates_and_path() {
    let chunk = Chunk::from_blocks(String::from("w/chunks/-3_8"), BlockMap::new(), -3, 8);
    assert_eq!(chunk.x(), -3);
    assert_eq!(chunk.z(), 8);
    assert_eq!(chunk.save_path(), "w/chunks/-3_8");
    assert!(chunk.blocks_in_mesh().is_empty());
}

#[test]
fn set_block_adds_the_coordinate_to_the_mesh() {
    let mut chunk = empty_chunk();
    assert_eq!(chunk.set_block(5, 10, 5, BlockType::Water), Ok(()));
    assert_eq!(chunk.get_block(5, 10, 5), Ok(BlockType::Water));
    assert_eq!(chunk.blocks_in_mesh(), &vec![(5usize, 10usize, 5usize)]);
    assert_eq!(chunk.set_block(1, 2, 3, BlockType::Stone), Ok(()));
    assert_eq!(
        chunk.blocks_in_mesh(),
        &vec![(5usize, 10usize, 5usize), (1, 2, 3)]
    );
}

#[test]
fn set_block_twice_lists_the_coordinate_once() {
    let mut chunk = empty_chunk();
    for _ in 0..5 {
        chunk.set_block(5, 10, 5, BlockType::Water).unwrap();
        chunk.set_block(5, 10, 5, BlockType::Stone).unwrap();
    }
    assert_eq!(chunk.blocks_in_mesh(), &vec![(5usize, 10usize, 5usize)]);
    assert_eq!(chunk.get_block(5, 10, 5), Ok(BlockType::Stone));
}

#[test]
fn set_block_to_air_takes_the_coordinate_out_of_the_mesh() {
    let mut chunk = empty_chunk();
    chunk.set_block(1, 1, 1, BlockType::Stone).unwrap();
    chunk.set_block(2, 2, 2, BlockType::Stone).unwrap();
    chunk.set_block(3, 3, 3, BlockType::Stone).unwrap();
    chunk.set_block(2, 2, 2, BlockType::Air).unwrap();
    assert_eq!(
        chunk.blocks_in_mesh(),
        &vec![(1usize, 1usize, 1usize), (3, 3, 3)]
    );
    assert_eq!(chunk.get_block(2, 2, 2), Ok(BlockType::Air));
    chunk.set_block(3, 3, 3, BlockType::Air).unwrap();
    assert_eq!(chunk.blocks_in_mesh(), &vec![(1usize, 1usize, 1usize)]);
    chunk.set_block(1, 1, 1, BlockType::Air).unwrap();
    assert!(chunk.blocks_in_mesh().is_empty());
}

#[test]
fn set_block_to_air_where_air_is_changes_nothing() {
    let mut chunk = empty_chunk();
    chunk.set_block(1, 1, 1, BlockType::Stone).unwrap();
    assert_eq!(chunk.set_block(9, 9, 9, BlockType::Air), Ok(()));
    assert_eq!(chunk.blocks_in_mesh(), &vec![(1usize, 1usize, 1usize)]);
}

#[test]
fn repeated_edits_leave_no_duplicate_or_stale_entry() {
    let mut chunk = empty_chunk();
    for round in 0..6usize {
        for i in 0..40usize {
            let block = if (i + round) % 3 == 0 { BlockType::Air } else { BlockType::Dirt };
            chunk.set_block(i % 16, i * 5, (i * 3) % 16, block).unwrap();
        }
    }
    let mut mesh = chunk.blocks_in_mesh().clone();
    mesh.sort();
    let mut unique = mesh.clone();
    unique.dedup();
    assert_eq!(mesh, unique);
    let mut expected = chunk.blocks().occupied_cells();
    expected.sort();
    assert_eq!(mesh, expected);
}

#[test]
fn set_block_outside_the_chunk_is_a_bounds_error() {
    let mut chunk = empty_chunk();
    chunk.set_block(1, 1, 1, BlockType::Stone).unwrap();
    assert_eq!(
        chunk.set_block(16, 1, 1, BlockType::Stone),
        Err(BoundsError { x: 16, y: 1, z: 1 })
    );
    assert_eq!(
        chunk.set_block(1, 256, 1, BlockType::Air),
        Err(BoundsError { x: 1, y: 256, z: 1 })
    );
    assert_eq!(
        chunk.set_block(1, 1, 16, BlockType::Stone),
        Err(BoundsError { x: 1, y: 1, z: 16 })
    );
    assert_eq!(chunk.blocks_in_mesh(), &vec![(1usize, 1usize, 1usize)]);
    assert_eq!(
        chunk.get_block(0, 0, 16),
        Err(BoundsError { x: 0, y: 0, z: 16 })
    );
}

#[test]
fn chunk_highest_in_column() {
    let mut chunk = empty_chunk();
    assert_eq!(chunk.highest_in_column(4, 4), Ok(None));
    chunk.set_block(4, 17, 4, BlockType::Stone).unwrap();
    chunk.set_block(4, 3, 4, BlockType::Stone).unwrap();
    assert_eq!(chunk.highest_in_column(4, 4), Ok(Some(17)));
    chunk.set_block(4, 17, 4, BlockType::Air).unwrap();
    assert_eq!(chunk.highest_in_column(4, 4), Ok(Some(3)));
    assert_eq!(
        chunk.highest_in_column(4, 16),
        Err(BoundsError { x: 4, y: 0, z: 16 })
    );
}

#[test]
fn payload_is_the_encoding_of_mesh_and_blocks() {
    let mut chunk = empty_chunk();
    chunk.set_block(5, 10, 5, BlockType::Water).unwrap();
    chunk.set_block(0, 200, 0, BlockType::Snow).unwrap();
    assert_eq!(
        Ok(chunk.payload()),
        to_serialized(chunk.blocks_in_mesh(), chunk.blocks())
    );
    assert_eq!(chunk.payload().len(), 2 * 259);
}

#[test]
fn chunk_from_its_payload_has_the_same_blocks() {
    let mut chunk = empty_chunk();
    chunk.set_block(9, 9, 9, BlockType::Cactus).unwrap();
    chunk.set_block(5, 10, 5, BlockType::Water).unwrap();
    chunk.set_block(0, 0, 0, BlockType::Stone).unwrap();
    let loaded = Chunk::from(String::from("chunks/4_-4"), &chunk.payload(), 4, -4).unwrap();
    assert_eq!(loaded.blocks(), chunk.blocks());
    assert_eq!(loaded.x(), 4);
    assert_eq!(loaded.z(), -4);
    assert_eq!(loaded.save_path(), "chunks/4_-4");
    assert_eq!(
        loaded.blocks_in_mesh(),
        &vec![(0usize, 0usize, 0usize), (9, 9, 9), (5, 10, 5)]
    );
    assert_eq!(loaded.payload(), chunk.payload());
}

#[test]
fn chunk_from_a_corrupt_payload_is_a_decode_error() {
    let mut payload = empty_chunk().payload();
    assert!(payload.is_empty());
    payload.push(127);
    assert_eq!(
        Chunk::from(String::new(), &payload, 0, 0).err(),
        Some(DecodeError::Truncated)
    );
    let mut chunk = empty_chunk();
    chunk.set_block(1, 1, 1, BlockType::Stone).unwrap();
    let mut payload = chunk.payload();
    payload[20] = 99;
    assert_eq!(
        Chunk::from(String::new(), &payload, 0, 0).err(),
        Some(DecodeError::InvalidOrdinal)
    );
}

#[test]
fn generate_is_determined_by_samples_and_site() {
    let samples = flat(14);
    let first = Chunk::generate(2, -5, &samples, Some((7, 7)), "w/chunks").unwrap();
    let second = Chunk::generate(2, -5, &samples, Some((7, 7)), "w/chunks").unwrap();
    assert_eq!(first.blocks(), second.blocks());
    assert_eq!(first.blocks_in_mesh(), second.blocks_in_mesh());
    assert_eq!(first.save_path(), "w/chunks/2_-5");
    assert_eq!(first.x(), 2);
    assert_eq!(first.z(), -5);
    let mut expected = generate_base_terrain(&samples).unwrap();
    place_tree(&mut expected, 7, 7);
    assert_eq!(first.blocks(), &expected);
    assert_eq!(first.blocks_in_mesh(), &expected.occupied_cells());
    assert_eq!(first.get_block(7, 15, 7), Ok(BlockType::Log));
}

#[test]
fn generate_without_a_site_is_the_base_terrain() {
    let samples = flat(14);
    let chunk = Chunk::generate(0, 0, &samples, None, "c").unwrap();
    assert_eq!(chunk.blocks(), &generate_base_terrain(&samples).unwrap());
    assert_eq!(chunk.blocks_in_mesh().len(), 256 * 15);
}

#[test]
fn generate_rejects_bad_samples() {
    assert_eq!(
        Chunk::generate(0, 0, &Vec::new(), None, "c").err(),
        Some(TerrainError::SampleCount)
    );
    assert_eq!(
        Chunk::generate(0, 0, &flat(256), None, "c").err(),
        Some(TerrainError::ColumnTooHigh)
    );
    assert_eq!(
        Chunk::new(0, 0, &flat(300), "c").err(),
        Some(TerrainError::ColumnTooHigh)
    );
}

#[test]
fn new_chunk_is_base_terrain_with_at_most_one_tree_inside_the_margin() {
    let samples = flat(14);
    let base = generate_base_terrain(&samples).unwrap();
    let mut with_tree = 0;
    let mut without = 0;
    for _ in 0..60 {
        let chunk = Chunk::new(1, 1, &samples, "w/chunks").unwrap();
        assert_eq!(chunk.save_path(), "w/chunks/1_1");
        let logs: Vec<(usize, usize, usize)> = chunk
            .blocks_in_mesh()
            .iter()
            .filter(|at| chunk.get_block(at.0, at.1, at.2) == Ok(BlockType::Log))
            .cloned()
            .collect();
        if logs.is_empty() {
            assert_eq!(chunk.blocks(), &base);
            without += 1;
        } else {
            let (x, _, z) = logs[0];
            assert!(3 <= x && x <= 13 && 3 <= z && z <= 13);
            let mut expected = base.clone();
            assert!(place_tree(&mut expected, x, z));
            assert_eq!(chunk.blocks(), &expected);
            with_tree += 1;
        }
        let mut mesh = chunk.blocks_in_mesh().clone();
        mesh.sort();
        let mut expected_mesh = chunk.blocks().occupied_cells();
        expected_mesh.sort();
        assert_eq!(mesh, expected_mesh);
    }
    assert!(with_tree > 30);
    assert_eq!(with_tree + without, 60);
}

#[test]
fn new_chunk_on_water_never_has_a_tree() {
    let samples = flat(4);
    let base = generate_base_terrain(&samples).unwrap();
    for _ in 0..20 {
        let chunk = Chunk::new(0, 0, &samples, "c").unwrap();
        assert_eq!(chunk.blocks(), &base);
    }
}
