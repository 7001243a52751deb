use noise::{NoiseFn, OpenSimplex, Seedable};
use rustycraft::block_type::BlockType;
use rustycraft::chunk_utils::{from_serialized, DecodeError};
use rustycraft::terrain::{generate_base_terrain, ColumnSample, TerrainError};
use rustycraft::world::{ChunkSource, World, WorldError};

fn sample(x: f32, z: f32, simplex: &OpenSimplex) -> f32 {
    ((simplex.get([x as f64, z as f64]) + 1.0) / 2.0) as f32
}

fn gen_heightmap(x: f32, z: f32, simplex: &OpenSimplex) -> f32 {
    let x = x / 100.0;
    let z = z / 100.0;
    let coeff = sample(x, z, simplex) * 2.0;
    let height = coeff * sample(x, z, simplex)
        + coeff * sample(2.0 * x, 2.0 * z, simplex)
        + 0.5 * coeff * sample(4.0 * x, 4.0 * z, simplex);
    height.powf(1.5)
}

fn noise_samples(seed: u32, chunk_x: i32, chunk_z: i32) -> Vec<ColumnSample> {
    let simplex = OpenSimplex::new().set_seed(seed);
    let mut samples = Vec::new();
    for x in 0..16i32 {
        for z in 0..16i32 {
            let simplex_x = (x + chunk_x * 16) as f32;
            let simplex_z = (z + chunk_z * 16) as f32;
            let level = (15.0 * gen_heightmap(simplex_x, simplex_z, &simplex)) as usize;
            let snow_offset = (sample(simplex_x * 4.0, simplex_z * 4.0, &simplex) * 20.0) as usize;
            samples.push(ColumnSample { level, snow_offset });
        }
    }
    samples
}

fn flat(level: usize) -> ChunkSource {
    ChunkSource::Sampled(vec![ColumnSample { level, snow_offset: 0 }; 256])
}

#[test]
fn new_world_is_kept_under_worlds() {
    let world = World::new_with_seed("world", 1234);
    assert_eq!(world.seed(), 1234);
    assert_eq!(world.save_dir(), "worlds/world");
    assert_eq!(world.chunk_path(0, 0), "worlds/world/chunks/0_0");
    assert_eq!(world.chunk_path(-2, 31), "worlds/world/chunks/-2_31");
    assert!(world.get_chunk(0, 0).is_none());
}

#[test]
fn world_takes_its_seed_from_the_seed_file() {
    let (world, to_write) = World::new("w", Some("1234"), 99).unwrap();
    assert_eq!(world.seed(), 1234);
    assert_eq!(to_write, None);
    assert_eq!(world.save_dir(), "worlds/w");
}

#[test]
fn world_without_a_seed_file_takes_the_clock() {
    let (world, to_write) = World::new("w", None, 1_700_000_000_123).unwrap();
    assert_eq!(world.seed(), (1_700_000_000_123u128 % 4294967296) as u32);
    assert_eq!(world.seed(), 1_700_000_000_123u128 as u32);
    assert_eq!(to_write, Some(format!("{}", world.seed())));
    let (world, to_write) = World::new("w", None, 7).unwrap();
    assert_eq!(world.seed(), 7);
    assert_eq!(to_write, Some(String::from("7")));
}

#[test]
fn world_refuses_a_seed_file_without_a_seed() {
    assert_eq!(World::new("w", Some("12x"), 5).err(), Some(WorldError::InvalidSeed));
    assert_eq!(World::new("w", Some(""), 5).err(), Some(WorldError::InvalidSeed));
    assert_eq!(
        World::new("w", Some("4294967296"), 5).err(),
        Some(WorldError::InvalidSeed)
    );
}

#[test]
fn noise_samples_are_the_same_for_the_same_seed() {
    assert_eq!(noise_samples(1234, 0, 0), noise_samples(1234, 0, 0));
    assert_eq!(noise_samples(1234, -3, 7), noise_samples(1234, -3, 7));
    assert_eq!(noise_samples(1234, 0, 0).len(), 256);
    assert!(noise_samples(1234, 0, 0).iter().all(|s| s.level < 200 && s.snow_offset <= 20));
}

#[test]
fn base_terrain_from_noise_is_the_same_for_the_same_seed() {
    for (chunk_x, chunk_z) in vec![(0, 0), (1, 0), (-4, 9)] {
        let first = generate_base_terrain(&noise_samples(1234, chunk_x, chunk_z)).unwrap();
        let second = generate_base_terrain(&noise_samples(1234, chunk_x, chunk_z)).unwrap();
        assert_eq!(first, second);
    }
    let here = generate_base_terrain(&noise_samples(1234, 0, 0)).unwrap();
    let other_seed = generate_base_terrain(&noise_samples(4321, 0, 0)).unwrap();
    assert_ne!(here, other_seed);
}

#[test]
fn set_block_is_read_back_and_survives_a_reload() {
    let mut world = World::new_with_seed("scenario", 1234);
    let source = ChunkSource::Sampled(noise_samples(1234, 0, 0));
    let (_, created) = world.get_or_insert_chunk(0, 0, &source).unwrap();
    assert!(created);
    let write = world
        .set_block(5, 10, 5, BlockType::Water, &ChunkSource::Absent)
        .unwrap();
    assert_eq!(write.path, "worlds/scenario/chunks/0_0");
    let (chunk, created) = world.get_or_insert_chunk(0, 0, &ChunkSource::Absent).unwrap();
    assert!(!created);
    assert_eq!(chunk.get_block(5, 10, 5), Ok(BlockType::Water));
    assert_eq!(write.payload, chunk.payload());
    let blocks = chunk.blocks().clone();

    let mut reloaded = World::new_with_seed("scenario", 1234);
    let stored = ChunkSource::Stored(write.payload.clone());
    let (fresh, created) = reloaded.get_or_insert_chunk(0, 0, &stored).unwrap();
    assert!(!created);
    assert_eq!(fresh.get_block(5, 10, 5), Ok(BlockType::Water));
    assert_eq!(fresh.blocks(), &blocks);
    assert_eq!(fresh.save_path(), "worlds/scenario/chunks/0_0");
}

#[test]
fn get_chunks_answers_every_request_with_its_coordinates() {
    let mut world = World::new_with_seed("batch", 1234);
    let coords = vec![(0, 0), (1, 0)];
    let sources = vec![
        ChunkSource::Sampled(noise_samples(1234, 0, 0)),
        ChunkSource::Sampled(noise_samples(1234, 1, 0)),
    ];
    let batch = world.get_chunks(&coords, &sources);
    assert_eq!(batch.error, None);
    assert_eq!(batch.chunks.len(), 2);
    assert_eq!((batch.chunks[0].chunk_x, batch.chunks[0].chunk_z), (0, 0));
    assert_eq!((batch.chunks[1].chunk_x, batch.chunks[1].chunk_z), (1, 0));
    for entry in batch.chunks.iter() {
        assert!(entry.created);
        let (mesh, blocks) = from_serialized(&entry.payload).unwrap();
        let chunk = world.get_chunk(entry.chunk_x, entry.chunk_z).unwrap();
        assert_eq!(&blocks, chunk.blocks());
        assert_eq!(mesh, chunk.blocks().occupied_cells());
        assert_eq!(chunk.x(), entry.chunk_x);
        assert_eq!(chunk.z(), entry.chunk_z);
    }
}

#[test]
fn get_chunks_serves_cached_chunks_without_a_source() {
    let mut world = World::new_with_seed("batch", 1);
    world.get_or_insert_chunk(2, 2, &flat(14)).unwrap();
    let payload = world.get_chunk(2, 2).unwrap().payload();
    let batch = world.get_chunks(&vec![(2, 2), (2, 2)], &Vec::new());
    assert_eq!(batch.error, None);
    assert_eq!(batch.chunks.len(), 2);
    assert!(!batch.chunks[0].created);
    assert!(!batch.chunks[1].created);
    assert_eq!(batch.chunks[0].payload, payload);
    assert_eq!(batch.chunks[1].payload, payload);
}

#[test]
fn get_chunks_creates_a_chunk_asked_for_twice_only_once() {
    let mut world = World::new_with_seed("batch", 1);
    let batch = world.get_chunks(&vec![(4, 4), (4, 4)], &vec![flat(4), flat(20)]);
    assert_eq!(batch.error, None);
    assert_eq!(batch.chunks.len(), 2);
    assert!(batch.chunks[0].created);
    assert!(!batch.chunks[1].created);
    assert_eq!(batch.chunks[0].payload, batch.chunks[1].payload);
    assert_eq!(world.highest_in_column(4 * 16, 4 * 16), Some(Some(8)));
}

#[test]
fn get_chunks_stops_at_the_first_chunk_that_cannot_be_fetched() {
    let mut world = World::new_with_seed("batch", 1);
    let coords = vec![(0, 0), (1, 1), (2, 2)];
    let sources = vec![flat(4), ChunkSource::Stored(vec![1, 2, 3]), flat(4)];
    let batch = world.get_chunks(&coords, &sources);
    assert_eq!(batch.error, Some(WorldError::Decode(DecodeError::MissingDelimiter)));
    assert_eq!(batch.chunks.len(), 1);
    assert_eq!((batch.chunks[0].chunk_x, batch.chunks[0].chunk_z), (0, 0));
    assert!(world.get_chunk(0, 0).is_some());
    assert!(world.get_chunk(1, 1).is_none());
    assert!(world.get_chunk(2, 2).is_none());
}

#[test]
fn get_chunks_needs_a_source_for_a_chunk_that_is_not_cached() {
    let mut world = World::new_with_seed("batch", 1);
    let batch = world.get_chunks(&vec![(0, 0), (1, 1)], &vec![flat(4)]);
    assert_eq!(batch.error, Some(WorldError::SourceRequired));
    assert_eq!(batch.chunks.len(), 1);
    let batch = world.get_chunks(&Vec::new(), &Vec::new());
    assert_eq!(batch.error, None);
    assert!(batch.chunks.is_empty());
}

#[test]
fn get_or_insert_chunk_keeps_the_cached_chunk() {
    let mut world = World::new_with_seed("cache", 1);
    let (_, created) = world.get_or_insert_chunk(0, 0, &flat(4)).unwrap();
    assert!(created);
    let first = world.get_chunk(0, 0).unwrap().blocks().clone();
    let (chunk, created) = world.get_or_insert_chunk(0, 0, &flat(40)).unwrap();
    assert!(!created);
    assert_eq!(chunk.blocks(), &first);
    assert_eq!(chunk.highest_in_column(0, 0), Ok(Some(8)));
}

#[test]
fn get_or_insert_chunk_loads_a_stored_chunk_without_storing_it_again() {
    let mut donor = World::new_with_seed("a", 1);
    donor.get_or_insert_chunk(-1, -1, &flat(14)).unwrap();
    let payload = donor.get_chunk(-1, -1).unwrap().payload();
    let mut world = World::new_with_seed("b", 1);
    let (chunk, created) = world
        .get_or_insert_chunk(-1, -1, &ChunkSource::Stored(payload))
        .unwrap();
    assert!(!created);
    assert_eq!(chunk.x(), -1);
    assert_eq!(chunk.z(), -1);
    assert_eq!(chunk.save_path(), "worlds/b/chunks/-1_-1");
    assert_eq!(chunk.blocks(), donor.get_chunk(-1, -1).unwrap().blocks());
}

#[test]
fn get_or_insert_chunk_reports_why_no_chunk_can_be_made() {
    let mut world = World::new_with_seed("errors", 1);
    assert_eq!(
        world.get_or_insert_chunk(0, 0, &ChunkSource::Absent).err(),
        Some(WorldError::SourceRequired)
    );
    assert_eq!(
        world
            .get_or_insert_chunk(0, 0, &ChunkSource::Stored(vec![127, 0]))
            .err(),
        Some(WorldError::Decode(DecodeError::Truncated))
    );
    assert_eq!(
        world
            .get_or_insert_chunk(0, 0, &ChunkSource::Sampled(Vec::new()))
            .err(),
        Some(WorldError::Terrain(TerrainError::SampleCount))
    );
    assert_eq!(
        world.get_or_insert_chunk(0, 0, &flat(256)).err(),
        Some(WorldError::Terrain(TerrainError::ColumnTooHigh))
    );
    assert!(world.get_chunk(0, 0).is_none());
}

#[test]
fn highest_in_column_answers_only_for_cached_chunks() {
    let mut world = World::new_with_seed("top", 1);
    assert_eq!(world.highest_in_column(0, 0), None);
    world.get_or_insert_chunk(0, 0, &flat(4)).unwrap();
    assert_eq!(world.highest_in_column(0, 0), Some(Some(8)));
    assert_eq!(world.highest_in_column(15, 15), Some(Some(8)));
    assert_eq!(world.highest_in_column(16, 0), None);
    assert_eq!(world.highest_in_column(-1, 0), None);
    assert!(world.get_chunk(1, 0).is_none());
    assert!(world.get_chunk(-1, 0).is_none());
}

#[test]
fn highest_in_column_of_a_cached_column_of_air_is_no_block() {
    let mut world = World::new_with_seed("top", 1);
    world
        .get_or_insert_chunk(0, 0, &ChunkSource::Stored(Vec::new()))
        .unwrap();
    assert!(world.get_chunk(0, 0).is_some());
    assert_eq!(world.highest_in_column(3, 3), Some(None));
    assert_eq!(world.highest_in_column(16, 3), None);
    world
        .set_block(3, 70, 3, BlockType::Stone, &ChunkSource::Absent)
        .unwrap();
    assert_eq!(world.highest_in_column(3, 3), Some(Some(70)));
    assert_eq!(world.highest_in_column(3, 4), Some(None));
    world
        .set_block(3, 70, 3, BlockType::Air, &ChunkSource::Absent)
        .unwrap();
    assert_eq!(world.highest_in_column(3, 3), Some(None));
}

#[test]
fn set_block_resolves_negative_coordinates_by_floor() {
    let mut world = World::new_with_seed("edit", 1);
    let write = world
        .set_block(-1, 20, -17, BlockType::Cactus, &ChunkSource::Stored(Vec::new()))
        .unwrap();
    assert_eq!(write.path, "worlds/edit/chunks/-1_-2");
    let chunk = world.get_chunk(-1, -2).unwrap();
    assert_eq!(chunk.get_block(15, 20, 15), Ok(BlockType::Cactus));
    assert_eq!(chunk.blocks_in_mesh(), &vec![(15usize, 20usize, 15usize)]);
    assert_eq!(write.payload, chunk.payload());
    assert_eq!(world.highest_in_column(-1, -17), Some(Some(20)));
}

#[test]
fn set_block_generates_the_chunk_it_needs() {
    let mut world = World::new_with_seed("edit", 1);
    let write = world
        .set_block(40, 200, 40, BlockType::Orange, &flat(4))
        .unwrap();
    assert_eq!(write.path, "worlds/edit/chunks/2_2");
    let chunk = world.get_chunk(2, 2).unwrap();
    assert_eq!(chunk.get_block(8, 200, 8), Ok(BlockType::Orange));
    assert_eq!(chunk.get_block(8, 8, 8), Ok(BlockType::Water));
    let (_, blocks) = from_serialized(&write.payload).unwrap();
    assert_eq!(&blocks, chunk.blocks());
}

#[test]
fn set_block_refuses_a_height_outside_the_world() {
    let mut world = World::new_with_seed("edit", 1);
    assert_eq!(
        world.set_block(0, -1, 0, BlockType::Stone, &flat(4)).err(),
        Some(WorldError::HeightOutOfRange { world_y: -1 })
    );
    assert_eq!(
        world.set_block(0, 256, 0, BlockType::Stone, &flat(4)).err(),
        Some(WorldError::HeightOutOfRange { world_y: 256 })
    );
    assert!(world.get_chunk(0, 0).is_none());
    assert!(world
        .set_block(0, 255, 0, BlockType::Stone, &flat(4))
        .is_ok());
    assert!(world.set_block(0, 0, 0, BlockType::Stone, &flat(4)).is_ok());
}

#[test]
fn set_block_without_a_chunk_or_a_source_is_refused() {
    let mut world = World::new_with_seed("edit", 1);
    assert_eq!(
        world
            .set_block(0, 5, 0, BlockType::Stone, &ChunkSource::Absent)
            .err(),
        Some(WorldError::SourceRequired)
    );
    assert!(world.get_chunk(0, 0).is_none());
}

#[test]
fn later_edit_wins_at_the_same_coordinate() {
    let mut world = World::new_with_seed("order", 1);
    world
        .set_block(5, 10, 5, BlockType::Water, &ChunkSource::Stored(Vec::new()))
        .unwrap();
    let write = world
        .set_block(5, 10, 5, BlockType::Sand, &ChunkSource::Absent)
        .unwrap();
    let chunk = world.get_chunk(0, 0).unwrap();
    assert_eq!(chunk.get_block(5, 10, 5), Ok(BlockType::Sand));
    assert_eq!(chunk.blocks_in_mesh(), &vec![(5usize, 10usize, 5usize)]);
    let (_, blocks) = from_serialized(&write.payload).unwrap();
    assert_eq!(blocks.get(5, 10, 5), Ok(BlockType::Sand));
}

#[test]
fn edits_at_different_coordinates_both_hold() {
    let mut world = World::new_with_seed("order", 1);
    world
        .set_block(5, 10, 5, BlockType::Water, &ChunkSource::Stored(Vec::new()))
        .unwrap();
    world
        .set_block(5, 11, 5, BlockType::Sand, &ChunkSource::Absent)
        .unwrap();
    world
        .set_block(-5, 10, 5, BlockType::Dirt, &ChunkSource::Stored(Vec::new()))
        .unwrap();
    assert_eq!(
        world.get_chunk(0, 0).unwrap().get_block(5, 10, 5),
        Ok(BlockType::Water)
    );
    assert_eq!(
        world.get_chunk(0, 0).unwrap().get_block(5, 11, 5),
        Ok(BlockType::Sand)
    );
    assert_eq!(
        world.get_chunk(-1, 0).unwrap().get_block(11, 10, 5),
        Ok(BlockType::Dirt)
    );
}

#[test]
fn get_chunk_mut_edits_the_cached_chunk_in_place() {
    let mut world = World::new_with_seed("mut", 1);
    assert!(world.get_chunk_mut(0, 0).is_none());
    world
        .get_or_insert_chunk(0, 0, &ChunkSource::Stored(Vec::new()))
        .unwrap();
    world
        .get_chunk_mut(0, 0)
        .unwrap()
        .set_block(1, 2, 3, BlockType::Log)
        .unwrap();
    assert_eq!(
        world.get_chunk(0, 0).unwrap().get_block(1, 2, 3),
        Ok(BlockType::Log)
    );
    assert_eq!(world.highest_in_column(1, 3), Some(Some(2)));
}

#[test]
fn chunks_at_far_coordinates_are_kept_apart() {
    let mut world = World::new_with_seed("far", 1);
    let coords = vec![
        (i32::MIN, i32::MIN),
        (i32::MIN, i32::MAX),
        (i32::MAX, i32::MIN),
        (i32::MAX, i32::MAX),
        (0, 1),
        (1, 0),
        (-1, 0),
        (0, -1),
    ];
    for (i, (x, z)) in coords.iter().enumerate() {
        world
            .get_or_insert_chunk(*x, *z, &ChunkSource::Stored(Vec::new()))
            .unwrap();
        world
            .get_chunk_mut(*x, *z)
            .unwrap()
            .set_block(0, i, 0, BlockType::Stone)
            .unwrap();
    }
    for (i, (x, z)) in coords.iter().enumerate() {
        let chunk = world.get_chunk(*x, *z).unwrap();
        assert_eq!(chunk.x(), *x);
        assert_eq!(chunk.z(), *z);
        assert_eq!(chunk.blocks_in_mesh(), &vec![(0usize, i, 0usize)]);
    }
    assert!(world.get_chunk(0, 0).is_none());
}
