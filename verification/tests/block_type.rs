use rustycraft::block_type::{index_to_block, BlockType, BLOCK_TYPE_COUNT};

fn all_blocks() -> Vec<BlockType> {
    vec![
        BlockType::Grass,
        BlockType::Dirt,
        BlockType::Log,
        BlockType::Leaves,
        BlockType::Stone,
        BlockType::Air,
        BlockType::Orange,
        BlockType::Black,
        BlockType::DarkOrange,
        BlockType::Water,
        BlockType::Sand,
        BlockType::Snow,
        BlockType::Cactus,
    ]
}

#[test]
fn ordinals_follow_the_wire_table() {
    assert_eq!(BlockType::Grass.ordinal(), 0);
    assert_eq!(BlockType::Dirt.ordinal(), 1);
    assert_eq!(BlockType::Log.ordinal(), 2);
    assert_eq!(BlockType::Leaves.ordinal(), 3);
    assert_eq!(BlockType::Stone.ordinal(), 4);
    assert_eq!(BlockType::Air.ordinal(), 5);
    assert_eq!(BlockType::Orange.ordinal(), 6);
    assert_eq!(BlockType::Black.ordinal(), 7);
    assert_eq!(BlockType::DarkOrange.ordinal(), 8);
    assert_eq!(BlockType::Water.ordinal(), 9);
    assert_eq!(BlockType::Sand.ordinal(), 10);
    assert_eq!(BlockType::Snow.ordinal(), 11);
    assert_eq!(BlockType::Cactus.ordinal(), 12);
}

#[test]
fn ordinals_are_the_positions_in_the_enum() {
    for (position, block) in all_blocks().into_iter().enumerate() {
        assert_eq!(block.ordinal() as usize, position);
        assert_eq!(block as usize, position);
    }
}

#[test]
fn index_to_block_inverts_ordinal() {
    assert_eq!(all_blocks().len(), BLOCK_TYPE_COUNT);
    for block in all_blocks() {
        assert_eq!(index_to_block(block.ordinal() as usize), Some(block));
    }
}

#[test]
fn index_to_block_exact_values() {
    assert_eq!(index_to_block(0), Some(BlockType::Grass));
    assert_eq!(index_to_block(5), Some(BlockType::Air));
    assert_eq!(index_to_block(9), Some(BlockType::Water));
    assert_eq!(index_to_block(12), Some(BlockType::Cactus));
}

#[test]
fn index_to_block_rejects_what_is_no_ordinal() {
    assert_eq!(index_to_block(13), None);
    assert_eq!(index_to_block(127), None);
    assert_eq!(index_to_block(255), None);
    assert_eq!(index_to_block(usize::MAX), None);
}

#[test]
fn every_ordinal_is_below_the_layer_delimiter() {
    for block in all_blocks() {
        assert!(block.ordinal() < rustycraft::chunk_utils::LAYER_DELIMITER);
    }
}
