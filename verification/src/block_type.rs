//! Voxel materials and their stable wire ordinals.

use vstd::prelude::*;

verus! {

/// The closed set of voxel materials.
///
/// The position of a variant in this list is its ordinal. Ordinals are
/// written to disk and sent to clients, so the list only ever grows at
/// its end.
#[derive(Debug, PartialEq, Eq, Clone, Copy, Structural)]
pub enum BlockType {
    Grass,
    Dirt,
    Log,
    Leaves,
    Stone,
    Air,
    Orange,
    Black,
    DarkOrange,
    Water,
    Sand,
    Snow,
    Cactus,
}

/// Number of materials; every ordinal is below it.
pub const BLOCK_TYPE_COUNT: usize = 13;

impl BlockType {
    /// The ordinal of a material as a mathematical integer.
    pub open spec fn spec_ordinal(self) -> int {
        match self {
            BlockType::Grass => 0,
            BlockType::Dirt => 1,
            BlockType::Log => 2,
            BlockType::Leaves => 3,
            BlockType::Stone => 4,
            BlockType::Air => 5,
            BlockType::Orange => 6,
            BlockType::Black => 7,
            BlockType::DarkOrange => 8,
            BlockType::Water => 9,
            BlockType::Sand => 10,
            BlockType::Snow => 11,
            BlockType::Cactus => 12,
        }
    }

    /// The ordinal of a material, as stored in a payload byte.
    pub fn ordinal(self) -> (n: u8)
        ensures
            n == self.spec_ordinal(),
    {
        match self {
            BlockType::Grass => 0,
            BlockType::Dirt => 1,
            BlockType::Log => 2,
            BlockType::Leaves => 3,
            BlockType::Stone => 4,
            BlockType::Air => 5,
            BlockType::Orange => 6,
            BlockType::Black => 7,
            BlockType::DarkOrange => 8,
            BlockType::Water => 9,
            BlockType::Sand => 10,
            BlockType::Snow => 11,
            BlockType::Cactus => 12,
        }
    }
}

/// The material with a given ordinal, if there is one.
pub open spec fn spec_index_to_block(index: int) -> Option<BlockType> {
    if index == 0 {
        Some(BlockType::Grass)
    } else if index == 1 {
        Some(BlockType::Dirt)
    } else if index == 2 {
        Some(BlockType::Log)
    } else if index == 3 {
        Some(BlockType::Leaves)
    } else if index == 4 {
        Some(BlockType::Stone)
    } else if index == 5 {
        Some(BlockType::Air)
    } else if index == 6 {
        Some(BlockType::Orange)
    } else if index == 7 {
        Some(BlockType::Black)
    } else if index == 8 {
        Some(BlockType::DarkOrange)
    } else if index == 9 {
        Some(BlockType::Water)
    } else if index == 10 {
        Some(BlockType::Sand)
    } else if index == 11 {
        Some(BlockType::Snow)
    } else if index == 12 {
        Some(BlockType::Cactus)
    } else {
        None
    }
}

/// Maps an ordinal back to its material; `None` for a number that is no
/// ordinal.
pub fn index_to_block(index: usize) -> (block: Option<BlockType>)
    ensures
        block == spec_index_to_block(index as int),
{
    match index {
        0 => Some(BlockType::Grass),
        1 => Some(BlockType::Dirt),
        2 => Some(BlockType::Log),
        3 => Some(BlockType::Leaves),
        4 => Some(BlockType::Stone),
        5 => Some(BlockType::Air),
        6 => Some(BlockType::Orange),
        7 => Some(BlockType::Black),
        8 => Some(BlockType::DarkOrange),
        9 => Some(BlockType::Water),
        10 => Some(BlockType::Sand),
        11 => Some(BlockType::Snow),
        12 => Some(BlockType::Cactus),
        _ => None,
    }
}

/// Ordinals and materials correspond one to one: an ordinal is below
/// `BLOCK_TYPE_COUNT`, and `index_to_block` inverts `ordinal`.
pub proof fn lemma_ordinal_round_trip(block: BlockType)
    ensures
        0 <= block.spec_ordinal() < BLOCK_TYPE_COUNT,
        spec_index_to_block(block.spec_ordinal()) == Some(block),
{
}

/// A number is an ordinal exactly if it lies in `0..BLOCK_TYPE_COUNT`,
/// and then it is the ordinal of the material it maps to.
pub proof fn lemma_index_to_block_total(index: int)
    ensures
        spec_index_to_block(index).is_some() <==> 0 <= index < BLOCK_TYPE_COUNT,
        spec_index_to_block(index) matches Some(block) ==> block.spec_ordinal() == index,
{
}

} // verus!
