//! Server-side world engine for a voxel sandbox: block storage, the
//! transform between global and chunk-local coordinates, terrain
//! generation from height samples, the layered chunk codec and the
//! chunk cache. The crate is verified with Verus; the one function whose
//! contract is taken on trust is the draw of a random number.

pub mod block_map;
pub mod block_type;
pub mod chunk;
pub mod chunk_utils;
pub mod codec_laws;
pub mod coord_map;
pub mod coords;
pub mod layout;
pub mod random;
pub mod terrain;
pub mod world;
pub mod world_laws;
