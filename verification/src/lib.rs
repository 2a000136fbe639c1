//! An append-only authenticated accumulator: a three-level commitment tree
//! (eternity of epochs, epoch of blocks, block of items) with a single root
//! digest summarizing all history, auxiliary indices resolving any tracked
//! value to its (epoch, block, item) address without a search, and selective
//! pruning that never disturbs the root digest.

pub mod digest;
pub mod index_map;
pub mod insert;
pub mod tree;
pub mod block;
pub mod epoch;
pub mod eternity;

pub use digest::Digest;
pub use index_map::IndexMap;
pub use insert::{Insert, Item};
pub use block::Block;
pub use epoch::Epoch;
pub use eternity::{CompositeIndex, Eternity, Proof};
