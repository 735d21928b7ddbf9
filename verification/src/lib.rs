//! Core block-building pipeline of an Ethereum execution-layer node.
//!
//! Given a pool of pending transactions, a chain-state provider and a block
//! environment derived from the chain tip, the library selects transactions,
//! executes them against a layered state view, applies protocol system calls
//! and assembles a sealed pending block.

pub mod arrivals;
pub mod best;
pub mod builder;
pub mod chain;
pub mod evm;
pub mod header;
pub mod overlay;
pub mod p2p;
pub mod primitives;
pub mod state;
pub mod system_calls;
pub mod tx;
