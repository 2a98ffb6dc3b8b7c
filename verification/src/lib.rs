//! A single-node tick-database core for financial market updates.
//!
//! Market updates arrive as compact ASCII lines, are buffered in named
//! per-connection stores, and are persisted as binary file images. The
//! crate holds the verified core: the line parser, the store and
//! connection-state bookkeeping, the command dispatcher, the binary batch
//! codec, the JSON rendering, and the wire framing. All file and socket
//! traffic is left to the embedding program, which hands the dispatcher a
//! snapshot of the file bytes it needs and performs the writes the
//! dispatcher returns.
pub mod bootstrap;
pub mod cmdstr;
pub mod codec;
pub mod disk;
pub mod dispatch;
pub mod laws;
pub mod parser;
pub mod render;
pub mod roundtrip;
pub mod state;
pub mod store;
pub mod text;
pub mod update;
pub mod wire;

use vstd::prelude::*;

verus! {

} // verus!
