//! Renders trees of labeled nodes into two-dimensional text diagrams:
//! a bottom-up width pass, a top-down breadth-first placement pass, and a
//! line buffer that emits finished rows in order.  A small companion module
//! decodes Prüfer sequences into tree edge lists.
#![verifier::loop_isolation(false)]

pub mod aligner;
pub mod config;
pub mod decorators;
pub mod errors;
pub mod liner;
pub mod printer;
pub mod prufer;
pub mod tree_node;
pub mod text;
pub mod util;

pub use prufer::tree_edges;
pub use prufer::InvalidPruferCode;
pub use prufer::PruferCode;
