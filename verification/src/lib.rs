//! Decoder for the `kronarknode` binary node-graph format.
//!
//! A file describes a graph of nodes: two roots, a table of node names, a
//! table of type names, and a table of placed instances with their sockets.
//! [`kronarknode::Node::from_bytes`] turns the bytes of a file into that
//! graph, or into an error that says what went wrong and at which byte.
//!
//! What the decoder returns is stated against a model of the format:
//! [`kronarknode::node_of`] says what any sequence of bytes decodes to, and
//! [`encoding::file_of`] says which bytes a graph is written as. The two are
//! proved to be inverses of each other in [`inverse`]; [`truncation`]
//! proves what becomes of a file that is cut off, [`trailing`] what becomes
//! of a file with bytes behind it, and [`offsets`] that the offset of an
//! error always lies within the input.
//!
//! [`text`], [`viewer`] and [`canvas`] hold what terminal viewers for such
//! graphs compute before they draw.

pub mod canvas;
pub mod encoding;
pub mod errors;
pub mod inverse;
pub mod kronarknode;
pub mod lexer;
pub mod offsets;
pub mod packing;
pub mod prelude;
pub mod strings;
pub mod text;
pub mod trailing;
pub mod truncation;
pub mod viewer;
pub mod wire;
