//! Verified core of a code indexer: it splits source files into chunks,
//! decides which files must be re-indexed, and plans the embedding requests.

pub mod text;
pub mod digest;
pub mod chunk;
pub mod tschunk;
pub mod walk;
pub mod embed;
pub mod manifest;
pub mod index;
