//! Introspection of another process's memory: typed reads and writes, pointer
//! paths, bounded text, sibling-chain walks and nested asset tables.
pub mod channel;
pub mod pointer;
pub mod text;
pub mod registry;
pub mod hierarchy;
pub mod assets;
pub mod engine;
pub mod environ;
pub mod discovery;
