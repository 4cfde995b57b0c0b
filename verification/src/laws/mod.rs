//! What the operations promise, said of their inputs and results alone.

pub mod arguments;
pub mod commands;
pub mod context;
pub mod episodes;
pub mod jobs;
pub mod lines;
pub mod memory;
pub mod records;
pub mod refusals;
pub mod search;
pub mod storage;
pub mod text;
pub mod vectors;
pub mod workspace;
