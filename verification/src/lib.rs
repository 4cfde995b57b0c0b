//! Project-local memory: durable facts, workspace state, episodic history and
//! the derived state that makes them searchable.

pub mod args;
pub mod cli;
pub mod clock;
pub mod embedding;
pub mod embedding_worker;
pub mod episode;
pub mod error;
pub mod index_job;
pub mod laws;
pub mod layout;
pub mod legacy;
pub mod like;
pub mod memory;
pub mod model;
pub mod order;
pub mod project;
pub mod query;
pub mod recall;
pub mod render;
pub mod run;
pub mod schema;
pub mod search;
pub mod staging;
pub mod state;
pub mod storage;
pub mod storage_migration;
pub mod store;
pub mod text;
pub mod vector;
pub mod vector_search;
pub mod workspace;
