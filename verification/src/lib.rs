pub mod types;
pub mod score;
pub mod rank;
pub mod memory;
pub mod models;
pub mod bulk;
pub mod codec;
pub mod wal;
pub mod snapshot;
pub mod collection;
pub mod engine;
pub mod config;
pub mod embeddings;
