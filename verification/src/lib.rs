pub mod clock;
pub mod config;
pub mod decimal;
pub mod executor;
pub mod filename;
pub mod header_laws;
pub mod llm;
pub mod metadata;
pub mod output;
pub mod recency;
pub mod retention;
pub mod summary;
pub mod text;
