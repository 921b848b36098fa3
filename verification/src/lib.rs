pub mod args;
pub mod chunk;
pub mod chunk_type;
pub mod commands;
pub mod png;
pub mod wire;
