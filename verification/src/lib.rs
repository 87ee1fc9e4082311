pub mod text;
pub mod sui;
pub mod ranking;
pub mod embeddings;
pub mod errors;
pub mod whisper;
pub mod commands;
pub mod db;
pub mod models;
