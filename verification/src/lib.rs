pub mod batch;
pub mod collector;
pub mod config;
pub mod error;
pub mod handler;
pub mod message;
pub mod outside;
pub mod publish;
pub mod sessions;
pub mod storage;
pub mod stream;
pub mod sync;
pub mod telegraph;
pub mod text;
pub mod types;
pub mod unique;
