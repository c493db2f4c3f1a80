pub mod config;
pub mod errors;
pub mod ffmpeg;
pub mod handlers;
pub mod hls;
pub mod jobs;
pub mod models;
pub mod text;
pub mod upload;
