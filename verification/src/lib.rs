pub mod text;
pub mod arxiv;
pub mod time;
pub mod feed;
pub mod format;
pub mod config;
pub mod run;
