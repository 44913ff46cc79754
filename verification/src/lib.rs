//! A download orchestration library: a durable record store for download
//! items, a state machine governing lifecycle transitions, and the decision
//! logic of a resumable streaming downloader.

pub mod codec;
pub mod downloader;
pub mod error;
pub mod manager;
pub mod models;
pub mod store;
mod text;
pub mod url;
pub mod validate;

pub use error::Error;
pub use models::{DownloadActionResponse, DownloadItem, DownloadStatus};
pub use downloader::{ChunkOutcome, DownloadSession};
pub use manager::{ChangeSink, DownloadManager};
pub use store::DownloadStore;
