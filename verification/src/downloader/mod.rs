//! The downloader: servers, the addresses of their files, the documents
//! they publish and the record of what was downloaded.

pub mod server;
pub mod models;
pub mod progress;
pub mod download;
