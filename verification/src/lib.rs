//! OpenDownloadManager: the verified core of a desktop download manager.

pub mod backend;
pub mod bandwidth;
pub mod cli;
pub mod components;
pub mod engine;
pub mod error;
pub mod http;
pub mod manager;
pub mod manager_laws;
pub mod model;
pub mod path;
pub mod persist;
pub mod queue;
pub mod record;
pub mod state;
pub mod storage;
pub mod text;
pub mod torrent;
pub mod url;
