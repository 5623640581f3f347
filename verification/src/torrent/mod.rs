//! The BitTorrent side of the library: its errors, durable metadata, input
//! recognition, file-path rules and the decisions of its polling loop.

pub mod backend;
pub mod cleanup;
pub mod error;
pub mod input;
pub mod layout;
pub mod links;
pub mod meta;
pub mod path;
