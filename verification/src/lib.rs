//! Downloading an operating-system image, checking it against its published
//! digest, decompressing it, and writing it byte for byte to a removable
//! device, with read-back verification.
//!
//! The library holds the logic; files, connections and devices reach it
//! through the traits [`store::ImageStore`], [`transport::Transport`] and
//! [`flash::PrivilegedHandle`], each of which has an implementation in
//! memory here.  An operation reports to an [`progress::Observer`], which
//! can also ask it to stop; a stop takes effect between two chunks.

pub mod cache;
pub mod commands;
pub mod config;
pub mod decompress;
pub mod devices;
pub mod download;
pub mod flash;
pub mod hash;
pub mod image_cache;
pub mod images;
pub mod logging;
pub mod order;
pub mod progress;
pub mod settings;
pub mod store;
pub mod text;
pub mod transport;
pub mod utils;
