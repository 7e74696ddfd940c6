//! Fixed sizes, names and limits of the application.

pub mod app;
pub mod cache;
pub mod devices;
pub mod download;
pub mod flash;
pub mod http;
pub mod images;
pub mod urls;
