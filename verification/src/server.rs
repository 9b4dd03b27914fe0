//! The server: caches, routes, and background downloads.
pub mod cache;
pub mod downloader;
pub mod helpers;
pub mod rate_limit;
pub mod routes;
pub mod store;
