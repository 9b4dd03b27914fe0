//! The logic of a manga downloader: reading the pages of the site, naming and filling archives,
//! pacing requests, scheduling checks, and answering the requests of readers. Whatever talks to the
//! network, the disk or the terminal hands plain values in and takes plain values out.
pub mod address;
pub mod cli;
pub mod config;
pub mod db;
pub mod decimal;
pub mod discord;
pub mod download;
pub mod errors;
pub mod html;
pub mod images;
pub mod models;
pub mod rate_limit;
pub mod select;
pub mod server;
pub mod site;
pub mod sorting;
pub mod text;
pub mod utils;
