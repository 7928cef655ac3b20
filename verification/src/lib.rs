//! A dashboard that reports a machine's processor, memory, storage and uptime,
//! and keeps its one-time setup in an INI file.
//!
//! The modules hold the verified logic: text handling, the data the dashboard
//! exchanges, the setup file, the decisions of the web front end and the way
//! hardware facts become the figures that the dashboard shows.
pub mod text;
pub mod models;
pub mod ini_file;
pub mod config;
pub mod startup;
pub mod web;
pub mod system;
