//! A doorbell webhook that drives Chromecast devices.
pub mod address;
pub mod cast;
pub mod client;
pub mod config;
pub mod flags;
pub mod media;
pub mod payload;
pub mod registry;
pub mod run;
pub mod text;
pub mod time;
pub mod web;
pub mod webhook;
