//! Core logic of a small self-hosted YouTube downloader, each function with
//! a proved contract: command-line parsing, configuration, quality presets,
//! output naming, URL validation, and the logic around the yt-dlp tool.

pub mod cli;
pub mod config;
pub mod domain;
pub mod error;
pub mod services;
pub mod text;
pub mod web;
