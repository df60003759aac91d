//! A verified library for a self-hosted ebook hub.

pub mod archive;
pub mod auth;
pub mod autosearch;
pub mod books;
pub mod discovery;
pub mod downloads;
pub mod encode;
pub mod indexer;
pub mod install;
pub mod jobs;
pub mod json;
pub mod libgen;
pub mod meta;
pub mod opds;
pub mod package;
pub mod page;
pub mod paths;
pub mod plugin;
pub mod providers;
pub mod reader;
pub mod score;
pub mod sdk;
pub mod source;
pub mod text;
pub mod xml;
