//! Querying instruction traces.

pub mod api_types;
pub mod commands;
pub mod engine;
pub mod error;
pub mod index;
pub mod matching;
pub mod pattern;
pub mod ranges;
pub mod render;
pub mod requests;
pub mod scan;
pub mod text;
pub mod tools;
