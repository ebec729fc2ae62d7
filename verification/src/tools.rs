//! What the tools make of a request: the decisions before each call of the engine, and the
//! answers made of what the calls gave.

pub mod browse;
pub mod crypto;
pub mod functions;
pub mod lines;
pub mod open;
pub mod search;
pub mod taint;
pub mod tree;
