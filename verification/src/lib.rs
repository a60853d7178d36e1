//! Minuet: the verified core of a command-line agent harness.

pub mod agent_loop;
pub mod command;
pub mod config;
pub mod context;
pub mod editor;
pub mod inference;
pub mod interaction;
pub mod json;
pub mod kernel;
pub mod layout;
pub mod markdown;
pub mod model;
pub mod preview;
pub mod render;
pub mod report;
pub mod session;
pub mod text;
pub mod tool;
pub mod unicode;
pub mod utf8;
