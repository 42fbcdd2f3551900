//! Cortana: zero-token summaries, session memory, and the decisions of a terminal assistant.
pub mod text;
pub mod rank;
pub mod summary;
pub mod visual;
pub mod session;
pub mod config;
pub mod speech;
pub mod renderer;
pub mod presence;
pub mod agent;
pub mod avatar;
pub mod tui;
pub mod cli;
