//! Swarm orchestration, footer layout and chat state for a terminal and desktop agent client.

pub mod footer;
pub mod gui;
pub mod swarm;
pub mod text;
