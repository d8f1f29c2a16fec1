//! A Clifford attractor renderer's core: command-line configuration, how the
//! iteration budget is split between workers, the density grid, the progress
//! reporter's decisions, the count formatting, and the PPM framing.

pub mod text;
pub mod counts;
pub mod work;
pub mod progress;
pub mod palette;
pub mod cli;
pub mod cli_laws;
pub mod image;
