//! Turns `alias name=command` lines from a shell configuration file
//! into one fish function file per alias.
//!
//! The library holds everything the tool decides or computes, verified:
//! path resolution ([`locate`]), line parsing ([`alias`]), rendering and
//! the full write plan ([`pipeline`]), and the closed error taxonomy
//! ([`errors`]). Reading the input file and writing the planned files
//! is left to the surrounding binary.

pub mod alias;
pub mod errors;
pub mod locate;
pub mod pipeline;
pub mod text;

pub use errors::ApplicationError;
