//! Mode-gated template rendering and command execution.


pub mod action;
pub mod command;
pub mod diff;
pub mod engine;
pub mod template;
