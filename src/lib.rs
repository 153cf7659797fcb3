//! A conversational quiz trainer: a session state machine that presents
//! tasks, collects answers field by field and reports the differences.

pub mod commands;
pub mod dialogue;
pub mod diff;
pub mod laws;
pub mod normalize;
pub mod record;
pub mod text;
