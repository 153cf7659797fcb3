//! The commands a user can send.
use vstd::prelude::*;

verus! {

/// A command of the bot.
#[derive(Clone, Copy, Debug, PartialEq, Eq, Structural)]
pub enum Command {
    /// Show the list of commands.
    Help,
    /// Begin a training session.
    Start,
    /// Leave the current session.
    Exit,
}

} // verus!
