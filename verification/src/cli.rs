//! What the program is asked to do.

use vstd::prelude::*;

verus! {

/// What is captured.
#[derive(Clone, Copy, Debug, PartialEq, Eq, Structural)]
pub enum CaptureSource {
    Screen,
    Window,
}

/// The arguments of the program.
#[derive(Debug)]
pub struct Cli {
    /// The path of the settings.
    pub config: Option<String>,
    pub command: Command,
}

#[derive(Debug)]
pub enum Command {
    /// Run the desktop interface.
    Gui,
    /// Manage the settings.
    Config { command: ConfigCommand },
    /// Diagnose what the capture needs without starting one.
    Doctor { json: bool },
    /// Check whether the game answers.
    Status,
    /// Print an answer of the game as it comes.
    Dump { endpoint: DumpEndpoint },
    /// Print new messages.
    Watch { include_history: bool },
    /// Save clips of what happens in the game.
    Auto {
        game: String,
        cooldown_seconds: u64,
        post_event_seconds: Option<u64>,
        include_history: bool,
    },
}

#[derive(Clone, Copy, Debug, PartialEq, Eq, Structural)]
pub enum ConfigCommand {
    /// Create the settings with their defaults.
    Init { force: bool },
}

#[derive(Clone, Copy, Debug, PartialEq, Eq, Structural)]
pub enum DumpEndpoint {
    Gamechat,
    Hudmsg,
}

}
