//! The chat commands that switch the local mode and report it.

use vstd::prelude::*;
use crate::matcher::same_chars;
use crate::text::chars_of;

verus! {

/// A chat command that the bot answers.
#[derive(PartialEq, Eq, Structural, Debug, Clone, Copy)]
pub enum Command {
    /// Greets and explains the commands.
    Start,
    /// Turns the local mode on for the chat.
    EnableLocal,
    /// Turns the local mode off for the chat.
    DisableLocal,
    /// Reports whether the local mode is on.
    Status,
}

/// A text addressed to the bot as a command: it starts with '/'.
pub open spec fn command_text(t: Seq<char>) -> bool {
    t.len() > 0 && t[0] == '/'
}

/// Whether a text is a command rather than a request for an image.
pub fn is_command(text: &str) -> (r: bool)
    ensures
        r == command_text(text@),
{
    let t = chars_of(text);
    t.len() > 0 && t[0] == '/'
}

/// The command a text names exactly, if any.
pub open spec fn named_command(t: Seq<char>) -> Option<Command> {
    if t == "/start"@ {
        Some(Command::Start)
    } else if t == "/enable_mygo"@ {
        Some(Command::EnableLocal)
    } else if t == "/disable_mygo"@ {
        Some(Command::DisableLocal)
    } else if t == "/status"@ {
        Some(Command::Status)
    } else {
        None
    }
}

/// Reads a command; an unknown one is `None` and is ignored.
pub fn parse_command(text: &str) -> (r: Option<Command>)
    ensures
        r == named_command(text@),
{
    let t = chars_of(text);
    if same_chars(&t, &chars_of("/start")) {
        Some(Command::Start)
    } else if same_chars(&t, &chars_of("/enable_mygo")) {
        Some(Command::EnableLocal)
    } else if same_chars(&t, &chars_of("/disable_mygo")) {
        Some(Command::DisableLocal)
    } else if same_chars(&t, &chars_of("/status")) {
        Some(Command::Status)
    } else {
        None
    }
}

/// The local mode after a command: switched by the two switches, kept by
/// the others.
pub open spec fn mode_after(c: Command, enabled: bool) -> bool {
    match c {
        Command::EnableLocal => true,
        Command::DisableLocal => false,
        _ => enabled,
    }
}

/// The local mode after a command.
pub fn local_mode_after(c: Command, enabled: bool) -> (r: bool)
    ensures
        r == mode_after(c, enabled),
{
    match c {
        Command::EnableLocal => true,
        Command::DisableLocal => false,
        _ => enabled,
    }
}

/// The reply to a command, given the local mode once it has been applied.
pub fn command_reply(c: Command, enabled: bool) -> (r: &'static str)
    ensures
        r@ == match c {
            Command::Start => "Welcome! I can support images on google or from local collection.\nSee https://github.com/akira02/rust-tg.jpg for more information.\nUse /enable_mygo to enable mygo mode\nUse /disable_mygo to disable mygo mode\nUse /status to check current settings\n\nYou can also use me in any chat by typing @botname followed by your search term!"@,
            Command::EnableLocal => "Mygo mode has been enabled! I will now search for images in my local collection."@,
            Command::DisableLocal => "Mygo mode has been disabled! I will only search for images online."@,
            Command::Status => if enabled {
                "Mygo mode is currently enabled."@
            } else {
                "Mygo mode is currently disabled."@
            },
        },
{
    match c {
        Command::Start => "Welcome! I can support images on google or from local collection.\nSee https://github.com/akira02/rust-tg.jpg for more information.\nUse /enable_mygo to enable mygo mode\nUse /disable_mygo to disable mygo mode\nUse /status to check current settings\n\nYou can also use me in any chat by typing @botname followed by your search term!",
        Command::EnableLocal => "Mygo mode has been enabled! I will now search for images in my local collection.",
        Command::DisableLocal => "Mygo mode has been disabled! I will only search for images online.",
        Command::Status => if enabled {
            "Mygo mode is currently enabled."
        } else {
            "Mygo mode is currently disabled."
        },
    }
}

} // verus!
