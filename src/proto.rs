//! Commands that a client sends about a room and the events that answer them.
use vstd::prelude::*;

verus! {

/// What the server tells a client about a room.
#[derive(Clone, Copy, Debug, PartialEq, Eq, Hash, Structural)]
pub enum Event {
    RoomMuted { video: bool, audio: bool },
    RoomUnmuted { video: bool, audio: bool },
}

/// What a client asks the server to do to a room.
#[derive(Clone, Copy, Debug, PartialEq, Eq, Hash, Structural)]
pub enum Command {
    MuteRoom { video: bool, audio: bool },
    UnmuteRoom { video: bool, audio: bool },
}

/// The event that carries out `cmd`: a mute is answered by a muted room, an
/// unmute by an unmuted one, for the same channels.
pub open spec fn answer(cmd: Command) -> Event {
    match cmd {
        Command::MuteRoom { video, audio } => Event::RoomMuted { video, audio },
        Command::UnmuteRoom { video, audio } => Event::RoomUnmuted { video, audio },
    }
}

impl Command {
    /// The event that carries out this command.
    pub fn answer(&self) -> (e: Event)
        ensures
            e == answer(*self),
    {
        match *self {
            Command::MuteRoom { video, audio } => Event::RoomMuted { video, audio },
            Command::UnmuteRoom { video, audio } => Event::RoomUnmuted { video, audio },
        }
    }
}

/// One client's session with the room server: it answers each command with
/// the event that carries it out.
pub struct WsSession {}

impl WsSession {
    pub fn new() -> (s: Self) {
        WsSession {}
    }

    /// The event to send back for `cmd`.
    pub fn handle(&self, cmd: &Command) -> (e: Event)
        ensures
            e == answer(*cmd),
    {
        cmd.answer()
    }
}

} // verus!
