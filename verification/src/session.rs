use vstd::prelude::*;

verus! {

use crate::codes::RoomCode;

/// Per-connection state that lives between connect and disconnect: the room
/// the connection currently sits in, if any.
#[derive(Debug)]
pub struct SessionData {
    pub current_room: Option<RoomCode>,
}

impl SessionData {
    /// A fresh session is in no room.
    pub fn new() -> (s: SessionData)
        ensures
            s.current_room is None,
    {
        SessionData { current_room: None }
    }

    /// The code of the session's current room, if it has one.
    pub fn current_room(&self) -> (r: Option<RoomCode>)
        ensures
            match r {
                Some(code) => self.current_room matches Some(c) && code.chars@ == c.chars@,
                None => self.current_room is None,
            },
    {
        match &self.current_room {
            Some(code) => Some(code.clone()),
            None => None,
        }
    }

    /// Moves the session into the named room.
    pub fn set_current_room(&mut self, code: RoomCode)
        ensures
            final(self).current_room == Some(code),
    {
        self.current_room = Some(code);
    }
}

} // verus!
