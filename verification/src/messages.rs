use vstd::prelude::*;

verus! {

use crate::codes::RoomCode;
use crate::member::MemberState;
use crate::pot::Pot;
use crate::wager::Wager;
use crate::wager::WagerOutcome;
use crate::ConnId;
use crate::ID;

/// The symbolic addressing mode for fanning one server event out to
/// connected sessions; resolved to concrete sessions by the delivery layer.
#[derive(Clone, Copy, PartialEq, Eq, Debug)]
pub enum Destination {
    Myself,
    PeersExclusive,
    PeersInclusive,
    Specific(ConnId),
    Everyone,
}

/// One server-generated event, as it goes out on the wire.
#[derive(PartialEq, Eq, Debug)]
pub enum ServerMessage {
    SynchronizeRoom { members: Vec<MemberState>, pots: Vec<Pot>, wager: Vec<Wager>, requester_id: ID },
    RoomCreated { code: RoomCode },
    UserJoined { name: String, id: ID },
    RoomDeleted,
    UserRemoved { id: ID },
    PotCreated { pot: Pot },
    PotJoined { pot_id: ID, user_id: ID },
    PotResolved { id: ID },
    WagerCreated { wager: Wager },
    WagerJoined { wager_id: ID, user_id: ID, outcome_id: ID, amount: i64 },
    WagerResolved { id: ID },
    ScoreChanged { user_id: ID, new_amount: i64 },
    AdminGranted,
    Error { description: String, display_to_user: bool },
}

/// One inbound client command.
#[derive(PartialEq, Eq, Debug)]
pub enum ClientMessage {
    CreateRoom { code: RoomCode, admin_pass: String },
    JoinRoom { code: RoomCode, name: String },
    LeaveRoom { room_code: RoomCode },
    RemoveFromRoom { code: RoomCode, id: ID },
    DeleteRoom { room_code: RoomCode },
    RequestAdmin { room: RoomCode, password: String },
    BlessScore { to: ID, amount: i64 },
    RemoveScore { from: ID, amount: i64 },
    GiveScore { to: ID, amount: i64 },
    TransferScore { from: ID, to: ID, amount: i64 },
    CreatePot { room_code: RoomCode, score_requirement: i64, description: String },
    JoinPot { room_code: RoomCode, pot_id: ID },
    ResolvePot { room_id: RoomCode, pot_id: ID, winner: ID },
    CreateWager { room_id: RoomCode, name: String, outcomes: Vec<WagerOutcome> },
    JoinWager { room_id: RoomCode, wager_id: ID, outcome_id: ID, amount: i64 },
    ResolveWager { room_id: RoomCode, wager_id: ID, outcome_id: ID },
}

impl ClientMessage {
    /// Whether the password a command carries is short enough for the
    /// hashing path to accept; commands without a password always fit.
    pub open spec fn spec_password_fits(self) -> bool {
        match self {
            ClientMessage::CreateRoom { admin_pass, .. } => crate::auth::pass_len_ok(admin_pass@),
            ClientMessage::RequestAdmin { password, .. } => crate::auth::pass_len_ok(password@),
            _ => true,
        }
    }

    /// The admin requirement a command declares: `None` for an open command,
    /// `Some(None)` for admin rights in the sender's current room, and
    /// `Some(Some(code))` for admin rights in the named room.
    pub open spec fn spec_requires_admin(self) -> Option<Option<RoomCode>> {
        match self {
            ClientMessage::CreateRoom { .. } => None,
            ClientMessage::JoinRoom { .. } => None,
            ClientMessage::LeaveRoom { .. } => None,
            ClientMessage::RemoveFromRoom { code, .. } => Some(Some(code)),
            ClientMessage::DeleteRoom { room_code } => Some(Some(room_code)),
            ClientMessage::RequestAdmin { .. } => None,
            ClientMessage::BlessScore { .. } => Some(None),
            ClientMessage::RemoveScore { .. } => Some(None),
            ClientMessage::GiveScore { .. } => None,
            ClientMessage::TransferScore { .. } => None,
            ClientMessage::CreatePot { room_code, .. } => Some(Some(room_code)),
            ClientMessage::JoinPot { .. } => None,
            ClientMessage::ResolvePot { room_id, .. } => Some(Some(room_id)),
            ClientMessage::CreateWager { room_id, .. } => Some(Some(room_id)),
            ClientMessage::JoinWager { .. } => None,
            ClientMessage::ResolveWager { room_id, .. } => Some(Some(room_id)),
        }
    }

    /// Which commands demand admin rights, and against which room;
    /// mutating another room's tables or granting score needs admin rights.
    pub fn requires_admin(&self) -> (r: Option<Option<RoomCode>>)
        ensures
            match r {
                None => self.spec_requires_admin() is None,
                Some(None) => self.spec_requires_admin() == Some(Option::<RoomCode>::None),
                Some(Some(code)) => self.spec_requires_admin() matches Some(Some(c)) && code.chars@
                    == c.chars@,
            },
    {
        match self {
            ClientMessage::CreateRoom { .. } => None,
            ClientMessage::JoinRoom { .. } => None,
            ClientMessage::LeaveRoom { .. } => None,
            ClientMessage::RemoveFromRoom { code, .. } => Some(Some(code.clone())),
            ClientMessage::DeleteRoom { room_code: code } => Some(Some(code.clone())),
            ClientMessage::RequestAdmin { .. } => None,
            ClientMessage::BlessScore { .. } => Some(None),
            ClientMessage::RemoveScore { .. } => Some(None),
            ClientMessage::GiveScore { .. } => None,
            ClientMessage::TransferScore { .. } => None,
            ClientMessage::CreatePot { room_code, .. } => Some(Some(room_code.clone())),
            ClientMessage::JoinPot { .. } => None,
            ClientMessage::ResolvePot { room_id, .. } => Some(Some(room_id.clone())),
            ClientMessage::CreateWager { room_id, .. } => Some(Some(room_id.clone())),
            ClientMessage::JoinWager { .. } => None,
            ClientMessage::ResolveWager { room_id, .. } => Some(Some(room_id.clone())),
        }
    }
}

} // verus!
