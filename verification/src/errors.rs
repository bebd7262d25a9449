use vstd::prelude::*;

verus! {

use crate::codes::RoomCode;
use crate::ConnId;
use crate::ID;

/// Failure of a room-level admin request.
#[derive(PartialEq, Eq, Debug)]
pub enum AdminRequestError {
    IncorrectPassword,
    AlreadyAdmin,
}

/// Failure of a mutation on a room's own tables.
///
/// `ScoreOutOfRange` reports arithmetic that would leave the representable
/// score range; the command is rejected with no state change.
#[derive(PartialEq, Eq, Debug)]
pub enum RoomMutationError {
    AdminRequestError(AdminRequestError),
    UserAlreadyExists(ConnId, RoomCode),
    UserNotInRoom(ID, RoomCode),
    AddressNotInRoom(ConnId, RoomCode),
    NonexistentPot(ID, RoomCode),
    NegativeScore,
    NonexistentWager { wager_id: ID, room_code: RoomCode },
    ScoreOutOfRange,
}

/// Failure of a mutation on one pot.
#[derive(PartialEq, Eq, Debug)]
pub enum PotMutationError {
    UserAlreadyExists { user_id: ID, pot_id: ID },
    UserNotInPot { user_id: ID, pot_id: ID },
    InsufficientScore { user_id: ID, pot_id: ID, user_score: i64, score_req: i64 },
}

/// Failure of a mutation on one wager.
///
/// `PayoutOutOfRange` reports a computed payout that does not fit the score
/// type; the resolution is rejected with no state change.
#[derive(PartialEq, Eq, Debug)]
pub enum WagerMutationError {
    UserAlreadyExists { user_id: ID, wager_id: ID },
    NonexistentOutcome { outcome_id: ID, wager_id: ID },
    UserAlreadyChose { user_id: ID, outcome_id: ID },
    PayoutOutOfRange,
}

/// A mutation failure from any of the three entity kinds a room owns.
#[derive(PartialEq, Eq, Debug)]
pub enum StateMutationError {
    Room(RoomMutationError),
    Pot(PotMutationError),
    Wager(WagerMutationError),
}

/// Failure of one inbound command, reported to the offending sender.
#[derive(PartialEq, Eq, Debug)]
pub enum MessageHandleError {
    NonexistentRoom(RoomCode),
    RoomAlreadyExists(RoomCode),
    UserNotInAnyRoom(ConnId),
    NonexistentSession(ConnId),
    RoomMutationError(RoomMutationError),
    PotMutationError(PotMutationError),
    WagerMutationError(WagerMutationError),
    AuthorizationError,
}

/// Failure of delivering an event to a destination; collected per broadcast
/// and never undoing the mutation that produced the event.
#[derive(PartialEq, Eq, Debug)]
pub enum MessageSendError {
    NonexistentSession(ConnId),
    NonexistentRoom(RoomCode),
    UserNotInRoom,
}

impl MessageHandleError {
    /// Which errors carry user-actionable detail shown verbatim; the rest are
    /// internal and surface only as a generic message.
    pub open spec fn spec_should_display(self) -> bool {
        match self {
            MessageHandleError::NonexistentRoom(_) => true,
            MessageHandleError::RoomAlreadyExists(_) => true,
            MessageHandleError::UserNotInAnyRoom(_) => true,
            MessageHandleError::NonexistentSession(_) => false,
            MessageHandleError::RoomMutationError(e) => match e {
                RoomMutationError::AdminRequestError(_) => true,
                RoomMutationError::UserAlreadyExists(_, _) => false,
                RoomMutationError::UserNotInRoom(_, _) => false,
                RoomMutationError::AddressNotInRoom(_, _) => false,
                RoomMutationError::NonexistentPot(_, _) => false,
                RoomMutationError::NegativeScore => true,
                RoomMutationError::NonexistentWager { .. } => false,
                RoomMutationError::ScoreOutOfRange => true,
            },
            MessageHandleError::PotMutationError(e) => match e {
                PotMutationError::UserAlreadyExists { .. } => true,
                PotMutationError::UserNotInPot { .. } => false,
                PotMutationError::InsufficientScore { .. } => true,
            },
            MessageHandleError::WagerMutationError(e) => match e {
                WagerMutationError::UserAlreadyExists { .. } => false,
                WagerMutationError::NonexistentOutcome { .. } => false,
                WagerMutationError::UserAlreadyChose { .. } => false,
                WagerMutationError::PayoutOutOfRange => false,
            },
            MessageHandleError::AuthorizationError => true,
        }
    }

    pub fn should_display(&self) -> (r: bool)
        ensures
            r == self.spec_should_display(),
    {
        match self {
            MessageHandleError::NonexistentRoom(_) | MessageHandleError::RoomAlreadyExists(_) => {
                true
            },
            MessageHandleError::UserNotInAnyRoom(_) => true,
            MessageHandleError::NonexistentSession(_) => false,
            MessageHandleError::RoomMutationError(room_mutation_error) => {
                match room_mutation_error {
                    RoomMutationError::AdminRequestError(_) => true,
                    RoomMutationError::UserAlreadyExists(_, _) => false,
                    RoomMutationError::UserNotInRoom(_, _) => false,
                    RoomMutationError::AddressNotInRoom(_, _) => false,
                    RoomMutationError::NonexistentPot(_, _) => false,
                    RoomMutationError::NegativeScore => true,
                    RoomMutationError::NonexistentWager { .. } => false,
                    RoomMutationError::ScoreOutOfRange => true,
                }
            },
            MessageHandleError::PotMutationError(pot_mutation_error) => {
                match pot_mutation_error {
                    PotMutationError::UserAlreadyExists { .. } => true,
                    PotMutationError::UserNotInPot { .. } => false,
                    PotMutationError::InsufficientScore { .. } => true,
                }
            },
            MessageHandleError::WagerMutationError(wager_mutation_error) => {
                match wager_mutation_error {
                    WagerMutationError::UserAlreadyExists { .. } => false,
                    WagerMutationError::NonexistentOutcome { .. } => false,
                    WagerMutationError::UserAlreadyChose { .. } => false,
                    WagerMutationError::PayoutOutOfRange => false,
                }
            },
            MessageHandleError::AuthorizationError => true,
        }
    }
}

/// Wraps an entity-level mutation failure as a command failure.
pub open spec fn spec_wrap_state_error(e: StateMutationError) -> MessageHandleError {
    match e {
        StateMutationError::Room(e) => MessageHandleError::RoomMutationError(e),
        StateMutationError::Pot(e) => MessageHandleError::PotMutationError(e),
        StateMutationError::Wager(e) => MessageHandleError::WagerMutationError(e),
    }
}

pub fn wrap_state_error(e: StateMutationError) -> (r: MessageHandleError)
    ensures
        r == spec_wrap_state_error(e),
{
    match e {
        StateMutationError::Room(e) => MessageHandleError::RoomMutationError(e),
        StateMutationError::Pot(e) => MessageHandleError::PotMutationError(e),
        StateMutationError::Wager(e) => MessageHandleError::WagerMutationError(e),
    }
}

/// The error that reports a connection already mapped in a room.
pub open spec fn is_user_already_exists(e: RoomMutationError, conn: ConnId, code: Seq<char>) -> bool {
    e matches RoomMutationError::UserAlreadyExists(c, rc) && c == conn && rc.chars@ == code
}

/// The error that reports an unknown member id in a room.
pub open spec fn is_user_not_in_room(e: RoomMutationError, id: ID, code: Seq<char>) -> bool {
    e matches RoomMutationError::UserNotInRoom(u, rc) && u == id && rc.chars@ == code
}

/// The error that reports a connection with no member in a room.
pub open spec fn is_addr_not_in_room(e: RoomMutationError, conn: ConnId, code: Seq<char>) -> bool {
    e matches RoomMutationError::AddressNotInRoom(c, rc) && c == conn && rc.chars@ == code
}

/// The error that reports an unknown pot id in a room.
pub open spec fn is_nonexistent_pot(e: RoomMutationError, id: ID, code: Seq<char>) -> bool {
    e matches RoomMutationError::NonexistentPot(p, rc) && p == id && rc.chars@ == code
}

/// The error that reports an unknown wager id in a room.
pub open spec fn is_nonexistent_wager(e: RoomMutationError, id: ID, code: Seq<char>) -> bool {
    e matches RoomMutationError::NonexistentWager { wager_id, room_code } && wager_id == id
        && room_code.chars@ == code
}

} // verus!
