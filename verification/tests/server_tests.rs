use backend_lib::codes::RoomCode;
use backend_lib::errors::AdminRequestError;
use backend_lib::errors::MessageHandleError;
use backend_lib::errors::PotMutationError;
use backend_lib::errors::RoomMutationError;
use backend_lib::errors::WagerMutationError;
use backend_lib::messages::ClientMessage;
use backend_lib::messages::Destination;
use backend_lib::messages::ServerMessage;
use backend_lib::registry::ServerState;
use backend_lib::wager::WagerOutcome;

fn code_a() -> RoomCode {
    RoomCode::from_array(['A', 'A', 'A', 'A', 'A', 'A', 'A', 'A'])
}

fn code_b() -> RoomCode {
    RoomCode::from_array(['B', 'B', 'B', 'B', 'B', 'B', 'B', 'B'])
}

fn new_room_with(state: &mut ServerState, conns: &[u64], names: &[&str]) {
    for c in conns {
        state.init_session(*c);
    }
    state
        .handle_message(
            ClientMessage::CreateRoom { code: code_a(), admin_pass: "pass".to_string() },
            conns[0],
        )
        .unwrap();
    for (c, n) in conns.iter().zip(names.iter()) {
        state
            .handle_message(ClientMessage::JoinRoom { code: code_a(), name: n.to_string() }, *c)
            .unwrap();
    }
}

#[test]
fn join_room_snapshot_shows_new_member_with_zero_score() {
    let mut state = ServerState::new();
    state.init_session(1);
    state
        .handle_message(
            ClientMessage::CreateRoom { code: code_a(), admin_pass: "pass".to_string() },
            1,
        )
        .unwrap();
    let out = state
        .handle_message(ClientMessage::JoinRoom { code: code_a(), name: "alice".to_string() }, 1)
        .unwrap();
    assert_eq!(out.len(), 2);
    assert_eq!(
        out[0].0,
        ServerMessage::UserJoined { name: "alice".to_string(), id: 0 }
    );
    assert_eq!(out[0].1, Destination::PeersInclusive);
    match &out[1].0 {
        ServerMessage::SynchronizeRoom { members, pots, wager, requester_id } => {
            assert_eq!(members.len(), 1);
            assert_eq!(members[0].id, 0);
            assert_eq!(members[0].name, "alice");
            assert_eq!(members[0].score, 0);
            assert!(pots.is_empty());
            assert!(wager.is_empty());
            assert_eq!(*requester_id, 0);
        }
        other => panic!("expected a snapshot, got {other:?}"),
    }
    assert_eq!(out[1].1, Destination::Myself);
}

#[test]
fn request_admin_succeeds_once_then_already_admin_then_wrong_password() {
    let mut state = ServerState::new();
    new_room_with(&mut state, &[1], &["alice"]);
    let out = state
        .handle_message(
            ClientMessage::RequestAdmin { room: code_a(), password: "pass".to_string() },
            1,
        )
        .unwrap();
    assert_eq!(out, vec![(ServerMessage::AdminGranted, Destination::Myself)]);
    let err = state
        .handle_message(
            ClientMessage::RequestAdmin { room: code_a(), password: "pass".to_string() },
            1,
        )
        .unwrap_err();
    assert_eq!(
        err,
        MessageHandleError::RoomMutationError(RoomMutationError::AdminRequestError(
            AdminRequestError::AlreadyAdmin
        ))
    );
    let err = state
        .handle_message(
            ClientMessage::RequestAdmin { room: code_a(), password: "wrong".to_string() },
            1,
        )
        .unwrap_err();
    assert_eq!(
        err,
        MessageHandleError::RoomMutationError(RoomMutationError::AdminRequestError(
            AdminRequestError::IncorrectPassword
        ))
    );
}

#[test]
fn admin_requirements_declare_and_check_rights() {
    let mut state = ServerState::new();
    new_room_with(&mut state, &[1], &["alice"]);
    let msg = ClientMessage::BlessScore { to: 0, amount: 100 };
    assert_eq!(msg.requires_admin(), Some(None));
    assert_eq!(state.is_user_admin(1, None).unwrap(), false);
    state
        .handle_message(
            ClientMessage::RequestAdmin { room: code_a(), password: "pass".to_string() },
            1,
        )
        .unwrap();
    assert_eq!(state.is_user_admin(1, None).unwrap(), true);
    assert_eq!(state.is_user_admin(1, Some(&code_a())).unwrap(), true);
}

#[test]
fn dispatch_rejects_admin_commands_from_non_admins() {
    let mut state = ServerState::new();
    new_room_with(&mut state, &[1, 2], &["alice", "bob"]);
    let err = state
        .dispatch(ClientMessage::BlessScore { to: 0, amount: 100 }, 2)
        .unwrap_err();
    assert_eq!(err, MessageHandleError::AuthorizationError);
    assert_eq!(state.rooms[0].members[0].score, 0);
    let err = state
        .dispatch(ClientMessage::DeleteRoom { room_code: code_a() }, 2)
        .unwrap_err();
    assert_eq!(err, MessageHandleError::AuthorizationError);
    assert_eq!(state.rooms.len(), 1);
    state
        .dispatch(
            ClientMessage::RequestAdmin { room: code_a(), password: "pass".to_string() },
            2,
        )
        .unwrap();
    let out = state
        .dispatch(ClientMessage::BlessScore { to: 0, amount: 100 }, 2)
        .unwrap();
    assert_eq!(
        out,
        vec![(
            ServerMessage::ScoreChanged { user_id: 0, new_amount: 100 },
            Destination::PeersInclusive
        )]
    );
}

#[test]
fn dispatch_lets_open_commands_through_without_rights() {
    let mut state = ServerState::new();
    new_room_with(&mut state, &[1, 2], &["alice", "bob"]);
    state
        .dispatch(ClientMessage::RemoveScore { from: 1, amount: -70 }, 1)
        .unwrap_err();
    state
        .dispatch(
            ClientMessage::RequestAdmin { room: code_a(), password: "pass".to_string() },
            1,
        )
        .unwrap();
    state
        .dispatch(ClientMessage::BlessScore { to: 0, amount: 70 }, 1)
        .unwrap();
    let out = state
        .dispatch(ClientMessage::GiveScore { to: 1, amount: 30 }, 1)
        .unwrap();
    assert_eq!(
        out,
        vec![
            (
                ServerMessage::ScoreChanged { user_id: 0, new_amount: 40 },
                Destination::PeersInclusive
            ),
            (
                ServerMessage::ScoreChanged { user_id: 1, new_amount: 30 },
                Destination::PeersInclusive
            ),
        ]
    );
}

#[test]
fn bless_score_sets_score_and_broadcasts_score_changed() {
    let mut state = ServerState::new();
    new_room_with(&mut state, &[1], &["alice"]);
    let out = state
        .handle_message(ClientMessage::BlessScore { to: 0, amount: 100 }, 1)
        .unwrap();
    assert_eq!(
        out,
        vec![(
            ServerMessage::ScoreChanged { user_id: 0, new_amount: 100 },
            Destination::PeersInclusive
        )]
    );
    assert_eq!(state.rooms[0].members[0].score, 100);
}

#[test]
fn wager_resolution_pays_winner_stake_plus_rounded_odds() {
    let mut state = ServerState::new();
    new_room_with(&mut state, &[1, 2], &["alice", "bob"]);
    state
        .handle_message(ClientMessage::BlessScore { to: 0, amount: 100 }, 1)
        .unwrap();
    state
        .handle_message(ClientMessage::BlessScore { to: 1, amount: 100 }, 1)
        .unwrap();
    let outcomes = vec![
        WagerOutcome::new("Outcome 1".to_string(), "outcome 1".to_string(), 30, 0),
        WagerOutcome::new("Outcome 2".to_string(), "outcome 2".to_string(), 70, 1),
    ];
    state
        .handle_message(
            ClientMessage::CreateWager { room_id: code_a(), name: "wager".to_string(), outcomes },
            1,
        )
        .unwrap();
    state
        .handle_message(
            ClientMessage::JoinWager { room_id: code_a(), wager_id: 0, outcome_id: 0, amount: 100 },
            1,
        )
        .unwrap();
    state
        .handle_message(
            ClientMessage::JoinWager { room_id: code_a(), wager_id: 0, outcome_id: 1, amount: 100 },
            2,
        )
        .unwrap();
    assert_eq!(state.rooms[0].members[0].score, 0);
    assert_eq!(state.rooms[0].members[1].score, 0);
    let out = state
        .handle_message(
            ClientMessage::ResolveWager { room_id: code_a(), wager_id: 0, outcome_id: 0 },
            1,
        )
        .unwrap();
    assert_eq!(
        out,
        vec![
            (
                ServerMessage::ScoreChanged { user_id: 0, new_amount: 130 },
                Destination::PeersInclusive
            ),
            (
                ServerMessage::WagerResolved { id: 0 },
                Destination::PeersInclusive
            ),
        ]
    );
    assert_eq!(state.rooms[0].members[0].score, 130);
    assert_eq!(state.rooms[0].members[1].score, 0);
    assert!(state.rooms[0].wagers.is_empty());
    assert!(state.rooms[0].members[0].current_wagers.is_empty());
    assert!(state.rooms[0].members[1].current_wagers.is_empty());
}

#[test]
fn removed_member_leaves_pot_with_fee_kept_and_total_unchanged() {
    let mut state = ServerState::new();
    new_room_with(&mut state, &[1, 2], &["alice", "bob"]);
    state
        .handle_message(ClientMessage::BlessScore { to: 0, amount: 100 }, 1)
        .unwrap();
    state
        .handle_message(
            ClientMessage::CreatePot {
                room_code: code_a(),
                score_requirement: 50,
                description: "stakes".to_string(),
            },
            1,
        )
        .unwrap();
    state
        .handle_message(ClientMessage::JoinPot { room_code: code_a(), pot_id: 0 }, 1)
        .unwrap();
    assert_eq!(state.rooms[0].members[0].score, 50);
    assert_eq!(state.rooms[0].pots[0].total_score, 50);
    assert_eq!(state.rooms[0].pots[0].participants, vec![0]);
    let out = state
        .handle_message(ClientMessage::RemoveFromRoom { code: code_a(), id: 0 }, 2)
        .unwrap();
    assert_eq!(
        out,
        vec![(ServerMessage::UserRemoved { id: 0 }, Destination::PeersInclusive)]
    );
    assert!(state.rooms[0].pots[0].participants.is_empty());
    assert_eq!(state.rooms[0].pots[0].total_score, 50);
    assert_eq!(state.rooms[0].members.len(), 1);
}

#[test]
fn joining_a_pot_twice_fails_and_debits_the_fee_once() {
    let mut state = ServerState::new();
    new_room_with(&mut state, &[1], &["alice"]);
    state
        .handle_message(ClientMessage::BlessScore { to: 0, amount: 100 }, 1)
        .unwrap();
    state
        .handle_message(
            ClientMessage::CreatePot {
                room_code: code_a(),
                score_requirement: 30,
                description: "stakes".to_string(),
            },
            1,
        )
        .unwrap();
    state
        .handle_message(ClientMessage::JoinPot { room_code: code_a(), pot_id: 0 }, 1)
        .unwrap();
    assert_eq!(state.rooms[0].members[0].score, 70);
    assert_eq!(state.rooms[0].pots[0].total_score, 30);
    let err = state
        .handle_message(ClientMessage::JoinPot { room_code: code_a(), pot_id: 0 }, 1)
        .unwrap_err();
    assert_eq!(
        err,
        MessageHandleError::PotMutationError(PotMutationError::UserAlreadyExists {
            user_id: 0,
            pot_id: 0,
        })
    );
    assert_eq!(state.rooms[0].members[0].score, 70);
    assert_eq!(state.rooms[0].pots[0].total_score, 30);
    assert_eq!(state.rooms[0].pots[0].participants, vec![0]);
}

#[test]
fn transfer_moves_both_balances_or_neither() {
    let mut state = ServerState::new();
    new_room_with(&mut state, &[1, 2], &["alice", "bob"]);
    state
        .handle_message(ClientMessage::BlessScore { to: 0, amount: 100 }, 1)
        .unwrap();
    let out = state
        .handle_message(ClientMessage::TransferScore { from: 0, to: 1, amount: 40 }, 1)
        .unwrap();
    assert_eq!(
        out,
        vec![
            (
                ServerMessage::ScoreChanged { user_id: 0, new_amount: 60 },
                Destination::PeersInclusive
            ),
            (
                ServerMessage::ScoreChanged { user_id: 1, new_amount: 40 },
                Destination::PeersInclusive
            ),
        ]
    );
    assert_eq!(state.rooms[0].members[0].score, 60);
    assert_eq!(state.rooms[0].members[1].score, 40);
    let err = state
        .handle_message(ClientMessage::TransferScore { from: 0, to: 1, amount: 1000 }, 1)
        .unwrap_err();
    assert_eq!(
        err,
        MessageHandleError::RoomMutationError(RoomMutationError::NegativeScore)
    );
    assert_eq!(state.rooms[0].members[0].score, 60);
    assert_eq!(state.rooms[0].members[1].score, 40);
}

#[test]
fn pot_resolution_pays_the_whole_total_to_one_winner() {
    let mut state = ServerState::new();
    new_room_with(&mut state, &[1, 2], &["alice", "bob"]);
    state
        .handle_message(ClientMessage::BlessScore { to: 0, amount: 100 }, 1)
        .unwrap();
    state
        .handle_message(ClientMessage::BlessScore { to: 1, amount: 100 }, 1)
        .unwrap();
    state
        .handle_message(
            ClientMessage::CreatePot {
                room_code: code_a(),
                score_requirement: 60,
                description: "stakes".to_string(),
            },
            1,
        )
        .unwrap();
    state
        .handle_message(ClientMessage::JoinPot { room_code: code_a(), pot_id: 0 }, 1)
        .unwrap();
    state
        .handle_message(ClientMessage::JoinPot { room_code: code_a(), pot_id: 0 }, 2)
        .unwrap();
    assert_eq!(state.rooms[0].pots[0].total_score, 120);
    let out = state
        .handle_message(
            ClientMessage::ResolvePot { room_id: code_a(), pot_id: 0, winner: 1 },
            1,
        )
        .unwrap();
    assert_eq!(
        out,
        vec![
            (ServerMessage::PotResolved { id: 0 }, Destination::PeersInclusive),
            (
                ServerMessage::ScoreChanged { user_id: 1, new_amount: 160 },
                Destination::PeersInclusive
            ),
        ]
    );
    assert_eq!(state.rooms[0].members[0].score, 40);
    assert_eq!(state.rooms[0].members[1].score, 160);
    assert!(state.rooms[0].pots.is_empty());
    assert!(state.rooms[0].members[0].current_pots.is_empty());
    assert!(state.rooms[0].members[1].current_pots.is_empty());
}

#[test]
fn room_codes_must_be_unique_and_exist() {
    let mut state = ServerState::new();
    state.init_session(1);
    state
        .handle_message(
            ClientMessage::CreateRoom { code: code_a(), admin_pass: "pass".to_string() },
            1,
        )
        .unwrap();
    let err = state
        .handle_message(
            ClientMessage::CreateRoom { code: code_a(), admin_pass: "pass".to_string() },
            1,
        )
        .unwrap_err();
    assert_eq!(err, MessageHandleError::RoomAlreadyExists(code_a()));
    let err = state
        .handle_message(ClientMessage::JoinRoom { code: code_b(), name: "x".to_string() }, 1)
        .unwrap_err();
    assert_eq!(err, MessageHandleError::NonexistentRoom(code_b()));
    let err = state
        .handle_message(ClientMessage::DeleteRoom { room_code: code_b() }, 1)
        .unwrap_err();
    assert_eq!(err, MessageHandleError::NonexistentRoom(code_b()));
}

#[test]
fn session_and_membership_lookups_fail_cleanly() {
    let mut state = ServerState::new();
    state.init_session(1);
    state
        .handle_message(
            ClientMessage::CreateRoom { code: code_a(), admin_pass: "pass".to_string() },
            1,
        )
        .unwrap();
    let err = state
        .handle_message(ClientMessage::BlessScore { to: 0, amount: 1 }, 9)
        .unwrap_err();
    assert_eq!(err, MessageHandleError::NonexistentSession(9));
    let err = state
        .handle_message(ClientMessage::BlessScore { to: 0, amount: 1 }, 1)
        .unwrap_err();
    assert_eq!(err, MessageHandleError::UserNotInAnyRoom(1));
    state
        .handle_message(ClientMessage::JoinRoom { code: code_a(), name: "alice".to_string() }, 1)
        .unwrap();
    let err = state
        .handle_message(ClientMessage::BlessScore { to: 7, amount: 1 }, 1)
        .unwrap_err();
    assert_eq!(
        err,
        MessageHandleError::RoomMutationError(RoomMutationError::UserNotInRoom(7, code_a()))
    );
    let err = state
        .handle_message(ClientMessage::JoinPot { room_code: code_a(), pot_id: 3 }, 1)
        .unwrap_err();
    assert_eq!(
        err,
        MessageHandleError::RoomMutationError(RoomMutationError::NonexistentPot(3, code_a()))
    );
    let err = state
        .handle_message(
            ClientMessage::JoinWager { room_id: code_a(), wager_id: 5, outcome_id: 0, amount: 1 },
            1,
        )
        .unwrap_err();
    assert_eq!(
        err,
        MessageHandleError::RoomMutationError(RoomMutationError::NonexistentWager {
            wager_id: 5,
            room_code: code_a(),
        })
    );
}

#[test]
fn leave_room_removes_the_member_for_peers() {
    let mut state = ServerState::new();
    new_room_with(&mut state, &[1, 2], &["alice", "bob"]);
    let out = state
        .handle_message(ClientMessage::LeaveRoom { room_code: code_a() }, 2)
        .unwrap();
    assert_eq!(
        out,
        vec![(ServerMessage::UserRemoved { id: 1 }, Destination::PeersExclusive)]
    );
    assert_eq!(state.rooms[0].members.len(), 1);
    let err = state
        .handle_message(ClientMessage::LeaveRoom { room_code: code_a() }, 2)
        .unwrap_err();
    assert_eq!(
        err,
        MessageHandleError::RoomMutationError(RoomMutationError::AddressNotInRoom(2, code_a()))
    );
}

#[test]
fn cleanup_session_removes_the_member_with_the_full_cascade() {
    let mut state = ServerState::new();
    new_room_with(&mut state, &[1, 2], &["alice", "bob"]);
    state
        .handle_message(ClientMessage::BlessScore { to: 1, amount: 100 }, 1)
        .unwrap();
    state
        .handle_message(
            ClientMessage::CreatePot {
                room_code: code_a(),
                score_requirement: 25,
                description: "stakes".to_string(),
            },
            1,
        )
        .unwrap();
    state
        .handle_message(ClientMessage::JoinPot { room_code: code_a(), pot_id: 0 }, 2)
        .unwrap();
    state.cleanup_session(2);
    assert_eq!(state.sessions.len(), 1);
    assert_eq!(state.rooms[0].members.len(), 1);
    assert!(state.rooms[0].pots[0].participants.is_empty());
    assert_eq!(state.rooms[0].pots[0].total_score, 25);
}

#[test]
fn give_score_rejects_negative_amounts() {
    let mut state = ServerState::new();
    new_room_with(&mut state, &[1, 2], &["alice", "bob"]);
    let err = state
        .handle_message(ClientMessage::GiveScore { to: 1, amount: -5 }, 1)
        .unwrap_err();
    assert_eq!(
        err,
        MessageHandleError::RoomMutationError(RoomMutationError::NegativeScore)
    );
}

#[test]
fn remove_score_with_negative_amount_credits_instead() {
    let mut state = ServerState::new();
    new_room_with(&mut state, &[1], &["alice"]);
    let out = state
        .handle_message(ClientMessage::RemoveScore { from: 0, amount: -50 }, 1)
        .unwrap();
    assert_eq!(
        out,
        vec![(
            ServerMessage::ScoreChanged { user_id: 0, new_amount: 50 },
            Destination::PeersInclusive
        )]
    );
    assert_eq!(state.rooms[0].members[0].score, 50);
}

#[test]
fn score_arithmetic_rejects_values_out_of_range() {
    let mut state = ServerState::new();
    new_room_with(&mut state, &[1], &["alice"]);
    state
        .handle_message(ClientMessage::BlessScore { to: 0, amount: i64::MAX }, 1)
        .unwrap();
    let err = state
        .handle_message(ClientMessage::BlessScore { to: 0, amount: 1 }, 1)
        .unwrap_err();
    assert_eq!(
        err,
        MessageHandleError::RoomMutationError(RoomMutationError::ScoreOutOfRange)
    );
    assert_eq!(state.rooms[0].members[0].score, i64::MAX);
}

#[test]
fn wager_payouts_that_cannot_fit_are_rejected_unchanged() {
    let mut state = ServerState::new();
    new_room_with(&mut state, &[1], &["alice"]);
    state
        .handle_message(ClientMessage::BlessScore { to: 0, amount: i64::MAX }, 1)
        .unwrap();
    let outcomes = vec![WagerOutcome::new("w".to_string(), "d".to_string(), 100, 0)];
    state
        .handle_message(
            ClientMessage::CreateWager { room_id: code_a(), name: "big".to_string(), outcomes },
            1,
        )
        .unwrap();
    state
        .handle_message(
            ClientMessage::JoinWager {
                room_id: code_a(),
                wager_id: 0,
                outcome_id: 0,
                amount: i64::MAX,
            },
            1,
        )
        .unwrap();
    let err = state
        .handle_message(
            ClientMessage::ResolveWager { room_id: code_a(), wager_id: 0, outcome_id: 0 },
            1,
        )
        .unwrap_err();
    assert_eq!(
        err,
        MessageHandleError::WagerMutationError(WagerMutationError::PayoutOutOfRange)
    );
    assert_eq!(state.rooms[0].wagers.len(), 1);
}

#[test]
fn resolving_an_unknown_outcome_fails() {
    let mut state = ServerState::new();
    new_room_with(&mut state, &[1], &["alice"]);
    let outcomes = vec![WagerOutcome::new("w".to_string(), "d".to_string(), 10, 0)];
    state
        .handle_message(
            ClientMessage::CreateWager { room_id: code_a(), name: "w".to_string(), outcomes },
            1,
        )
        .unwrap();
    let err = state
        .handle_message(
            ClientMessage::ResolveWager { room_id: code_a(), wager_id: 0, outcome_id: 9 },
            1,
        )
        .unwrap_err();
    assert_eq!(
        err,
        MessageHandleError::WagerMutationError(WagerMutationError::NonexistentOutcome {
            outcome_id: 9,
            wager_id: 0,
        })
    );
}

#[test]
fn resolution_with_no_winners_succeeds_with_no_payouts() {
    let mut state = ServerState::new();
    new_room_with(&mut state, &[1], &["alice"]);
    let outcomes = vec![
        WagerOutcome::new("w".to_string(), "d".to_string(), 10, 0),
        WagerOutcome::new("x".to_string(), "e".to_string(), 20, 1),
    ];
    state
        .handle_message(
            ClientMessage::CreateWager { room_id: code_a(), name: "w".to_string(), outcomes },
            1,
        )
        .unwrap();
    let out = state
        .handle_message(
            ClientMessage::ResolveWager { room_id: code_a(), wager_id: 0, outcome_id: 1 },
            1,
        )
        .unwrap();
    assert_eq!(
        out,
        vec![(ServerMessage::WagerResolved { id: 0 }, Destination::PeersInclusive)]
    );
    assert!(state.rooms[0].wagers.is_empty());
}

#[test]
fn destinations_resolve_to_the_expected_sessions() {
    let mut state = ServerState::new();
    new_room_with(&mut state, &[1, 2, 3], &["a", "b", "c"]);
    state.init_session(9);
    let own = state.resolve_destination(1, &Destination::Myself).unwrap();
    assert_eq!(own, vec![1]);
    let peers = state.resolve_destination(1, &Destination::PeersExclusive).unwrap();
    assert_eq!(peers, vec![2, 3]);
    let all_peers = state.resolve_destination(1, &Destination::PeersInclusive).unwrap();
    assert_eq!(all_peers, vec![1, 2, 3]);
    let everyone = state.resolve_destination(1, &Destination::Everyone).unwrap();
    assert_eq!(everyone, vec![1, 2, 3, 9]);
    let one = state.resolve_destination(1, &Destination::Specific(3)).unwrap();
    assert_eq!(one, vec![3]);
    let err = state.resolve_destination(9, &Destination::PeersInclusive).unwrap_err();
    assert_eq!(err, backend_lib::errors::MessageSendError::UserNotInRoom);
}

#[test]
fn a_reconnecting_session_starts_over_in_no_room() {
    let mut state = ServerState::new();
    new_room_with(&mut state, &[1], &["alice"]);
    state.init_session(1);
    assert_eq!(state.sessions.len(), 1);
    let err = state
        .handle_message(ClientMessage::BlessScore { to: 0, amount: 1 }, 1)
        .unwrap_err();
    assert_eq!(err, MessageHandleError::UserNotInAnyRoom(1));
}

#[test]
fn delivery_to_a_missing_session_is_reported() {
    let state = ServerState::new();
    let err = state.resolve_destination(42, &Destination::Myself).unwrap_err();
    assert_eq!(err, backend_lib::errors::MessageSendError::NonexistentSession(42));
    let err = state.resolve_destination(7, &Destination::Specific(42)).unwrap_err();
    assert_eq!(err, backend_lib::errors::MessageSendError::NonexistentSession(42));
}

#[test]
fn delivery_into_a_deleted_room_is_reported() {
    let mut state = ServerState::new();
    new_room_with(&mut state, &[1], &["alice"]);
    state
        .handle_message(ClientMessage::DeleteRoom { room_code: code_a() }, 1)
        .unwrap();
    let err = state.resolve_destination(1, &Destination::PeersInclusive).unwrap_err();
    assert_eq!(
        err,
        backend_lib::errors::MessageSendError::NonexistentRoom(code_a())
    );
}
