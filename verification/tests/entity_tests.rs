use backend_lib::codes::RoomCode;
use backend_lib::errors::MessageHandleError;
use backend_lib::errors::PotMutationError;
use backend_lib::errors::RoomMutationError;
use backend_lib::member::MemberState;
use backend_lib::messages::ClientMessage;
use backend_lib::pot::Pot;
use backend_lib::room::Room;
use backend_lib::wager::Wager;
use backend_lib::wager::WagerOutcome;
use backend_lib::wager::WagerResult;

#[test]
fn room_code_parse_accepts_exactly_the_wire_form() {
    let ok = RoomCode::parse("AAAAAAAA".chars().collect());
    assert_eq!(
        ok,
        Some(RoomCode::from_array(['A', 'A', 'A', 'A', 'A', 'A', 'A', 'A']))
    );
    assert_eq!(RoomCode::parse("AAAA".chars().collect()), None);
    assert_eq!(RoomCode::parse("AAAAAAAAA".chars().collect()), None);
    assert_eq!(RoomCode::parse("AAAAAAA!".chars().collect()), None);
    assert!(RoomCode::parse("abc12XYZ".chars().collect()).is_some());
}

#[test]
fn member_scores_are_rejected_when_negative() {
    let mut m = MemberState::new("alice".to_string(), 0);
    assert_eq!(m.score(), 0);
    assert_eq!(m.set_score(25), Ok(()));
    assert_eq!(m.score(), 25);
    assert_eq!(m.set_score(-1), Err(RoomMutationError::NegativeScore));
    assert_eq!(m.score(), 25);
    assert_eq!(m.id(), 0);
    m.current_pots_mut().push(3);
    m.current_wagers_mut().push(4);
    assert_eq!(m.current_pots_mut(), &mut vec![3]);
    assert_eq!(m.current_wagers_mut(), &mut vec![4]);
}

#[test]
fn pot_join_charges_the_fee_exactly_once() {
    let mut pot = Pot::new(0, 40, "stakes".to_string());
    assert_eq!(pot.score_req(), 40);
    assert_eq!(pot.join(7), Ok(()));
    assert_eq!(pot.resolve(), 40);
    assert_eq!(
        pot.join(7),
        Err(PotMutationError::UserAlreadyExists { user_id: 7, pot_id: 0 })
    );
    assert_eq!(pot.resolve(), 40);
    assert_eq!(pot.participants(), &vec![7]);
    assert_eq!(
        pot.remove_user(9),
        Err(PotMutationError::UserNotInPot { user_id: 9, pot_id: 0 })
    );
    assert_eq!(pot.remove_user(7), Ok(()));
    assert_eq!(pot.resolve(), 40);
    assert!(pot.participants().is_empty());
}

#[test]
fn wager_join_stores_the_absolute_stake_once_per_user() {
    let outcomes = vec![
        WagerOutcome::new("a".to_string(), "aa".to_string(), 30, 0),
        WagerOutcome::new("b".to_string(), "bb".to_string(), 70, 1),
    ];
    let mut w = Wager::new(0, "wager".to_string(), outcomes);
    assert_eq!(w.name(), "wager");
    assert_eq!(w.outcomes().len(), 2);
    assert_eq!(w.join(5, 0, -25), Ok(()));
    assert_eq!(w.participant_bets.len(), 1);
    assert_eq!(w.participant_bets[0].user, 5);
    assert_eq!(w.participant_bets[0].stake, 25);
    assert!(matches!(
        w.join(5, 1, 10),
        Err(backend_lib::errors::WagerMutationError::UserAlreadyExists { .. })
    ));
    w.remove_user(5);
    assert!(w.participant_bets.is_empty());
    assert_eq!(w.join(5, 1, 10), Ok(()));
}

#[test]
fn wager_resolution_rounds_half_away_from_zero() {
    let outcomes = vec![WagerOutcome::new("a".to_string(), "aa".to_string(), 35, 0)];
    let mut w = Wager::new(0, "wager".to_string(), outcomes);
    w.join(1, 0, 10).unwrap();
    let results = w.resolve(0).unwrap();
    assert_eq!(
        results,
        vec![WagerResult { participant: 1, score_diff: 14 }]
    );
    let outcomes = vec![WagerOutcome::new("a".to_string(), "aa".to_string(), 30, 0)];
    let mut w = Wager::new(1, "wager".to_string(), outcomes);
    w.join(1, 0, 100).unwrap();
    w.join(2, 5, 100).unwrap();
    let results = w.resolve(0).unwrap();
    assert_eq!(
        results,
        vec![WagerResult { participant: 1, score_diff: 130 }]
    );
}

#[test]
fn room_stores_the_admin_secret_only_as_a_salted_hash() {
    let code = RoomCode::from_array(['A', 'A', 'A', 'A', 'A', 'A', 'A', 'A']);
    let mut room = Room::new(code, "pass");
    assert_ne!(room.admin_pass_hash, "pass");
    assert!(room.admin_pass_hash.starts_with("$argon2"));
    assert!(!room.admin_pass_salt.is_empty());
    assert_eq!(room.add_admin(77, "pass"), Ok(()));
    assert!(room.is_admin(77));
    assert!(!room.is_admin(78));
}

#[test]
fn room_allocates_monotonic_member_ids_never_reused() {
    let code = RoomCode::from_array(['A', 'A', 'A', 'A', 'A', 'A', 'A', 'A']);
    let mut room = Room::new(code, "pass");
    assert_eq!(room.add_user(1, "a".to_string()), Ok(0));
    assert_eq!(room.add_user(2, "b".to_string()), Ok(1));
    assert!(matches!(
        room.add_user(1, "c".to_string()),
        Err(RoomMutationError::UserAlreadyExists(1, _))
    ));
    room.remove_user(0).unwrap();
    assert_eq!(room.add_user(3, "c".to_string()), Ok(2));
    assert_eq!(room.id_lookup(2), Some(1));
    assert_eq!(room.id_lookup(1), None);
    assert_eq!(room.get_addresses(), vec![2, 3]);
}

#[test]
fn sync_data_snapshots_every_table() {
    let code = RoomCode::from_array(['A', 'A', 'A', 'A', 'A', 'A', 'A', 'A']);
    let mut room = Room::new(code, "pass");
    room.add_user(1, "a".to_string()).unwrap();
    room.create_pot(10, "p".to_string());
    room.create_wager(
        "w".to_string(),
        vec![WagerOutcome::new("o".to_string(), "oo".to_string(), 50, 0)],
    );
    let (members, pots, wagers) = room.get_sync_data();
    assert_eq!(members.len(), 1);
    assert_eq!(members[0], room.members[0]);
    assert_eq!(pots.len(), 1);
    assert_eq!(pots[0], room.pots[0]);
    assert_eq!(wagers.len(), 1);
    assert_eq!(wagers[0], room.wagers[0]);
}

#[test]
fn should_display_separates_user_detail_from_internal_detail() {
    assert!(MessageHandleError::AuthorizationError.should_display());
    assert!(MessageHandleError::UserNotInAnyRoom(1).should_display());
    assert!(!MessageHandleError::NonexistentSession(1).should_display());
    assert!(MessageHandleError::RoomMutationError(RoomMutationError::NegativeScore)
        .should_display());
    assert!(
        !MessageHandleError::RoomMutationError(RoomMutationError::UserNotInRoom(
            0,
            RoomCode::from_array(['A', 'A', 'A', 'A', 'A', 'A', 'A', 'A'])
        ))
        .should_display()
    );
    assert!(
        MessageHandleError::PotMutationError(PotMutationError::InsufficientScore {
            user_id: 0,
            pot_id: 0,
            user_score: 1,
            score_req: 2,
        })
        .should_display()
    );
}

#[test]
fn requires_admin_matches_the_command_table() {
    let code = RoomCode::from_array(['A', 'A', 'A', 'A', 'A', 'A', 'A', 'A']);
    assert_eq!(
        ClientMessage::CreateRoom { code: code.clone(), admin_pass: "p".to_string() }
            .requires_admin(),
        None
    );
    assert_eq!(
        ClientMessage::DeleteRoom { room_code: code.clone() }.requires_admin(),
        Some(Some(code.clone()))
    );
    assert_eq!(
        ClientMessage::BlessScore { to: 0, amount: 1 }.requires_admin(),
        Some(None)
    );
    assert_eq!(
        ClientMessage::RemoveScore { from: 0, amount: 1 }.requires_admin(),
        Some(None)
    );
    assert_eq!(
        ClientMessage::TransferScore { from: 0, to: 1, amount: 1 }.requires_admin(),
        None
    );
    assert_eq!(
        ClientMessage::ResolveWager { room_id: code.clone(), wager_id: 0, outcome_id: 0 }
            .requires_admin(),
        Some(Some(code))
    );
}

#[test]
fn insufficient_score_blocks_a_pot_join() {
    let code = RoomCode::from_array(['A', 'A', 'A', 'A', 'A', 'A', 'A', 'A']);
    let mut room = Room::new(code, "pass");
    room.add_user(1, "a".to_string()).unwrap();
    room.create_pot(10, "p".to_string());
    let err = room.add_user_to_pot(0, 0).unwrap_err();
    assert_eq!(
        err,
        backend_lib::errors::StateMutationError::Pot(PotMutationError::InsufficientScore {
            user_id: 0,
            pot_id: 0,
            user_score: 0,
            score_req: 10,
        })
    );
    assert_eq!(room.members[0].score, 0);
    assert_eq!(room.pots[0].total_score, 0);
}

#[test]
fn duplicate_outcome_ids_keep_one_entry() {
    let outcomes = vec![
        WagerOutcome::new("a".to_string(), "first".to_string(), 10, 0),
        WagerOutcome::new("a".to_string(), "second".to_string(), 20, 0),
    ];
    let w = Wager::new(0, "wager".to_string(), outcomes);
    assert_eq!(w.outcomes.len(), 1);
    assert_eq!(w.outcomes[0].odds, 20);
}
