use vstd::prelude::*;

verus! {

use crate::auth::argon2_hash;
use crate::auth::generate_salt;
use crate::auth::hash_with_salt;
use crate::auth::pass_len_ok;
use crate::auth::valid_salt;
use crate::codes::RoomCode;
use crate::errors::AdminRequestError;
use crate::errors::PotMutationError;
use crate::errors::RoomMutationError;
use crate::errors::StateMutationError;
use crate::ids::contains_conn;
use crate::ids::contains_id;
use crate::ids::remove_id;
use crate::member::MemberState;
use crate::pot::Pot;
use crate::wager::has_bet;
use crate::wager::has_outcome;
use crate::wager::odds_of;
use crate::wager::payout_list;
use crate::wager::lemma_payout_list_props;
use crate::wager::payouts_fit;
use crate::wager::stake_of;
use crate::wager::Wager;
use crate::wager::WagerOutcome;
use crate::ConnId;
use crate::ID;

/// One connection mapped to the room member it controls.
#[derive(Clone, Copy, PartialEq, Eq, Debug)]
pub struct AddressEntry {
    pub conn: ConnId,
    pub member: ID,
}

/// Whether a connection has a mapping in the address table.
pub open spec fn has_conn(map: Seq<AddressEntry>, conn: ConnId) -> bool {
    exists|i: int| 0 <= i < map.len() && map[i].conn == conn
}

/// The member a connection maps to, assuming a mapping exists.
pub open spec fn member_of_conn(map: Seq<AddressEntry>, conn: ConnId) -> ID {
    map[choose|i: int| 0 <= i < map.len() && map[i].conn == conn].member
}

/// Each connection appears at most once in the address table.
pub open spec fn unique_conns(map: Seq<AddressEntry>) -> bool {
    forall|i: int, j: int| 0 <= i < j < map.len() ==> map[i].conn != map[j].conn
}

/// Whether a member with the given id is in a member table.
pub open spec fn has_member_id(members: Seq<MemberState>, id: ID) -> bool {
    exists|i: int| 0 <= i < members.len() && members[i].id == id
}

/// The member with the given id, assuming one exists.
pub open spec fn member_with_id(members: Seq<MemberState>, id: ID) -> MemberState {
    members[choose|i: int| 0 <= i < members.len() && members[i].id == id]
}

/// Each member id appears at most once in a member table.
pub open spec fn unique_member_ids(members: Seq<MemberState>) -> bool {
    forall|i: int, j: int| 0 <= i < j < members.len() ==> members[i].id != members[j].id
}

/// Whether a pot with the given id is in a pot table.
pub open spec fn has_pot_id(pots: Seq<Pot>, id: ID) -> bool {
    exists|i: int| 0 <= i < pots.len() && pots[i].pot_id == id
}

/// The pot with the given id, assuming one exists.
pub open spec fn pot_with_id(pots: Seq<Pot>, id: ID) -> Pot {
    pots[choose|i: int| 0 <= i < pots.len() && pots[i].pot_id == id]
}

/// Each pot id appears at most once in a pot table.
pub open spec fn unique_pot_ids(pots: Seq<Pot>) -> bool {
    forall|i: int, j: int| 0 <= i < j < pots.len() ==> pots[i].pot_id != pots[j].pot_id
}

/// Whether a wager with the given id is in a wager table.
pub open spec fn has_wager_id(wagers: Seq<Wager>, id: ID) -> bool {
    exists|i: int| 0 <= i < wagers.len() && wagers[i].id == id
}

/// The wager with the given id, assuming one exists.
pub open spec fn wager_with_id(wagers: Seq<Wager>, id: ID) -> Wager {
    wagers[choose|i: int| 0 <= i < wagers.len() && wagers[i].id == id]
}

/// Each wager id appears at most once in a wager table.
pub open spec fn unique_wager_ids(wagers: Seq<Wager>) -> bool {
    forall|i: int, j: int| 0 <= i < j < wagers.len() ==> wagers[i].id != wagers[j].id
}

/// Whether a payout list owes something to the given member.
pub open spec fn result_for(results: Seq<crate::wager::WagerResult>, id: ID) -> bool {
    exists|k: int| 0 <= k < results.len() && results[k].participant == id
}

/// The amount a payout list owes the given member, assuming an entry exists.
pub open spec fn diff_for(results: Seq<crate::wager::WagerResult>, id: ID) -> int {
    results[choose|k: int| 0 <= k < results.len() && results[k].participant == id].score_diff as int
}

/// A room after one member has been removed with the full leave cascade:
/// the member's record is gone and every other member's kept; every wager
/// the member had joined is scrubbed of their stake and choices; every pot
/// the member had joined is scrubbed of their participation with its total
/// kept — the fee is not refunded; the member's connection mappings are
/// gone; and the code, secret, counters and admin set are untouched.
pub open spec fn member_removed(pre: Room, post: Room, user: ID) -> bool {
    let m0 = member_with_id(pre.members@, user);
    &&& post.members@.len() == pre.members@.len() - 1
    &&& !has_member_id(post.members@, user)
    &&& forall|x: ID|
        x != user ==> has_member_id(post.members@, x) == has_member_id(pre.members@, x) && (
        has_member_id(pre.members@, x) ==> member_with_id(post.members@, x) == member_with_id(
            pre.members@,
            x,
        ))
    &&& post.wagers@.len() == pre.wagers@.len()
    &&& forall|i: int|
        0 <= i < pre.wagers@.len() ==> #[trigger] post.wagers@[i] == pre.wagers@[i] || (
        m0.current_wagers@.contains(pre.wagers@[i].id) && crate::wager::user_scrubbed(
            pre.wagers@[i],
            post.wagers@[i],
            user,
        ))
    &&& forall|i: int|
        0 <= i < pre.wagers@.len() && m0.current_wagers@.contains(
            (#[trigger] pre.wagers@[i]).id,
        ) ==> crate::wager::user_scrubbed(pre.wagers@[i], post.wagers@[i], user)
    &&& post.pots@.len() == pre.pots@.len()
    &&& forall|i: int|
        0 <= i < pre.pots@.len() ==> #[trigger] post.pots@[i] == pre.pots@[i] || (
        m0.current_pots@.contains(pre.pots@[i].pot_id) && crate::pot::participant_scrubbed(
            pre.pots@[i],
            post.pots@[i],
            user,
        ))
    &&& forall|i: int|
        0 <= i < pre.pots@.len() && m0.current_pots@.contains(
            (#[trigger] pre.pots@[i]).pot_id,
        ) ==> crate::pot::participant_scrubbed(pre.pots@[i], post.pots@[i], user)
    &&& forall|i: int|
        0 <= i < pre.pots@.len() ==> (#[trigger] post.pots@[i]).total_score == pre.pots@[i].total_score
    &&& forall|e: AddressEntry|
        post.address_map@.contains(e) == (pre.address_map@.contains(e) && e.member != user)
    &&& post == (Room {
        members: post.members,
        address_map: post.address_map,
        pots: post.pots,
        wagers: post.wagers,
        ..pre
    })
}

/// The full behavior of adding a member: a fresh id is allocated and the
/// connection mapped, or a mapped connection is rejected unchanged.
pub open spec fn user_added(pre: Room, post: Room, user_addr: ConnId, name: String, r: Result<
    ID,
    RoomMutationError,
>) -> bool {
    &&& (has_conn(pre.address_map@, user_addr) ==> (r matches Err(e)
        && crate::errors::is_user_already_exists(e, user_addr, pre.room_code.chars@)) && post
        == pre)
    &&& (!has_conn(pre.address_map@, user_addr) ==> r == Ok::<ID, RoomMutationError>(
        pre.next_member_id,
    ) && {
        let m = post.members@.last();
        &&& post.members@ == pre.members@.push(m)
        &&& m.id == pre.next_member_id
        &&& m.name == name
        &&& m.score == 0
        &&& m.current_wagers@ == Seq::<ID>::empty()
        &&& m.current_pots@ == Seq::<ID>::empty()
        &&& post.address_map@ == pre.address_map@.push(
            AddressEntry { conn: user_addr, member: pre.next_member_id },
        )
        &&& post.next_member_id == pre.next_member_id + 1
        &&& post == (Room {
            members: post.members,
            address_map: post.address_map,
            next_member_id: post.next_member_id,
            ..pre
        })
    })
}

/// The full behavior of opening a pot: a fresh empty pot under the next id.
pub open spec fn pot_created(pre: Room, post: Room, score_requirement: i64, desc: String) -> bool {
    &&& post.pots@ == pre.pots@.push(post.pots@.last())
    &&& post.pots@.last().pot_id == pre.next_pot_id
    &&& post.pots@.last().total_score == 0
    &&& post.pots@.last().score_requirement == score_requirement
    &&& post.pots@.last().participants@ == Seq::<ID>::empty()
    &&& post.pots@.last().description == desc
    &&& post.next_pot_id == pre.next_pot_id + 1
    &&& post == (Room { pots: post.pots, next_pot_id: post.next_pot_id, ..pre })
}

/// The full behavior of opening a wager: a fresh wager with nobody staked
/// over the deduplicated outcome table, under the next id.
pub open spec fn wager_created(
    pre: Room,
    post: Room,
    description: String,
    outcomes: Seq<WagerOutcome>,
) -> bool {
    &&& post.wagers@ == pre.wagers@.push(post.wagers@.last())
    &&& ({
        let w = post.wagers@.last();
        &&& w.id == pre.next_wager_id
        &&& w.name == description
        &&& w.participant_bets@ == Seq::<crate::wager::WagerBet>::empty()
        &&& w.participant_choices@ == Seq::<crate::wager::ChoiceSet>::empty()
        &&& crate::wager::unique_outcome_ids(w.outcomes@)
        &&& forall|x: ID| has_outcome(w.outcomes@, x) == has_outcome(outcomes, x)
        &&& forall|k: int|
            0 <= k < w.outcomes@.len() ==> crate::wager::last_entry_with_id(
                outcomes,
                0,
                #[trigger] w.outcomes@[k],
            )
        &&& crate::wager::unique_outcome_ids(outcomes) ==> w.outcomes@ == outcomes
    })
    &&& post.next_wager_id == pre.next_wager_id + 1
    &&& post == (Room { wagers: post.wagers, next_wager_id: post.next_wager_id, ..pre })
}

/// The full behavior of crediting one member's score: which outcome occurs
/// on which states, and exactly how the room changes when it succeeds.
pub open spec fn blessed(pre: Room, post: Room, to: ID, amount: i64, r: Result<
    (ID, i64),
    RoomMutationError,
>) -> bool {
    &&& (r is Err ==> post == pre)
    &&& (!has_member_id(pre.members@, to) ==> (r matches Err(e)
        && crate::errors::is_user_not_in_room(e, to, pre.room_code.chars@)))
    &&& (has_member_id(pre.members@, to) ==> {
        let m0 = member_with_id(pre.members@, to);
        let ns = m0.score + amount;
        &&& (ns > i64::MAX ==> r == Err::<(ID, i64), RoomMutationError>(
            RoomMutationError::ScoreOutOfRange,
        ))
        &&& (ns <= i64::MAX && ns < 0 ==> r == Err::<(ID, i64), RoomMutationError>(
            RoomMutationError::NegativeScore,
        ))
        &&& (0 <= ns <= i64::MAX ==> r == Ok::<(ID, i64), RoomMutationError>((to, ns as i64))
            && post.members@.len() == pre.members@.len() && (forall|i: int|
            0 <= i < pre.members@.len() ==> #[trigger] post.members@[i] == (
            if pre.members@[i].id == to {
                MemberState { score: ns as i64, ..pre.members@[i] }
            } else {
                pre.members@[i]
            })) && post == (Room { members: post.members, ..pre }))
    })
}

/// The full behavior of a score transfer: both balances change by exactly
/// the amount in opposite directions, or neither changes and the failure is
/// reported.
pub open spec fn transferred(pre: Room, post: Room, from: ID, to: ID, amount: i64, r: Result<
    ((ID, i64), (ID, i64)),
    RoomMutationError,
>) -> bool {
    &&& (r is Err ==> post == pre)
    &&& (!has_member_id(pre.members@, to) ==> (r matches Err(e)
        && crate::errors::is_user_not_in_room(e, to, pre.room_code.chars@)))
    &&& (has_member_id(pre.members@, to) && !has_member_id(pre.members@, from) ==> (r matches Err(
        e,
    ) && crate::errors::is_user_not_in_room(e, from, pre.room_code.chars@)))
    &&& (has_member_id(pre.members@, to) && has_member_id(pre.members@, from) ==> {
        let f0 = member_with_id(pre.members@, from).score as int;
        let from_new = f0 - amount;
        let to_base = if to == from {
            from_new
        } else {
            member_with_id(pre.members@, to).score as int
        };
        let to_new = to_base + amount;
        &&& (from_new > i64::MAX ==> r == Err::<((ID, i64), (ID, i64)), RoomMutationError>(
            RoomMutationError::ScoreOutOfRange,
        ))
        &&& (from_new <= i64::MAX && from_new < 0 ==> r == Err::<
            ((ID, i64), (ID, i64)),
            RoomMutationError,
        >(RoomMutationError::NegativeScore))
        &&& (0 <= from_new <= i64::MAX && to_new > i64::MAX ==> r == Err::<
            ((ID, i64), (ID, i64)),
            RoomMutationError,
        >(RoomMutationError::ScoreOutOfRange))
        &&& (0 <= from_new <= i64::MAX && to_new <= i64::MAX && to_new < 0 ==> r == Err::<
            ((ID, i64), (ID, i64)),
            RoomMutationError,
        >(RoomMutationError::NegativeScore))
        &&& (0 <= from_new <= i64::MAX && 0 <= to_new <= i64::MAX ==> r == Ok::<
            ((ID, i64), (ID, i64)),
            RoomMutationError,
        >(((from, from_new as i64), (to, to_new as i64))) && post.members@.len()
            == pre.members@.len() && (forall|i: int|
            0 <= i < pre.members@.len() ==> #[trigger] post.members@[i] == (
            if pre.members@[i].id == to {
                MemberState { score: to_new as i64, ..pre.members@[i] }
            } else if pre.members@[i].id == from {
                MemberState { score: from_new as i64, ..pre.members@[i] }
            } else {
                pre.members@[i]
            })) && post == (Room { members: post.members, ..pre }))
    })
}

/// The full behavior of joining a pot: the entry fee moves from the member
/// to the pot exactly once, or nothing changes and the failure is reported.
pub open spec fn pot_joined(pre: Room, post: Room, user_id: ID, pot_id: ID, r: Result<
    i64,
    StateMutationError,
>) -> bool {
    &&& (r is Err ==> post == pre)
    &&& (!has_pot_id(pre.pots@, pot_id) ==> (r matches Err(StateMutationError::Room(e))
        && crate::errors::is_nonexistent_pot(e, pot_id, pre.room_code.chars@)))
    &&& (has_pot_id(pre.pots@, pot_id) && !has_member_id(pre.members@, user_id) ==> (r matches Err(
        StateMutationError::Room(e),
    ) && crate::errors::is_user_not_in_room(e, user_id, pre.room_code.chars@)))
    &&& (has_pot_id(pre.pots@, pot_id) && has_member_id(pre.members@, user_id) ==> {
        let pot0 = pot_with_id(pre.pots@, pot_id);
        let m0 = member_with_id(pre.members@, user_id);
        let req = pot0.score_requirement as int;
        let new_score = m0.score - req;
        let new_total = pot0.total_score + req;
        &&& (m0.score < req ==> r == Err::<i64, StateMutationError>(
            StateMutationError::Pot(
                PotMutationError::InsufficientScore {
                    user_id,
                    pot_id,
                    user_score: m0.score,
                    score_req: pot0.score_requirement,
                },
            ),
        ))
        &&& (m0.score >= req && !(new_score <= i64::MAX && i64::MIN <= new_total <= i64::MAX)
            ==> r == Err::<i64, StateMutationError>(
            StateMutationError::Room(RoomMutationError::ScoreOutOfRange),
        ))
        &&& (m0.score >= req && new_score <= i64::MAX && i64::MIN <= new_total <= i64::MAX
            && pot0.participants@.contains(user_id) ==> r == Err::<i64, StateMutationError>(
            StateMutationError::Pot(PotMutationError::UserAlreadyExists { user_id, pot_id }),
        ))
        &&& (m0.score >= req && new_score <= i64::MAX && i64::MIN <= new_total <= i64::MAX
            && !pot0.participants@.contains(user_id) ==> r == Ok::<i64, StateMutationError>(
            new_score as i64,
        ) && post.members@.len() == pre.members@.len() && (forall|i: int|
            0 <= i < pre.members@.len() ==> #[trigger] post.members@[i] == (
            if pre.members@[i].id == user_id {
                MemberState {
                    score: new_score as i64,
                    current_pots: post.members@[i].current_pots,
                    ..pre.members@[i]
                }
            } else {
                pre.members@[i]
            })) && member_with_id(post.members@, user_id).current_pots@ == (
        if m0.current_pots@.contains(pot_id) {
            m0.current_pots@
        } else {
            m0.current_pots@.push(pot_id)
        }) && post.pots@.len() == pre.pots@.len() && (forall|i: int|
            0 <= i < pre.pots@.len() ==> #[trigger] post.pots@[i] == (
            if pre.pots@[i].pot_id == pot_id {
                Pot {
                    total_score: new_total as i64,
                    participants: post.pots@[i].participants,
                    ..pre.pots@[i]
                }
            } else {
                pre.pots@[i]
            })) && pot_with_id(post.pots@, pot_id).participants@ == pot0.participants@.push(
            user_id,
        ) && post == (Room { members: post.members, pots: post.pots, ..pre }))
    })
}

/// The full behavior of resolving a pot: the whole total goes to the
/// winner, the pot dissolves and participants' references are scrubbed, or
/// nothing changes and the failure is reported.
pub open spec fn pot_resolved(pre: Room, post: Room, pot_id: ID, winner_id: ID, r: Result<
    (ID, i64),
    StateMutationError,
>) -> bool {
    &&& (r is Err ==> post == pre)
    &&& (!has_pot_id(pre.pots@, pot_id) ==> (r matches Err(StateMutationError::Room(e))
        && crate::errors::is_nonexistent_pot(e, pot_id, pre.room_code.chars@)))
    &&& (has_pot_id(pre.pots@, pot_id) && !has_member_id(pre.members@, winner_id) ==> (r
        matches Err(StateMutationError::Room(e)) && crate::errors::is_user_not_in_room(
        e,
        winner_id,
        pre.room_code.chars@,
    )))
    &&& (has_pot_id(pre.pots@, pot_id) && has_member_id(pre.members@, winner_id) ==> {
        let pot0 = pot_with_id(pre.pots@, pot_id);
        let w0 = member_with_id(pre.members@, winner_id);
        let new_score = w0.score + pot0.total_score;
        &&& (new_score > i64::MAX ==> r == Err::<(ID, i64), StateMutationError>(
            StateMutationError::Room(RoomMutationError::ScoreOutOfRange),
        ))
        &&& (new_score <= i64::MAX && new_score < 0 ==> r == Err::<(ID, i64), StateMutationError>(
            StateMutationError::Room(RoomMutationError::NegativeScore),
        ))
        &&& (0 <= new_score <= i64::MAX ==> r == Ok::<(ID, i64), StateMutationError>(
            (winner_id, new_score as i64),
        ) && post.members@.len() == pre.members@.len() && (forall|i: int|
            0 <= i < pre.members@.len() ==> #[trigger] post.members@[i] == ({
                let m = pre.members@[i];
                let scrubbed = MemberState {
                    score: if m.id == winner_id {
                        new_score as i64
                    } else {
                        m.score
                    },
                    current_pots: post.members@[i].current_pots,
                    ..m
                };
                scrubbed
            })) && (forall|i: int|
            0 <= i < pre.members@.len() ==> {
                let m = pre.members@[i];
                let mp = (#[trigger] post.members@[i]).current_pots@;
                if pot0.participants@.contains(m.id) {
                    !mp.contains(pot_id) && (forall|y: ID|
                        y != pot_id ==> mp.contains(y) == m.current_pots@.contains(y))
                } else {
                    mp == m.current_pots@
                }
            }) && post.pots@.len() == pre.pots@.len() - 1 && !has_pot_id(post.pots@, pot_id) && (
        forall|x: ID|
            x != pot_id ==> has_pot_id(post.pots@, x) == has_pot_id(pre.pots@, x) && (has_pot_id(
                pre.pots@,
                x,
            ) ==> pot_with_id(post.pots@, x) == pot_with_id(pre.pots@, x))) && post == (Room {
            members: post.members,
            pots: post.pots,
            ..pre
        }))
    })
}

/// The full behavior of staking on a wager: the stake is recorded and
/// debited together, or nothing changes and the failure is reported.
pub open spec fn wager_joined(
    pre: Room,
    post: Room,
    wager_id: ID,
    user_id: ID,
    outcome_id: ID,
    amount: i64,
    r: Result<i64, StateMutationError>,
) -> bool {
    &&& (r is Err ==> post == pre)
    &&& (!has_wager_id(pre.wagers@, wager_id) ==> (r matches Err(StateMutationError::Room(e))
        && crate::errors::is_nonexistent_wager(e, wager_id, pre.room_code.chars@)))
    &&& (has_wager_id(pre.wagers@, wager_id) ==> {
        let w0 = wager_with_id(pre.wagers@, wager_id);
        &&& (has_bet(w0.participant_bets@, user_id) ==> r == Err::<i64, StateMutationError>(
            StateMutationError::Wager(
                crate::errors::WagerMutationError::UserAlreadyExists { user_id, wager_id },
            ),
        ))
        &&& (!has_bet(w0.participant_bets@, user_id) && !has_member_id(pre.members@, user_id)
            ==> (r matches Err(StateMutationError::Room(e))
            && crate::errors::is_user_not_in_room(e, user_id, pre.room_code.chars@)))
        &&& (!has_bet(w0.participant_bets@, user_id) && has_member_id(pre.members@, user_id)
            ==> {
            let m0 = member_with_id(pre.members@, user_id);
            let new_score = m0.score - amount;
            let stake: int = if amount >= 0 {
                amount as int
            } else {
                -(amount as int)
            };
            &&& (amount == i64::MIN || new_score > i64::MAX ==> r == Err::<
                i64,
                StateMutationError,
            >(StateMutationError::Room(RoomMutationError::ScoreOutOfRange)))
            &&& (amount != i64::MIN && new_score <= i64::MAX && new_score < 0 ==> r == Err::<
                i64,
                StateMutationError,
            >(StateMutationError::Room(RoomMutationError::NegativeScore)))
            &&& (amount != i64::MIN && 0 <= new_score <= i64::MAX ==> r == Ok::<
                i64,
                StateMutationError,
            >(new_score as i64) && post.wagers@.len() == pre.wagers@.len() && (forall|i: int|
                0 <= i < pre.wagers@.len() && pre.wagers@[i].id != wager_id
                    ==> #[trigger] post.wagers@[i] == pre.wagers@[i]) && (forall|i: int|
                0 <= i < pre.wagers@.len() && (#[trigger] pre.wagers@[i]).id == wager_id ==> {
                    let wn = post.wagers@[i];
                    &&& wn.id == w0.id
                    &&& wn.name == w0.name
                    &&& wn.outcomes@ == w0.outcomes@
                    &&& wn.participant_bets@ == w0.participant_bets@.push(
                        crate::wager::WagerBet { user: user_id, stake: stake as i64 },
                    )
                    &&& wn.spec_choosers(outcome_id) == w0.spec_choosers(outcome_id).push(
                        user_id,
                    )
                    &&& forall|x: ID|
                        x != outcome_id ==> wn.spec_choosers(x) == w0.spec_choosers(x)
                }) && post.members@.len() == pre.members@.len() && (forall|i: int|
                0 <= i < pre.members@.len() ==> #[trigger] post.members@[i] == (
                if pre.members@[i].id == user_id {
                    MemberState {
                        score: new_score as i64,
                        current_wagers: post.members@[i].current_wagers,
                        ..pre.members@[i]
                    }
                } else {
                    pre.members@[i]
                })) && member_with_id(post.members@, user_id).current_wagers@ == (
            if m0.current_wagers@.contains(wager_id) {
                m0.current_wagers@
            } else {
                m0.current_wagers@.push(wager_id)
            }) && post == (Room { members: post.members, wagers: post.wagers, ..pre }))
        })
    })
}

/// The full behavior of settling a wager: every backer of the winning
/// outcome is paid by the payout formula and scrubbed, the wager dissolves,
/// or nothing changes and the failure is reported.
pub open spec fn wager_resolved(pre: Room, post: Room, wager_id: ID, outcome_id: ID, r: Result<
    Vec<(ID, i64)>,
    StateMutationError,
>) -> bool {
    &&& (r is Err ==> post == pre)
    &&& (!has_wager_id(pre.wagers@, wager_id) ==> (r matches Err(StateMutationError::Room(e))
        && crate::errors::is_nonexistent_wager(e, wager_id, pre.room_code.chars@)))
    &&& (has_wager_id(pre.wagers@, wager_id) ==> {
        let w0 = wager_with_id(pre.wagers@, wager_id);
        let winners = w0.spec_choosers(outcome_id);
        let odds = odds_of(w0.outcomes@, outcome_id);
        let results = payout_list(w0.participant_bets@, winners, odds);
        &&& (!has_outcome(w0.outcomes@, outcome_id) ==> r == Err::<
            Vec<(ID, i64)>,
            StateMutationError,
        >(
            StateMutationError::Wager(
                crate::errors::WagerMutationError::NonexistentOutcome { outcome_id, wager_id },
            ),
        ))
        &&& (has_outcome(w0.outcomes@, outcome_id) && !payouts_fit(
            w0.participant_bets@,
            winners,
            odds,
        ) ==> r == Err::<Vec<(ID, i64)>, StateMutationError>(
            StateMutationError::Wager(crate::errors::WagerMutationError::PayoutOutOfRange),
        ))
        &&& (has_outcome(w0.outcomes@, outcome_id) && payouts_fit(
            w0.participant_bets@,
            winners,
            odds,
        ) && (exists|k: int|
            0 <= k < results.len() && !has_member_id(
                pre.members@,
                (#[trigger] results[k]).participant,
            )) ==> (r matches Err(StateMutationError::Room(e)) && (exists|k: int|
            0 <= k < results.len() && crate::errors::is_user_not_in_room(
                e,
                (#[trigger] results[k]).participant,
                pre.room_code.chars@,
            ) && !has_member_id(pre.members@, results[k].participant))))
        &&& (has_outcome(w0.outcomes@, outcome_id) && payouts_fit(
            w0.participant_bets@,
            winners,
            odds,
        ) && (forall|k: int|
            0 <= k < results.len() ==> has_member_id(
                pre.members@,
                (#[trigger] results[k]).participant,
            )) && (exists|k: int|
            0 <= k < results.len() && member_with_id(
                pre.members@,
                (#[trigger] results[k]).participant,
            ).score + results[k].score_diff > i64::MAX) ==> r == Err::<
            Vec<(ID, i64)>,
            StateMutationError,
        >(StateMutationError::Room(RoomMutationError::ScoreOutOfRange)))
        &&& (has_outcome(w0.outcomes@, outcome_id) && payouts_fit(
            w0.participant_bets@,
            winners,
            odds,
        ) && (forall|k: int|
            0 <= k < results.len() ==> has_member_id(
                pre.members@,
                (#[trigger] results[k]).participant,
            ) && member_with_id(pre.members@, results[k].participant).score + results[k].score_diff
                <= i64::MAX) ==> (r matches Ok(out) && {
            &&& out@.len() == results.len()
            &&& forall|k: int|
                0 <= k < results.len() ==> #[trigger] out@[k] == (
                results[k].participant,
                (member_with_id(pre.members@, results[k].participant).score
                    + results[k].score_diff) as i64,
                )
            &&& post.members@.len() == pre.members@.len()
            &&& forall|i: int|
                0 <= i < pre.members@.len() ==> #[trigger] post.members@[i] == (MemberState {
                    score: if result_for(results, pre.members@[i].id) {
                        (pre.members@[i].score + diff_for(results, pre.members@[i].id)) as i64
                    } else {
                        pre.members@[i].score
                    },
                    current_wagers: post.members@[i].current_wagers,
                    ..pre.members@[i]
                })
            &&& forall|i: int|
                0 <= i < pre.members@.len() ==> {
                    let mw = (#[trigger] post.members@[i]).current_wagers@;
                    &&& !mw.contains(wager_id)
                    &&& forall|y: ID|
                        y != wager_id ==> mw.contains(y) == pre.members@[i].current_wagers@.contains(
                            y,
                        )
                }
            &&& post.wagers@.len() == pre.wagers@.len() - 1
            &&& !has_wager_id(post.wagers@, wager_id)
            &&& forall|x: ID|
                x != wager_id ==> has_wager_id(post.wagers@, x) == has_wager_id(pre.wagers@, x)
                    && (has_wager_id(pre.wagers@, x) ==> wager_with_id(post.wagers@, x)
                    == wager_with_id(pre.wagers@, x))
            &&& post == (Room { members: post.members, wagers: post.wagers, ..pre })
        }))
    })
}

/// The full behavior of an admin grant: rights are granted exactly when
/// the password's salted hash matches and the connection is not yet an
/// admin; every failure leaves the room untouched. The exact
/// characterisation is conditional on the stored salt being one the
/// hashing accepts, which holds of every salt this library generates.
pub open spec fn admin_granted(pre: Room, post: Room, user: ConnId, pass: Seq<char>, r: Result<
    (),
    AdminRequestError,
>) -> bool {
    &&& (r is Err ==> post == pre)
    &&& (r == Ok::<(), AdminRequestError>(()) ==> pre.pass_matches(pass) && !pre.admins@.contains(
        user,
    ) && post.admins@ == pre.admins@.push(user) && post == (Room { admins: post.admins, ..pre }))
    &&& (r == Err::<(), AdminRequestError>(AdminRequestError::AlreadyAdmin) ==> pre.pass_matches(
        pass,
    ) && pre.admins@.contains(user))
    &&& (valid_salt(pre.admin_pass_salt@) ==> {
        &&& (!pre.pass_matches(pass) <==> r == Err::<(), AdminRequestError>(
            AdminRequestError::IncorrectPassword,
        ))
        &&& ((pre.pass_matches(pass) && pre.admins@.contains(user)) <==> r == Err::<
            (),
            AdminRequestError,
        >(AdminRequestError::AlreadyAdmin))
        &&& ((pre.pass_matches(pass) && !pre.admins@.contains(user)) <==> r == Ok::<
            (),
            AdminRequestError,
        >(()))
    })
}

/// One room: an isolated scope of members, pots and wagers under an
/// eight-character code, with a salted admin secret and monotonic id
/// counters that are never reused within the room's lifetime.
#[derive(Debug)]
pub struct Room {
    pub room_code: RoomCode,
    pub members: Vec<MemberState>,
    pub address_map: Vec<AddressEntry>,
    pub next_member_id: ID,
    pub admin_pass_hash: String,
    pub admin_pass_salt: String,
    pub admins: Vec<ConnId>,
    pub pots: Vec<Pot>,
    pub next_pot_id: usize,
    pub wagers: Vec<Wager>,
    pub next_wager_id: usize,
}

impl Room {
    /// Every table is keyed uniquely, every record is well-formed, and every
    /// allocated id sits below its monotonic counter.
    pub open spec fn wf(self) -> bool {
        &&& self.room_code.wf()
        &&& unique_member_ids(self.members@)
        &&& forall|i: int|
            0 <= i < self.members@.len() ==> (#[trigger] self.members@[i]).wf()
                && self.members@[i].id < self.next_member_id
        &&& unique_conns(self.address_map@)
        &&& self.admins@.no_duplicates()
        &&& unique_pot_ids(self.pots@)
        &&& forall|i: int|
            0 <= i < self.pots@.len() ==> (#[trigger] self.pots@[i]).wf() && self.pots@[i].pot_id
                < self.next_pot_id
        &&& unique_wager_ids(self.wagers@)
        &&& forall|i: int|
            0 <= i < self.wagers@.len() ==> (#[trigger] self.wagers@[i]).wf() && self.wagers@[i].id
                < self.next_wager_id
    }

    /// The membership-consistency invariant of the data model: a member's
    /// own lists name exactly the pots and wagers that hold the member, and
    /// every pot participant and wager bettor is a current member. It holds
    /// of a fresh room, and the lemmas at the end of this module prove that
    /// every operation of this type preserves it, so it holds at all times.
    pub open spec fn linked(self) -> bool {
        &&& forall|i: int, p: ID|
            0 <= i < self.members@.len() && (#[trigger] self.members@[i].current_pots@.contains(
                p,
            )) ==> has_pot_id(self.pots@, p) && pot_with_id(self.pots@, p).participants@.contains(
                self.members@[i].id,
            )
        &&& forall|i: int, j: int|
            0 <= i < self.members@.len() && 0 <= j < self.pots@.len() && (
            #[trigger] self.pots@[j].participants@.contains(self.members@[i].id))
                ==> self.members@[i].current_pots@.contains(self.pots@[j].pot_id)
        &&& forall|i: int, w: ID|
            0 <= i < self.members@.len() && (#[trigger] self.members@[i].current_wagers@.contains(
                w,
            )) ==> has_wager_id(self.wagers@, w) && has_bet(
                wager_with_id(self.wagers@, w).participant_bets@,
                self.members@[i].id,
            )
        &&& forall|i: int, j: int|
            0 <= i < self.members@.len() && 0 <= j < self.wagers@.len() && has_bet(
                #[trigger] self.wagers@[j].participant_bets@,
                #[trigger] self.members@[i].id,
            ) ==> self.members@[i].current_wagers@.contains(self.wagers@[j].id)
        &&& forall|j: int, k: int|
            0 <= j < self.pots@.len() && 0 <= k < self.pots@[j].participants@.len()
                ==> has_member_id(self.members@, #[trigger] self.pots@[j].participants@[k])
        &&& forall|j: int, k: int|
            0 <= j < self.wagers@.len() && 0 <= k < self.wagers@[j].participant_bets@.len()
                ==> has_member_id(
                self.members@,
                (#[trigger] self.wagers@[j].participant_bets@[k]).user,
            )
    }

    /// Whether a password grants this room's admin rights: its hash under the
    /// room's salt equals the stored hash.
    pub open spec fn pass_matches(self, pass: Seq<char>) -> bool {
        argon2_hash(pass, self.admin_pass_salt@) == self.admin_pass_hash@
    }

    /// A fresh room under the given code: empty tables, counters at zero,
    /// and the admin password stored only as its salted hash.
    pub fn new(room_code: RoomCode, admin_pass: &str) -> (r: Room)
        requires
            room_code.wf(),
            pass_len_ok(admin_pass@),
        ensures
            r.room_code == room_code,
            r.members@ == Seq::<MemberState>::empty(),
            r.address_map@ == Seq::<AddressEntry>::empty(),
            r.next_member_id == 0,
            r.admins@ == Seq::<ConnId>::empty(),
            r.pots@ == Seq::<Pot>::empty(),
            r.next_pot_id == 0,
            r.wagers@ == Seq::<Wager>::empty(),
            r.next_wager_id == 0,
            valid_salt(r.admin_pass_salt@),
            r.pass_matches(admin_pass@),
            r.wf(),
    {
        let salt = generate_salt();
        let hash = match hash_with_salt(admin_pass, salt.as_str()) {
            Some(h) => h,
            None => {
                proof {
                    assert(false);
                }
                unreached()
            },
        };
        Room {
            room_code,
            members: Vec::new(),
            next_member_id: 0,
            address_map: Vec::new(),
            admins: Vec::new(),
            admin_pass_hash: hash,
            admin_pass_salt: salt,
            pots: Vec::new(),
            next_pot_id: 0,
            wagers: Vec::new(),
            next_wager_id: 0,
        }
    }

    /// The connections currently mapped into the room, in table order.
    pub fn get_addresses(&self) -> (r: Vec<ConnId>)
        ensures
            r@.len() == self.address_map@.len(),
            forall|i: int| 0 <= i < r@.len() ==> r@[i] == self.address_map@[i].conn,
    {
        let mut out: Vec<ConnId> = Vec::new();
        let mut i: usize = 0;
        while i < self.address_map.len()
            invariant
                i <= self.address_map@.len(),
                out@.len() == i,
                forall|j: int| 0 <= j < i ==> out@[j] == self.address_map@[j].conn,
            decreases self.address_map@.len() - i,
        {
            out.push(self.address_map[i].conn);
            i += 1;
        }
        out
    }

    /// The room's code.
    pub fn code(&self) -> (r: RoomCode)
        ensures
            r.chars@ == self.room_code.chars@,
    {
        self.room_code.clone()
    }

    /// The member a connection controls, if the connection is mapped here.
    pub fn id_lookup(&self, addr: ConnId) -> (r: Option<ID>)
        requires
            self.wf(),
        ensures
            match r {
                Some(id) => has_conn(self.address_map@, addr) && id == member_of_conn(
                    self.address_map@,
                    addr,
                ),
                None => !has_conn(self.address_map@, addr),
            },
    {
        let mut i: usize = 0;
        while i < self.address_map.len()
            invariant
                self.wf(),
                i <= self.address_map@.len(),
                forall|j: int| 0 <= j < i ==> self.address_map@[j].conn != addr,
            decreases self.address_map@.len() - i,
        {
            if self.address_map[i].conn == addr {
                proof {
                    let c = choose|k: int|
                        0 <= k < self.address_map@.len() && self.address_map@[k].conn == addr;
                    assert(c == i as int);
                }
                return Some(self.address_map[i].member);
            }
            i += 1;
        }
        None
    }

    /// Whether the connection has proven this room's admin secret.
    pub fn is_admin(&self, addr: ConnId) -> (r: bool)
        ensures
            r == self.admins@.contains(addr),
    {
        contains_conn(&self.admins, addr)
    }

    /// Finds the index of the member with the given id, if any.
    fn member_index(&self, id: ID) -> (r: Option<usize>)
        ensures
            match r {
                Some(i) => i < self.members@.len() && self.members@[i as int].id == id,
                None => !has_member_id(self.members@, id),
            },
    {
        let mut i: usize = 0;
        while i < self.members.len()
            invariant
                i <= self.members@.len(),
                forall|j: int| 0 <= j < i ==> self.members@[j].id != id,
            decreases self.members@.len() - i,
        {
            if self.members[i].id == id {
                return Some(i);
            }
            i += 1;
        }
        None
    }

    /// Finds the index of the pot with the given id, if any.
    fn pot_index(&self, id: ID) -> (r: Option<usize>)
        ensures
            match r {
                Some(i) => i < self.pots@.len() && self.pots@[i as int].pot_id == id,
                None => !has_pot_id(self.pots@, id),
            },
    {
        let mut i: usize = 0;
        while i < self.pots.len()
            invariant
                i <= self.pots@.len(),
                forall|j: int| 0 <= j < i ==> self.pots@[j].pot_id != id,
            decreases self.pots@.len() - i,
        {
            if self.pots[i].pot_id == id {
                return Some(i);
            }
            i += 1;
        }
        None
    }

    /// Finds the index of the wager with the given id, if any.
    fn wager_index(&self, id: ID) -> (r: Option<usize>)
        ensures
            match r {
                Some(i) => i < self.wagers@.len() && self.wagers@[i as int].id == id,
                None => !has_wager_id(self.wagers@, id),
            },
    {
        let mut i: usize = 0;
        while i < self.wagers.len()
            invariant
                i <= self.wagers@.len(),
                forall|j: int| 0 <= j < i ==> self.wagers@[j].id != id,
            decreases self.wagers@.len() - i,
        {
            if self.wagers[i].id == id {
                return Some(i);
            }
            i += 1;
        }
        None
    }

    /// A full snapshot of the room's members, pots and wagers, for a
    /// (re)joining client.
    pub fn get_sync_data(&self) -> (r: (Vec<MemberState>, Vec<Pot>, Vec<Wager>))
        ensures
            r.0@.len() == self.members@.len(),
            forall|i: int| 0 <= i < r.0@.len() ==> (#[trigger] r.0@[i]).eqv(self.members@[i]),
            r.1@.len() == self.pots@.len(),
            forall|i: int| 0 <= i < r.1@.len() ==> (#[trigger] r.1@[i]).eqv(self.pots@[i]),
            r.2@.len() == self.wagers@.len(),
            forall|i: int| 0 <= i < r.2@.len() ==> (#[trigger] r.2@[i]).eqv(self.wagers@[i]),
    {
        let mut members: Vec<MemberState> = Vec::new();
        let mut i: usize = 0;
        while i < self.members.len()
            invariant
                i <= self.members@.len(),
                members@.len() == i,
                forall|j: int| 0 <= j < i ==> (#[trigger] members@[j]).eqv(self.members@[j]),
            decreases self.members@.len() - i,
        {
            members.push(self.members[i].clone());
            i += 1;
        }
        let mut pots: Vec<Pot> = Vec::new();
        let mut i: usize = 0;
        while i < self.pots.len()
            invariant
                i <= self.pots@.len(),
                pots@.len() == i,
                forall|j: int| 0 <= j < i ==> (#[trigger] pots@[j]).eqv(self.pots@[j]),
            decreases self.pots@.len() - i,
        {
            pots.push(self.pots[i].clone());
            i += 1;
        }
        let mut wagers: Vec<Wager> = Vec::new();
        let mut i: usize = 0;
        while i < self.wagers.len()
            invariant
                i <= self.wagers@.len(),
                wagers@.len() == i,
                forall|j: int| 0 <= j < i ==> (#[trigger] wagers@[j]).eqv(self.wagers@[j]),
            decreases self.wagers@.len() - i,
        {
            wagers.push(self.wagers[i].clone());
            i += 1;
        }
        (members, pots, wagers)
    }

    /// Adds the connection as a member under a fresh id; the id counter
    /// never runs backwards, so ids are not reused within the room.
    pub fn add_user(&mut self, user_addr: ConnId, name: String) -> (r: Result<
        ID,
        RoomMutationError,
    >)
        requires
            old(self).wf(),
            old(self).next_member_id < usize::MAX,
        ensures
            final(self).wf(),
            user_added(*old(self), *final(self), user_addr, name, r),
    {
        let mut i: usize = 0;
        while i < self.address_map.len()
            invariant
                old(self).wf(),
                *self == *old(self),
                i <= self.address_map@.len(),
                forall|j: int| 0 <= j < i ==> self.address_map@[j].conn != user_addr,
            decreases self.address_map@.len() - i,
        {
            if self.address_map[i].conn == user_addr {
                return Err(
                    RoomMutationError::UserAlreadyExists(user_addr, self.room_code.clone()),
                );
            }
            i += 1;
        }
        let id = self.next_member_id;
        self.address_map.push(AddressEntry { conn: user_addr, member: id });
        self.members.push(MemberState::new(name, id));
        self.next_member_id = self.next_member_id + 1;
        Ok(id)
    }

    /// Grants the connection admin rights if the password's salted hash
    /// equals the stored one; a wrong password and a repeated grant each
    /// fail with no change.
    pub fn add_admin(&mut self, user: ConnId, pass: &str) -> (r: Result<(), AdminRequestError>)
        requires
            old(self).wf(),
            pass_len_ok(pass@),
        ensures
            final(self).wf(),
            admin_granted(*old(self), *final(self), user, pass@, r),
    {
        let hashed = match hash_with_salt(pass, self.admin_pass_salt.as_str()) {
            Some(h) => h,
            None => {
                return Err(AdminRequestError::IncorrectPassword);
            },
        };
        if hashed == self.admin_pass_hash {
            if contains_conn(&self.admins, user) {
                Err(AdminRequestError::AlreadyAdmin)
            } else {
                self.admins.push(user);
                Ok(())
            }
        } else {
            Err(AdminRequestError::IncorrectPassword)
        }
    }

    /// Credits (or, with a negative amount, debits) one member's score; the
    /// result is committed only when it stays representable and
    /// non-negative, and nothing changes on failure.
    pub fn bless_score(&mut self, to: &ID, amount: i64) -> (r: Result<
        (ID, i64),
        RoomMutationError,
    >)
        requires
            old(self).wf(),
        ensures
            final(self).wf(),
            blessed(*old(self), *final(self), *to, amount, r),
    {
        let i = match self.member_index(*to) {
            Some(i) => i,
            None => {
                return Err(RoomMutationError::UserNotInRoom(*to, self.room_code.clone()));
            },
        };
        let score = self.members[i].score;
        if amount > 0 && score > i64::MAX - amount {
            return Err(RoomMutationError::ScoreOutOfRange);
        }
        let ns = score + amount;
        if ns < 0 {
            return Err(RoomMutationError::NegativeScore);
        }
        self.members[i].score = ns;
        proof {
            let c = choose|k: int|
                0 <= k < old(self).members@.len() && old(self).members@[k].id == *to;
            assert(c == i as int);
        }
        Ok((*to, ns))
    }

    /// Moves score from one member to another: both balances change by
    /// exactly the amount, in opposite directions, or neither changes and
    /// the failure is reported; a partially applied debit is never visible.
    pub fn transfer_score(&mut self, from: &ID, to: &ID, amount: i64) -> (r: Result<
        ((ID, i64), (ID, i64)),
        RoomMutationError,
    >)
        requires
            old(self).wf(),
        ensures
            final(self).wf(),
            transferred(*old(self), *final(self), *from, *to, amount, r),
            r is Ok && *from != *to ==> member_with_id(final(self).members@, *from).score
                == member_with_id(old(self).members@, *from).score - amount && member_with_id(
                final(self).members@,
                *to,
            ).score == member_with_id(old(self).members@, *to).score + amount,
    {
        let ti = match self.member_index(*to) {
            Some(i) => i,
            None => {
                return Err(RoomMutationError::UserNotInRoom(*to, self.room_code.clone()));
            },
        };
        let fi = match self.member_index(*from) {
            Some(i) => i,
            None => {
                return Err(RoomMutationError::UserNotInRoom(*from, self.room_code.clone()));
            },
        };
        proof {
            let cf = choose|k: int|
                0 <= k < old(self).members@.len() && old(self).members@[k].id == *from;
            assert(cf == fi as int);
            let ct = choose|k: int|
                0 <= k < old(self).members@.len() && old(self).members@[k].id == *to;
            assert(ct == ti as int);
            if *from == *to {
                assert(fi == ti);
            }
        }
        let from_score = self.members[fi].score;
        if amount < 0 && from_score > i64::MAX + amount {
            return Err(RoomMutationError::ScoreOutOfRange);
        }
        let from_new = from_score - amount;
        if from_new < 0 {
            return Err(RoomMutationError::NegativeScore);
        }
        let to_base = if ti == fi {
            from_new
        } else {
            self.members[ti].score
        };
        if amount > 0 && to_base > i64::MAX - amount {
            return Err(RoomMutationError::ScoreOutOfRange);
        }
        let to_new = to_base + amount;
        if to_new < 0 {
            return Err(RoomMutationError::NegativeScore);
        }
        self.members[fi].score = from_new;
        self.members[ti].score = to_new;
        proof {
            assert forall|k: int| 0 <= k < self.members@.len() implies (
            #[trigger] self.members@[k]).id == old(self).members@[k].id by {}
            if *from != *to {
                let cf2 = choose|k: int|
                    0 <= k < self.members@.len() && self.members@[k].id == *from;
                assert(self.members@[fi as int].id == *from);
                assert(cf2 == fi as int);
                let ct2 = choose|k: int|
                    0 <= k < self.members@.len() && self.members@[k].id == *to;
                assert(self.members@[ti as int].id == *to);
                assert(ct2 == ti as int);
            }
        }
        Ok(((*from, from_new), (*to, to_new)))
    }

    /// Opens a new pot under a fresh id and hands back a copy of it.
    pub fn create_pot(&mut self, score_requirement: i64, desc: String) -> (r: Pot)
        requires
            old(self).wf(),
            old(self).next_pot_id < usize::MAX,
        ensures
            final(self).wf(),
            pot_created(*old(self), *final(self), score_requirement, desc),
            r.eqv(final(self).pots@.last()),
    {
        let id = self.next_pot_id;
        self.next_pot_id = self.next_pot_id + 1;
        let pot = Pot::new(id, score_requirement, desc);
        let copy = pot.clone();
        self.pots.push(pot);
        copy
    }

    /// Joins a member into a pot, debiting the entry fee from the member and
    /// crediting it into the pot in one step: the fee is charged exactly
    /// once, and any failure leaves both untouched.
    pub fn add_user_to_pot(&mut self, user_id: ID, pot_id: ID) -> (r: Result<
        i64,
        StateMutationError,
    >)
        requires
            old(self).wf(),
        ensures
            final(self).wf(),
            pot_joined(*old(self), *final(self), user_id, pot_id, r),
    {
        let pi = match self.pot_index(pot_id) {
            Some(i) => i,
            None => {
                return Err(
                    StateMutationError::Room(
                        RoomMutationError::NonexistentPot(pot_id, self.room_code.clone()),
                    ),
                );
            },
        };
        let mi = match self.member_index(user_id) {
            Some(i) => i,
            None => {
                return Err(
                    StateMutationError::Room(
                        RoomMutationError::UserNotInRoom(user_id, self.room_code.clone()),
                    ),
                );
            },
        };
        proof {
            let cp = choose|k: int|
                0 <= k < old(self).pots@.len() && old(self).pots@[k].pot_id == pot_id;
            assert(cp == pi as int);
            let cm = choose|k: int|
                0 <= k < old(self).members@.len() && old(self).members@[k].id == user_id;
            assert(cm == mi as int);
        }
        let score_req = self.pots[pi].score_requirement;
        let score = self.members[mi].score;
        if score < score_req {
            return Err(
                StateMutationError::Pot(
                    PotMutationError::InsufficientScore {
                        user_id,
                        pot_id,
                        user_score: score,
                        score_req,
                    },
                ),
            );
        }
        let total = self.pots[pi].total_score;
        if score_req < 0 && score > i64::MAX + score_req {
            return Err(StateMutationError::Room(RoomMutationError::ScoreOutOfRange));
        }
        if score_req > 0 && total > i64::MAX - score_req {
            return Err(StateMutationError::Room(RoomMutationError::ScoreOutOfRange));
        }
        if score_req < 0 && total < i64::MIN - score_req {
            return Err(StateMutationError::Room(RoomMutationError::ScoreOutOfRange));
        }
        if contains_id(&self.pots[pi].participants, user_id) {
            return Err(
                StateMutationError::Pot(PotMutationError::UserAlreadyExists { user_id, pot_id }),
            );
        }
        match self.pots[pi].join(user_id) {
            Ok(()) => {},
            Err(_) => {
                proof {
                    assert(false);
                }
            },
        }
        let new_score = score - score_req;
        self.members[mi].score = new_score;
        if !contains_id(&self.members[mi].current_pots, pot_id) {
            self.members[mi].current_pots.push(pot_id);
        }
        proof {
            let cm2 = choose|k: int|
                0 <= k < self.members@.len() && self.members@[k].id == user_id;
            assert(self.members@[mi as int].id == user_id);
            assert(cm2 == mi as int);
            let cp2 = choose|k: int|
                0 <= k < self.pots@.len() && self.pots@[k].pot_id == pot_id;
            assert(self.pots@[pi as int].pot_id == pot_id);
            assert(cp2 == pi as int);
        }
        Ok(new_score)
    }

    /// Pays the entire accumulated total of a pot to one winner, dissolves
    /// the pot and scrubs every participant's membership reference; any
    /// failure leaves the room untouched.
    pub fn resolve_pot(&mut self, pot_id: ID, winner_id: ID) -> (r: Result<(ID, i64), StateMutationError>)
        requires
            old(self).wf(),
        ensures
            final(self).wf(),
            pot_resolved(*old(self), *final(self), pot_id, winner_id, r),
    {
        let pi = match self.pot_index(pot_id) {
            Some(i) => i,
            None => {
                return Err(
                    StateMutationError::Room(
                        RoomMutationError::NonexistentPot(pot_id, self.room_code.clone()),
                    ),
                );
            },
        };
        let wi = match self.member_index(winner_id) {
            Some(i) => i,
            None => {
                return Err(
                    StateMutationError::Room(
                        RoomMutationError::UserNotInRoom(winner_id, self.room_code.clone()),
                    ),
                );
            },
        };
        proof {
            let cp = choose|k: int|
                0 <= k < old(self).pots@.len() && old(self).pots@[k].pot_id == pot_id;
            assert(cp == pi as int);
            let cm = choose|k: int|
                0 <= k < old(self).members@.len() && old(self).members@[k].id == winner_id;
            assert(cm == wi as int);
        }
        let total = self.pots[pi].total_score;
        let w_score = self.members[wi].score;
        if total > 0 && w_score > i64::MAX - total {
            return Err(StateMutationError::Room(RoomMutationError::ScoreOutOfRange));
        }
        let new_score = w_score + total;
        if new_score < 0 {
            return Err(StateMutationError::Room(RoomMutationError::NegativeScore));
        }
        self.members[wi].score = new_score;
        let ghost mid = *self;
        let mut k: usize = 0;
        while k < self.members.len()
            invariant
                old(self).wf(),
                mid.members@.len() == old(self).members@.len(),
                forall|i: int|
                    0 <= i < mid.members@.len() ==> (#[trigger] mid.members@[i]).id == old(
                        self,
                    ).members@[i].id && mid.members@[i].wf(),
                pi < mid.pots@.len(),
                mid.pots@ == old(self).pots@,
                *self == (Room { members: self.members, ..mid }),
                k <= self.members@.len(),
                self.members@.len() == mid.members@.len(),
                forall|i: int|
                    k <= i < self.members@.len() ==> #[trigger] self.members@[i]
                        == mid.members@[i],
                forall|i: int|
                    0 <= i < k ==> #[trigger] self.members@[i] == (MemberState {
                        current_pots: self.members@[i].current_pots,
                        ..mid.members@[i]
                    }),
                forall|i: int|
                    0 <= i < k ==> {
                        let mp = (#[trigger] self.members@[i]).current_pots@;
                        let m = mid.members@[i];
                        &&& mp.no_duplicates()
                        &&& if old(self).pots@[pi as int].participants@.contains(m.id) {
                            !mp.contains(pot_id) && (forall|y: ID|
                                y != pot_id ==> mp.contains(y) == m.current_pots@.contains(y))
                        } else {
                            mp == m.current_pots@
                        }
                    },
            decreases self.members@.len() - k,
        {
            proof {
                assert(self.members@[k as int] == mid.members@[k as int]);
            }
            if contains_id(&self.pots[pi].participants, self.members[k].id) {
                remove_id(&mut self.members[k].current_pots, pot_id);
            }
            k += 1;
        }
        self.pots.remove(pi);
        proof {
            old(self).pots@.remove_ensures(pi as int);
            assert forall|m: int| 0 <= m < self.pots@.len() implies (
            #[trigger] self.pots@[m]).pot_id != pot_id by {
                if m < pi {
                    assert(self.pots@[m] == old(self).pots@[m]);
                } else {
                    assert(self.pots@[m] == old(self).pots@[m + 1]);
                }
            }
            assert forall|x: ID| x != pot_id && has_pot_id(old(self).pots@, x) implies has_pot_id(
                self.pots@,
                x,
            ) && pot_with_id(self.pots@, x) == pot_with_id(old(self).pots@, x) by {
                let c = choose|c: int|
                    0 <= c < old(self).pots@.len() && old(self).pots@[c].pot_id == x;
                if c < pi {
                    assert(self.pots@[c] == old(self).pots@[c]);
                    assert(has_pot_id(self.pots@, x));
                } else {
                    assert(c > pi);
                    assert(self.pots@[c - 1] == old(self).pots@[c]);
                    assert(has_pot_id(self.pots@, x));
                }
                let a = choose|a: int| 0 <= a < self.pots@.len() && self.pots@[a].pot_id == x;
                if a < pi {
                    assert(self.pots@[a] == old(self).pots@[a]);
                } else {
                    assert(self.pots@[a] == old(self).pots@[a + 1]);
                }
                let b = choose|b: int|
                    0 <= b < old(self).pots@.len() && old(self).pots@[b].pot_id == x;
                assert(b == c);
            }
            assert forall|x: ID| has_pot_id(self.pots@, x) implies x == pot_id || has_pot_id(
                old(self).pots@,
                x,
            ) by {
                let a = choose|a: int| 0 <= a < self.pots@.len() && self.pots@[a].pot_id == x;
                if a < pi {
                    assert(old(self).pots@[a].pot_id == x);
                } else {
                    assert(old(self).pots@[a + 1].pot_id == x);
                }
            }
            let cm2 = choose|c: int|
                0 <= c < self.members@.len() && self.members@[c].id == winner_id;
            assert(self.members@[wi as int].id == winner_id);
            assert(cm2 == wi as int);
        }
        Ok((winner_id, new_score))
    }

    /// Opens a new wager under a fresh id over the given outcome table and
    /// hands back a copy of it.
    pub fn create_wager(&mut self, description: String, outcomes: Vec<WagerOutcome>) -> (r: Wager)
        requires
            old(self).wf(),
            old(self).next_wager_id < usize::MAX,
        ensures
            final(self).wf(),
            wager_created(*old(self), *final(self), description, outcomes@),
            r.eqv(final(self).wagers@.last()),
    {
        let id = self.next_wager_id;
        self.next_wager_id = self.next_wager_id + 1;
        let wager = Wager::new(id, description, outcomes);
        let copy = wager.clone();
        self.wagers.push(wager);
        copy
    }

    /// Stakes a member on one outcome of a wager and debits the stake from
    /// their score in one step: the wager-side join is committed only
    /// together with the debit, and any failure leaves both untouched.
    pub fn add_user_to_wager(&mut self, wager_id: ID, user_id: ID, outcome_id: ID, amount: i64) -> (r: Result<i64, StateMutationError>)
        requires
            old(self).wf(),
        ensures
            final(self).wf(),
            wager_joined(*old(self), *final(self), wager_id, user_id, outcome_id, amount, r),
    {
        let wi = match self.wager_index(wager_id) {
            Some(i) => i,
            None => {
                return Err(
                    StateMutationError::Room(
                        RoomMutationError::NonexistentWager {
                            wager_id,
                            room_code: self.room_code.clone(),
                        },
                    ),
                );
            },
        };
        proof {
            let cw = choose|k: int|
                0 <= k < old(self).wagers@.len() && old(self).wagers@[k].id == wager_id;
            assert(cw == wi as int);
        }
        if let Some(_) = crate::wager::find_bet_index(&self.wagers[wi].participant_bets, user_id) {
            return Err(
                StateMutationError::Wager(
                    crate::errors::WagerMutationError::UserAlreadyExists { user_id, wager_id },
                ),
            );
        }
        let mi = match self.member_index(user_id) {
            Some(i) => i,
            None => {
                return Err(
                    StateMutationError::Room(
                        RoomMutationError::UserNotInRoom(user_id, self.room_code.clone()),
                    ),
                );
            },
        };
        proof {
            let cm = choose|k: int|
                0 <= k < old(self).members@.len() && old(self).members@[k].id == user_id;
            assert(cm == mi as int);
        }
        if amount == i64::MIN {
            return Err(StateMutationError::Room(RoomMutationError::ScoreOutOfRange));
        }
        let score = self.members[mi].score;
        if amount < 0 && score > i64::MAX + amount {
            return Err(StateMutationError::Room(RoomMutationError::ScoreOutOfRange));
        }
        let new_score = score - amount;
        if new_score < 0 {
            return Err(StateMutationError::Room(RoomMutationError::NegativeScore));
        }
        match self.wagers[wi].join(user_id, outcome_id, amount) {
            Ok(()) => {},
            Err(_) => {
                proof {
                    assert(false);
                }
            },
        }
        self.members[mi].score = new_score;
        if !contains_id(&self.members[mi].current_wagers, wager_id) {
            self.members[mi].current_wagers.push(wager_id);
        }
        proof {
            let cm2 = choose|k: int|
                0 <= k < self.members@.len() && self.members@[k].id == user_id;
            assert(self.members@[mi as int].id == user_id);
            assert(cm2 == mi as int);
        }
        Ok(new_score)
    }

    /// Settles a wager for one winning outcome: every backer of that
    /// outcome is credited stake plus round(stake times odds over one
    /// hundred), every other stake is forfeit, the wager dissolves, and the
    /// dissolved wager's id is scrubbed from every member's membership
    /// list, winners and losers alike. The room-level
    /// existence and range checks run before any state changes, so a
    /// failed resolution leaves the room untouched.
    pub fn resolve_wager(&mut self, wager_id: ID, outcome_id: ID) -> (r: Result<Vec<(ID, i64)>, StateMutationError>)
        requires
            old(self).wf(),
        ensures
            final(self).wf(),
            wager_resolved(*old(self), *final(self), wager_id, outcome_id, r),
    {
        let wi = match self.wager_index(wager_id) {
            Some(i) => i,
            None => {
                return Err(
                    StateMutationError::Room(
                        RoomMutationError::NonexistentWager {
                            wager_id,
                            room_code: self.room_code.clone(),
                        },
                    ),
                );
            },
        };
        proof {
            let cw = choose|k: int|
                0 <= k < old(self).wagers@.len() && old(self).wagers@[k].id == wager_id;
            assert(cw == wi as int);
        }
        let results: Vec<crate::wager::WagerResult> = match self.wagers[wi].resolve(outcome_id) {
            Ok(v) => v,
            Err(e) => {
                return Err(StateMutationError::Wager(e));
            },
        };
        let ghost w0 = old(self).wagers@[wi as int];
        let ghost rs = results@;
        proof {
            lemma_payout_list_props(w0.participant_bets@, w0.spec_choosers(outcome_id), odds_of(w0.outcomes@, outcome_id));
            assert forall|k: int| 0 <= k < rs.len() implies (#[trigger] rs[k]).score_diff >= 0 by {
                let p = rs[k].participant;
                let stake = stake_of(w0.participant_bets@, p);
                let c = choose|c: int|
                    0 <= c < w0.participant_bets@.len() && w0.participant_bets@[c].user == p;
                assert(w0.participant_bets@[c].stake >= 0);
                let odds = odds_of(w0.outcomes@, outcome_id);
                assert(odds >= 0);
                assert(stake * odds >= 0) by (nonlinear_arith)
                    requires
                        stake >= 0,
                        odds >= 0,
                ;
                assert((stake * odds + 50) / 100 >= 0);
            }
        }
        let mut k: usize = 0;
        while k < results.len()
            invariant
                old(self).wf(),
                *self == *old(self),
                has_wager_id(old(self).wagers@, wager_id),
                w0 == wager_with_id(old(self).wagers@, wager_id),
                has_outcome(w0.outcomes@, outcome_id),
                payouts_fit(
                    w0.participant_bets@,
                    w0.spec_choosers(outcome_id),
                    odds_of(w0.outcomes@, outcome_id),
                ),
                rs == payout_list(
                    w0.participant_bets@,
                    w0.spec_choosers(outcome_id),
                    odds_of(w0.outcomes@, outcome_id),
                ),
                rs == results@,
                k <= rs.len(),
                forall|j: int| 0 <= j < rs.len() ==> (#[trigger] rs[j]).score_diff >= 0,
                forall|j: int|
                    0 <= j < k ==> has_member_id(
                        old(self).members@,
                        (#[trigger] rs[j]).participant,
                    ),
            decreases rs.len() - k,
        {
            let p = results[k].participant;
            if let None = self.member_index(p) {
                return Err(
                    StateMutationError::Room(
                        RoomMutationError::UserNotInRoom(p, self.room_code.clone()),
                    ),
                );
            }
            k += 1;
        }
        let mut k: usize = 0;
        while k < results.len()
            invariant
                old(self).wf(),
                *self == *old(self),
                has_wager_id(old(self).wagers@, wager_id),
                w0 == wager_with_id(old(self).wagers@, wager_id),
                has_outcome(w0.outcomes@, outcome_id),
                payouts_fit(
                    w0.participant_bets@,
                    w0.spec_choosers(outcome_id),
                    odds_of(w0.outcomes@, outcome_id),
                ),
                rs == payout_list(
                    w0.participant_bets@,
                    w0.spec_choosers(outcome_id),
                    odds_of(w0.outcomes@, outcome_id),
                ),
                rs == results@,
                k <= rs.len(),
                forall|j: int| 0 <= j < rs.len() ==> (#[trigger] rs[j]).score_diff >= 0,
                forall|j: int|
                    0 <= j < rs.len() ==> has_member_id(
                        old(self).members@,
                        (#[trigger] rs[j]).participant,
                    ),
                forall|j: int|
                    0 <= j < k ==> member_with_id(
                        old(self).members@,
                        (#[trigger] rs[j]).participant,
                    ).score + rs[j].score_diff <= i64::MAX,
            decreases rs.len() - k,
        {
            let p = results[k].participant;
            let mi = match self.member_index(p) {
                Some(i) => i,
                None => {
                    proof {
                        assert(has_member_id(old(self).members@, rs[k as int].participant));
                        assert(false);
                    }
                    unreached()
                },
            };
            proof {
                let cm = choose|c: int|
                    0 <= c < self.members@.len() && self.members@[c].id == p;
                assert(cm == mi as int);
            }
            let diff = results[k].score_diff;
            if self.members[mi].score > i64::MAX - diff {
                return Err(StateMutationError::Room(RoomMutationError::ScoreOutOfRange));
            }
            k += 1;
        }
        let ghost pre = *self;
        let mut out: Vec<(ID, i64)> = Vec::new();
        let mut k: usize = 0;
        while k < results.len()
            invariant
                old(self).wf(),
                *old(self) == pre,
                rs == results@,
                k <= rs.len(),
                out@.len() == k,
                wi < pre.wagers@.len(),
                forall|j: int| 0 <= j < rs.len() ==> (#[trigger] rs[j]).score_diff >= 0,
                forall|j: int|
                    0 <= j < rs.len() ==> has_member_id(
                        pre.members@,
                        (#[trigger] rs[j]).participant,
                    ) && member_with_id(pre.members@, rs[j].participant).score + rs[j].score_diff
                        <= i64::MAX,
                forall|j1: int, j2: int|
                    0 <= j1 < j2 < rs.len() ==> rs[j1].participant != rs[j2].participant,
                *self == (Room { members: self.members, ..pre }),
                self.members@.len() == pre.members@.len(),
                forall|i: int|
                    0 <= i < self.members@.len() ==> (#[trigger] self.members@[i]).id
                        == pre.members@[i].id && self.members@[i].wf(),
                forall|i: int|
                    0 <= i < pre.members@.len() ==> #[trigger] self.members@[i] == (MemberState {
                        score: if exists|j: int|
                            0 <= j < k && (#[trigger] rs[j]).participant == pre.members@[i].id {
                            (pre.members@[i].score + diff_for(rs, pre.members@[i].id)) as i64
                        } else {
                            pre.members@[i].score
                        },
                        ..pre.members@[i]
                    }),
                forall|j: int|
                    0 <= j < k ==> #[trigger] out@[j] == (rs[j].participant, (member_with_id(
                        pre.members@,
                        rs[j].participant,
                    ).score + rs[j].score_diff) as i64),
            decreases rs.len() - k,
        {
            let p = results[k].participant;
            let diff = results[k].score_diff;
            let mi = match self.member_index(p) {
                Some(i) => i,
                None => {
                    proof {
                        assert(has_member_id(pre.members@, p));
                        let c = choose|c: int|
                            0 <= c < pre.members@.len() && pre.members@[c].id == p;
                        assert(self.members@[c].id == p);
                        assert(false);
                    }
                    unreached()
                },
            };
            proof {
                let cm = choose|c: int|
                    0 <= c < self.members@.len() && self.members@[c].id == p;
                assert(cm == mi as int);
                let cp = choose|c: int|
                    0 <= c < pre.members@.len() && pre.members@[c].id == p;
                assert(cp == mi as int);
                assert forall|j: int| 0 <= j < k implies (#[trigger] rs[j]).participant != p by {}
                assert(self.members@[mi as int] == pre.members@[mi as int]);
                assert(diff_for(rs, p) == diff) by {
                    let c = choose|c: int| 0 <= c < rs.len() && rs[c].participant == p;
                    assert(rs[k as int].participant == p);
                    assert(c == k as int);
                }
            }
            let ns = self.members[mi].score + diff;
            self.members[mi].score = ns;
            out.push((p, ns));
            k += 1;
            proof {
                assert forall|i: int|
                    0 <= i < pre.members@.len() implies #[trigger] self.members@[i] == (
                MemberState {
                    score: if exists|j: int|
                        0 <= j < k && (#[trigger] rs[j]).participant == pre.members@[i].id {
                        (pre.members@[i].score + diff_for(rs, pre.members@[i].id)) as i64
                    } else {
                        pre.members@[i].score
                    },
                    ..pre.members@[i]
                }) by {
                    if i != mi as int {
                        if exists|j: int|
                            0 <= j < k && (#[trigger] rs[j]).participant == pre.members@[i].id {
                            let j = choose|j: int|
                                0 <= j < k && (#[trigger] rs[j]).participant == pre.members@[i].id;
                            if j == k - 1 {
                                assert(rs[k - 1].participant == p);
                                assert(pre.members@[i].id == p);
                                assert(i == mi as int);
                            }
                            assert(exists|j2: int|
                                0 <= j2 < k - 1 && (#[trigger] rs[j2]).participant
                                    == pre.members@[i].id);
                        }
                    } else {
                        assert(rs[k - 1].participant == pre.members@[mi as int].id);
                    }
                }
            }
        }
        let ghost mid = *self;
        let mut t: usize = 0;
        while t < self.members.len()
            invariant
                t <= mid.members@.len(),
                *self == (Room { members: self.members, ..mid }),
                self.members@.len() == mid.members@.len(),
                forall|i: int| 0 <= i < mid.members@.len() ==> (#[trigger] mid.members@[i]).wf(),
                forall|i: int|
                    t <= i < self.members@.len() ==> #[trigger] self.members@[i] == mid.members@[i],
                forall|i: int|
                    0 <= i < t ==> #[trigger] self.members@[i] == (MemberState {
                        current_wagers: self.members@[i].current_wagers,
                        ..mid.members@[i]
                    }),
                forall|i: int|
                    0 <= i < t ==> {
                        let mw = (#[trigger] self.members@[i]).current_wagers@;
                        &&& mw.no_duplicates()
                        &&& !mw.contains(wager_id)
                        &&& forall|y: ID|
                            y != wager_id ==> mw.contains(y) == mid.members@[i].current_wagers@
                                .contains(y)
                    },
            decreases self.members@.len() - t,
        {
            proof {
                assert(self.members@[t as int] == mid.members@[t as int]);
            }
            remove_id(&mut self.members[t].current_wagers, wager_id);
            t += 1;
        }
        self.wagers.remove(wi);
        proof {
            pre.wagers@.remove_ensures(wi as int);
            assert forall|m: int| 0 <= m < self.wagers@.len() implies (
            #[trigger] self.wagers@[m]).id != wager_id by {
                if m < wi {
                    assert(self.wagers@[m] == pre.wagers@[m]);
                } else {
                    assert(self.wagers@[m] == pre.wagers@[m + 1]);
                }
            }
            assert forall|x: ID| x != wager_id && has_wager_id(pre.wagers@, x) implies has_wager_id(
                self.wagers@,
                x,
            ) && wager_with_id(self.wagers@, x) == wager_with_id(pre.wagers@, x) by {
                let c = choose|c: int| 0 <= c < pre.wagers@.len() && pre.wagers@[c].id == x;
                if c < wi {
                    assert(self.wagers@[c] == pre.wagers@[c]);
                    assert(has_wager_id(self.wagers@, x));
                } else {
                    assert(c > wi);
                    assert(self.wagers@[c - 1] == pre.wagers@[c]);
                    assert(has_wager_id(self.wagers@, x));
                }
                let a = choose|a: int| 0 <= a < self.wagers@.len() && self.wagers@[a].id == x;
                if a < wi {
                    assert(self.wagers@[a] == pre.wagers@[a]);
                } else {
                    assert(self.wagers@[a] == pre.wagers@[a + 1]);
                }
                let b = choose|b: int| 0 <= b < pre.wagers@.len() && pre.wagers@[b].id == x;
                assert(b == c);
            }
            assert forall|x: ID| has_wager_id(self.wagers@, x) implies x == wager_id
                || has_wager_id(pre.wagers@, x) by {
                let a = choose|a: int| 0 <= a < self.wagers@.len() && self.wagers@[a].id == x;
                if a < wi {
                    assert(pre.wagers@[a].id == x);
                } else {
                    assert(pre.wagers@[a + 1].id == x);
                }
            }
        }
        Ok(out)
    }

    /// Removes a member from the room entirely: their record, their stake
    /// and choices in every wager they joined, their participation in every
    /// pot they joined — fees stay in the pots — and their connection
    /// mapping. An unknown member fails with no change.
    pub fn remove_user(&mut self, user: ID) -> (r: Result<(), RoomMutationError>)
        requires
            old(self).wf(),
        ensures
            final(self).wf(),
            r is Err ==> *final(self) == *old(self),
            !has_member_id(old(self).members@, user) ==> (r matches Err(e)
                && crate::errors::is_user_not_in_room(e, user, old(self).room_code.chars@)),
            has_member_id(old(self).members@, user) ==> r == Ok::<(), RoomMutationError>(())
                && member_removed(*old(self), *final(self), user),
    {
        let mi = match self.member_index(user) {
            Some(i) => i,
            None => {
                return Err(RoomMutationError::UserNotInRoom(user, self.room_code.clone()));
            },
        };
        proof {
            let cm = choose|c: int|
                0 <= c < old(self).members@.len() && old(self).members@[c].id == user;
            assert(cm == mi as int);
        }
        let removed = self.members.remove(mi);
        proof {
            old(self).members@.remove_ensures(mi as int);
            assert forall|m: int| 0 <= m < self.members@.len() implies (
            #[trigger] self.members@[m]).id != user by {
                if m < mi {
                    assert(self.members@[m] == old(self).members@[m]);
                } else {
                    assert(self.members@[m] == old(self).members@[m + 1]);
                }
            }
            assert forall|x: ID| x != user && has_member_id(old(self).members@, x) implies
                has_member_id(self.members@, x) && member_with_id(self.members@, x)
                == member_with_id(old(self).members@, x) by {
                let c = choose|c: int|
                    0 <= c < old(self).members@.len() && old(self).members@[c].id == x;
                if c < mi {
                    assert(self.members@[c] == old(self).members@[c]);
                    assert(has_member_id(self.members@, x));
                } else {
                    assert(c > mi);
                    assert(self.members@[c - 1] == old(self).members@[c]);
                    assert(has_member_id(self.members@, x));
                }
                let a = choose|a: int| 0 <= a < self.members@.len() && self.members@[a].id == x;
                if a < mi {
                    assert(self.members@[a] == old(self).members@[a]);
                } else {
                    assert(self.members@[a] == old(self).members@[a + 1]);
                }
                let b = choose|b: int|
                    0 <= b < old(self).members@.len() && old(self).members@[b].id == x;
                assert(b == c);
            }
            assert forall|x: ID| has_member_id(self.members@, x) implies x == user || has_member_id(
                old(self).members@,
                x,
            ) by {
                let a = choose|a: int| 0 <= a < self.members@.len() && self.members@[a].id == x;
                if a < mi {
                    assert(old(self).members@[a].id == x);
                } else {
                    assert(old(self).members@[a + 1].id == x);
                }
            }
        }
        let ghost s1 = *self;
        let mut t: usize = 0;
        while t < removed.current_wagers.len()
            invariant
                old(self).wf(),
                removed.current_wagers@.no_duplicates(),
                t <= removed.current_wagers@.len(),
                *self == (Room { wagers: self.wagers, ..s1 }),
                self.wagers@.len() == s1.wagers@.len(),
                forall|i: int|
                    0 <= i < s1.wagers@.len() ==> (#[trigger] self.wagers@[i]).id == s1.wagers@[i].id && self.wagers@[i].wf(),
                s1.wagers@ == old(self).wagers@,
                forall|i: int|
                    0 <= i < s1.wagers@.len() ==> (#[trigger] s1.wagers@[i]).wf(),
                unique_wager_ids(s1.wagers@),
                forall|i: int|
                    0 <= i < s1.wagers@.len() && !removed.current_wagers@.take(t as int).contains(
                        (#[trigger] s1.wagers@[i]).id,
                    ) ==> self.wagers@[i] == s1.wagers@[i],
                forall|i: int|
                    0 <= i < s1.wagers@.len() && removed.current_wagers@.take(t as int).contains(
                        (#[trigger] s1.wagers@[i]).id,
                    ) ==> crate::wager::user_scrubbed(s1.wagers@[i], self.wagers@[i], user),
            decreases removed.current_wagers@.len() - t,
        {
            let wid = removed.current_wagers[t];
            proof {
                assert(removed.current_wagers@.take(t as int + 1).drop_last() =~= removed
                    .current_wagers@.take(t as int));
                assert(removed.current_wagers@.take(t as int + 1).last() == wid);
            }
            match self.wager_index(wid) {
                Some(i) => {
                    proof {
                        assert(self.wagers@[i as int].id == s1.wagers@[i as int].id);
                        assert(!removed.current_wagers@.take(t as int).contains(wid)) by {
                            if removed.current_wagers@.take(t as int).contains(wid) {
                                let c = choose|c: int|
                                    0 <= c < t && removed.current_wagers@.take(t as int)[c] == wid;
                                assert(removed.current_wagers@[c] == wid);
                                assert(removed.current_wagers@[t as int] == wid);
                            }
                        }
                        assert(self.wagers@[i as int] == s1.wagers@[i as int]);
                    }
                    self.wagers[i].remove_user(user);
                },
                None => {},
            }
            t += 1;
            proof {
                assert forall|i: int|
                    0 <= i < s1.wagers@.len() && removed.current_wagers@.take(t as int).contains(
                        (#[trigger] s1.wagers@[i]).id,
                    ) implies crate::wager::user_scrubbed(s1.wagers@[i], self.wagers@[i], user) by {
                    let prev = removed.current_wagers@.take(t as int - 1);
                    if prev.contains(s1.wagers@[i].id) {
                    } else {
                        assert(s1.wagers@[i].id == removed.current_wagers@[t as int - 1]);
                    }
                }
            }
        }
        proof {
            assert(removed.current_wagers@.take(removed.current_wagers@.len() as int)
                =~= removed.current_wagers@);
        }
        let ghost s2 = *self;
        let mut t: usize = 0;
        while t < removed.current_pots.len()
            invariant
                old(self).wf(),
                removed.current_pots@.no_duplicates(),
                t <= removed.current_pots@.len(),
                *self == (Room { pots: self.pots, ..s2 }),
                self.pots@.len() == s2.pots@.len(),
                forall|i: int|
                    0 <= i < s2.pots@.len() ==> (#[trigger] self.pots@[i]).pot_id == s2.pots@[i].pot_id && self.pots@[i].wf(),
                s2.pots@ == old(self).pots@,
                forall|i: int| 0 <= i < s2.pots@.len() ==> (#[trigger] s2.pots@[i]).wf(),
                unique_pot_ids(s2.pots@),
                forall|i: int|
                    0 <= i < s2.pots@.len() && !removed.current_pots@.take(t as int).contains(
                        (#[trigger] s2.pots@[i]).pot_id,
                    ) ==> self.pots@[i] == s2.pots@[i],
                forall|i: int|
                    0 <= i < s2.pots@.len() && removed.current_pots@.take(t as int).contains(
                        (#[trigger] s2.pots@[i]).pot_id,
                    ) ==> crate::pot::participant_scrubbed(s2.pots@[i], self.pots@[i], user),
            decreases removed.current_pots@.len() - t,
        {
            let pid = removed.current_pots[t];
            proof {
                assert(removed.current_pots@.take(t as int + 1).drop_last() =~= removed
                    .current_pots@.take(t as int));
                assert(removed.current_pots@.take(t as int + 1).last() == pid);
            }
            match self.pot_index(pid) {
                Some(i) => {
                    proof {
                        assert(self.pots@[i as int].pot_id == s2.pots@[i as int].pot_id);
                        assert(!removed.current_pots@.take(t as int).contains(pid)) by {
                            if removed.current_pots@.take(t as int).contains(pid) {
                                let c = choose|c: int|
                                    0 <= c < t && removed.current_pots@.take(t as int)[c] == pid;
                                assert(removed.current_pots@[c] == pid);
                                assert(removed.current_pots@[t as int] == pid);
                            }
                        }
                        assert(self.pots@[i as int] == s2.pots@[i as int]);
                    }
                    let _ = self.pots[i].remove_user(user);
                },
                None => {},
            }
            t += 1;
            proof {
                assert forall|i: int|
                    0 <= i < s2.pots@.len() && removed.current_pots@.take(t as int).contains(
                        (#[trigger] s2.pots@[i]).pot_id,
                    ) implies crate::pot::participant_scrubbed(s2.pots@[i], self.pots@[i], user) by {
                    let prev = removed.current_pots@.take(t as int - 1);
                    if prev.contains(s2.pots@[i].pot_id) {
                    } else {
                        assert(s2.pots@[i].pot_id == removed.current_pots@[t as int - 1]);
                    }
                }
            }
        }
        proof {
            assert(removed.current_pots@.take(removed.current_pots@.len() as int) =~= removed
                .current_pots@);
        }
        let ghost s3 = *self;
        let mut kept: Vec<AddressEntry> = Vec::new();
        let mut t: usize = 0;
        while t < self.address_map.len()
            invariant
                t <= self.address_map@.len(),
                *self == s3,
                unique_conns(s3.address_map@),
                forall|e: AddressEntry|
                    kept@.contains(e) == (s3.address_map@.take(t as int).contains(e) && e.member
                        != user),
                unique_conns(kept@),
                forall|e1: AddressEntry|
                    kept@.contains(e1) ==> s3.address_map@.contains(e1),
            decreases self.address_map@.len() - t,
        {
            proof {
                assert(s3.address_map@.take(t as int + 1).drop_last() =~= s3.address_map@.take(
                    t as int,
                ));
                assert(s3.address_map@.take(t as int + 1).last() == s3.address_map@[t as int]);
            }
            let e = self.address_map[t];
            if e.member != user {
                proof {
                    assert(!kept@.contains(e)) by {
                        if kept@.contains(e) {
                            assert(s3.address_map@.take(t as int).contains(e));
                            let c = choose|c: int|
                                0 <= c < t && s3.address_map@.take(t as int)[c] == e;
                            assert(s3.address_map@[c] == e);
                            assert(s3.address_map@[c].conn == s3.address_map@[t as int].conn);
                        }
                    }
                }
                let ghost kpre = kept@;
                kept.push(e);
                proof {
                    assert forall|x: AddressEntry| kept@.contains(x) implies (s3.address_map@.take(
                        t as int + 1,
                    ).contains(x) && x.member != user) by {
                        let c = choose|c: int| 0 <= c < kept@.len() && kept@[c] == x;
                        if c < kpre.len() {
                            assert(kpre.contains(x));
                            let d = choose|d: int|
                                0 <= d < t && s3.address_map@.take(t as int)[d] == x;
                            assert(s3.address_map@.take(t as int + 1)[d] == x);
                        } else {
                            assert(x == e);
                            assert(s3.address_map@.take(t as int + 1)[t as int] == e);
                        }
                    }
                    assert forall|x: AddressEntry|
                        s3.address_map@.take(t as int + 1).contains(x) && x.member != user implies
                        kept@.contains(x) by {
                        let c = choose|c: int|
                            0 <= c < t + 1 && (#[trigger] s3.address_map@.take(t as int + 1)[c])
                                == x;
                        if c < t {
                            assert(s3.address_map@.take(t as int)[c] == x);
                            assert(kpre.contains(x));
                            let d = choose|d: int| 0 <= d < kpre.len() && kpre[d] == x;
                            assert(kept@[d] == x);
                        } else {
                            assert(x == e);
                            assert(kept@[kpre.len() as int] == e);
                        }
                    }
                    assert(unique_conns(kept@)) by {
                        assert forall|a: int, b: int| 0 <= a < b < kept@.len() implies kept@[a].conn != kept@[b].conn by {
                            if b == kpre.len() as int {
                                assert(kept@[b] == e);
                                assert(kpre.contains(kept@[a]));
                            }
                        }
                    }
                }
            } else {
                proof {
                    assert forall|x: AddressEntry|
                        s3.address_map@.take(t as int + 1).contains(x) && x.member != user implies
                        kept@.contains(x) by {
                        let c = choose|c: int|
                            0 <= c < t + 1 && (#[trigger] s3.address_map@.take(t as int + 1)[c])
                                == x;
                        if c < t {
                            assert(s3.address_map@.take(t as int)[c] == x);
                        } else {
                            assert(x == e);
                        }
                    }
                    assert forall|x: AddressEntry| kept@.contains(x) implies (s3.address_map@.take(
                        t as int + 1,
                    ).contains(x) && x.member != user) by {
                        let d = choose|d: int| 0 <= d < t && s3.address_map@.take(t as int)[d] == x;
                        assert(s3.address_map@.take(t as int + 1)[d] == x);
                    }
                }
            }
            t += 1;
        }
        proof {
            assert(s3.address_map@.take(s3.address_map@.len() as int) =~= s3.address_map@);
        }
        self.address_map = kept;
        Ok(())
    }
}

/// The double-join law: joining the same pot twice with one member id
/// fails the second time with no additional state change, so the entry fee
/// is debited exactly once.
pub proof fn lemma_pot_join_once(
    pre: Room,
    mid: Room,
    post: Room,
    user_id: ID,
    pot_id: ID,
    r1: Result<i64, StateMutationError>,
    r2: Result<i64, StateMutationError>,
)
    requires
        pre.wf(),
        mid.wf(),
        has_pot_id(pre.pots@, pot_id),
        has_member_id(pre.members@, user_id),
        pot_joined(pre, mid, user_id, pot_id, r1),
        r1 is Ok,
        pot_joined(mid, post, user_id, pot_id, r2),
    ensures
        r2 is Err,
        post == mid,
        member_with_id(mid.members@, user_id).score == member_with_id(
            pre.members@,
            user_id,
        ).score - pot_with_id(pre.pots@, pot_id).score_requirement,
{
    assert(pot_with_id(mid.pots@, pot_id).participants@.contains(user_id)) by {
        assert(pot_with_id(mid.pots@, pot_id).participants@ == pot_with_id(
            pre.pots@,
            pot_id,
        ).participants@.push(user_id));
        assert(pot_with_id(mid.pots@, pot_id).participants@.last() == user_id);
    }
    assert(has_pot_id(mid.pots@, pot_id)) by {
        let c = choose|c: int| 0 <= c < pre.pots@.len() && pre.pots@[c].pot_id == pot_id;
        assert(mid.pots@[c].pot_id == pot_id);
    }
    assert(has_member_id(mid.members@, user_id)) by {
        let c = choose|c: int| 0 <= c < pre.members@.len() && pre.members@[c].id == user_id;
        assert(mid.members@[c].id == user_id);
    }
    if r2 is Ok {
        assert(!pot_with_id(mid.pots@, pot_id).participants@.contains(user_id));
    }
}

/// Two rooms with the same pot and wager tables, whose members agree on
/// ids and membership lists, satisfy the consistency invariant together.
pub proof fn lemma_same_pairings_keep_linked(pre: Room, post: Room)
    requires
        pre.linked(),
        post.pots@ == pre.pots@,
        post.wagers@ == pre.wagers@,
        post.members@.len() == pre.members@.len(),
        forall|i: int|
            0 <= i < post.members@.len() ==> (#[trigger] post.members@[i]).id == pre.members@[i].id
                && post.members@[i].current_pots@ == pre.members@[i].current_pots@
                && post.members@[i].current_wagers@ == pre.members@[i].current_wagers@,
    ensures
        post.linked(),
{
    assert forall|i: int, p: ID|
        0 <= i < post.members@.len() && (#[trigger] post.members@[i].current_pots@.contains(
            p,
        )) implies has_pot_id(post.pots@, p) && pot_with_id(post.pots@, p).participants@.contains(
        post.members@[i].id,
    ) by {
        assert(pre.members@[i].current_pots@.contains(p));
    }
    assert forall|i: int, j: int|
        0 <= i < post.members@.len() && 0 <= j < post.pots@.len() && (
        #[trigger] post.pots@[j].participants@.contains(
            post.members@[i].id,
        )) implies post.members@[i].current_pots@.contains(post.pots@[j].pot_id) by {
        assert(pre.pots@[j].participants@.contains(pre.members@[i].id));
    }
    assert forall|i: int, w: ID|
        0 <= i < post.members@.len() && (#[trigger] post.members@[i].current_wagers@.contains(
            w,
        )) implies has_wager_id(post.wagers@, w) && has_bet(
        wager_with_id(post.wagers@, w).participant_bets@,
        post.members@[i].id,
    ) by {
        assert(pre.members@[i].current_wagers@.contains(w));
    }
    assert forall|i: int, j: int|
        0 <= i < post.members@.len() && 0 <= j < post.wagers@.len() && has_bet(
            #[trigger] post.wagers@[j].participant_bets@,
            #[trigger] post.members@[i].id,
        ) implies post.members@[i].current_wagers@.contains(post.wagers@[j].id) by {
        assert(has_bet(pre.wagers@[j].participant_bets@, pre.members@[i].id));
    }
    assert forall|j: int, k: int|
        0 <= j < post.pots@.len() && 0 <= k
            < post.pots@[j].participants@.len() implies has_member_id(
        post.members@,
        #[trigger] post.pots@[j].participants@[k],
    ) by {
        assert(has_member_id(pre.members@, pre.pots@[j].participants@[k]));
        let c = choose|c: int|
            0 <= c < pre.members@.len() && pre.members@[c].id == pre.pots@[j].participants@[k];
        assert(post.members@[c].id == pre.pots@[j].participants@[k]);
    }
    assert forall|j: int, k: int|
        0 <= j < post.wagers@.len() && 0 <= k
            < post.wagers@[j].participant_bets@.len() implies has_member_id(
        post.members@,
        (#[trigger] post.wagers@[j].participant_bets@[k]).user,
    ) by {
        assert(has_member_id(pre.members@, pre.wagers@[j].participant_bets@[k].user));
        let c = choose|c: int|
            0 <= c < pre.members@.len() && pre.members@[c].id == pre.wagers@[
            j].participant_bets@[k].user;
        assert(post.members@[c].id == pre.wagers@[j].participant_bets@[k].user);
    }
}

/// Crediting a score keeps the membership-consistency invariant: no list
/// and no table changes except one member's score.
pub proof fn lemma_blessed_keeps_linked(
    pre: Room,
    post: Room,
    to: ID,
    amount: i64,
    r: Result<(ID, i64), RoomMutationError>,
)
    requires
        pre.linked(),
        blessed(pre, post, to, amount, r),
    ensures
        post.linked(),
{
    if r is Ok && has_member_id(pre.members@, to) {
        lemma_same_pairings_keep_linked(pre, post);
    }
}

/// A transfer keeps the membership-consistency invariant for the same
/// reason: only two scores move.
pub proof fn lemma_transferred_keeps_linked(
    pre: Room,
    post: Room,
    from: ID,
    to: ID,
    amount: i64,
    r: Result<((ID, i64), (ID, i64)), RoomMutationError>,
)
    requires
        pre.linked(),
        transferred(pre, post, from, to, amount, r),
    ensures
        post.linked(),
{
    if r is Ok && has_member_id(pre.members@, to) && has_member_id(pre.members@, from) {
        lemma_same_pairings_keep_linked(pre, post);
    }
}

/// Granting admin rights keeps the membership-consistency invariant: the
/// member, pot and wager tables are untouched.
pub proof fn lemma_admin_granted_keeps_linked(
    pre: Room,
    post: Room,
    user: ConnId,
    pass: Seq<char>,
    r: Result<(), AdminRequestError>,
)
    requires
        pre.linked(),
        admin_granted(pre, post, user, pass, r),
    ensures
        post.linked(),
{
    if r is Ok {
        assert(r == Ok::<(), AdminRequestError>(())) by {
            assert(r == Ok::<(), AdminRequestError>(r->Ok_0));
        }
        assert(post.pots@ == pre.pots@);
        assert(post.wagers@ == pre.wagers@);
        assert(post.members@ == pre.members@);
        lemma_same_pairings_keep_linked(pre, post);
    }
}

/// Adding a member keeps the membership-consistency invariant: the fresh
/// member has empty lists and, with its id fresh, sits in no participant
/// set.
pub proof fn lemma_user_added_keeps_linked(
    pre: Room,
    post: Room,
    user_addr: ConnId,
    name: String,
    r: Result<ID, RoomMutationError>,
)
    requires
        pre.wf(),
        pre.linked(),
        user_added(pre, post, user_addr, name, r),
    ensures
        post.linked(),
{
    if !has_conn(pre.address_map@, user_addr) {
        let n = pre.members@.len() as int;
        assert(post.pots@ == pre.pots@);
        assert(post.wagers@ == pre.wagers@);
        assert forall|i: int| 0 <= i < n implies #[trigger] post.members@[i] == pre.members@[i] by {}
        assert forall|x: ID| has_member_id(pre.members@, x) implies has_member_id(
            post.members@,
            x,
        ) by {
            let c = choose|c: int| 0 <= c < n && pre.members@[c].id == x;
            assert(post.members@[c].id == x);
        }
        assert forall|j: int, k: int|
            0 <= j < post.pots@.len() && 0 <= k
                < post.pots@[j].participants@.len() implies !((
        #[trigger] post.pots@[j].participants@[k]) == post.members@[n].id) by {
            assert(has_member_id(pre.members@, pre.pots@[j].participants@[k]));
            let c = choose|c: int|
                0 <= c < n && pre.members@[c].id == pre.pots@[j].participants@[k];
            assert(pre.members@[c].id < pre.next_member_id);
        }
        assert forall|j: int, k: int|
            0 <= j < post.wagers@.len() && 0 <= k
                < post.wagers@[j].participant_bets@.len() implies !((
        #[trigger] post.wagers@[j].participant_bets@[k]).user == post.members@[n].id) by {
            assert(has_member_id(pre.members@, pre.wagers@[j].participant_bets@[k].user));
            let c = choose|c: int|
                0 <= c < n && pre.members@[c].id == pre.wagers@[j].participant_bets@[k].user;
            assert(pre.members@[c].id < pre.next_member_id);
        }
        assert forall|i: int, j: int|
            0 <= i < post.members@.len() && 0 <= j < post.pots@.len() && (
            #[trigger] post.pots@[j].participants@.contains(
                post.members@[i].id,
            )) implies post.members@[i].current_pots@.contains(post.pots@[j].pot_id) by {
            let k = choose|k: int|
                0 <= k < post.pots@[j].participants@.len() && post.pots@[j].participants@[k]
                    == post.members@[i].id;
            if i == n {
                assert(post.pots@[j].participants@[k] == post.members@[n].id);
            }
        }
        assert forall|i: int, j: int|
            0 <= i < post.members@.len() && 0 <= j < post.wagers@.len() && has_bet(
                #[trigger] post.wagers@[j].participant_bets@,
                #[trigger] post.members@[i].id,
            ) implies post.members@[i].current_wagers@.contains(post.wagers@[j].id) by {
            let k = choose|k: int|
                0 <= k < post.wagers@[j].participant_bets@.len()
                    && post.wagers@[j].participant_bets@[k].user == post.members@[i].id;
            if i == n {
                assert(post.wagers@[j].participant_bets@[k].user == post.members@[n].id);
            }
        }
    }
}

/// Opening a pot keeps the membership-consistency invariant: the fresh pot
/// has no participants and, with its id fresh, stands in no member's list.
pub proof fn lemma_pot_created_keeps_linked(
    pre: Room,
    post: Room,
    score_requirement: i64,
    desc: String,
)
    requires
        pre.wf(),
        post.wf(),
        pre.linked(),
        pot_created(pre, post, score_requirement, desc),
    ensures
        post.linked(),
{
    let n = pre.pots@.len() as int;
    assert(post.members@ == pre.members@);
    assert(post.wagers@ == pre.wagers@);
    assert forall|j: int| 0 <= j < n implies #[trigger] post.pots@[j] == pre.pots@[j] by {}
    assert forall|i: int, p: ID|
        0 <= i < post.members@.len() && (#[trigger] post.members@[i].current_pots@.contains(
            p,
        )) implies has_pot_id(post.pots@, p) && pot_with_id(post.pots@, p).participants@.contains(
        post.members@[i].id,
    ) by {
        assert(has_pot_id(pre.pots@, p));
        let c = choose|c: int| 0 <= c < n && pre.pots@[c].pot_id == p;
        assert(post.pots@[c].pot_id == p);
        assert(has_pot_id(post.pots@, p));
        let c2 = choose|c2: int| 0 <= c2 < post.pots@.len() && post.pots@[c2].pot_id == p;
        assert(c2 == c);
        let c3 = choose|c3: int| 0 <= c3 < pre.pots@.len() && pre.pots@[c3].pot_id == p;
        assert(c3 == c);
    }
}

/// Opening a wager keeps the membership-consistency invariant for the same
/// reason: nobody has staked on the fresh wager.
pub proof fn lemma_wager_created_keeps_linked(
    pre: Room,
    post: Room,
    description: String,
    outcomes: Seq<WagerOutcome>,
)
    requires
        pre.wf(),
        post.wf(),
        pre.linked(),
        wager_created(pre, post, description, outcomes),
    ensures
        post.linked(),
{
    let n = pre.wagers@.len() as int;
    assert(post.members@ == pre.members@);
    assert(post.pots@ == pre.pots@);
    assert forall|j: int| 0 <= j < n implies #[trigger] post.wagers@[j] == pre.wagers@[j] by {}
    assert forall|i: int, w: ID|
        0 <= i < post.members@.len() && (#[trigger] post.members@[i].current_wagers@.contains(
            w,
        )) implies has_wager_id(post.wagers@, w) && has_bet(
        wager_with_id(post.wagers@, w).participant_bets@,
        post.members@[i].id,
    ) by {
        assert(has_wager_id(pre.wagers@, w));
        let c = choose|c: int| 0 <= c < n && pre.wagers@[c].id == w;
        assert(post.wagers@[c].id == w);
        assert(has_wager_id(post.wagers@, w));
        let c2 = choose|c2: int| 0 <= c2 < post.wagers@.len() && post.wagers@[c2].id == w;
        assert(c2 == c);
        let c3 = choose|c3: int| 0 <= c3 < pre.wagers@.len() && pre.wagers@[c3].id == w;
        assert(c3 == c);
    }
}

/// Joining a pot keeps the membership-consistency invariant: the member's
/// list and the pot's participant set gain the same pairing together.
pub proof fn lemma_pot_joined_keeps_linked(
    pre: Room,
    post: Room,
    user_id: ID,
    pot_id: ID,
    r: Result<i64, StateMutationError>,
)
    requires
        pre.wf(),
        post.wf(),
        pre.linked(),
        pot_joined(pre, post, user_id, pot_id, r),
    ensures
        post.linked(),
{
    if r is Err {
        return ;
    }
    let mi = choose|c: int| 0 <= c < pre.members@.len() && pre.members@[c].id == user_id;
    let pj = choose|c: int| 0 <= c < pre.pots@.len() && pre.pots@[c].pot_id == pot_id;
    assert(pre.members@[mi] == member_with_id(pre.members@, user_id));
    assert(pre.pots@[pj] == pot_with_id(pre.pots@, pot_id));
    assert(!pre.members@[mi].current_pots@.contains(pot_id)) by {
        if pre.members@[mi].current_pots@.contains(pot_id) {
            assert(pot_with_id(pre.pots@, pot_id).participants@.contains(user_id));
        }
    }
    assert(post.members@[mi] == member_with_id(post.members@, user_id)) by {
        let c = choose|c: int| 0 <= c < post.members@.len() && post.members@[c].id == user_id;
        assert(post.members@[mi].id == user_id);
        assert(c == mi);
    }
    assert(post.members@[mi].current_pots@ == pre.members@[mi].current_pots@.push(pot_id));
    assert(post.pots@[pj] == pot_with_id(post.pots@, pot_id)) by {
        let c = choose|c: int| 0 <= c < post.pots@.len() && post.pots@[c].pot_id == pot_id;
        assert(post.pots@[pj].pot_id == pot_id);
        assert(c == pj);
    }
    assert(post.pots@[pj].participants@ == pre.pots@[pj].participants@.push(user_id));
    assert(post.wagers@ == pre.wagers@);
    assert forall|i: int| 0 <= i < post.members@.len() implies (#[trigger] post.members@[i]).id
        == pre.members@[i].id && post.members@[i].current_wagers@ == pre.members@[
        i].current_wagers@ && (i != mi ==> post.members@[i].current_pots@ == pre.members@[
        i].current_pots@) by {}
    assert forall|j: int| 0 <= j < post.pots@.len() implies (#[trigger] post.pots@[j]).pot_id
        == pre.pots@[j].pot_id && (j != pj ==> post.pots@[j].participants@ == pre.pots@[
        j].participants@) by {}
    // the member lists point only at held pots
    assert forall|i: int, p: ID|
        0 <= i < post.members@.len() && (#[trigger] post.members@[i].current_pots@.contains(
            p,
        )) implies has_pot_id(post.pots@, p) && pot_with_id(post.pots@, p).participants@.contains(
        post.members@[i].id,
    ) by {
        let listed_pre = if i == mi {
            pre.members@[i].current_pots@.contains(p) || p == pot_id
        } else {
            pre.members@[i].current_pots@.contains(p)
        };
        if i == mi && !pre.members@[i].current_pots@.contains(p) {
            let k = choose|k: int|
                0 <= k < post.members@[i].current_pots@.len()
                    && post.members@[i].current_pots@[k] == p;
            if k < pre.members@[i].current_pots@.len() {
                assert(pre.members@[i].current_pots@[k] == p);
            }
            assert(p == pot_id);
        }
        if pre.members@[i].current_pots@.contains(p) {
            assert(has_pot_id(pre.pots@, p));
            let c = choose|c: int| 0 <= c < pre.pots@.len() && pre.pots@[c].pot_id == p;
            assert(post.pots@[c].pot_id == p);
            assert(has_pot_id(post.pots@, p));
            let c2 = choose|c2: int| 0 <= c2 < post.pots@.len() && post.pots@[c2].pot_id == p;
            assert(c2 == c);
            assert(pre.pots@[c].participants@.contains(pre.members@[i].id));
            let w = choose|w: int|
                0 <= w < pre.pots@[c].participants@.len() && pre.pots@[c].participants@[w]
                    == pre.members@[i].id;
            if c == pj {
                assert(post.pots@[c].participants@[w] == pre.members@[i].id);
            } else {
                assert(post.pots@[c].participants@[w] == pre.members@[i].id);
            }
            assert(post.pots@[c].participants@.contains(post.members@[i].id));
        } else {
            assert(i == mi && p == pot_id);
            assert(post.pots@[pj].participants@.last() == user_id);
            assert(post.pots@[pj].participants@.contains(post.members@[i].id));
        }
    }
    // every participant is pointed back at
    assert forall|i: int, j: int|
        0 <= i < post.members@.len() && 0 <= j < post.pots@.len() && (
        #[trigger] post.pots@[j].participants@.contains(
            post.members@[i].id,
        )) implies post.members@[i].current_pots@.contains(post.pots@[j].pot_id) by {
        let k = choose|k: int|
            0 <= k < post.pots@[j].participants@.len() && post.pots@[j].participants@[k]
                == post.members@[i].id;
        if j == pj && k == pre.pots@[pj].participants@.len() as int {
            assert(post.members@[i].id == user_id);
            assert(i == mi);
            assert(post.members@[mi].current_pots@.last() == pot_id);
        } else {
            assert(pre.pots@[j].participants@[k] == post.members@[i].id);
            assert(pre.pots@[j].participants@.contains(pre.members@[i].id));
            assert(pre.members@[i].current_pots@.contains(pre.pots@[j].pot_id));
            if i == mi {
                let v = choose|v: int|
                    0 <= v < pre.members@[i].current_pots@.len()
                        && pre.members@[i].current_pots@[v] == pre.pots@[j].pot_id;
                assert(post.members@[i].current_pots@[v] == pre.pots@[j].pot_id);
            }
        }
    }
    // every participant is a member
    assert forall|j: int, k: int|
        0 <= j < post.pots@.len() && 0 <= k
            < post.pots@[j].participants@.len() implies has_member_id(
        post.members@,
        #[trigger] post.pots@[j].participants@[k],
    ) by {
        if j == pj && k == pre.pots@[pj].participants@.len() as int {
            assert(post.members@[mi].id == user_id);
        } else {
            assert(has_member_id(pre.members@, pre.pots@[j].participants@[k]));
            let c = choose|c: int|
                0 <= c < pre.members@.len() && pre.members@[c].id == pre.pots@[j].participants@[k];
            assert(post.members@[c].id == pre.pots@[j].participants@[k]);
        }
    }
    // the wager side is untouched
    assert forall|i: int, w: ID|
        0 <= i < post.members@.len() && (#[trigger] post.members@[i].current_wagers@.contains(
            w,
        )) implies has_wager_id(post.wagers@, w) && has_bet(
        wager_with_id(post.wagers@, w).participant_bets@,
        post.members@[i].id,
    ) by {
        assert(pre.members@[i].current_wagers@.contains(w));
    }
    assert forall|i: int, j: int|
        0 <= i < post.members@.len() && 0 <= j < post.wagers@.len() && has_bet(
            #[trigger] post.wagers@[j].participant_bets@,
            #[trigger] post.members@[i].id,
        ) implies post.members@[i].current_wagers@.contains(post.wagers@[j].id) by {
        assert(has_bet(pre.wagers@[j].participant_bets@, pre.members@[i].id));
    }
    assert forall|j: int, k: int|
        0 <= j < post.wagers@.len() && 0 <= k
            < post.wagers@[j].participant_bets@.len() implies has_member_id(
        post.members@,
        (#[trigger] post.wagers@[j].participant_bets@[k]).user,
    ) by {
        assert(has_member_id(pre.members@, pre.wagers@[j].participant_bets@[k].user));
        let c = choose|c: int|
            0 <= c < pre.members@.len() && pre.members@[c].id == pre.wagers@[
            j].participant_bets@[k].user;
        assert(post.members@[c].id == pre.wagers@[j].participant_bets@[k].user);
    }
}

/// Staking on a wager keeps the membership-consistency invariant: the
/// member's list and the wager's stakes gain the same pairing together.
pub proof fn lemma_wager_joined_keeps_linked(
    pre: Room,
    post: Room,
    wager_id: ID,
    user_id: ID,
    outcome_id: ID,
    amount: i64,
    r: Result<i64, StateMutationError>,
)
    requires
        pre.wf(),
        post.wf(),
        pre.linked(),
        wager_joined(pre, post, wager_id, user_id, outcome_id, amount, r),
    ensures
        post.linked(),
{
    if r is Err {
        return ;
    }
    let mi = choose|c: int| 0 <= c < pre.members@.len() && pre.members@[c].id == user_id;
    let wj = choose|c: int| 0 <= c < pre.wagers@.len() && pre.wagers@[c].id == wager_id;
    assert(pre.members@[mi] == member_with_id(pre.members@, user_id));
    assert(pre.wagers@[wj] == wager_with_id(pre.wagers@, wager_id));
    assert(!pre.members@[mi].current_wagers@.contains(wager_id)) by {
        if pre.members@[mi].current_wagers@.contains(wager_id) {
            assert(has_bet(wager_with_id(pre.wagers@, wager_id).participant_bets@, user_id));
        }
    }
    assert(post.members@[mi] == member_with_id(post.members@, user_id)) by {
        let c = choose|c: int| 0 <= c < post.members@.len() && post.members@[c].id == user_id;
        assert(post.members@[mi].id == user_id);
        assert(c == mi);
    }
    assert(post.members@[mi].current_wagers@ == pre.members@[mi].current_wagers@.push(wager_id));
    let ghost bets0 = pre.wagers@[wj].participant_bets@;
    assert(post.wagers@[wj].participant_bets@.len() == bets0.len() + 1);
    assert(post.wagers@[wj].participant_bets@.last().user == user_id);
    assert forall|k: int| 0 <= k < bets0.len() implies #[trigger] post.wagers@[
        wj].participant_bets@[k] == bets0[k] by {}
    assert(post.pots@ == pre.pots@);
    assert forall|i: int| 0 <= i < post.members@.len() implies (#[trigger] post.members@[i]).id
        == pre.members@[i].id && post.members@[i].current_pots@ == pre.members@[
        i].current_pots@ && (i != mi ==> post.members@[i].current_wagers@ == pre.members@[
        i].current_wagers@) by {}
    assert forall|j: int| 0 <= j < post.wagers@.len() implies (#[trigger] post.wagers@[j]).id
        == pre.wagers@[j].id && (j != wj ==> post.wagers@[j].participant_bets@ == pre.wagers@[
        j].participant_bets@) by {
        if pre.wagers@[j].id != wager_id {
        } else {
            assert(j == wj);
        }
    }
    // the member lists point only at staked wagers
    assert forall|i: int, w: ID|
        0 <= i < post.members@.len() && (#[trigger] post.members@[i].current_wagers@.contains(
            w,
        )) implies has_wager_id(post.wagers@, w) && has_bet(
        wager_with_id(post.wagers@, w).participant_bets@,
        post.members@[i].id,
    ) by {
        if i == mi && !pre.members@[i].current_wagers@.contains(w) {
            let k = choose|k: int|
                0 <= k < post.members@[i].current_wagers@.len()
                    && post.members@[i].current_wagers@[k] == w;
            if k < pre.members@[i].current_wagers@.len() {
                assert(pre.members@[i].current_wagers@[k] == w);
            }
            assert(w == wager_id);
        }
        if pre.members@[i].current_wagers@.contains(w) {
            assert(has_wager_id(pre.wagers@, w));
            let c = choose|c: int| 0 <= c < pre.wagers@.len() && pre.wagers@[c].id == w;
            assert(post.wagers@[c].id == w);
            assert(has_wager_id(post.wagers@, w));
            let c2 = choose|c2: int| 0 <= c2 < post.wagers@.len() && post.wagers@[c2].id == w;
            assert(c2 == c);
            assert(has_bet(pre.wagers@[c].participant_bets@, pre.members@[i].id));
            let v = choose|v: int|
                0 <= v < pre.wagers@[c].participant_bets@.len() && pre.wagers@[
                c].participant_bets@[v].user == pre.members@[i].id;
            assert(post.wagers@[c].participant_bets@[v].user == post.members@[i].id);
            assert(has_bet(post.wagers@[c].participant_bets@, post.members@[i].id));
        } else {
            assert(i == mi && w == wager_id);
            assert(post.wagers@[wj].id == wager_id);
            assert(has_wager_id(post.wagers@, wager_id));
            let c2 = choose|c2: int| 0 <= c2 < post.wagers@.len() && post.wagers@[c2].id == w;
            assert(c2 == wj);
            assert(has_bet(post.wagers@[wj].participant_bets@, user_id)) by {
                assert(post.wagers@[wj].participant_bets@.last().user == user_id);
            }
        }
    }
    // every bettor is pointed back at
    assert forall|i: int, j: int|
        0 <= i < post.members@.len() && 0 <= j < post.wagers@.len() && has_bet(
            #[trigger] post.wagers@[j].participant_bets@,
            #[trigger] post.members@[i].id,
        ) implies post.members@[i].current_wagers@.contains(post.wagers@[j].id) by {
        let k = choose|k: int|
            0 <= k < post.wagers@[j].participant_bets@.len() && post.wagers@[
            j].participant_bets@[k].user == post.members@[i].id;
        if j == wj && k == bets0.len() as int {
            assert(post.members@[i].id == user_id);
            assert(i == mi);
            assert(post.members@[mi].current_wagers@.last() == wager_id);
        } else {
            assert(pre.wagers@[j].participant_bets@[k] == post.wagers@[j].participant_bets@[k]);
            assert(has_bet(pre.wagers@[j].participant_bets@, pre.members@[i].id));
            assert(pre.members@[i].current_wagers@.contains(pre.wagers@[j].id));
            if i == mi {
                let v = choose|v: int|
                    0 <= v < pre.members@[i].current_wagers@.len()
                        && pre.members@[i].current_wagers@[v] == pre.wagers@[j].id;
                assert(post.members@[i].current_wagers@[v] == pre.wagers@[j].id);
            }
        }
    }
    // every bettor is a member
    assert forall|j: int, k: int|
        0 <= j < post.wagers@.len() && 0 <= k
            < post.wagers@[j].participant_bets@.len() implies has_member_id(
        post.members@,
        (#[trigger] post.wagers@[j].participant_bets@[k]).user,
    ) by {
        if j == wj && k == bets0.len() as int {
            assert(post.members@[mi].id == user_id);
        } else {
            assert(has_member_id(pre.members@, pre.wagers@[j].participant_bets@[k].user));
            let c = choose|c: int|
                0 <= c < pre.members@.len() && pre.members@[c].id == pre.wagers@[
                j].participant_bets@[k].user;
            assert(post.members@[c].id == pre.wagers@[j].participant_bets@[k].user);
        }
    }
    // the pot side is untouched
    assert forall|i: int, p: ID|
        0 <= i < post.members@.len() && (#[trigger] post.members@[i].current_pots@.contains(
            p,
        )) implies has_pot_id(post.pots@, p) && pot_with_id(post.pots@, p).participants@.contains(
        post.members@[i].id,
    ) by {
        assert(pre.members@[i].current_pots@.contains(p));
    }
    assert forall|i: int, j: int|
        0 <= i < post.members@.len() && 0 <= j < post.pots@.len() && (
        #[trigger] post.pots@[j].participants@.contains(
            post.members@[i].id,
        )) implies post.members@[i].current_pots@.contains(post.pots@[j].pot_id) by {
        assert(pre.pots@[j].participants@.contains(pre.members@[i].id));
    }
    assert forall|j: int, k: int|
        0 <= j < post.pots@.len() && 0 <= k
            < post.pots@[j].participants@.len() implies has_member_id(
        post.members@,
        #[trigger] post.pots@[j].participants@[k],
    ) by {
        assert(has_member_id(pre.members@, pre.pots@[j].participants@[k]));
        let c = choose|c: int|
            0 <= c < pre.members@.len() && pre.members@[c].id == pre.pots@[j].participants@[k];
        assert(post.members@[c].id == pre.pots@[j].participants@[k]);
    }
}

/// Resolving a pot keeps the membership-consistency invariant: the pot
/// dissolves and exactly the members who held it are scrubbed.
pub proof fn lemma_pot_resolved_keeps_linked(
    pre: Room,
    post: Room,
    pot_id: ID,
    winner_id: ID,
    r: Result<(ID, i64), StateMutationError>,
)
    requires
        pre.wf(),
        post.wf(),
        pre.linked(),
        pot_resolved(pre, post, pot_id, winner_id, r),
    ensures
        post.linked(),
{
    if r is Err {
        return ;
    }
    let pot0 = pot_with_id(pre.pots@, pot_id);
    assert(post.wagers@ == pre.wagers@);
    assert forall|i: int| 0 <= i < post.members@.len() implies (#[trigger] post.members@[i]).id
        == pre.members@[i].id && post.members@[i].current_wagers@ == pre.members@[
        i].current_wagers@ by {}
    // a post member lists only surviving pots that hold the member
    assert forall|i: int, p: ID|
        0 <= i < post.members@.len() && (#[trigger] post.members@[i].current_pots@.contains(
            p,
        )) implies has_pot_id(post.pots@, p) && pot_with_id(post.pots@, p).participants@.contains(
        post.members@[i].id,
    ) by {
        if pot0.participants@.contains(pre.members@[i].id) {
            assert(p != pot_id);
            assert(pre.members@[i].current_pots@.contains(p));
        } else {
            assert(pre.members@[i].current_pots@.contains(p));
            if p == pot_id {
                assert(pot_with_id(pre.pots@, p).participants@.contains(pre.members@[i].id));
            }
            assert(p != pot_id);
        }
        assert(has_pot_id(pre.pots@, p) && pot_with_id(pre.pots@, p).participants@.contains(
            pre.members@[i].id,
        ));
        assert(has_pot_id(post.pots@, p) && pot_with_id(post.pots@, p) == pot_with_id(
            pre.pots@,
            p,
        ));
    }
    // every surviving participant is pointed back at
    assert forall|i: int, j: int|
        0 <= i < post.members@.len() && 0 <= j < post.pots@.len() && (
        #[trigger] post.pots@[j].participants@.contains(
            post.members@[i].id,
        )) implies post.members@[i].current_pots@.contains(post.pots@[j].pot_id) by {
        let x = post.pots@[j].pot_id;
        assert(has_pot_id(post.pots@, x));
        assert(x != pot_id);
        assert(post.pots@[j] == pot_with_id(post.pots@, x)) by {
            let c = choose|c: int| 0 <= c < post.pots@.len() && post.pots@[c].pot_id == x;
            assert(c == j);
        }
        assert(pot_with_id(post.pots@, x) == pot_with_id(pre.pots@, x));
        let c = choose|c: int| 0 <= c < pre.pots@.len() && pre.pots@[c].pot_id == x;
        assert(pre.pots@[c] == pot_with_id(pre.pots@, x));
        assert(pre.pots@[c].participants@.contains(pre.members@[i].id));
        assert(pre.members@[i].current_pots@.contains(x));
        if pot0.participants@.contains(pre.members@[i].id) {
            assert(post.members@[i].current_pots@.contains(x));
        } else {
            assert(post.members@[i].current_pots@ == pre.members@[i].current_pots@);
        }
    }
    // every surviving participant is a member
    assert forall|j: int, k: int|
        0 <= j < post.pots@.len() && 0 <= k
            < post.pots@[j].participants@.len() implies has_member_id(
        post.members@,
        #[trigger] post.pots@[j].participants@[k],
    ) by {
        let x = post.pots@[j].pot_id;
        assert(has_pot_id(post.pots@, x));
        assert(x != pot_id);
        assert(post.pots@[j] == pot_with_id(post.pots@, x)) by {
            let c = choose|c: int| 0 <= c < post.pots@.len() && post.pots@[c].pot_id == x;
            assert(c == j);
        }
        assert(pot_with_id(post.pots@, x) == pot_with_id(pre.pots@, x));
        let c = choose|c: int| 0 <= c < pre.pots@.len() && pre.pots@[c].pot_id == x;
        assert(pre.pots@[c] == pot_with_id(pre.pots@, x));
        assert(has_member_id(pre.members@, pre.pots@[c].participants@[k]));
        let m = choose|m: int|
            0 <= m < pre.members@.len() && pre.members@[m].id == pre.pots@[c].participants@[k];
        assert(post.members@[m].id == pre.pots@[c].participants@[k]);
    }
    // the wager side is untouched
    assert forall|i: int, w: ID|
        0 <= i < post.members@.len() && (#[trigger] post.members@[i].current_wagers@.contains(
            w,
        )) implies has_wager_id(post.wagers@, w) && has_bet(
        wager_with_id(post.wagers@, w).participant_bets@,
        post.members@[i].id,
    ) by {
        assert(pre.members@[i].current_wagers@.contains(w));
    }
    assert forall|i: int, j: int|
        0 <= i < post.members@.len() && 0 <= j < post.wagers@.len() && has_bet(
            #[trigger] post.wagers@[j].participant_bets@,
            #[trigger] post.members@[i].id,
        ) implies post.members@[i].current_wagers@.contains(post.wagers@[j].id) by {
        assert(has_bet(pre.wagers@[j].participant_bets@, pre.members@[i].id));
    }
    assert forall|j: int, k: int|
        0 <= j < post.wagers@.len() && 0 <= k
            < post.wagers@[j].participant_bets@.len() implies has_member_id(
        post.members@,
        (#[trigger] post.wagers@[j].participant_bets@[k]).user,
    ) by {
        assert(has_member_id(pre.members@, pre.wagers@[j].participant_bets@[k].user));
        let c = choose|c: int|
            0 <= c < pre.members@.len() && pre.members@[c].id == pre.wagers@[
            j].participant_bets@[k].user;
        assert(post.members@[c].id == pre.wagers@[j].participant_bets@[k].user);
    }
}

/// Settling a wager keeps the membership-consistency invariant: the wager
/// dissolves and its id is scrubbed from every member's list.
pub proof fn lemma_wager_resolved_keeps_linked(
    pre: Room,
    post: Room,
    wager_id: ID,
    outcome_id: ID,
    r: Result<Vec<(ID, i64)>, StateMutationError>,
)
    requires
        pre.wf(),
        post.wf(),
        pre.linked(),
        wager_resolved(pre, post, wager_id, outcome_id, r),
    ensures
        post.linked(),
{
    if r is Err {
        return ;
    }
    assert(post.pots@ == pre.pots@);
    assert forall|i: int| 0 <= i < post.members@.len() implies (#[trigger] post.members@[i]).id
        == pre.members@[i].id && post.members@[i].current_pots@ == pre.members@[
        i].current_pots@ by {}
    // a post member lists only surviving wagers that hold a stake of theirs
    assert forall|i: int, w: ID|
        0 <= i < post.members@.len() && (#[trigger] post.members@[i].current_wagers@.contains(
            w,
        )) implies has_wager_id(post.wagers@, w) && has_bet(
        wager_with_id(post.wagers@, w).participant_bets@,
        post.members@[i].id,
    ) by {
        assert(w != wager_id);
        assert(pre.members@[i].current_wagers@.contains(w));
        assert(has_wager_id(pre.wagers@, w) && has_bet(
            wager_with_id(pre.wagers@, w).participant_bets@,
            pre.members@[i].id,
        ));
        assert(has_wager_id(post.wagers@, w) && wager_with_id(post.wagers@, w) == wager_with_id(
            pre.wagers@,
            w,
        ));
    }
    // every surviving bettor is pointed back at
    assert forall|i: int, j: int|
        0 <= i < post.members@.len() && 0 <= j < post.wagers@.len() && has_bet(
            #[trigger] post.wagers@[j].participant_bets@,
            #[trigger] post.members@[i].id,
        ) implies post.members@[i].current_wagers@.contains(post.wagers@[j].id) by {
        let x = post.wagers@[j].id;
        assert(has_wager_id(post.wagers@, x));
        assert(x != wager_id);
        assert(post.wagers@[j] == wager_with_id(post.wagers@, x)) by {
            let c = choose|c: int| 0 <= c < post.wagers@.len() && post.wagers@[c].id == x;
            assert(c == j);
        }
        assert(wager_with_id(post.wagers@, x) == wager_with_id(pre.wagers@, x));
        let c = choose|c: int| 0 <= c < pre.wagers@.len() && pre.wagers@[c].id == x;
        assert(pre.wagers@[c] == wager_with_id(pre.wagers@, x));
        assert(has_bet(pre.wagers@[c].participant_bets@, pre.members@[i].id));
        assert(pre.members@[i].current_wagers@.contains(x));
        assert(post.members@[i].current_wagers@.contains(x));
    }
    // every surviving bettor is a member
    assert forall|j: int, k: int|
        0 <= j < post.wagers@.len() && 0 <= k
            < post.wagers@[j].participant_bets@.len() implies has_member_id(
        post.members@,
        (#[trigger] post.wagers@[j].participant_bets@[k]).user,
    ) by {
        let x = post.wagers@[j].id;
        assert(has_wager_id(post.wagers@, x));
        assert(x != wager_id);
        assert(post.wagers@[j] == wager_with_id(post.wagers@, x)) by {
            let c = choose|c: int| 0 <= c < post.wagers@.len() && post.wagers@[c].id == x;
            assert(c == j);
        }
        assert(wager_with_id(post.wagers@, x) == wager_with_id(pre.wagers@, x));
        let c = choose|c: int| 0 <= c < pre.wagers@.len() && pre.wagers@[c].id == x;
        assert(pre.wagers@[c] == wager_with_id(pre.wagers@, x));
        assert(has_member_id(pre.members@, pre.wagers@[c].participant_bets@[k].user));
        let m = choose|m: int|
            0 <= m < pre.members@.len() && pre.members@[m].id == pre.wagers@[
            c].participant_bets@[k].user;
        assert(post.members@[m].id == pre.wagers@[c].participant_bets@[k].user);
    }
    // the pot side is untouched
    assert forall|i: int, p: ID|
        0 <= i < post.members@.len() && (#[trigger] post.members@[i].current_pots@.contains(
            p,
        )) implies has_pot_id(post.pots@, p) && pot_with_id(post.pots@, p).participants@.contains(
        post.members@[i].id,
    ) by {
        assert(pre.members@[i].current_pots@.contains(p));
    }
    assert forall|i: int, j: int|
        0 <= i < post.members@.len() && 0 <= j < post.pots@.len() && (
        #[trigger] post.pots@[j].participants@.contains(
            post.members@[i].id,
        )) implies post.members@[i].current_pots@.contains(post.pots@[j].pot_id) by {
        assert(pre.pots@[j].participants@.contains(pre.members@[i].id));
    }
    assert forall|j: int, k: int|
        0 <= j < post.pots@.len() && 0 <= k
            < post.pots@[j].participants@.len() implies has_member_id(
        post.members@,
        #[trigger] post.pots@[j].participants@[k],
    ) by {
        assert(has_member_id(pre.members@, pre.pots@[j].participants@[k]));
        let c = choose|c: int|
            0 <= c < pre.members@.len() && pre.members@[c].id == pre.pots@[j].participants@[k];
        assert(post.members@[c].id == pre.pots@[j].participants@[k]);
    }
}

/// Removing a member keeps the membership-consistency invariant: the
/// member's record, stakes, participations and mappings all leave
/// together, and nobody else's pairings change.
pub proof fn lemma_member_removed_keeps_linked(pre: Room, post: Room, user: ID)
    requires
        pre.wf(),
        post.wf(),
        pre.linked(),
        has_member_id(pre.members@, user),
        member_removed(pre, post, user),
    ensures
        post.linked(),
{
    let mc = choose|mc: int| 0 <= mc < pre.members@.len() && pre.members@[mc].id == user;
    assert(member_with_id(pre.members@, user) == pre.members@[mc]);
    let ghost m0 = pre.members@[mc];
    // every surviving member is a preserved record of a different id
    assert forall|i: int| 0 <= i < post.members@.len() implies (#[trigger] post.members@[i]).id
        != user && has_member_id(pre.members@, post.members@[i].id) && member_with_id(
        pre.members@,
        post.members@[i].id,
    ) == post.members@[i] by {
        if post.members@[i].id == user {
            assert(has_member_id(post.members@, user));
        }
        assert(has_member_id(post.members@, post.members@[i].id));
        let c2 = choose|c2: int|
            0 <= c2 < post.members@.len() && post.members@[c2].id == post.members@[i].id;
        assert(c2 == i);
    }
    // every surviving member id is still present
    assert forall|x: ID| x != user && has_member_id(pre.members@, x) implies has_member_id(
        post.members@,
        x,
    ) by {}
    // each pot keeps its id and total and merely loses the removed member
    assert forall|j: int| 0 <= j < post.pots@.len() implies (#[trigger] post.pots@[j]).pot_id
        == pre.pots@[j].pot_id && !post.pots@[j].participants@.contains(user) && (forall|y: ID|
        y != user ==> post.pots@[j].participants@.contains(y) == pre.pots@[
        j].participants@.contains(y)) by {
        if post.pots@[j] == pre.pots@[j] {
            if pre.pots@[j].participants@.contains(user) {
                assert(pre.pots@[j].participants@.contains(pre.members@[mc].id));
                assert(pre.members@[mc].current_pots@.contains(pre.pots@[j].pot_id));
                assert(m0.current_pots@.contains(pre.pots@[j].pot_id));
                assert(crate::pot::participant_scrubbed(pre.pots@[j], post.pots@[j], user));
                assert(false);
            }
        } else {
            assert(m0.current_pots@.contains(pre.pots@[j].pot_id)
                && crate::pot::participant_scrubbed(pre.pots@[j], post.pots@[j], user));
        }
    }
    // each wager keeps its id and merely loses the removed member's stake
    assert forall|j: int| 0 <= j < post.wagers@.len() implies (#[trigger] post.wagers@[j]).id
        == pre.wagers@[j].id && !has_bet(post.wagers@[j].participant_bets@, user) && (forall|
        y: ID,
    |
        y != user ==> has_bet(post.wagers@[j].participant_bets@, y) == has_bet(
            pre.wagers@[j].participant_bets@,
            y,
        )) by {
        if post.wagers@[j] == pre.wagers@[j] {
            if has_bet(pre.wagers@[j].participant_bets@, user) {
                assert(has_bet(pre.wagers@[j].participant_bets@, pre.members@[mc].id));
                assert(pre.members@[mc].current_wagers@.contains(pre.wagers@[j].id));
                assert(m0.current_wagers@.contains(pre.wagers@[j].id));
                assert(crate::wager::user_scrubbed(pre.wagers@[j], post.wagers@[j], user));
                assert(false);
            }
        } else {
            assert(m0.current_wagers@.contains(pre.wagers@[j].id) && crate::wager::user_scrubbed(
                pre.wagers@[j],
                post.wagers@[j],
                user,
            ));
        }
    }
    // the member lists point only at held pots
    assert forall|i: int, p: ID|
        0 <= i < post.members@.len() && (#[trigger] post.members@[i].current_pots@.contains(
            p,
        )) implies has_pot_id(post.pots@, p) && pot_with_id(post.pots@, p).participants@.contains(
        post.members@[i].id,
    ) by {
        let x = post.members@[i].id;
        let c = choose|c: int| 0 <= c < pre.members@.len() && pre.members@[c].id == x;
        assert(pre.members@[c] == post.members@[i]);
        assert(pre.members@[c].current_pots@.contains(p));
        assert(has_pot_id(pre.pots@, p) && pot_with_id(pre.pots@, p).participants@.contains(x));
        let d = choose|d: int| 0 <= d < pre.pots@.len() && pre.pots@[d].pot_id == p;
        assert(post.pots@[d].pot_id == p);
        assert(has_pot_id(post.pots@, p));
        let d2 = choose|d2: int| 0 <= d2 < post.pots@.len() && post.pots@[d2].pot_id == p;
        assert(d2 == d);
        assert(pre.pots@[d].participants@.contains(x));
        assert(post.pots@[d].participants@.contains(x));
    }
    // every remaining participant is pointed back at
    assert forall|i: int, j: int|
        0 <= i < post.members@.len() && 0 <= j < post.pots@.len() && (
        #[trigger] post.pots@[j].participants@.contains(
            post.members@[i].id,
        )) implies post.members@[i].current_pots@.contains(post.pots@[j].pot_id) by {
        let x = post.members@[i].id;
        assert(pre.pots@[j].participants@.contains(x));
        let c = choose|c: int| 0 <= c < pre.members@.len() && pre.members@[c].id == x;
        assert(pre.members@[c] == post.members@[i]);
        assert(pre.pots@[j].participants@.contains(pre.members@[c].id));
        assert(pre.members@[c].current_pots@.contains(pre.pots@[j].pot_id));
    }
    // every remaining participant is a member
    assert forall|j: int, k: int|
        0 <= j < post.pots@.len() && 0 <= k
            < post.pots@[j].participants@.len() implies has_member_id(
        post.members@,
        #[trigger] post.pots@[j].participants@[k],
    ) by {
        let y = post.pots@[j].participants@[k];
        assert(post.pots@[j].participants@.contains(y));
        assert(y != user);
        assert(pre.pots@[j].participants@.contains(y));
        let v = choose|v: int|
            0 <= v < pre.pots@[j].participants@.len() && pre.pots@[j].participants@[v] == y;
        assert(has_member_id(pre.members@, pre.pots@[j].participants@[v]));
        assert(has_member_id(post.members@, y));
    }
    // the member lists point only at staked wagers
    assert forall|i: int, w: ID|
        0 <= i < post.members@.len() && (#[trigger] post.members@[i].current_wagers@.contains(
            w,
        )) implies has_wager_id(post.wagers@, w) && has_bet(
        wager_with_id(post.wagers@, w).participant_bets@,
        post.members@[i].id,
    ) by {
        let x = post.members@[i].id;
        let c = choose|c: int| 0 <= c < pre.members@.len() && pre.members@[c].id == x;
        assert(pre.members@[c] == post.members@[i]);
        assert(pre.members@[c].current_wagers@.contains(w));
        assert(has_wager_id(pre.wagers@, w) && has_bet(
            wager_with_id(pre.wagers@, w).participant_bets@,
            x,
        ));
        let d = choose|d: int| 0 <= d < pre.wagers@.len() && pre.wagers@[d].id == w;
        assert(post.wagers@[d].id == w);
        assert(has_wager_id(post.wagers@, w));
        let d2 = choose|d2: int| 0 <= d2 < post.wagers@.len() && post.wagers@[d2].id == w;
        assert(d2 == d);
        assert(has_bet(pre.wagers@[d].participant_bets@, x));
        assert(has_bet(post.wagers@[d].participant_bets@, x));
    }
    // every remaining bettor is pointed back at
    assert forall|i: int, j: int|
        0 <= i < post.members@.len() && 0 <= j < post.wagers@.len() && has_bet(
            #[trigger] post.wagers@[j].participant_bets@,
            #[trigger] post.members@[i].id,
        ) implies post.members@[i].current_wagers@.contains(post.wagers@[j].id) by {
        let x = post.members@[i].id;
        assert(has_bet(pre.wagers@[j].participant_bets@, x));
        let c = choose|c: int| 0 <= c < pre.members@.len() && pre.members@[c].id == x;
        assert(pre.members@[c] == post.members@[i]);
        assert(has_bet(pre.wagers@[j].participant_bets@, pre.members@[c].id));
        assert(pre.members@[c].current_wagers@.contains(pre.wagers@[j].id));
    }
    // every remaining bettor is a member
    assert forall|j: int, k: int|
        0 <= j < post.wagers@.len() && 0 <= k
            < post.wagers@[j].participant_bets@.len() implies has_member_id(
        post.members@,
        (#[trigger] post.wagers@[j].participant_bets@[k]).user,
    ) by {
        let y = post.wagers@[j].participant_bets@[k].user;
        assert(post.wagers@[j].participant_bets@[k].user == y);
        assert(has_bet(post.wagers@[j].participant_bets@, y));
        assert(y != user);
        assert(has_bet(pre.wagers@[j].participant_bets@, y));
        let v = choose|v: int|
            0 <= v < pre.wagers@[j].participant_bets@.len() && pre.wagers@[
            j].participant_bets@[v].user == y;
        assert(has_member_id(pre.members@, pre.wagers@[j].participant_bets@[v].user));
        assert(has_member_id(post.members@, y));
    }
}

/// The removal scenario's pot half, unconditionally: a member removed from
/// the room is dropped from the participant set of every pot that held
/// them — participation itself implies the member's own list named the
/// pot — while the fee stays in the pot and the total is unchanged.
pub proof fn lemma_removed_member_leaves_pots(pre: Room, post: Room, user: ID, j: int)
    requires
        pre.wf(),
        pre.linked(),
        has_member_id(pre.members@, user),
        member_removed(pre, post, user),
        0 <= j < pre.pots@.len(),
        pre.pots@[j].participants@.contains(user),
    ensures
        crate::pot::participant_scrubbed(pre.pots@[j], post.pots@[j], user),
        post.pots@[j].total_score == pre.pots@[j].total_score,
{
    let mc = choose|mc: int| 0 <= mc < pre.members@.len() && pre.members@[mc].id == user;
    assert(member_with_id(pre.members@, user) == pre.members@[mc]);
    assert(pre.pots@[j].participants@.contains(pre.members@[mc].id));
    assert(pre.members@[mc].current_pots@.contains(pre.pots@[j].pot_id));
}

/// The removal scenario's wager half, unconditionally: a member removed
/// from the room loses their stake in every wager that held one, with
/// every other stake kept.
pub proof fn lemma_removed_member_leaves_wagers(pre: Room, post: Room, user: ID, j: int)
    requires
        pre.wf(),
        pre.linked(),
        has_member_id(pre.members@, user),
        member_removed(pre, post, user),
        0 <= j < pre.wagers@.len(),
        has_bet(pre.wagers@[j].participant_bets@, user),
    ensures
        crate::wager::user_scrubbed(pre.wagers@[j], post.wagers@[j], user),
{
    let mc = choose|mc: int| 0 <= mc < pre.members@.len() && pre.members@[mc].id == user;
    assert(member_with_id(pre.members@, user) == pre.members@[mc]);
    assert(has_bet(pre.wagers@[j].participant_bets@, pre.members@[mc].id));
    assert(pre.members@[mc].current_wagers@.contains(pre.wagers@[j].id));
}

} // verus!
