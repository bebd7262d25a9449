use vstd::prelude::*;

verus! {

use crate::errors::PotMutationError;
use crate::ids::clone_id_vec;
use crate::ids::contains_id;
use crate::ID;

/// A pot after one member's reference has been cleared out of it: the same
/// pot, fees and total — a removed member's fee is not refunded — with the
/// member no longer a participant.
pub open spec fn participant_scrubbed(pre: Pot, post: Pot, id: ID) -> bool {
    &&& post.pot_id == pre.pot_id
    &&& post.total_score == pre.total_score
    &&& post.score_requirement == pre.score_requirement
    &&& post.description == pre.description
    &&& !post.participants@.contains(id)
    &&& forall|y: ID| y != id ==> post.participants@.contains(y) == pre.participants@.contains(y)
}

/// A fixed-entry-fee escrow pool. Every entrant pays the same fee into the
/// accumulated total; resolution pays the whole total to one winner.
#[derive(PartialEq, Eq, Debug)]
pub struct Pot {
    pub pot_id: ID,
    pub total_score: i64,
    pub score_requirement: i64,
    pub participants: Vec<ID>,
    pub description: String,
}

impl Pot {
    /// The participant list holds each member at most once.
    pub open spec fn wf(self) -> bool {
        self.participants@.no_duplicates()
    }

    /// Content equality, compared through the views of the fields.
    pub open spec fn eqv(self, other: Pot) -> bool {
        &&& self.pot_id == other.pot_id
        &&& self.total_score == other.total_score
        &&& self.score_requirement == other.score_requirement
        &&& self.participants@ == other.participants@
        &&& self.description@ == other.description@
    }

    /// The escrow balance law: the accumulated total equals the entry fee
    /// times the number of current participants. It holds of every pot that
    /// no participant has been removed from; removal forfeits the fee and
    /// leaves the total unchanged.
    pub open spec fn balanced(self) -> bool {
        self.total_score == self.score_requirement * self.participants@.len()
    }

    /// A fresh pot has no participants and an empty total, and is balanced.
    pub fn new(id: ID, score_requirement: i64, desc: String) -> (p: Pot)
        ensures
            p.pot_id == id,
            p.total_score == 0,
            p.score_requirement == score_requirement,
            p.participants@ == Seq::<ID>::empty(),
            p.description == desc,
            p.wf(),
            p.balanced(),
    {
        let p = Pot {
            pot_id: id,
            total_score: 0,
            score_requirement,
            participants: Vec::new(),
            description: desc,
        };
        proof {
            assert(p.balanced()) by {
                assert(p.score_requirement * p.participants@.len() == 0) by (nonlinear_arith)
                    requires
                        p.participants@.len() == 0,
                ;
            }
        }
        p
    }

    /// Adds a member, charging the entry fee into the total; fails with no
    /// change if the member already joined, so the fee is charged exactly
    /// once per member. Joining preserves the escrow balance law.
    pub fn join(&mut self, id: ID) -> (r: Result<(), PotMutationError>)
        requires
            !old(self).participants@.contains(id) ==> i64::MIN <= old(self).total_score
                + old(self).score_requirement <= i64::MAX,
        ensures
            old(self).participants@.contains(id) ==> r == Err::<(), PotMutationError>(
                PotMutationError::UserAlreadyExists { user_id: id, pot_id: old(self).pot_id },
            ) && *final(self) == *old(self),
            !old(self).participants@.contains(id) ==> r == Ok::<(), PotMutationError>(())
                && final(self).participants@ == old(self).participants@.push(id)
                && final(self).total_score == old(self).total_score + old(self).score_requirement
                && *final(self) == (Pot {
                total_score: final(self).total_score,
                participants: final(self).participants,
                ..*old(self)
            }),
            old(self).wf() ==> final(self).wf(),
            r is Ok && old(self).balanced() ==> final(self).balanced(),
    {
        let ghost pre_pot = *self;
        if contains_id(&self.participants, id) {
            Err(PotMutationError::UserAlreadyExists { user_id: id, pot_id: self.pot_id })
        } else {
            self.participants.push(id);
            self.total_score = self.total_score + self.score_requirement;
            proof {
                let ghost post = *self;
                if old(self).balanced() {
                    assert(post.balanced()) by (nonlinear_arith)
                        requires
                            pre_pot.balanced(),
                            post.participants@.len() == pre_pot.participants@.len() + 1,
                            post.total_score == pre_pot.total_score + pre_pot.score_requirement,
                            post.score_requirement == pre_pot.score_requirement,
                    ;
                }
            }
            Ok(())
        }
    }

    /// Drops a member from the participant list; the entry fee is not
    /// refunded and the total is unchanged. Fails with no change if the
    /// member is not a participant.
    pub fn remove_user(&mut self, id: ID) -> (r: Result<(), PotMutationError>)
        requires
            old(self).wf(),
        ensures
            !old(self).participants@.contains(id) ==> r == Err::<(), PotMutationError>(
                PotMutationError::UserNotInPot { user_id: id, pot_id: old(self).pot_id },
            ) && *final(self) == *old(self),
            old(self).participants@.contains(id) ==> r == Ok::<(), PotMutationError>(())
                && final(self).participants@.len() == old(self).participants@.len() - 1
                && !final(self).participants@.contains(id)
                && (forall|x: ID| x != id ==> final(self).participants@.contains(x) == old(
                self,
            ).participants@.contains(x))
                && *final(self) == (Pot { participants: final(self).participants, ..*old(self) }),
            final(self).wf(),
            final(self).total_score == old(self).total_score,
    {
        let mut i: usize = 0;
        while i < self.participants.len()
            invariant
                old(self).wf(),
                *self == *old(self),
                i <= self.participants@.len(),
                forall|j: int| 0 <= j < i ==> self.participants@[j] != id,
            decreases self.participants@.len() - i,
        {
            if self.participants[i] == id {
                self.participants.remove(i);
                proof {
                    old(self).participants@.remove_ensures(i as int);
                    assert(!self.participants@.contains(id)) by {
                        assert forall|k: int|
                            0 <= k < self.participants@.len() implies self.participants@[k] != id by {
                            if k < i {
                                assert(self.participants@[k] == old(self).participants@[k]);
                            } else {
                                assert(self.participants@[k] == old(self).participants@[k + 1]);
                            }
                        }
                    }
                    assert forall|x: ID| x != id && old(self).participants@.contains(x) implies self.participants@.contains(x) by {
                        let k = choose|k: int|
                            0 <= k < old(self).participants@.len() && old(self).participants@[k]
                                == x;
                        if k < i {
                            assert(self.participants@[k] == x);
                        } else if k > i {
                            assert(self.participants@[k - 1] == x);
                        }
                    }
                    assert forall|x: ID| self.participants@.contains(x) implies old(
                        self,
                    ).participants@.contains(x) by {
                        let k = choose|k: int|
                            0 <= k < self.participants@.len() && self.participants@[k] == x;
                        if k < i {
                            assert(old(self).participants@[k] == x);
                        } else {
                            assert(old(self).participants@[k + 1] == x);
                        }
                    }
                }
                return Ok(());
            }
            i += 1;
        }
        Err(PotMutationError::UserNotInPot { user_id: id, pot_id: self.pot_id })
    }

    pub fn score_req(&self) -> (r: i64)
        ensures
            r == self.score_requirement,
    {
        self.score_requirement
    }

    /// Resolution only reads the accumulated total; the caller credits the
    /// winner and dissolves the pot.
    pub fn resolve(&self) -> (r: i64)
        ensures
            r == self.total_score,
    {
        self.total_score
    }

    pub fn participants(&self) -> (r: &Vec<ID>)
        ensures
            r@ == self.participants@,
    {
        &self.participants
    }
}

impl Clone for Pot {
    /// Clones match the original, field for field.
    fn clone(&self) -> (r: Self)
        ensures
            r.eqv(*self),
    {
        Pot {
            pot_id: self.pot_id,
            total_score: self.total_score,
            score_requirement: self.score_requirement,
            participants: clone_id_vec(&self.participants),
            description: self.description.clone(),
        }
    }
}

} // verus!
