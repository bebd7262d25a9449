use vstd::prelude::*;

verus! {

use crate::errors::RoomMutationError;
use crate::ids::clone_id_vec;
use crate::ID;

/// A member's ledger entry in one room: identity, display name, score, and
/// the pots and wagers the member currently participates in.
#[derive(PartialEq, Eq, Debug)]
pub struct MemberState {
    pub id: ID,
    pub name: String,
    pub score: i64,
    pub current_wagers: Vec<ID>,
    pub current_pots: Vec<ID>,
}

impl MemberState {
    /// The score is never negative and each membership list holds an id at
    /// most once.
    pub open spec fn wf(self) -> bool {
        &&& self.score >= 0
        &&& self.current_wagers@.no_duplicates()
        &&& self.current_pots@.no_duplicates()
    }

    /// Content equality: the same record, compared through the views of its
    /// fields. Clones are `eqv` to their originals.
    pub open spec fn eqv(self, other: MemberState) -> bool {
        &&& self.id == other.id
        &&& self.name@ == other.name@
        &&& self.score == other.score
        &&& self.current_wagers@ == other.current_wagers@
        &&& self.current_pots@ == other.current_pots@
    }

    /// A fresh member starts with score zero and no pot or wager
    /// participations.
    pub fn new(name: String, id: ID) -> (m: MemberState)
        ensures
            m.id == id,
            m.name == name,
            m.score == 0,
            m.current_wagers@ == Seq::<ID>::empty(),
            m.current_pots@ == Seq::<ID>::empty(),
            m.wf(),
    {
        MemberState { name, score: 0, id, current_wagers: Vec::new(), current_pots: Vec::new() }
    }

    pub fn score(&self) -> (s: i64)
        ensures
            s == self.score,
    {
        self.score
    }

    /// Commits a new score, or rejects a negative one with no change; the
    /// score is rejected, never clamped.
    pub fn set_score(&mut self, score: i64) -> (r: Result<(), RoomMutationError>)
        ensures
            score < 0 ==> r == Err::<(), RoomMutationError>(RoomMutationError::NegativeScore)
                && *final(self) == *old(self),
            score >= 0 ==> r == Ok::<(), RoomMutationError>(()) && *final(self) == (MemberState {
                score,
                ..*old(self)
            }),
            old(self).wf() ==> final(self).wf(),
    {
        if score < 0 {
            return Err(RoomMutationError::NegativeScore);
        }
        self.score = score;
        Ok(())
    }

    pub fn id(&self) -> (r: ID)
        ensures
            r == self.id,
    {
        self.id
    }

    /// Borrows the wager-membership list for update; the member's other
    /// fields are untouched by whatever the caller writes through the
    /// borrow.
    pub fn current_wagers_mut(&mut self) -> (r: &mut Vec<ID>)
        ensures
            *r == old(self).current_wagers,
            *final(self) == (MemberState { current_wagers: *final(r), ..*old(self) }),
    {
        &mut self.current_wagers
    }

    /// Borrows the pot-membership list for update; the member's other fields
    /// are untouched by whatever the caller writes through the borrow.
    pub fn current_pots_mut(&mut self) -> (r: &mut Vec<ID>)
        ensures
            *r == old(self).current_pots,
            *final(self) == (MemberState { current_pots: *final(r), ..*old(self) }),
    {
        &mut self.current_pots
    }
}

impl Clone for MemberState {
    /// Clones match the original field for field.
    fn clone(&self) -> (r: Self)
        ensures
            r.eqv(*self),
    {
        let name = self.name.clone();
        let current_wagers = clone_id_vec(&self.current_wagers);
        let current_pots = clone_id_vec(&self.current_pots);
        MemberState { id: self.id, name, score: self.score, current_wagers, current_pots }
    }
}

} // verus!
