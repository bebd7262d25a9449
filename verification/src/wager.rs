use vstd::prelude::*;

verus! {

use crate::errors::WagerMutationError;
use crate::ids::clone_id_vec;
use crate::ids::contains_id;
use crate::ids::remove_id;
use crate::ID;

/// One outcome a wager can resolve to, with its odds in hundredths: a winner
/// staking S receives S plus S times the odds over one hundred, rounded.
#[derive(PartialEq, Eq, Debug)]
pub struct WagerOutcome {
    pub name: String,
    pub id: ID,
    pub description: String,
    pub odds: usize,
}

impl WagerOutcome {
    /// Content equality, compared through the views of the fields.
    pub open spec fn eqv(self, other: WagerOutcome) -> bool {
        &&& self.name@ == other.name@
        &&& self.id == other.id
        &&& self.description@ == other.description@
        &&& self.odds == other.odds
    }

    pub fn new(name: String, description: String, odds: usize, id: ID) -> (r: WagerOutcome)
        ensures
            r == (WagerOutcome { name, description, odds, id }),
    {
        WagerOutcome { name, description, id, odds }
    }
}

impl Clone for WagerOutcome {
    /// Clones match the original, field for field.
    fn clone(&self) -> (r: Self)
        ensures
            r.eqv(*self),
    {
        WagerOutcome {
            name: self.name.clone(),
            id: self.id,
            description: self.description.clone(),
            odds: self.odds,
        }
    }
}

/// One participant's stake in a wager.
#[derive(Clone, Copy, PartialEq, Eq, Debug)]
pub struct WagerBet {
    pub user: ID,
    pub stake: i64,
}

/// The participants that chose one outcome.
#[derive(PartialEq, Eq, Debug)]
pub struct ChoiceSet {
    pub outcome: ID,
    pub choosers: Vec<ID>,
}

impl Clone for ChoiceSet {
    /// Clones match the original, member for member.
    fn clone(&self) -> (r: Self)
        ensures
            r.outcome == self.outcome,
            r.choosers@ == self.choosers@,
    {
        ChoiceSet { outcome: self.outcome, choosers: clone_id_vec(&self.choosers) }
    }
}

/// One payout owed by a resolved wager.
#[derive(Clone, Copy, PartialEq, Eq, Debug)]
pub struct WagerResult {
    pub participant: ID,
    pub score_diff: i64,
}

/// The amount a winner is owed: the stake back, plus the stake times the
/// odds in hundredths, rounded half away from zero.
pub open spec fn payout(stake: int, odds: int) -> int {
    stake + (stake * odds + 50) / 100
}

/// Whether a list of stakes holds a bet by the given user.
pub open spec fn has_bet(bets: Seq<WagerBet>, user: ID) -> bool {
    exists|i: int| 0 <= i < bets.len() && bets[i].user == user
}

/// The stake the given user laid, assuming one exists.
pub open spec fn stake_of(bets: Seq<WagerBet>, user: ID) -> int {
    bets[choose|i: int| 0 <= i < bets.len() && bets[i].user == user].stake as int
}

/// Each user appears at most once in a list of stakes.
pub open spec fn unique_bet_users(bets: Seq<WagerBet>) -> bool {
    forall|i: int, j: int| 0 <= i < j < bets.len() ==> bets[i].user != bets[j].user
}

/// Each outcome appears at most once in a list of choice sets.
pub open spec fn unique_choice_outcomes(choices: Seq<ChoiceSet>) -> bool {
    forall|i: int, j: int| 0 <= i < j < choices.len() ==> choices[i].outcome != choices[j].outcome
}

/// Each outcome id appears at most once in an outcome table.
pub open spec fn unique_outcome_ids(outcomes: Seq<WagerOutcome>) -> bool {
    forall|i: int, j: int| 0 <= i < j < outcomes.len() ==> outcomes[i].id != outcomes[j].id
}

/// Whether the outcome table holds the given id.
pub open spec fn has_outcome(outcomes: Seq<WagerOutcome>, id: ID) -> bool {
    exists|i: int| 0 <= i < outcomes.len() && outcomes[i].id == id
}

/// Whether `o` stands at or after position `from` in `input` and no entry
/// after it carries the same id: `o` is the last entry with its id.
pub open spec fn last_entry_with_id(input: Seq<WagerOutcome>, from: int, o: WagerOutcome) -> bool {
    exists|j: int|
        from <= j < input.len() && (#[trigger] input[j]) == o && (forall|j2: int|
            j < j2 < input.len() ==> input[j2].id != o.id)
}

/// The odds of the outcome with the given id, assuming one exists.
pub open spec fn odds_of(outcomes: Seq<WagerOutcome>, id: ID) -> int {
    outcomes[choose|i: int| 0 <= i < outcomes.len() && outcomes[i].id == id].odds as int
}

/// The payouts owed when `winners` backed the winning outcome: one entry per
/// staked bet whose user is a winner, in stake order, each paid by the
/// payout formula. Losers get nothing, even when nobody won.
pub open spec fn payout_list(bets: Seq<WagerBet>, winners: Seq<ID>, odds: int) -> Seq<WagerResult>
    decreases bets.len(),
{
    if bets.len() == 0 {
        Seq::empty()
    } else {
        let init = payout_list(bets.drop_last(), winners, odds);
        let last = bets.last();
        if winners.contains(last.user) {
            init.push(
                WagerResult {
                    participant: last.user,
                    score_diff: payout(last.stake as int, odds) as i64,
                },
            )
        } else {
            init
        }
    }
}

/// Every owed payout fits the score type.
pub open spec fn payouts_fit(bets: Seq<WagerBet>, winners: Seq<ID>, odds: int) -> bool {
    forall|i: int|
        0 <= i < bets.len() && winners.contains(#[trigger] bets[i].user) ==> payout(
            bets[i].stake as int,
            odds,
        ) <= i64::MAX
}

/// Each payout-list entry belongs to a distinct staked winner and owes
/// exactly the payout formula on that winner's stake.
pub proof fn lemma_payout_list_props(bets: Seq<WagerBet>, winners: Seq<ID>, odds: int)
    requires
        unique_bet_users(bets),
    ensures
        ({
            let l = payout_list(bets, winners, odds);
            &&& forall|k: int|
                0 <= k < l.len() ==> has_bet(bets, (#[trigger] l[k]).participant)
                    && winners.contains(l[k].participant) && l[k].score_diff == payout(
                    stake_of(bets, l[k].participant),
                    odds,
                ) as i64
            &&& forall|k1: int, k2: int|
                0 <= k1 < k2 < l.len() ==> l[k1].participant != l[k2].participant
        }),
    decreases bets.len(),
{
    if bets.len() > 0 {
        let fewer = bets.drop_last();
        let last = bets.last();
        assert(unique_bet_users(fewer)) by {
            assert forall|i: int, j: int| 0 <= i < j < fewer.len() implies fewer[i].user
                != fewer[j].user by {
                assert(fewer[i] == bets[i]);
                assert(fewer[j] == bets[j]);
            }
        }
        lemma_payout_list_props(fewer, winners, odds);
        let l0 = payout_list(fewer, winners, odds);
        let l = payout_list(bets, winners, odds);
        assert forall|x: ID| has_bet(fewer, x) implies has_bet(bets, x) && x != last.user
            && stake_of(bets, x) == stake_of(fewer, x) by {
            let c = choose|c: int| 0 <= c < fewer.len() && fewer[c].user == x;
            assert(bets[c] == fewer[c]);
            assert(has_bet(bets, x));
            assert(bets[bets.len() - 1].user == last.user);
            assert(x != last.user);
            let a = choose|a: int| 0 <= a < bets.len() && bets[a].user == x;
            assert(a == c);
            let b = choose|b: int| 0 <= b < fewer.len() && fewer[b].user == x;
            assert(b == c);
        }
        if winners.contains(last.user) {
            assert(l == l0.push(
                WagerResult {
                    participant: last.user,
                    score_diff: payout(last.stake as int, odds) as i64,
                },
            ));
            assert(has_bet(bets, last.user)) by {
                assert(bets[bets.len() - 1].user == last.user);
            }
            assert(stake_of(bets, last.user) == last.stake as int) by {
                let c = choose|c: int| 0 <= c < bets.len() && bets[c].user == last.user;
                assert(bets[bets.len() - 1].user == last.user);
                assert(c == bets.len() - 1);
            }
        }
    }
}

/// A wager after one participant has been cleared out of it: the same
/// wager, with the participant's stake gone and the participant out of
/// every choice set; every other stake and choice is kept.
pub open spec fn user_scrubbed(pre: Wager, post: Wager, user: ID) -> bool {
    &&& post.id == pre.id
    &&& post.name == pre.name
    &&& post.outcomes@ == pre.outcomes@
    &&& !has_bet(post.participant_bets@, user)
    &&& forall|x: ID|
        x != user ==> has_bet(post.participant_bets@, x) == has_bet(pre.participant_bets@, x) && (
        has_bet(pre.participant_bets@, x) ==> stake_of(post.participant_bets@, x) == stake_of(
            pre.participant_bets@,
            x,
        ))
    &&& post.participant_choices@.len() == pre.participant_choices@.len()
    &&& forall|k: int|
        0 <= k < post.participant_choices@.len() ==> {
            let cnew = #[trigger] post.participant_choices@[k];
            let cold = pre.participant_choices@[k];
            &&& cnew.outcome == cold.outcome
            &&& !cnew.choosers@.contains(user)
            &&& forall|y: ID| y != user ==> cnew.choosers@.contains(y) == cold.choosers@.contains(y)
        }
}

/// The settlement law: when a wager resolves, a participant who staked S
/// on the winning outcome is owed exactly S plus round(S times the odds
/// over one hundred), and a participant who backed anything else is owed
/// nothing at all.
pub proof fn lemma_payout_owed(bets: Seq<WagerBet>, winners: Seq<ID>, odds: int, user: ID)
    requires
        unique_bet_users(bets),
        has_bet(bets, user),
    ensures
        winners.contains(user) ==> exists|k: int|
            0 <= k < payout_list(bets, winners, odds).len() && (#[trigger] payout_list(
                bets,
                winners,
                odds,
            )[k]).participant == user && payout_list(bets, winners, odds)[k].score_diff == payout(
                stake_of(bets, user),
                odds,
            ) as i64,
        !winners.contains(user) ==> forall|k: int|
            0 <= k < payout_list(bets, winners, odds).len() ==> (#[trigger] payout_list(
                bets,
                winners,
                odds,
            )[k]).participant != user,
    decreases bets.len(),
{
    lemma_payout_list_props(bets, winners, odds);
    if winners.contains(user) {
        let c = choose|c: int| 0 <= c < bets.len() && bets[c].user == user;
        if c == bets.len() - 1 {
            let l = payout_list(bets, winners, odds);
            let init = payout_list(bets.drop_last(), winners, odds);
            assert(bets.last().user == user);
            assert(l == init.push(
                WagerResult {
                    participant: user,
                    score_diff: payout(bets.last().stake as int, odds) as i64,
                },
            ));
            assert(stake_of(bets, user) == bets.last().stake as int);
            assert(l[l.len() - 1].participant == user);
        } else {
            let fewer = bets.drop_last();
            assert(unique_bet_users(fewer)) by {
                assert forall|i: int, j: int| 0 <= i < j < fewer.len() implies fewer[i].user
                    != fewer[j].user by {
                    assert(fewer[i] == bets[i]);
                    assert(fewer[j] == bets[j]);
                }
            }
            assert(fewer[c].user == user);
            assert(has_bet(fewer, user));
            lemma_payout_owed(fewer, winners, odds, user);
            let init = payout_list(fewer, winners, odds);
            let k = choose|k: int|
                0 <= k < init.len() && (#[trigger] init[k]).participant == user && init[k].score_diff
                    == payout(stake_of(fewer, user), odds) as i64;
            let l = payout_list(bets, winners, odds);
            assert(l[k].participant == user);
            assert(stake_of(fewer, user) == stake_of(bets, user)) by {
                let a = choose|a: int| 0 <= a < fewer.len() && fewer[a].user == user;
                assert(fewer[a] == bets[a]);
                let b = choose|b: int| 0 <= b < bets.len() && bets[b].user == user;
                assert(b == a);
            }
        }
    }
}

/// Finds the index of the outcome with the given id, if any.
pub fn find_outcome_index(v: &Vec<WagerOutcome>, id: ID) -> (r: Option<usize>)
    ensures
        match r {
            Some(j) => j < v@.len() && v@[j as int].id == id,
            None => !has_outcome(v@, id),
        },
{
    let mut j: usize = 0;
    while j < v.len()
        invariant
            j <= v@.len(),
            forall|k: int| 0 <= k < j ==> v@[k].id != id,
        decreases v@.len() - j,
    {
        if v[j].id == id {
            return Some(j);
        }
        j += 1;
    }
    None
}

/// Finds the index of the given user's bet, if any.
pub fn find_bet_index(v: &Vec<WagerBet>, user: ID) -> (r: Option<usize>)
    ensures
        match r {
            Some(j) => j < v@.len() && v@[j as int].user == user,
            None => !has_bet(v@, user),
        },
{
    let mut j: usize = 0;
    while j < v.len()
        invariant
            j <= v@.len(),
            forall|k: int| 0 <= k < j ==> v@[k].user != user,
        decreases v@.len() - j,
    {
        if v[j].user == user {
            return Some(j);
        }
        j += 1;
    }
    None
}

/// Finds the index of the choice set for the given outcome, if any.
pub fn find_choice_index(v: &Vec<ChoiceSet>, outcome: ID) -> (r: Option<usize>)
    ensures
        match r {
            Some(j) => j < v@.len() && v@[j as int].outcome == outcome,
            None => forall|k: int| 0 <= k < v@.len() ==> v@[k].outcome != outcome,
        },
{
    let mut j: usize = 0;
    while j < v.len()
        invariant
            j <= v@.len(),
            forall|k: int| 0 <= k < j ==> v@[k].outcome != outcome,
        decreases v@.len() - j,
    {
        if v[j].outcome == outcome {
            return Some(j);
        }
        j += 1;
    }
    None
}

/// A parimutuel bet over a fixed outcome table: each participant stakes once
/// on one outcome; resolution pays the backers of the winning outcome by its
/// odds and forfeits every other stake.
#[derive(PartialEq, Eq, Debug)]
pub struct Wager {
    pub id: ID,
    pub participant_bets: Vec<WagerBet>,
    pub participant_choices: Vec<ChoiceSet>,
    pub outcomes: Vec<WagerOutcome>,
    pub name: String,
}

impl Wager {
    /// Stakes are non-negative and keyed uniquely; each choice set is
    /// duplicate-free, keyed uniquely, and holds only users who staked; the
    /// outcome table is keyed uniquely.
    pub open spec fn wf(self) -> bool {
        &&& unique_bet_users(self.participant_bets@)
        &&& forall|i: int|
            0 <= i < self.participant_bets@.len() ==> (#[trigger] self.participant_bets@[i]).stake
                >= 0
        &&& unique_choice_outcomes(self.participant_choices@)
        &&& forall|i: int|
            0 <= i < self.participant_choices@.len() ==> (
            #[trigger] self.participant_choices@[i]).choosers@.no_duplicates()
        &&& forall|i: int, j: int|
            0 <= i < self.participant_choices@.len() && 0 <= j
                < self.participant_choices@[i].choosers@.len() ==> has_bet(
                self.participant_bets@,
                #[trigger] self.participant_choices@[i].choosers@[j],
            )
        &&& unique_outcome_ids(self.outcomes@)
    }

    /// Content equality, compared through the views of the fields.
    pub open spec fn eqv(self, other: Wager) -> bool {
        &&& self.id == other.id
        &&& self.participant_bets@ == other.participant_bets@
        &&& self.participant_choices@.len() == other.participant_choices@.len()
        &&& forall|i: int|
            0 <= i < self.participant_choices@.len() ==> (
            #[trigger] self.participant_choices@[i]).outcome
                == other.participant_choices@[i].outcome
                && self.participant_choices@[i].choosers@
                == other.participant_choices@[i].choosers@
        &&& self.outcomes@.len() == other.outcomes@.len()
        &&& forall|i: int|
            0 <= i < self.outcomes@.len() ==> (#[trigger] self.outcomes@[i]).eqv(
                other.outcomes@[i],
            )
        &&& self.name@ == other.name@
    }

    /// The choosers recorded for an outcome; empty when nobody chose it.
    pub open spec fn spec_choosers(self, outcome: ID) -> Seq<ID> {
        if exists|i: int|
            0 <= i < self.participant_choices@.len() && self.participant_choices@[i].outcome
                == outcome {
            self.participant_choices@[choose|i: int|
                0 <= i < self.participant_choices@.len() && self.participant_choices@[i].outcome
                    == outcome].choosers@
        } else {
            Seq::empty()
        }
    }

    /// Builds a wager over the given outcome table with nobody staked yet.
    /// A repeated outcome id keeps only the entry that came later; with
    /// distinct ids, the ordinary case, the table is taken exactly as given.
    pub fn new(id: ID, name: String, outcomes: Vec<WagerOutcome>) -> (w: Wager)
        ensures
            w.id == id,
            w.name == name,
            w.participant_bets@ == Seq::<WagerBet>::empty(),
            w.participant_choices@ == Seq::<ChoiceSet>::empty(),
            unique_outcome_ids(w.outcomes@),
            forall|x: ID| has_outcome(w.outcomes@, x) == has_outcome(outcomes@, x),
            forall|k: int|
                0 <= k < w.outcomes@.len() ==> last_entry_with_id(
                    outcomes@,
                    0,
                    #[trigger] w.outcomes@[k],
                ),
            unique_outcome_ids(outcomes@) ==> w.outcomes@ == outcomes@,
            w.wf(),
    {
        let ghost input = outcomes@;
        let mut rest = outcomes;
        let mut table: Vec<WagerOutcome> = Vec::new();
        while rest.len() > 0
            invariant
                rest@.len() <= input.len(),
                rest@ == input.take(rest@.len() as int),
                unique_outcome_ids(table@),
                forall|x: ID| has_outcome(table@, x) == has_outcome(
                    input.skip(rest@.len() as int),
                    x,
                ),
                forall|k: int|
                    0 <= k < table@.len() ==> last_entry_with_id(
                        input,
                        rest@.len() as int,
                        #[trigger] table@[k],
                    ),
                unique_outcome_ids(input) ==> table@ == input.skip(rest@.len() as int),
            decreases rest@.len(),
        {
            let ghost n = rest@.len() as int;
            let ghost pre_table = table@;
            let next = match rest.pop() {
                Some(o) => o,
                None => {
                    proof {
                        assert(false);
                    }
                    unreached()
                },
            };
            proof {
                assert(rest@ =~= input.take(n - 1));
                assert(next == input[n - 1]);
                assert(input.contains(input[n - 1]));
                assert(input.skip(n - 1) == seq![next] + input.skip(n)) by {
                    assert(input.skip(n - 1) =~= seq![next] + input.skip(n));
                }
            }
            match find_outcome_index(&table, next.id) {
                Some(j) => {
                    proof {
                        if unique_outcome_ids(input) {
                            assert(pre_table[j as int] == input[n + j]);
                            assert(input[n + j].id == input[n - 1].id);
                            assert(false);
                        }
                        assert forall|k: int|
                            0 <= k < table@.len() implies last_entry_with_id(
                            input,
                            n - 1,
                            #[trigger] table@[k],
                        ) by {
                            let w = choose|w: int|
                                n <= w < input.len() && (#[trigger] input[w]) == table@[k] && (
                                forall|j2: int| w < j2 < input.len() ==> input[j2].id
                                    != table@[k].id);
                            assert(input[w] == table@[k]);
                        }
                        assert forall|x: ID| has_outcome(table@, x) == has_outcome(
                            input.skip(n - 1),
                            x,
                        ) by {
                            if x == next.id {
                                assert(has_outcome(table@, x));
                                assert(input.skip(n - 1)[0] == next);
                                assert(has_outcome(input.skip(n - 1), x));
                            } else {
                                if has_outcome(input.skip(n - 1), x) {
                                    let k = choose|k: int|
                                        0 <= k < input.skip(n - 1).len() && (#[trigger] input.skip(
                                            n - 1,
                                        )[k].id) == x;
                                    assert(input.skip(n - 1)[k] == input.skip(n)[k - 1]);
                                    assert(has_outcome(input.skip(n), x));
                                }
                                if has_outcome(input.skip(n), x) {
                                    let k = choose|k: int|
                                        0 <= k < input.skip(n).len() && (#[trigger] input.skip(
                                            n,
                                        )[k].id) == x;
                                    assert(input.skip(n - 1)[k + 1] == input.skip(n)[k]);
                                    assert(has_outcome(input.skip(n - 1), x));
                                }
                            }
                        }
                    }
                },
                None => {
                    table.insert(0, next);
                    proof {
                        assert forall|x: ID| has_outcome(table@, x) == has_outcome(
                            input.skip(n - 1),
                            x,
                        ) by {
                            if has_outcome(table@, x) {
                                let k = choose|k: int|
                                    0 <= k < table@.len() && (#[trigger] table@[k].id) == x;
                                if k == 0 {
                                    assert(input.skip(n - 1)[0] == next);
                                    assert(has_outcome(input.skip(n - 1), x));
                                } else {
                                    assert(table@[k] == pre_table[k - 1]);
                                    assert(has_outcome(pre_table, x));
                                    let m = choose|m: int|
                                        0 <= m < input.skip(n).len() && (#[trigger] input.skip(
                                            n,
                                        )[m].id) == x;
                                    assert(input.skip(n - 1)[m + 1] == input.skip(n)[m]);
                                    assert(has_outcome(input.skip(n - 1), x));
                                }
                            }
                            if has_outcome(input.skip(n - 1), x) {
                                let k = choose|k: int|
                                    0 <= k < input.skip(n - 1).len() && (#[trigger] input.skip(
                                        n - 1,
                                    )[k].id) == x;
                                if k == 0 {
                                    assert(table@[0] == next);
                                    assert(has_outcome(table@, x));
                                } else {
                                    assert(input.skip(n - 1)[k] == input.skip(n)[k - 1]);
                                    assert(has_outcome(pre_table, x));
                                    let m = choose|m: int|
                                        0 <= m < pre_table.len() && (#[trigger] pre_table[m].id)
                                            == x;
                                    assert(table@[m + 1] == pre_table[m]);
                                    assert(has_outcome(table@, x));
                                }
                            }
                        }
                        assert forall|k: int|
                            0 <= k < table@.len() implies input.contains(
                            #[trigger] table@[k],
                        ) by {
                            if k == 0 {
                                assert(table@[0] == next);
                            } else {
                                assert(table@[k] == pre_table[k - 1]);
                            }
                        }
                        assert(unique_outcome_ids(table@)) by {
                            assert forall|a: int, b: int|
                                0 <= a < b < table@.len() implies table@[a].id != table@[b].id by {
                                if a == 0 {
                                    assert(table@[b] == pre_table[b - 1]);
                                    assert(!has_outcome(pre_table, next.id));
                                } else {
                                    assert(table@[a] == pre_table[a - 1]);
                                    assert(table@[b] == pre_table[b - 1]);
                                }
                            }
                        }
                        if unique_outcome_ids(input) {
                            assert(table@ =~= input.skip(n - 1));
                        }
                        assert(last_entry_with_id(input, n - 1, next)) by {
                            assert forall|j2: int| n - 1 < j2 < input.len() implies input[j2].id
                                != next.id by {
                                if input[j2].id == next.id {
                                    assert(input.skip(n)[j2 - n].id == next.id);
                                    assert(has_outcome(input.skip(n), next.id));
                                }
                            }
                            assert(input[n - 1] == next);
                        }
                        assert forall|k: int|
                            0 <= k < table@.len() implies last_entry_with_id(
                            input,
                            n - 1,
                            #[trigger] table@[k],
                        ) by {
                            if k == 0 {
                                assert(table@[0] == next);
                            } else {
                                assert(table@[k] == pre_table[k - 1]);
                                let w = choose|w: int|
                                    n <= w < input.len() && (#[trigger] input[w]) == pre_table[k
                                        - 1] && (forall|j2: int|
                                        w < j2 < input.len() ==> input[j2].id != pre_table[k
                                            - 1].id);
                                assert(input[w] == table@[k]);
                            }
                        }
                    }
                },
            }
        }
        proof {
            assert(input.skip(0) =~= input);
        }
        Wager {
            id,
            name,
            outcomes: table,
            participant_bets: Vec::new(),
            participant_choices: Vec::new(),
        }
    }

    /// Records one stake by one participant on one outcome, storing the
    /// stake's absolute value; fails with no change if the participant
    /// already staked on this wager, whatever the outcome.
    pub fn join(&mut self, user: ID, outcome: ID, amount: i64) -> (r: Result<
        (),
        WagerMutationError,
    >)
        requires
            old(self).wf(),
            amount != i64::MIN,
        ensures
            has_bet(old(self).participant_bets@, user) ==> r == Err::<(), WagerMutationError>(
                WagerMutationError::UserAlreadyExists { user_id: user, wager_id: old(self).id },
            ) && *final(self) == *old(self),
            !has_bet(old(self).participant_bets@, user) ==> {
                let stake: int = if amount >= 0 {
                    amount as int
                } else {
                    -(amount as int)
                };
                &&& r == Ok::<(), WagerMutationError>(())
                &&& final(self).participant_bets@ == old(self).participant_bets@.push(
                    WagerBet { user, stake: stake as i64 },
                )
                &&& final(self).spec_choosers(outcome) == old(self).spec_choosers(outcome).push(
                    user,
                )
                &&& forall|x: ID|
                    x != outcome ==> final(self).spec_choosers(x) == old(self).spec_choosers(x)
                &&& final(self).outcomes@ == old(self).outcomes@
                &&& final(self).id == old(self).id
                &&& final(self).name == old(self).name
            },
            final(self).wf(),
    {
        if let Some(_) = find_bet_index(&self.participant_bets, user) {
            return Err(
                WagerMutationError::UserAlreadyExists { user_id: user, wager_id: self.id },
            );
        }
        let ghost pre = *self;
        let stake = if amount < 0 {
            -amount
        } else {
            amount
        };
        match find_choice_index(&self.participant_choices, outcome) {
            Some(j) => {
                // A chooser without a stake cannot exist in a well-formed
                // wager, so this guard is provably never taken.
                if contains_id(&self.participant_choices[j].choosers, user) {
                    proof {
                        let ghost cj = pre.participant_choices@[j as int];
                        let k = choose|k: int|
                            0 <= k < cj.choosers@.len() && cj.choosers@[k] == user;
                        assert(has_bet(pre.participant_bets@, cj.choosers@[k]));
                        assert(false);
                    }
                    return Err(
                        WagerMutationError::UserAlreadyChose { user_id: user, outcome_id: outcome },
                    );
                }
                self.participant_choices[j].choosers.push(user);
            },
            None => {
                let mut first: Vec<ID> = Vec::new();
                first.push(user);
                self.participant_choices.push(ChoiceSet { outcome, choosers: first });
            },
        }
        self.participant_bets.push(WagerBet { user, stake });
        proof {
            let post = *self;
            assert(post.participant_bets@ == pre.participant_bets@.push(
                WagerBet { user, stake },
            ));
            assert forall|x: ID| has_bet(post.participant_bets@, x) implies x == user || has_bet(
                pre.participant_bets@,
                x,
            ) by {
                let k = choose|k: int|
                    0 <= k < post.participant_bets@.len() && post.participant_bets@[k].user == x;
                if k < pre.participant_bets@.len() {
                    assert(has_bet(pre.participant_bets@, x));
                }
            }
            assert forall|x: ID| has_bet(pre.participant_bets@, x) implies has_bet(
                post.participant_bets@,
                x,
            ) by {
                let k = choose|k: int|
                    0 <= k < pre.participant_bets@.len() && pre.participant_bets@[k].user == x;
                assert(post.participant_bets@[k].user == x);
            }
            assert(has_bet(post.participant_bets@, user)) by {
                assert(post.participant_bets@[pre.participant_bets@.len() as int].user == user);
            }
            let cs = post.participant_choices@;
            let pcs = pre.participant_choices@;
            if exists|i: int| 0 <= i < pcs.len() && pcs[i].outcome == outcome {
                let j = choose|i: int| 0 <= i < pcs.len() && pcs[i].outcome == outcome;
                assert(cs[j].outcome == outcome);
                assert forall|x: ID|
                    x != outcome implies post.spec_choosers(x) == pre.spec_choosers(x) by {
                    if exists|i: int| 0 <= i < pcs.len() && pcs[i].outcome == x {
                        let m = choose|i: int| 0 <= i < pcs.len() && pcs[i].outcome == x;
                        assert(cs[m].outcome == x);
                        let m2 = choose|i: int| 0 <= i < cs.len() && cs[i].outcome == x;
                        assert(cs[m2] == pcs[m2]);
                    } else {
                        assert forall|i: int| 0 <= i < cs.len() implies (#[trigger] cs[i]).outcome
                            != x by {
                            assert(pcs[i].outcome == cs[i].outcome);
                        }
                    }
                }
                let j2 = choose|i: int| 0 <= i < cs.len() && cs[i].outcome == outcome;
                assert(cs[j2].choosers@ == pcs[j].choosers@.push(user));
            } else {
                let newlen = pcs.len() as int;
                assert(cs[newlen].outcome == outcome);
                assert(cs[newlen].choosers@ == seq![user]);
                let j2 = choose|i: int| 0 <= i < cs.len() && cs[i].outcome == outcome;
                assert forall|i: int| 0 <= i < newlen implies (#[trigger] cs[i]).outcome
                    != outcome by {
                    assert(cs[i] == pcs[i]);
                }
                assert(j2 == newlen);
                assert(pre.spec_choosers(outcome) == Seq::<ID>::empty());
                assert(cs[newlen].choosers@ =~= pre.spec_choosers(outcome).push(user));
                assert forall|x: ID|
                    x != outcome implies post.spec_choosers(x) == pre.spec_choosers(x) by {
                    if exists|i: int| 0 <= i < pcs.len() && pcs[i].outcome == x {
                        let m = choose|i: int| 0 <= i < pcs.len() && pcs[i].outcome == x;
                        assert(cs[m].outcome == x);
                        let m2 = choose|i: int| 0 <= i < cs.len() && cs[i].outcome == x;
                        assert(m2 < newlen);
                        assert(cs[m2] == pcs[m2]);
                    } else {
                        assert forall|i: int| 0 <= i < cs.len() implies (#[trigger] cs[i]).outcome
                            != x by {
                            if i < newlen {
                                assert(pcs[i].outcome == cs[i].outcome);
                            }
                        }
                    }
                }
            }
        }
        Ok(())
    }

    /// Clears one participant out of the wager entirely: the stake entry and
    /// every choice-set membership; a participant who never staked is left
    /// as a no-op.
    pub fn remove_user(&mut self, user: ID)
        requires
            old(self).wf(),
        ensures
            !has_bet(final(self).participant_bets@, user),
            forall|x: ID|
                x != user ==> has_bet(final(self).participant_bets@, x) == has_bet(
                    old(self).participant_bets@,
                    x,
                ) && (has_bet(old(self).participant_bets@, x) ==> stake_of(
                    final(self).participant_bets@,
                    x,
                ) == stake_of(old(self).participant_bets@, x)),
            final(self).participant_choices@.len() == old(self).participant_choices@.len(),
            forall|k: int|
                0 <= k < final(self).participant_choices@.len() ==> {
                    let cnew = #[trigger] final(self).participant_choices@[k];
                    let cold = old(self).participant_choices@[k];
                    &&& cnew.outcome == cold.outcome
                    &&& !cnew.choosers@.contains(user)
                    &&& forall|y: ID|
                        y != user ==> cnew.choosers@.contains(y) == cold.choosers@.contains(y)
                },
            final(self).outcomes@ == old(self).outcomes@,
            final(self).id == old(self).id,
            final(self).name == old(self).name,
            user_scrubbed(*old(self), *final(self), user),
            final(self).wf(),
    {
        let ghost pre = *self;
        match find_bet_index(&self.participant_bets, user) {
            Some(j) => {
                self.participant_bets.remove(j);
                proof {
                    pre.participant_bets@.remove_ensures(j as int);
                    let cur = self.participant_bets@;
                    assert forall|k: int| 0 <= k < cur.len() implies (#[trigger] cur[k]).user
                        != user by {
                        if k < j {
                            assert(cur[k] == pre.participant_bets@[k]);
                        } else {
                            assert(cur[k] == pre.participant_bets@[k + 1]);
                        }
                    }
                    assert forall|x: ID|
                        x != user && has_bet(pre.participant_bets@, x) implies has_bet(cur, x)
                        && stake_of(cur, x) == stake_of(pre.participant_bets@, x) by {
                        let k = choose|k: int|
                            0 <= k < pre.participant_bets@.len() && pre.participant_bets@[k].user
                                == x;
                        if k < j {
                            assert(cur[k] == pre.participant_bets@[k]);
                            assert(has_bet(cur, x));
                        } else {
                            assert(k > j);
                            assert(cur[k - 1] == pre.participant_bets@[k]);
                            assert(has_bet(cur, x));
                        }
                        let a = choose|a: int| 0 <= a < cur.len() && cur[a].user == x;
                        let b = choose|b: int|
                            0 <= b < pre.participant_bets@.len() && pre.participant_bets@[b].user
                                == x;
                        assert(b == k);
                        if a < j {
                            assert(cur[a] == pre.participant_bets@[a]);
                        } else {
                            assert(cur[a] == pre.participant_bets@[a + 1]);
                        }
                    }
                    assert forall|x: ID| has_bet(cur, x) implies has_bet(
                        pre.participant_bets@,
                        x,
                    ) by {
                        let k = choose|k: int| 0 <= k < cur.len() && cur[k].user == x;
                        if k < j {
                            assert(pre.participant_bets@[k] == cur[k]);
                        } else {
                            assert(pre.participant_bets@[k + 1] == cur[k]);
                        }
                    }
                }
            },
            None => {},
        }
        let ghost mid = *self;
        let mut k: usize = 0;
        while k < self.participant_choices.len()
            invariant
                mid.wf() || (unique_choice_outcomes(mid.participant_choices@) && forall|i: int|
                    0 <= i < mid.participant_choices@.len() ==> (
                    #[trigger] mid.participant_choices@[i]).choosers@.no_duplicates()),
                forall|i: int|
                    0 <= i < mid.participant_choices@.len() ==> (
                    #[trigger] mid.participant_choices@[i]).choosers@.no_duplicates(),
                k <= self.participant_choices@.len(),
                self.participant_choices@.len() == mid.participant_choices@.len(),
                self.participant_bets == mid.participant_bets,
                self.outcomes == mid.outcomes,
                self.id == mid.id,
                self.name == mid.name,
                forall|i: int|
                    k <= i < self.participant_choices@.len() ==> #[trigger] self
                        .participant_choices@[i] == mid.participant_choices@[i],
                forall|i: int|
                    0 <= i < k ==> {
                        let cnew = #[trigger] self.participant_choices@[i];
                        let cold = mid.participant_choices@[i];
                        &&& cnew.outcome == cold.outcome
                        &&& !cnew.choosers@.contains(user)
                        &&& cnew.choosers@.no_duplicates()
                        &&& forall|y: ID|
                            y != user ==> cnew.choosers@.contains(y) == cold.choosers@.contains(y)
                    },
            decreases self.participant_choices@.len() - k,
        {
            proof {
                assert(self.participant_choices@[k as int] == mid.participant_choices@[k as int]);
            }
            remove_id(&mut self.participant_choices[k].choosers, user);
            k += 1;
        }
        proof {
            let post = *self;
            assert forall|i: int, j: int|
                0 <= i < post.participant_choices@.len() && 0 <= j
                    < post.participant_choices@[i].choosers@.len() implies has_bet(
                post.participant_bets@,
                #[trigger] post.participant_choices@[i].choosers@[j],
            ) by {
                let y = post.participant_choices@[i].choosers@[j];
                assert(post.participant_choices@[i].choosers@.contains(y));
                assert(y != user);
                assert(mid.participant_choices@[i].choosers@.contains(y));
                let m = choose|m: int|
                    0 <= m < mid.participant_choices@[i].choosers@.len()
                        && mid.participant_choices@[i].choosers@[m] == y;
                assert(has_bet(mid.participant_bets@, y));
            }
            assert forall|i: int, j: int|
                0 <= i < post.participant_choices@.len() && 0 <= j implies !(0 <= i < j
                    && j < post.participant_choices@.len() && post.participant_choices@[i].outcome
                    == post.participant_choices@[j].outcome) by {
                if 0 <= i < j && j < post.participant_choices@.len() {
                    assert(post.participant_choices@[i].outcome
                        == mid.participant_choices@[i].outcome);
                    assert(post.participant_choices@[j].outcome
                        == mid.participant_choices@[j].outcome);
                }
            }
        }
    }

    /// Computes the payouts for the given winning outcome without touching
    /// the wager's own state: each backer of that outcome is owed stake plus
    /// round(stake times odds over one hundred); everyone else gets nothing,
    /// and a resolution with no winners succeeds with an empty payout list.
    pub fn resolve(&self, outcome: ID) -> (r: Result<Vec<WagerResult>, WagerMutationError>)
        requires
            self.wf(),
        ensures
            !has_outcome(self.outcomes@, outcome) ==> (r matches Err(e) && e == (
            WagerMutationError::NonexistentOutcome { outcome_id: outcome, wager_id: self.id })),
            has_outcome(self.outcomes@, outcome) ==> {
                let odds = odds_of(self.outcomes@, outcome);
                let winners = self.spec_choosers(outcome);
                &&& payouts_fit(self.participant_bets@, winners, odds) ==> (r matches Ok(out)
                    && out@ == payout_list(self.participant_bets@, winners, odds))
                &&& !payouts_fit(self.participant_bets@, winners, odds) ==> (r matches Err(e)
                    && e == WagerMutationError::PayoutOutOfRange)
            },
    {
        let odds: usize = match find_outcome_index(&self.outcomes, outcome) {
            Some(j) => {
                proof {
                    let c = choose|i: int|
                        0 <= i < self.outcomes@.len() && self.outcomes@[i].id == outcome;
                    assert(c == j as int);
                }
                self.outcomes[j].odds
            },
            None => {
                return Err(
                    WagerMutationError::NonexistentOutcome {
                        outcome_id: outcome,
                        wager_id: self.id,
                    },
                );
            },
        };
        let empty: Vec<ID> = Vec::new();
        let winners: &Vec<ID> = match find_choice_index(&self.participant_choices, outcome) {
            Some(j) => {
                proof {
                    let c = choose|i: int|
                        0 <= i < self.participant_choices@.len()
                            && self.participant_choices@[i].outcome == outcome;
                    assert(c == j as int);
                }
                &self.participant_choices[j].choosers
            },
            None => &empty,
        };
        proof {
            assert(winners@ == self.spec_choosers(outcome));
        }
        let ghost godds = odds_of(self.outcomes@, outcome);
        let ghost bets = self.participant_bets@;
        let mut out: Vec<WagerResult> = Vec::new();
        let mut i: usize = 0;
        while i < self.participant_bets.len()
            invariant
                self.wf(),
                has_outcome(self.outcomes@, outcome),
                godds == odds_of(self.outcomes@, outcome),
                godds == odds as int,
                bets == self.participant_bets@,
                winners@ == self.spec_choosers(outcome),
                i <= bets.len(),
                out@ == payout_list(bets.take(i as int), winners@, godds),
                forall|k: int|
                    0 <= k < i && winners@.contains(#[trigger] bets[k].user) ==> payout(
                        bets[k].stake as int,
                        godds,
                    ) <= i64::MAX,
            decreases bets.len() - i,
        {
            proof {
                assert(bets.take(i as int + 1).drop_last() =~= bets.take(i as int));
                assert(bets.take(i as int + 1).last() == bets[i as int]);
            }
            let bet = self.participant_bets[i];
            if contains_id(winners, bet.user) {
                let stake_w: u128 = bet.stake as u128;
                let odds_w: u128 = odds as u128;
                proof {
                    assert(stake_w * odds_w <= 0x7fff_ffff_ffff_ffffu128 * 0xffff_ffff_ffff_ffffu128)
                        by (nonlinear_arith)
                        requires
                            stake_w <= 0x7fff_ffff_ffff_ffffu128,
                            odds_w <= 0xffff_ffff_ffff_ffffu128,
                    ;
                }
                let prod: u128 = stake_w * odds_w;
                let rounded: u128 = (prod + 50) / 100;
                proof {
                    assert(rounded <= prod + 50) by (nonlinear_arith)
                        requires
                            rounded == (prod + 50) / 100,
                    ;
                }
                let diff: u128 = rounded + stake_w;
                proof {
                    assert(diff as int == payout(bet.stake as int, godds));
                }
                if diff > i64::MAX as u128 {
                    proof {
                        assert(!payouts_fit(bets, winners@, godds)) by {
                            assert(winners@.contains(bets[i as int].user));
                            assert(payout(bets[i as int].stake as int, godds) > i64::MAX);
                        }
                    }
                    return Err(WagerMutationError::PayoutOutOfRange);
                }
                proof {
                    assert(diff as int == payout(bet.stake as int, godds));
                }
                out.push(WagerResult { participant: bet.user, score_diff: diff as i64 });
            }
            i += 1;
        }
        proof {
            assert(bets.take(bets.len() as int) =~= bets);
        }
        Ok(out)
    }

    /// The wager's display name.
    pub fn name(&self) -> (r: String)
        ensures
            r@ == self.name@,
    {
        self.name.clone()
    }

    /// A copy of the outcome table, in stored order.
    pub fn outcomes(&self) -> (r: Vec<WagerOutcome>)
        ensures
            r@.len() == self.outcomes@.len(),
            forall|i: int| 0 <= i < r@.len() ==> (#[trigger] r@[i]).eqv(self.outcomes@[i]),
    {
        let mut out: Vec<WagerOutcome> = Vec::new();
        let mut i: usize = 0;
        while i < self.outcomes.len()
            invariant
                i <= self.outcomes@.len(),
                out@.len() == i,
                forall|j: int| 0 <= j < i ==> (#[trigger] out@[j]).eqv(self.outcomes@[j]),
            decreases self.outcomes@.len() - i,
        {
            out.push(self.outcomes[i].clone());
            i += 1;
        }
        out
    }
}

impl Clone for Wager {
    /// Clones match the original, field for field.
    fn clone(&self) -> (r: Self)
        ensures
            r.eqv(*self),
    {
        let mut bets: Vec<WagerBet> = Vec::new();
        let mut i: usize = 0;
        while i < self.participant_bets.len()
            invariant
                i <= self.participant_bets@.len(),
                bets@.len() == i,
                forall|j: int| 0 <= j < i ==> bets@[j] == self.participant_bets@[j],
            decreases self.participant_bets@.len() - i,
        {
            bets.push(self.participant_bets[i]);
            i += 1;
        }
        proof {
            assert(bets@ =~= self.participant_bets@);
        }
        let mut choices: Vec<ChoiceSet> = Vec::new();
        let mut i: usize = 0;
        while i < self.participant_choices.len()
            invariant
                i <= self.participant_choices@.len(),
                choices@.len() == i,
                forall|j: int|
                    0 <= j < i ==> (#[trigger] choices@[j]).outcome == self.participant_choices@[j].outcome && choices@[j].choosers@ == self.participant_choices@[j].choosers@,
            decreases self.participant_choices@.len() - i,
        {
            choices.push(self.participant_choices[i].clone());
            i += 1;
        }
        Wager {
            id: self.id,
            participant_bets: bets,
            participant_choices: choices,
            outcomes: self.outcomes(),
            name: self.name.clone(),
        }
    }
}

} // verus!
