//! The contract's state machine: initialization, vote casting, admin-gated
//! configuration, and the read-only queries.

use vstd::prelude::*;

use crate::model::count_for;
use crate::model::funds_for;
use crate::model::has_id;
use crate::model::index_of_id;
use crate::model::lemma_count_le_len;
use crate::model::lemma_funds_nonneg;
use crate::model::lemma_index_of_id_unique;
use crate::model::lemma_remove_insert_is_update;
use crate::model::lemma_seed_options_props;
use crate::model::lemma_seed_options_take_step;
use crate::model::lemma_tallies_absent;
use crate::model::lemma_tallies_push;
use crate::model::lemma_vote_of_unique;
use crate::model::lemma_voters_push;
use crate::model::seed_options;
use crate::model::unique_ids;
use crate::model::unique_voters;
use crate::model::upsert_option;
use crate::model::vote_of;
use crate::model::voted;
use crate::model::zeroed_option;
use crate::model::TransferIntent;
use crate::model::VoteRecord;
use crate::model::VotingError;
use crate::model::VotingOption;

verus! {

/// The contract's persisted state, as one value.
///
/// The hosting environment is expected to run each operation on it as one
/// all-or-nothing unit of work and to discard the new value whenever the
/// operation, or the fund transfer a successful vote asks for, fails.
/// Identity verification stays outside: the `admin` and `voter` arguments
/// below are taken to be already authenticated by the caller's context.
///
/// The fields are public so that a host shell can persist the state and
/// rebuild it between invocations; verified callers reason through the spec
/// projections and the operations' contracts below.
pub struct VotingContract {
    pub admin: Option<u64>,
    pub active: bool,
    pub total_votes: u32,
    pub options: Vec<VotingOption>,
    pub records: Vec<VoteRecord>,
    pub voters: Vec<(u64, u32)>,
}

impl VotingContract {
    /// The stored admin identity, if initialization has happened.
    pub closed spec fn spec_admin(self) -> Option<u64> {
        self.admin
    }

    /// Whether `initialize` has completed successfully.
    pub open spec fn is_initialized(self) -> bool {
        self.spec_admin() is Some
    }

    /// Whether votes are currently accepted.
    pub closed spec fn spec_active(self) -> bool {
        self.active
    }

    /// How many votes were accepted; also the next free audit-log index.
    pub closed spec fn spec_total_votes(self) -> u32 {
        self.total_votes
    }

    /// The audit log, in the order the votes were accepted.
    pub closed spec fn spec_records(self) -> Seq<VoteRecord> {
        self.records@
    }

    /// The option registry, in the order the options were first stored.
    pub closed spec fn spec_options(self) -> Seq<VotingOption> {
        self.options@
    }

    /// One entry per voter that has voted: the voter and its chosen option.
    pub closed spec fn spec_voters(self) -> Seq<(u64, u32)> {
        self.voters@
    }

    /// Whether the registry holds an option with this id.
    pub open spec fn spec_has_option(self, id: u32) -> bool {
        has_id(self.spec_options(), id)
    }

    /// The stored option with this id (determined when `spec_has_option`).
    pub open spec fn spec_option(self, id: u32) -> VotingOption {
        self.spec_options()[index_of_id(self.spec_options(), id)]
    }

    /// Whether this voter has a recorded vote.
    pub open spec fn spec_has_voted(self, voter: u64) -> bool {
        voted(self.spec_voters(), voter)
    }

    /// The option this voter chose (determined when `spec_has_voted`).
    pub open spec fn spec_user_vote(self, voter: u64) -> u32 {
        vote_of(self.spec_voters(), voter)
    }

    /// Well-formedness: what holds of the state after every completed
    /// operation. The counter equals the log's length; option ids and voters
    /// are stored at most once; each option's aggregates tally exactly the
    /// log's entries for its id; every logged amount is positive and names a
    /// stored option; an uninitialized contract is empty and inactive.
    pub closed spec fn wf(self) -> bool {
        &&& self.total_votes as nat == self.records@.len()
        &&& unique_ids(self.options@)
        &&& unique_voters(self.voters@)
        &&& forall|i: int|
            0 <= i < self.options@.len() ==> (#[trigger] self.options@[i]).vote_count as nat
                == count_for(self.records@, self.options@[i].id)
        &&& forall|i: int|
            0 <= i < self.options@.len() ==> (#[trigger] self.options@[i]).total_funds as int
                == funds_for(self.records@, self.options@[i].id)
        &&& forall|k: int| 0 <= k < self.records@.len() ==> (#[trigger] self.records@[k]).amount > 0
        &&& forall|k: int|
            0 <= k < self.records@.len() ==> has_id(
                self.options@,
                (#[trigger] self.records@[k]).option_id,
            )
        &&& self.admin is None ==> !self.active && self.total_votes == 0 && self.options@.len()
            == 0 && self.records@.len() == 0 && self.voters@.len() == 0
    }

    /// The checks a vote must pass, in the order they are made; `None` means
    /// the vote is accepted. The voter's identity itself is verified by the
    /// hosting environment before the operation body runs.
    pub open spec fn vote_decision(self, voter: u64, option_id: u32, amount: i128) -> Option<
        VotingError,
    > {
        if !self.spec_active() {
            Some(VotingError::VotingInactive)
        } else if self.spec_has_voted(voter) {
            Some(VotingError::AlreadyVoted)
        } else if amount <= 0 {
            Some(VotingError::InvalidAmount)
        } else if !self.spec_has_option(option_id) {
            Some(VotingError::InvalidOption)
        } else {
            None
        }
    }

    /// The check in front of every admin operation: the contract must be
    /// initialized and the caller must present the stored admin identity.
    pub open spec fn admin_decision(self, admin: u64) -> Option<VotingError> {
        if !self.is_initialized() {
            Some(VotingError::NotInitialized)
        } else if self.spec_admin() != Some(admin) {
            Some(VotingError::Unauthorized)
        } else {
            None
        }
    }

    /// A fresh, uninitialized contract: inactive and empty.
    pub fn new() -> (r: VotingContract)
        ensures
            r.wf(),
            !r.is_initialized(),
            !r.spec_active(),
            r.spec_total_votes() == 0,
            r.spec_options() == Seq::<VotingOption>::empty(),
            r.spec_records() == Seq::<VoteRecord>::empty(),
            r.spec_voters() == Seq::<(u64, u32)>::empty(),
    {
        VotingContract {
            admin: None,
            active: false,
            total_votes: 0,
            options: Vec::new(),
            records: Vec::new(),
            voters: Vec::new(),
        }
    }

    /// Store one option with zeroed aggregates: replace the registry entry
    /// holding its id, or append it.
    fn store_zeroed(&mut self, o: VotingOption)
        requires
            unique_ids(old(self).options@),
        ensures
            final(self).options@ == upsert_option(old(self).options@, zeroed_option(o)),
            final(self).admin == old(self).admin,
            final(self).active == old(self).active,
            final(self).total_votes == old(self).total_votes,
            final(self).records@ == old(self).records@,
            final(self).voters@ == old(self).voters@,
    {
        let z = VotingOption {
            id: o.id,
            name: o.name,
            recipient: o.recipient,
            vote_count: 0u64,
            total_funds: 0i128,
        };
        match self.find_option_index(z.id) {
            Some(i) => {
                proof {
                    lemma_index_of_id_unique(self.options@, i as int);
                    lemma_remove_insert_is_update(self.options@, i as int, z);
                }
                self.options.remove(i);
                self.options.insert(i, z);
            },
            None => {
                self.options.push(z);
            },
        }
    }

    /// One-time setup: store the admin, activate voting, reset the counter,
    /// and seed the option registry with zeroed aggregates. A repeated id in
    /// the input overwrites the earlier entry, as storing under the id does.
    pub fn initialize(&mut self, admin: u64, options: Vec<VotingOption>) -> (r: Result<
        (),
        VotingError,
    >)
        requires
            old(self).wf(),
        ensures
            final(self).wf(),
            old(self).is_initialized() ==> r == Err::<(), VotingError>(
                VotingError::AlreadyInitialized,
            ) && *final(self) == *old(self),
            !old(self).is_initialized() ==> {
                &&& r == Ok::<(), VotingError>(())
                &&& final(self).spec_admin() == Some(admin)
                &&& final(self).spec_active()
                &&& final(self).spec_total_votes() == 0
                &&& final(self).spec_options() == seed_options(options@)
                &&& final(self).spec_records() == Seq::<VoteRecord>::empty()
                &&& final(self).spec_voters() == Seq::<(u64, u32)>::empty()
            },
    {
        if self.admin.is_some() {
            return Err(VotingError::AlreadyInitialized);
        }
        self.admin = Some(admin);
        self.active = true;
        self.total_votes = 0;
        let ghost input = options@;
        let mut rest = options;
        proof {
            assert(input.take(0) =~= Seq::<VotingOption>::empty());
            assert(rest@ =~= input.subrange(0, input.len() as int));
        }
        while rest.len() > 0
            invariant
                rest@.len() <= input.len(),
                rest@ == input.subrange(
                    input.len() - rest@.len(),
                    input.len() as int,
                ),
                self.options@ == seed_options(input.take(input.len() - rest@.len())),
                self.admin == Some(admin),
                self.active,
                self.total_votes == 0,
                self.records@.len() == 0,
                self.voters@.len() == 0,
            decreases rest@.len(),
        {
            let ghost j = input.len() - rest@.len();
            let o = rest.remove(0);
            proof {
                assert(o == input[j]);
                assert(rest@ =~= input.subrange(j + 1, input.len() as int));
                lemma_seed_options_props(input.take(j));
                lemma_seed_options_take_step(input, j);
            }
            self.store_zeroed(o);
        }
        proof {
            assert(input.take(input.len() as int) =~= input);
            lemma_seed_options_props(input);
            assert forall|k: int| 0 <= k < self.options@.len() implies (
            #[trigger] self.options@[k]).vote_count as nat == count_for(
                self.records@,
                self.options@[k].id,
            ) && self.options@[k].total_funds as int == funds_for(
                self.records@,
                self.options@[k].id,
            ) by {
                assert(self.records@ =~= Seq::<VoteRecord>::empty());
            }
        }
        Ok(())
    }

    /// Flip whether votes are accepted and return the new status; only the
    /// stored admin may do it, and only after initialization.
    pub fn toggle_voting(&mut self, admin: u64) -> (r: Result<bool, VotingError>)
        requires
            old(self).wf(),
        ensures
            final(self).wf(),
            match old(self).admin_decision(admin) {
                Some(e) => r == Err::<bool, VotingError>(e) && *final(self) == *old(self),
                None => {
                    &&& r == Ok::<bool, VotingError>(!old(self).spec_active())
                    &&& final(self).spec_active() == !old(self).spec_active()
                    &&& final(self).spec_admin() == old(self).spec_admin()
                    &&& final(self).spec_total_votes() == old(self).spec_total_votes()
                    &&& final(self).spec_options() == old(self).spec_options()
                    &&& final(self).spec_records() == old(self).spec_records()
                    &&& final(self).spec_voters() == old(self).spec_voters()
                },
            },
    {
        let stored = match self.admin {
            None => {
                return Err(VotingError::NotInitialized);
            },
            Some(a) => a,
        };
        if admin != stored {
            return Err(VotingError::Unauthorized);
        }
        let new_status = !self.active;
        self.active = new_status;
        Ok(new_status)
    }

    /// Add one option to the registry with zeroed aggregates; only the stored
    /// admin may do it, and an id already stored is refused.
    pub fn add_option(&mut self, admin: u64, option: VotingOption) -> (r: Result<(), VotingError>)
        requires
            old(self).wf(),
        ensures
            final(self).wf(),
            match old(self).admin_decision(admin) {
                Some(e) => r == Err::<(), VotingError>(e) && *final(self) == *old(self),
                None => {
                    if old(self).spec_has_option(option.id) {
                        &&& r == Err::<(), VotingError>(VotingError::OptionAlreadyExists)
                        &&& *final(self) == *old(self)
                    } else {
                        &&& r == Ok::<(), VotingError>(())
                        &&& final(self).spec_options() == old(self).spec_options().push(
                            zeroed_option(option),
                        )
                        &&& final(self).spec_admin() == old(self).spec_admin()
                        &&& final(self).spec_active() == old(self).spec_active()
                        &&& final(self).spec_total_votes() == old(self).spec_total_votes()
                        &&& final(self).spec_records() == old(self).spec_records()
                        &&& final(self).spec_voters() == old(self).spec_voters()
                    }
                },
            },
    {
        let stored = match self.admin {
            None => {
                return Err(VotingError::NotInitialized);
            },
            Some(a) => a,
        };
        if admin != stored {
            return Err(VotingError::Unauthorized);
        }
        match self.find_option_index(option.id) {
            Some(_) => Err(VotingError::OptionAlreadyExists),
            None => {
                let z = VotingOption {
                    id: option.id,
                    name: option.name,
                    recipient: option.recipient,
                    vote_count: 0u64,
                    total_funds: 0i128,
                };
                proof {
                    assert forall|k: int|
                        0 <= k < self.records@.len() implies (#[trigger] self.records@[k]).option_id
                        != z.id by {
                        assert(has_id(self.options@, self.records@[k].option_id));
                    }
                    lemma_tallies_absent(self.records@, z.id);
                }
                let ghost pre = self.options@;
                self.options.push(z);
                proof {
                    let post = self.options@;
                    assert(post[pre.len() as int] == z);
                    assert forall|p: int, q: int| 0 <= p < q < post.len() implies (
                    #[trigger] post[p]).id != (#[trigger] post[q]).id by {
                        if q < pre.len() {
                            assert(pre[p].id != pre[q].id);
                        } else {
                            assert(post[p] == pre[p]);
                            if pre[p].id == z.id {
                                assert(has_id(pre, z.id));
                            }
                        }
                    }
                    assert forall|k: int| 0 <= k < self.records@.len() implies has_id(
                        post,
                        (#[trigger] self.records@[k]).option_id,
                    ) by {
                        let id = self.records@[k].option_id;
                        assert(has_id(pre, id));
                        let w = choose|w: int| 0 <= w < pre.len() && (#[trigger] pre[w]).id == id;
                        assert(post[w].id == id);
                    }
                }
                Ok(())
            },
        }
    }

    /// The position of the option with this id, scanning the registry.
    fn find_option_index(&self, id: u32) -> (r: Option<usize>)
        ensures
            match r {
                Some(i) => i < self.options@.len() && self.options@[i as int].id == id,
                None => !has_id(self.options@, id),
            },
    {
        let mut i: usize = 0;
        while i < self.options.len()
            invariant
                i <= self.options@.len(),
                forall|j: int| 0 <= j < i ==> (#[trigger] self.options@[j]).id != id,
            decreases self.options@.len() - i,
        {
            if self.options[i].id == id {
                return Some(i);
            }
            i = i + 1;
        }
        None
    }

    /// The position of this voter's entry, scanning the voter registry.
    fn find_voter_index(&self, voter: u64) -> (r: Option<usize>)
        ensures
            match r {
                Some(i) => i < self.voters@.len() && self.voters@[i as int].0 == voter,
                None => !voted(self.voters@, voter),
            },
    {
        let mut i: usize = 0;
        while i < self.voters.len()
            invariant
                i <= self.voters@.len(),
                forall|j: int| 0 <= j < i ==> (#[trigger] self.voters@[j]).0 != voter,
            decreases self.voters@.len() - i,
        {
            if self.voters[i].0 == voter {
                return Some(i);
            }
            i = i + 1;
        }
        None
    }

    /// Cast a vote. On success: the chosen option's aggregates, the audit
    /// log, the voter registry and the counter are all updated in one step,
    /// and the returned intent names the transfer the external ledger must
    /// perform for this vote — `amount` of the token at `token` from the
    /// voter to the option's recipient. The hosting environment discards the
    /// whole step if that transfer fails, and verifies `voter`'s identity
    /// before this runs. Any refusal leaves the state unchanged.
    pub fn vote(
        &mut self,
        voter: u64,
        option_id: u32,
        amount: i128,
        token: u64,
        timestamp: u64,
    ) -> (r: Result<TransferIntent, VotingError>)
        requires
            old(self).wf(),
            old(self).vote_decision(voter, option_id, amount) is None ==> old(
                self,
            ).spec_total_votes() < u32::MAX,
            old(self).vote_decision(voter, option_id, amount) is None ==> old(self).spec_option(
                option_id,
            ).total_funds + amount <= i128::MAX,
        ensures
            final(self).wf(),
            match old(self).vote_decision(voter, option_id, amount) {
                Some(e) => r == Err::<TransferIntent, VotingError>(e) && *final(self) == *old(
                    self,
                ),
                None => {
                    let prior = old(self).spec_option(option_id);
                    let rec = (VoteRecord { voter, option_id, amount, timestamp });
                    let bumped = (VotingOption {
                        vote_count: (prior.vote_count + 1) as u64,
                        total_funds: (prior.total_funds + amount) as i128,
                        ..prior
                    });
                    &&& r == Ok::<TransferIntent, VotingError>(
                        TransferIntent { token, from: voter, to: prior.recipient, amount },
                    )
                    &&& final(self).spec_admin() == old(self).spec_admin()
                    &&& final(self).spec_active() == old(self).spec_active()
                    &&& final(self).spec_total_votes() == old(self).spec_total_votes() + 1
                    &&& final(self).spec_records() == old(self).spec_records().push(rec)
                    &&& final(self).spec_options() == old(self).spec_options().update(
                        index_of_id(old(self).spec_options(), option_id),
                        bumped,
                    )
                    &&& final(self).spec_voters() == old(self).spec_voters().push(
                        (voter, option_id),
                    )
                    &&& final(self).spec_has_voted(voter)
                    &&& final(self).spec_user_vote(voter) == option_id
                    &&& final(self).spec_records()[old(self).spec_total_votes() as int] == rec
                    &&& forall|v: u64|
                        v != voter ==> (final(self).spec_has_voted(v) <==> old(
                            self,
                        ).spec_has_voted(v))
                    &&& forall|v: u64|
                        v != voter && old(self).spec_has_voted(v) ==> final(self).spec_user_vote(v)
                            == old(self).spec_user_vote(v)
                },
            },
    {
        if !self.active {
            return Err(VotingError::VotingInactive);
        }
        if self.find_voter_index(voter).is_some() {
            return Err(VotingError::AlreadyVoted);
        }
        if amount <= 0 {
            return Err(VotingError::InvalidAmount);
        }
        let idx = match self.find_option_index(option_id) {
            None => {
                return Err(VotingError::InvalidOption);
            },
            Some(i) => i,
        };
        proof {
            lemma_index_of_id_unique(self.options@, idx as int);
            lemma_count_le_len(self.records@, option_id);
            lemma_funds_nonneg(self.records@, option_id);
        }
        let ghost pre_options = self.options@;
        let ghost pre_records = self.records@;
        let ghost pre_voters = self.voters@;
        let prior = self.options.remove(idx);
        let bumped = VotingOption {
            id: prior.id,
            name: prior.name,
            recipient: prior.recipient,
            vote_count: prior.vote_count + 1,
            total_funds: prior.total_funds + amount,
        };
        let recipient = bumped.recipient;
        self.options.insert(idx, bumped);
        proof {
            lemma_remove_insert_is_update(pre_options, idx as int, self.options@[idx as int]);
        }
        let rec = VoteRecord { voter, option_id, amount, timestamp };
        self.records.push(rec);
        self.voters.push((voter, option_id));
        self.total_votes = self.total_votes + 1;
        proof {
            let post_options = self.options@;
            let post_records = self.records@;
            assert forall|i: int| 0 <= i < post_options.len() implies (
            #[trigger] post_options[i]).vote_count as nat == count_for(
                post_records,
                post_options[i].id,
            ) && post_options[i].total_funds as int == funds_for(
                post_records,
                post_options[i].id,
            ) by {
                lemma_tallies_push(pre_records, rec, post_options[i].id);
                if i != idx {
                    assert(post_options[i] == pre_options[i]);
                    assert(pre_options[i].id != pre_options[idx as int].id);
                }
            }
            assert forall|k: int| 0 <= k < post_records.len() implies has_id(
                post_options,
                (#[trigger] post_records[k]).option_id,
            ) by {
                if k < pre_records.len() {
                    assert(has_id(pre_options, pre_records[k].option_id));
                    let w = choose|w: int|
                        0 <= w < pre_options.len() && (#[trigger] pre_options[w]).id
                            == pre_records[k].option_id;
                    assert(post_options[w].id == pre_records[k].option_id);
                } else {
                    assert(post_options[idx as int].id == option_id);
                }
            }
            lemma_voters_push(pre_voters, voter, option_id);
        }
        Ok(TransferIntent { token, from: voter, to: recipient, amount })
    }

    /// The stored option with this id, carrying its current aggregates, or
    /// `None` if no option has the id.
    pub fn get_option_results(&self, option_id: u32) -> (r: Option<VotingOption>)
        requires
            self.wf(),
        ensures
            r == if self.spec_has_option(option_id) {
                Some(self.spec_option(option_id))
            } else {
                None::<VotingOption>
            },
    {
        match self.find_option_index(option_id) {
            Some(i) => {
                proof {
                    lemma_index_of_id_unique(self.options@, i as int);
                }
                Some(self.copy_option(i))
            },
            None => None,
        }
    }

    /// Every stored option with its current aggregates, in registry order.
    pub fn get_all_results(&self) -> (r: Vec<VotingOption>)
        ensures
            r@ == self.spec_options(),
    {
        let mut out: Vec<VotingOption> = Vec::new();
        let mut i: usize = 0;
        while i < self.options.len()
            invariant
                i <= self.options@.len(),
                out@ == self.options@.take(i as int),
            decreases self.options@.len() - i,
        {
            let c = self.copy_option(i);
            out.push(c);
            proof {
                assert(self.options@.take(i + 1) =~= self.options@.take(i as int).push(
                    self.options@[i as int],
                ));
            }
            i = i + 1;
        }
        proof {
            assert(self.options@.take(self.options@.len() as int) =~= self.options@);
        }
        out
    }

    /// Law: in a well-formed state the counter equals the audit log's
    /// length (so the counter is also the next free log index), option ids
    /// and voters are stored at most once, each option's aggregates tally
    /// exactly the log's entries for its id, and every logged vote carries
    /// a strictly positive amount and names a stored option.
    pub proof fn lemma_state_invariants(self)
        requires
            self.wf(),
        ensures
            self.spec_total_votes() as nat == self.spec_records().len(),
            unique_ids(self.spec_options()),
            unique_voters(self.spec_voters()),
            forall|i: int|
                0 <= i < self.spec_options().len() ==> (
                #[trigger] self.spec_options()[i]).vote_count as nat == count_for(
                    self.spec_records(),
                    self.spec_options()[i].id,
                ),
            forall|i: int|
                0 <= i < self.spec_options().len() ==> (
                #[trigger] self.spec_options()[i]).total_funds as int == funds_for(
                    self.spec_records(),
                    self.spec_options()[i].id,
                ),
            forall|k: int|
                0 <= k < self.spec_records().len() ==> (#[trigger] self.spec_records()[k]).amount
                    > 0,
            forall|k: int|
                0 <= k < self.spec_records().len() ==> has_id(
                    self.spec_options(),
                    (#[trigger] self.spec_records()[k]).option_id,
                ),
    {
    }

    /// Law: a voter with a recorded vote can never vote again — no input
    /// makes the decision accept it, and while voting is active the refusal
    /// is exactly `AlreadyVoted`.
    pub proof fn lemma_no_double_vote(self, voter: u64, option_id: u32, amount: i128)
        requires
            self.spec_has_voted(voter),
        ensures
            self.vote_decision(voter, option_id, amount) is Some,
            self.spec_active() ==> self.vote_decision(voter, option_id, amount) == Some(
                VotingError::AlreadyVoted,
            ),
    {
    }

    /// Law: an uninitialized contract accepts no vote — it holds no state to
    /// vote on, and its decision is `VotingInactive`.
    pub proof fn lemma_uninitialized_is_inactive(self, voter: u64, option_id: u32, amount: i128)
        requires
            self.wf(),
            !self.is_initialized(),
        ensures
            !self.spec_active(),
            self.vote_decision(voter, option_id, amount) == Some(VotingError::VotingInactive),
    {
    }

    /// An owned copy of the registry entry at this position.
    fn copy_option(&self, i: usize) -> (r: VotingOption)
        requires
            i < self.options@.len(),
        ensures
            r == self.options@[i as int],
    {
        let name = self.options[i].name.clone();
        VotingOption {
            id: self.options[i].id,
            name,
            recipient: self.options[i].recipient,
            vote_count: self.options[i].vote_count,
            total_funds: self.options[i].total_funds,
        }
    }

    /// Whether this voter has already cast a vote.
    pub fn has_voted(&self, voter: u64) -> (r: bool)
        ensures
            r == self.spec_has_voted(voter),
    {
        self.find_voter_index(voter).is_some()
    }

    /// The option this voter chose, if the voter has voted.
    pub fn get_user_vote(&self, voter: u64) -> (r: Option<u32>)
        requires
            self.wf(),
        ensures
            r == if self.spec_has_voted(voter) {
                Some(self.spec_user_vote(voter))
            } else {
                None::<u32>
            },
    {
        match self.find_voter_index(voter) {
            Some(i) => {
                proof {
                    lemma_vote_of_unique(self.voters@, i as int);
                }
                Some(self.voters[i].1)
            },
            None => None,
        }
    }

    /// How many votes have been accepted so far.
    pub fn get_total_votes(&self) -> (r: u32)
        ensures
            r == self.spec_total_votes(),
    {
        self.total_votes
    }

    /// Whether votes are currently accepted.
    pub fn is_active(&self) -> (r: bool)
        ensures
            r == self.spec_active(),
    {
        self.active
    }

    /// The audit record at this index of the append-only log.
    pub fn get_vote_record(&self, index: u32) -> (r: Option<VoteRecord>)
        ensures
            r == if index < self.spec_records().len() {
                Some(self.spec_records()[index as int])
            } else {
                None::<VoteRecord>
            },
    {
        if (index as usize) < self.records.len() {
            Some(self.records[index as usize])
        } else {
            None
        }
    }
}

} // verus!
