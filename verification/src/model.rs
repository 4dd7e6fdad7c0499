//! The data model: the stored record types, the mathematical projections of
//! the stored state, and the lemmas the operations' proofs rest on.

use vstd::prelude::*;

verus! {

/// A votable choice: identity, display name, fund recipient, and the running
/// aggregates the vote processor maintains.
#[derive(Clone, Debug, PartialEq, Eq)]
pub struct VotingOption {
    pub id: u32,
    pub name: String,
    pub recipient: u64,
    pub vote_count: u64,
    pub total_funds: i128,
}

/// Immutable audit entry for one cast vote, stored at an append-only index.
#[derive(Clone, Copy, Debug, PartialEq, Eq, Structural)]
pub struct VoteRecord {
    pub voter: u64,
    pub option_id: u32,
    pub amount: i128,
    pub timestamp: u64,
}

/// The fund movement a successful vote asks of the external ledger:
/// `amount` of the token at `token`, from the voter to the chosen option's
/// recipient. The same triple, less the token, is the event payload.
#[derive(Clone, Copy, Debug, PartialEq, Eq, Structural)]
pub struct TransferIntent {
    pub token: u64,
    pub from: u64,
    pub to: u64,
    pub amount: i128,
}

/// Why an operation was refused. Every refusal leaves the state unchanged.
#[derive(Clone, Copy, Debug, PartialEq, Eq, Structural)]
pub enum VotingError {
    AlreadyInitialized,
    NotInitialized,
    VotingInactive,
    AlreadyVoted,
    InvalidAmount,
    InvalidOption,
    Unauthorized,
    OptionAlreadyExists,
}

/// The option as it is first stored: aggregates reset to zero.
pub open spec fn zeroed_option(o: VotingOption) -> VotingOption {
    VotingOption { vote_count: 0, total_funds: 0, ..o }
}

/// How many logged votes chose the option with this id.
pub open spec fn count_for(records: Seq<VoteRecord>, id: u32) -> nat
    decreases records.len(),
{
    if records.len() == 0 {
        0
    } else {
        count_for(records.drop_last(), id) + if records.last().option_id == id {
            1nat
        } else {
            0nat
        }
    }
}

/// The sum of the amounts of the logged votes that chose this id.
pub open spec fn funds_for(records: Seq<VoteRecord>, id: u32) -> int
    decreases records.len(),
{
    if records.len() == 0 {
        0
    } else {
        funds_for(records.drop_last(), id) + if records.last().option_id == id {
            records.last().amount as int
        } else {
            0
        }
    }
}

/// Whether some option in the registry carries this id.
pub open spec fn has_id(s: Seq<VotingOption>, id: u32) -> bool {
    exists|i: int| 0 <= i < s.len() && (#[trigger] s[i]).id == id
}

/// The index of the option carrying this id (determined when ids are unique).
pub open spec fn index_of_id(s: Seq<VotingOption>, id: u32) -> int {
    choose|i: int| 0 <= i < s.len() && (#[trigger] s[i]).id == id
}

/// Option ids pairwise distinct.
pub open spec fn unique_ids(s: Seq<VotingOption>) -> bool {
    forall|i: int, j: int|
        0 <= i < j < s.len() ==> (#[trigger] s[i]).id != (#[trigger] s[j]).id
}

/// Store an option under its id: replace the entry holding the id, or append.
pub open spec fn upsert_option(s: Seq<VotingOption>, o: VotingOption) -> Seq<VotingOption> {
    if has_id(s, o.id) {
        s.update(index_of_id(s, o.id), o)
    } else {
        s.push(o)
    }
}

/// The registry seeded from an input list: each option stored under its id
/// with zeroed aggregates, in order, so a repeated id overwrites the earlier
/// entry just as storing twice under one key does.
pub open spec fn seed_options(s: Seq<VotingOption>) -> Seq<VotingOption>
    decreases s.len(),
{
    if s.len() == 0 {
        Seq::empty()
    } else {
        upsert_option(seed_options(s.drop_last()), zeroed_option(s.last()))
    }
}

/// Whether this voter registry holds an entry for the voter.
pub open spec fn voted(vs: Seq<(u64, u32)>, voter: u64) -> bool {
    exists|i: int| 0 <= i < vs.len() && (#[trigger] vs[i]).0 == voter
}

/// The option recorded for the voter (determined when voters are unique).
pub open spec fn vote_of(vs: Seq<(u64, u32)>, voter: u64) -> u32 {
    vs[choose|i: int| 0 <= i < vs.len() && (#[trigger] vs[i]).0 == voter].1
}

/// Voters pairwise distinct.
pub open spec fn unique_voters(vs: Seq<(u64, u32)>) -> bool {
    forall|i: int, j: int|
        0 <= i < j < vs.len() ==> (#[trigger] vs[i]).0 != (#[trigger] vs[j]).0
}

/// Appending one record raises its own option's tallies by one vote and its
/// amount, and leaves every other option's tallies unchanged.
pub proof fn lemma_tallies_push(records: Seq<VoteRecord>, r: VoteRecord, id: u32)
    ensures
        count_for(records.push(r), id) == count_for(records, id) + if r.option_id == id {
            1nat
        } else {
            0nat
        },
        funds_for(records.push(r), id) == funds_for(records, id) + if r.option_id == id {
            r.amount as int
        } else {
            0
        },
{
    assert(records.push(r).drop_last() =~= records);
    assert(records.push(r).last() == r);
}

/// A tally never exceeds the number of logged votes.
pub proof fn lemma_count_le_len(records: Seq<VoteRecord>, id: u32)
    ensures
        count_for(records, id) <= records.len(),
    decreases records.len(),
{
    if records.len() > 0 {
        lemma_count_le_len(records.drop_last(), id);
    }
}

/// With positive amounts, a fund tally is never negative.
pub proof fn lemma_funds_nonneg(records: Seq<VoteRecord>, id: u32)
    requires
        forall|k: int| 0 <= k < records.len() ==> (#[trigger] records[k]).amount > 0,
    ensures
        funds_for(records, id) >= 0,
    decreases records.len(),
{
    if records.len() > 0 {
        lemma_funds_nonneg(records.drop_last(), id);
    }
}

/// An id no logged vote chose has zero tallies.
pub proof fn lemma_tallies_absent(records: Seq<VoteRecord>, id: u32)
    requires
        forall|k: int| 0 <= k < records.len() ==> (#[trigger] records[k]).option_id != id,
    ensures
        count_for(records, id) == 0,
        funds_for(records, id) == 0,
    decreases records.len(),
{
    if records.len() > 0 {
        lemma_tallies_absent(records.drop_last(), id);
    }
}

/// With unique ids, any registry position holding an id is the position
/// `index_of_id` picks.
pub proof fn lemma_index_of_id_unique(s: Seq<VotingOption>, i: int)
    requires
        unique_ids(s),
        0 <= i < s.len(),
    ensures
        has_id(s, s[i].id),
        index_of_id(s, s[i].id) == i,
{
    assert(has_id(s, s[i].id));
    let j = index_of_id(s, s[i].id);
    assert(0 <= j < s.len() && s[j].id == s[i].id);
    if i < j {
        assert(s[i].id != s[j].id);
    } else if j < i {
        assert(s[j].id != s[i].id);
    }
}

/// With unique voters, any registry position holding a voter is the one
/// `vote_of` reads.
pub proof fn lemma_vote_of_unique(vs: Seq<(u64, u32)>, i: int)
    requires
        unique_voters(vs),
        0 <= i < vs.len(),
    ensures
        voted(vs, vs[i].0),
        vote_of(vs, vs[i].0) == vs[i].1,
{
    assert(voted(vs, vs[i].0));
    let j = choose|j: int| 0 <= j < vs.len() && (#[trigger] vs[j]).0 == vs[i].0;
    if i < j {
        assert(vs[i].0 != vs[j].0);
    } else if j < i {
        assert(vs[j].0 != vs[i].0);
    }
}

/// Law: recording one new voter marks exactly that voter as having voted,
/// records the chosen option for it, and neither disturbs nor forgets any
/// earlier voter's choice.
pub proof fn lemma_voters_push(vs: Seq<(u64, u32)>, voter: u64, option_id: u32)
    requires
        unique_voters(vs),
        !voted(vs, voter),
    ensures
        unique_voters(vs.push((voter, option_id))),
        forall|v: u64|
            #[trigger] voted(vs.push((voter, option_id)), v) <==> voted(vs, v) || v == voter,
        vote_of(vs.push((voter, option_id)), voter) == option_id,
        forall|v: u64|
            v != voter && #[trigger] voted(vs, v) ==> vote_of(vs.push((voter, option_id)), v)
                == vote_of(vs, v),
{
    let post = vs.push((voter, option_id));
    assert(post[vs.len() as int] == (voter, option_id));
    assert forall|v: u64| #[trigger] voted(post, v) implies voted(vs, v) || v == voter by {
        let i = choose|i: int| 0 <= i < post.len() && (#[trigger] post[i]).0 == v;
        if i < vs.len() {
            assert(vs[i].0 == v);
        }
    }
    assert forall|v: u64| voted(vs, v) implies #[trigger] voted(post, v) by {
        let i = choose|i: int| 0 <= i < vs.len() && (#[trigger] vs[i]).0 == v;
        assert(post[i].0 == v);
    }
    assert(voted(post, voter));
    assert forall|i: int, j: int| 0 <= i < j < post.len() implies (#[trigger] post[i]).0
        != (#[trigger] post[j]).0 by {
        if j < vs.len() {
            assert(vs[i].0 != vs[j].0);
        } else {
            assert(post[i].0 == vs[i].0);
            if vs[i].0 == voter {
                assert(voted(vs, voter));
            }
        }
    }
    lemma_vote_of_unique(post, vs.len() as int);
    assert forall|v: u64| v != voter && #[trigger] voted(vs, v) implies vote_of(post, v)
        == vote_of(vs, v) by {
        let i = choose|i: int| 0 <= i < vs.len() && (#[trigger] vs[i]).0 == v;
        assert(post[i].0 == v);
        lemma_vote_of_unique(post, i);
        lemma_vote_of_unique(vs, i);
    }
}

/// Removing an element and inserting another at the same position is a
/// point update.
pub proof fn lemma_remove_insert_is_update<T>(s: Seq<T>, i: int, v: T)
    requires
        0 <= i < s.len(),
    ensures
        s.remove(i).insert(i, v) == s.update(i, v),
{
    let lhs = s.remove(i).insert(i, v);
    let rhs = s.update(i, v);
    s.remove_ensures(i);
    s.remove(i).insert_ensures(i, v);
    assert forall|k: int| 0 <= k < rhs.len() implies lhs[k] == rhs[k] by {
        if k > i {
            assert(lhs[k] == s.remove(i)[k - 1]);
        }
    }
    assert(lhs =~= rhs);
}

/// Law: what storing one option under its id does to a registry with unique
/// ids: ids stay unique, exactly the stored id is added to the id set, the
/// stored record is found under its id, and every entry with another id is
/// untouched.
pub proof fn lemma_upsert_props(s: Seq<VotingOption>, o: VotingOption)
    requires
        unique_ids(s),
    ensures
        unique_ids(upsert_option(s, o)),
        forall|id: u32|
            #[trigger] has_id(upsert_option(s, o), id) <==> has_id(s, id) || id == o.id,
        has_id(upsert_option(s, o), o.id),
        upsert_option(s, o)[index_of_id(upsert_option(s, o), o.id)] == o,
        forall|j: int|
            0 <= j < upsert_option(s, o).len() && (#[trigger] upsert_option(s, o)[j]).id != o.id
                ==> 0 <= j < s.len() && upsert_option(s, o)[j] == s[j],
{
    let post = upsert_option(s, o);
    if has_id(s, o.id) {
        let i = index_of_id(s, o.id);
        assert(0 <= i < s.len() && s[i].id == o.id);
        assert(post == s.update(i, o));
        assert forall|p: int, q: int| 0 <= p < q < post.len() implies (#[trigger] post[p]).id
            != (#[trigger] post[q]).id by {
            assert(s[p].id != s[q].id);
            if p == i {
                if s[q].id == o.id {
                    lemma_index_of_id_unique(s, q);
                }
            } else if q == i {
                if s[p].id == o.id {
                    lemma_index_of_id_unique(s, p);
                }
            }
        }
        assert(post[i] == o);
        lemma_index_of_id_unique(post, i);
        assert forall|id: u32| #[trigger] has_id(post, id) implies has_id(s, id) || id == o.id by {
            let k = choose|k: int| 0 <= k < post.len() && (#[trigger] post[k]).id == id;
            if k != i {
                assert(s[k].id == id);
            }
        }
        assert forall|id: u32| has_id(s, id) implies #[trigger] has_id(post, id) by {
            let k = choose|k: int| 0 <= k < s.len() && (#[trigger] s[k]).id == id;
            if k == i {
                assert(post[i].id == o.id);
            } else {
                assert(post[k].id == id);
            }
        }
        assert forall|j: int|
            0 <= j < post.len() && (#[trigger] post[j]).id != o.id implies 0 <= j < s.len()
            && post[j] == s[j] by {
            if j == i {
                assert(post[j].id == o.id);
            }
        }
    } else {
        assert(post == s.push(o));
        assert(post[s.len() as int] == o);
        assert forall|p: int, q: int| 0 <= p < q < post.len() implies (#[trigger] post[p]).id
            != (#[trigger] post[q]).id by {
            if q < s.len() {
                assert(s[p].id != s[q].id);
            } else {
                assert(post[p] == s[p]);
                if s[p].id == o.id {
                    assert(has_id(s, o.id));
                }
            }
        }
        lemma_index_of_id_unique(post, s.len() as int);
        assert forall|id: u32| #[trigger] has_id(post, id) implies has_id(s, id) || id == o.id by {
            let k = choose|k: int| 0 <= k < post.len() && (#[trigger] post[k]).id == id;
            if k < s.len() {
                assert(s[k].id == id);
            }
        }
        assert forall|id: u32| has_id(s, id) implies #[trigger] has_id(post, id) by {
            let k = choose|k: int| 0 <= k < s.len() && (#[trigger] s[k]).id == id;
            assert(post[k].id == id);
        }
    }
}

/// Law: the seeded registry has unique ids, every entry carries zeroed
/// aggregates, and its id set is exactly the input's id set.
pub proof fn lemma_seed_options_props(s: Seq<VotingOption>)
    ensures
        unique_ids(seed_options(s)),
        forall|i: int|
            0 <= i < seed_options(s).len() ==> (#[trigger] seed_options(s)[i]).vote_count == 0
                && seed_options(s)[i].total_funds == 0,
        forall|id: u32| #[trigger] has_id(seed_options(s), id) <==> has_id(s, id),
    decreases s.len(),
{
    if s.len() == 0 {
        assert forall|id: u32| #[trigger] has_id(seed_options(s), id) <==> has_id(s, id) by {
            assert(!has_id(Seq::<VotingOption>::empty(), id));
            assert(!has_id(s, id)) by {
                if has_id(s, id) {
                    let k = choose|k: int| 0 <= k < s.len() && (#[trigger] s[k]).id == id;
                }
            }
        }
    } else {
        let prefix = s.drop_last();
        let prev = seed_options(prefix);
        let z = zeroed_option(s.last());
        lemma_seed_options_props(prefix);
        lemma_upsert_props(prev, z);
        let post = upsert_option(prev, z);
        assert(seed_options(s) == post);
        assert forall|i: int|
            0 <= i < post.len() implies (#[trigger] post[i]).vote_count == 0
            && post[i].total_funds == 0 by {
            if post[i].id != z.id {
                assert(post[i] == prev[i]);
            } else {
                lemma_index_of_id_unique(post, i);
                assert(post[i] == z);
            }
        }
        assert forall|id: u32| #[trigger] has_id(post, id) <==> has_id(s, id) by {
            assert(has_id(post, id) <==> has_id(prefix, id) || id == z.id);
            assert(has_id(s, id) <==> has_id(prefix, id) || s.last().id == id) by {
                if has_id(s, id) {
                    let k = choose|k: int| 0 <= k < s.len() && (#[trigger] s[k]).id == id;
                    if k < s.len() - 1 {
                        assert(prefix[k].id == id);
                    }
                }
                if has_id(prefix, id) {
                    let k = choose|k: int|
                        0 <= k < prefix.len() && (#[trigger] prefix[k]).id == id;
                    assert(s[k].id == id);
                }
                if s.last().id == id {
                    assert(s[s.len() - 1].id == id);
                }
            }
        }
    }
}

/// One step of seeding: the registry seeded from a prefix one longer is the
/// prefix's registry with the next option stored.
pub proof fn lemma_seed_options_take_step(s: Seq<VotingOption>, j: int)
    requires
        0 <= j < s.len(),
    ensures
        seed_options(s.take(j + 1)) == upsert_option(
            seed_options(s.take(j)),
            zeroed_option(s[j]),
        ),
{
    assert(s.take(j + 1).drop_last() =~= s.take(j));
    assert(s.take(j + 1).last() == s[j]);
}

} // verus!
