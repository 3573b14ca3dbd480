//! The chain ledger: committed blocks, the stake registry, and the current round's pool.

use crate::block::{zero_hash, Block};
use crate::table::{lemma_owner_exists, lemma_owner_unique, lookup, owns, total, StakeTable};
use vstd::prelude::*;
use vstd::string::*;

verus! {

/// The one failure that a caller sees.
#[derive(Debug, Clone, Copy, PartialEq, Eq, Structural)]
pub enum BlockchainError {
    /// The proposer has no recorded stake.
    UnknownValidator,
}

impl BlockchainError {
    /// A sentence describing the error.
    pub fn message(&self) -> (r: String)
        ensures
            r@ == "could not suggest block, address has no stake"@,
    {
        match self {
            BlockchainError::UnknownValidator => String::from_str(
                "could not suggest block, address has no stake",
            ),
        }
    }
}

/// The hash that a new block links to: that of the last committed block, or the zero
/// hash while nothing is committed.
pub open spec fn tip_hash(blocks: Seq<Block>) -> Seq<char> {
    if blocks.len() == 0 {
        zero_hash()
    } else {
        blocks.last().hash_view()
    }
}

/// Every block carries its own content hash, the first links to the zero hash, and each
/// later one links to the hash of the block before it.
pub open spec fn linked(blocks: Seq<Block>) -> bool {
    &&& forall|i: int| 0 <= i < blocks.len() ==> (#[trigger] blocks[i]).wf()
    &&& blocks.len() > 0 ==> blocks[0].parent_view() == zero_hash()
    &&& forall|i: int|
        0 < i < blocks.len() ==> (#[trigger] blocks[i]).parent_view() == blocks[i - 1].hash_view()
}

/// Some candidate was proposed by `id`.
pub open spec fn has_candidate(cands: Seq<Block>, id: Seq<char>) -> bool {
    exists|i: int| 0 <= i < cands.len() && (#[trigger] cands[i]).proposer_view() == id
}

/// `k` is the position of the first candidate proposed by `id`.
pub open spec fn is_first_from(cands: Seq<Block>, id: Seq<char>, k: int) -> bool {
    &&& 0 <= k < cands.len()
    &&& cands[k].proposer_view() == id
    &&& forall|j: int| 0 <= j < k ==> (#[trigger] cands[j]).proposer_view() != id
}

/// The chain after a round closes on ticket `t`: the first candidate of the validator that
/// owns `t` is appended; where no validator owns `t`, or it has no candidate, nothing is.
pub open spec fn round_outcome(
    blocks: Seq<Block>,
    cands: Seq<Block>,
    round: Seq<(Seq<char>, u32)>,
    t: int,
) -> Seq<Block> {
    if exists|i: int| owns(round, i, t) {
        let w = choose|i: int| owns(round, i, t);
        if exists|k: int| is_first_from(cands, round[w].0, k) {
            blocks.push(cands[choose|k: int| is_first_from(cands, round[w].0, k)])
        } else {
            blocks
        }
    } else {
        blocks
    }
}

/// Relies on rand's `thread_rng` and `Rng::gen_range`: a value drawn uniformly from
/// `0 .. high`. `gen_range` panics when its range is empty, which `requires` excludes.
#[verifier::external_body]
fn draw_below(high: u128) -> (r: u128)
    requires
        0 < high,
    ensures
        r < high,
{
    rand::Rng::gen_range(&mut rand::thread_rng(), 0u128, high)
}

/// In a well-formed ledger, each committed block after the first links to the content hash
/// of the block before it, and the first links to the zero hash.
pub proof fn lemma_chain_linked(c: Chain)
    requires
        c.wf(),
    ensures
        forall|i: int|
            0 < i < c.blocks_view().len() ==> (#[trigger] c.blocks_view()[i]).parent_view()
                == c.blocks_view()[i - 1].hash_view(),
        c.blocks_view().len() > 0 ==> c.blocks_view()[0].parent_view() == zero_hash(),
{
}

/// Closing a round on a ticket below the round's total weight appends exactly one block:
/// the first candidate of the validator that owns the ticket.
pub proof fn lemma_round_outcome_appends(c: Chain, t: int)
    requires
        c.wf(),
        0 <= t < total(c.round_view()),
    ensures
        exists|k: int, w: int|
            #![trigger is_first_from(c.candidates_view(), c.round_view()[w].0, k)]
            owns(c.round_view(), w, t) && is_first_from(
                c.candidates_view(),
                c.round_view()[w].0,
                k,
            ) && round_outcome(c.blocks_view(), c.candidates_view(), c.round_view(), t)
                == c.blocks_view().push(c.candidates_view()[k]),
{
    let round = c.round_view();
    let cands = c.candidates_view();
    lemma_owner_exists(round, round.len() as int, t);
    let w = choose|i: int| owns(round, i, t);
    let id = round[w].0;
    assert(has_candidate(cands, id));
    lemma_first_exists(cands, id, cands.len() as int);
    let k = choose|k: int| is_first_from(cands, id, k);
    assert forall|k2: int| is_first_from(cands, id, k2) implies k2 == k by {
        if k2 < k {
            assert(cands[k2].proposer_view() == id);
        } else if k < k2 {
            assert(cands[k].proposer_view() == id);
        }
    }
}

/// Where some candidate among the first `n` was proposed by `id`, one of them is the first.
proof fn lemma_first_exists(cands: Seq<Block>, id: Seq<char>, n: int)
    requires
        0 <= n <= cands.len(),
        exists|i: int| 0 <= i < n && (#[trigger] cands[i]).proposer_view() == id,
    ensures
        exists|k: int| is_first_from(cands, id, k),
    decreases n,
{
    if exists|i: int| 0 <= i < n - 1 && (#[trigger] cands[i]).proposer_view() == id {
        lemma_first_exists(cands, id, n - 1);
    } else {
        assert(is_first_from(cands, id, n - 1));
    }
}

/// The ledger. All of its state changes go through its methods.
#[derive(Debug)]
pub struct Chain {
    chain: Vec<Block>,
    candidates: Vec<Block>,
    validators: StakeTable,
    stake: StakeTable,
}

impl Chain {
    /// The committed blocks, oldest first.
    pub closed spec fn blocks_view(&self) -> Seq<Block> {
        self.chain@
    }

    /// The candidates of the current round, in the order proposed.
    pub closed spec fn candidates_view(&self) -> Seq<Block> {
        self.candidates@
    }

    /// The current round's weight table, sorted by identity.
    pub closed spec fn round_view(&self) -> Seq<(Seq<char>, u32)> {
        self.validators@
    }

    /// The stake registry, sorted by identity.
    pub closed spec fn stake_view(&self) -> Seq<(Seq<char>, u32)> {
        self.stake@
    }

    pub closed spec fn tables_wf(&self) -> bool {
        self.validators.wf() && self.stake.wf()
    }

    /// The ledger's invariant: the committed chain is linked; each candidate carries its
    /// content hash, links to the current tip and has its proposer in the round's weight
    /// table; each validator of that table proposed a candidate and is registered.
    pub open spec fn wf(&self) -> bool {
        &&& self.tables_wf()
        &&& linked(self.blocks_view())
        &&& forall|i: int|
            0 <= i < self.candidates_view().len() ==> {
                let c = #[trigger] self.candidates_view()[i];
                &&& c.wf()
                &&& c.parent_view() == tip_hash(self.blocks_view())
                &&& lookup(self.round_view(), c.proposer_view()) is Some
            }
        &&& forall|j: int|
            0 <= j < self.round_view().len() ==> {
                &&& has_candidate(self.candidates_view(), #[trigger] self.round_view()[j].0)
                &&& lookup(self.stake_view(), self.round_view()[j].0) is Some
            }
    }

    pub fn new() -> (r: Chain)
        ensures
            r.wf(),
            r.blocks_view() == Seq::<Block>::empty(),
            r.candidates_view() == Seq::<Block>::empty(),
            r.round_view() == Seq::<(Seq<char>, u32)>::empty(),
            r.stake_view() == Seq::<(Seq<char>, u32)>::empty(),
    {
        let chain = Chain {
            chain: Vec::new(),
            candidates: Vec::new(),
            validators: StakeTable::new(),
            stake: StakeTable::new(),
        };
        assert(chain.blocks_view() =~= Seq::<Block>::empty());
        assert(chain.candidates_view() =~= Seq::<Block>::empty());
        chain
    }

    /// Proposes a candidate for the current round. The candidate links to the current tip;
    /// the proposer's registered weight is copied into the round's weight table. Fails,
    /// changing nothing, when the proposer has no recorded stake.
    pub fn suggest_block(&mut self, data: String, validator: String) -> (r: Result<
        (),
        BlockchainError,
    >)
        requires
            old(self).wf(),
        ensures
            final(self).wf(),
            r is Err <==> lookup(old(self).stake_view(), validator@) is None,
            r is Err ==> r == Err::<(), BlockchainError>(BlockchainError::UnknownValidator),
            r is Err ==> *final(self) == *old(self),
            r is Ok ==> {
                let n = old(self).candidates_view().len();
                let b = final(self).candidates_view()[n as int];
                &&& final(self).blocks_view() == old(self).blocks_view()
                &&& final(self).stake_view() == old(self).stake_view()
                &&& final(self).candidates_view().len() == n + 1
                &&& final(self).candidates_view().subrange(0, n as int)
                    == old(self).candidates_view()
                &&& b.payload_view() == data@
                &&& b.parent_view() == tip_hash(old(self).blocks_view())
                &&& b.proposer_view() == validator@
                &&& b.wf()
                &&& forall|k: Seq<char>|
                    #[trigger] lookup(final(self).round_view(), k) == if k == validator@ {
                        lookup(old(self).stake_view(), validator@)
                    } else {
                        lookup(old(self).round_view(), k)
                    }
            },
    {
        let stake = self.stake.get(&validator);
        let weight: u32 = match stake {
            None => {
                return Err(BlockchainError::UnknownValidator);
            },
            Some(w) => w,
        };
        let prev_hash: String = if self.chain.len() == 0 {
            Block::blank_hash()
        } else {
            self.chain[self.chain.len() - 1].block_hash().clone()
        };
        let ghost old_round = self.validators@;
        let ghost old_cands = self.candidates@;
        let block = Block::new(data, prev_hash, validator.clone());
        self.candidates.push(block);
        self.validators.set(validator, weight);
        let ghost n = old_cands.len();
        assert(self.candidates@.subrange(0, n as int) =~= old_cands);
        assert forall|i: int| 0 <= i < self.candidates_view().len() implies {
            let c = #[trigger] self.candidates_view()[i];
            &&& c.wf()
            &&& c.parent_view() == tip_hash(self.blocks_view())
            &&& lookup(self.round_view(), c.proposer_view()) is Some
        } by {
            if i < n {
                assert(self.candidates@[i] == old_cands[i]);
            }
        }
        assert forall|j: int| 0 <= j < self.round_view().len() implies {
            &&& has_candidate(self.candidates_view(), #[trigger] self.round_view()[j].0)
            &&& lookup(self.stake_view(), self.round_view()[j].0) is Some
        } by {
            let k = self.round_view()[j].0;
            crate::table::lemma_lookup_at(self.round_view(), j);
            if k == self.candidates@[n as int].proposer_view() {
                assert(self.candidates_view()[n as int].proposer_view() == k);
            } else {
                assert(lookup(old_round, k) is Some);
                assert(exists|i: int| 0 <= i < old_round.len() && #[trigger] old_round[i].0 == k);
                let i0 = choose|i: int| 0 <= i < old_round.len() && #[trigger] old_round[i].0 == k;
                assert(has_candidate(old_cands, old_round[i0].0));
                let c0 = choose|c: int|
                    0 <= c < old_cands.len() && (#[trigger] old_cands[c]).proposer_view() == k;
                assert(self.candidates_view()[c0] == old_cands[c0]);
            }
        }
        Ok(())
    }

    /// Closes the round on the given ticket. Walking the round's weight table in identity
    /// order with a running offset, a validator of weight `w` owns the tickets from its
    /// offset (included) to its offset plus `w` (excluded), so ticket 0 belongs to the first
    /// validator of nonzero weight. The first candidate of the ticket's owner is appended to
    /// the chain. The round's candidates and weight table are then cleared, whether or not a
    /// block was appended.
    pub fn close_round_with_ticket(&mut self, ticket: u128)
        requires
            old(self).wf(),
        ensures
            final(self).wf(),
            final(self).blocks_view() == round_outcome(
                old(self).blocks_view(),
                old(self).candidates_view(),
                old(self).round_view(),
                ticket as int,
            ),
            final(self).candidates_view() == Seq::<Block>::empty(),
            final(self).round_view() == Seq::<(Seq<char>, u32)>::empty(),
            final(self).stake_view() == old(self).stake_view(),
    {
        let ghost blocks0 = self.chain@;
        let ghost cands0 = self.candidates@;
        let ghost round0 = self.validators@;
        let owner = self.validators.owner_of(ticket);
        match owner {
            Some(w) => {
                proof {
                    assert forall|i: int| owns(round0, i, ticket as int) implies i == w by {
                        lemma_owner_unique(round0, i, w as int, ticket as int);
                    }
                }
                let key = self.validators.key(w).clone();
                let mut i: usize = 0;
                let mut found: bool = false;
                while i < self.candidates.len() && !found
                    invariant
                        self.candidates@ == cands0,
                        i <= cands0.len(),
                        found ==> is_first_from(cands0, key@, i as int),
                        forall|j: int| 0 <= j < i ==> (#[trigger] cands0[j]).proposer_view() != key@,
                    decreases cands0.len() - i + (if found { 0int } else { 1int }),
                {
                    if *self.candidates[i].validator_address() == key {
                        found = true;
                    } else {
                        i = i + 1;
                    }
                }
                if found {
                    proof {
                        assert forall|k: int| is_first_from(cands0, key@, k) implies k == i by {
                            if k < i {
                            } else if k > i {
                                assert(cands0[i as int].proposer_view() == key@);
                            }
                        }
                    }
                    let b = self.candidates.remove(i);
                    self.chain.push(b);
                    assert(self.chain@ =~= blocks0.push(cands0[i as int]));
                } else {
                    assert(!exists|k: int| is_first_from(cands0, key@, k));
                }
            },
            None => {},
        }
        self.validators.clear();
        self.candidates.clear();
        assert(self.candidates_view() =~= Seq::<Block>::empty());
    }

    /// Closes the round: draws a ticket uniformly below the round's total weight and closes
    /// on it. A round whose total weight is zero (no proposals, or only weightless ones)
    /// appends nothing and is cleared all the same.
    pub fn select_winner(&mut self)
        requires
            old(self).wf(),
        ensures
            final(self).wf(),
            final(self).candidates_view() == Seq::<Block>::empty(),
            final(self).round_view() == Seq::<(Seq<char>, u32)>::empty(),
            final(self).stake_view() == old(self).stake_view(),
            total(old(self).round_view()) == 0 ==> final(self).blocks_view()
                == old(self).blocks_view(),
            total(old(self).round_view()) > 0 ==> exists|t: int|
                0 <= t < total(old(self).round_view()) && final(self).blocks_view()
                    == round_outcome(
                    old(self).blocks_view(),
                    old(self).candidates_view(),
                    old(self).round_view(),
                    t,
                ),
            total(old(self).round_view()) > 0 ==> exists|k: int|
                0 <= k < old(self).candidates_view().len() && final(self).blocks_view()
                    == old(self).blocks_view().push(old(self).candidates_view()[k]),
    {
        let max = self.validators.total();
        if max == 0 {
            self.validators.clear();
            self.candidates.clear();
            assert(self.candidates_view() =~= Seq::<Block>::empty());
        } else {
            let ticket = draw_below(max);
            proof {
                lemma_round_outcome_appends(*self, ticket as int);
            }
            self.close_round_with_ticket(ticket);
        }
    }

    /// Records `weight` as the stake of `id`, replacing any earlier value.
    pub fn set_stake(&mut self, id: String, weight: u32)
        requires
            old(self).wf(),
        ensures
            final(self).wf(),
            final(self).blocks_view() == old(self).blocks_view(),
            final(self).candidates_view() == old(self).candidates_view(),
            final(self).round_view() == old(self).round_view(),
            forall|k: Seq<char>|
                #[trigger] lookup(final(self).stake_view(), k) == if k == id@ {
                    Some(weight)
                } else {
                    lookup(old(self).stake_view(), k)
                },
    {
        let ghost old_stake = self.stake@;
        self.stake.set(id, weight);
        assert forall|j: int| 0 <= j < self.round_view().len() implies {
            &&& has_candidate(self.candidates_view(), #[trigger] self.round_view()[j].0)
            &&& lookup(self.stake_view(), self.round_view()[j].0) is Some
        } by {
            let k = self.round_view()[j].0;
            assert(lookup(old_stake, k) is Some);
        }
    }

    /// Commits a genesis block, linked to the zero hash, when nothing is committed and the
    /// round is empty; otherwise changes nothing. Returns whether the block was committed.
    pub fn push_genesis(&mut self, data: String, validator: String) -> (r: bool)
        requires
            old(self).wf(),
        ensures
            final(self).wf(),
            r == (old(self).blocks_view().len() == 0 && old(self).candidates_view().len() == 0),
            final(self).candidates_view() == old(self).candidates_view(),
            final(self).round_view() == old(self).round_view(),
            final(self).stake_view() == old(self).stake_view(),
            !r ==> final(self).blocks_view() == old(self).blocks_view(),
            r ==> final(self).blocks_view().len() == 1,
            r ==> final(self).blocks_view()[0].payload_view() == data@,
            r ==> final(self).blocks_view()[0].proposer_view() == validator@,
            r ==> final(self).blocks_view()[0].parent_view() == zero_hash(),
    {
        if self.chain.len() != 0 || self.candidates.len() != 0 {
            return false;
        }
        let block = Block::new(data, Block::blank_hash(), validator);
        self.chain.push(block);
        assert(self.round_view().len() == 0) by {
            if self.round_view().len() > 0 {
                assert(has_candidate(self.candidates_view(), self.round_view()[0].0));
            }
        }
        true
    }

    /// The committed blocks, oldest first.
    pub fn blocks(&self) -> (r: &Vec<Block>)
        ensures
            r@ == self.blocks_view(),
    {
        &self.chain
    }

    /// The current round's candidates, in the order proposed.
    pub fn candidates(&self) -> (r: &Vec<Block>)
        ensures
            r@ == self.candidates_view(),
    {
        &self.candidates
    }

    /// The current round's weight table.
    pub fn round_weights(&self) -> (r: &StakeTable)
        ensures
            r@ == self.round_view(),
    {
        &self.validators
    }

    /// The stake registry.
    pub fn stakes(&self) -> (r: &StakeTable)
        ensures
            r@ == self.stake_view(),
    {
        &self.stake
    }

    /// The stake recorded for `id`.
    pub fn get_stake(&self, id: &String) -> (r: Option<u32>)
        requires
            self.wf(),
        ensures
            r == lookup(self.stake_view(), id@),
    {
        self.stake.get(id)
    }
}

} // verus!
