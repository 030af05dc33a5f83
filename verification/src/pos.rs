//! The stake ledger: validator registry, stake accounting, weighted leader
//! selection, block proposal and proposer rewards.

use vstd::prelude::*;
use vstd::string::*;

use crate::assoc::{
    distinct_keys, has_key, key_at, lemma_distinct_push, lemma_distinct_update, lemma_key_at,
    lemma_key_at_push, lemma_key_at_unique, lemma_key_at_update, lemma_key_at_witness,
};
use crate::digest::{sha3_hex, sha3_hex_of};
use crate::platform::{now_secs, random_below};
use crate::text::{concat_views, dec_chars, lemma_concat_views_all, lemma_concat_views_take, str_eq, u64_to_string};

verus! {

/// A staked identity eligible to propose blocks. `uptime` is a whole
/// percentage of blocks validated.
pub struct Validator {
    pub address: String,
    pub stake: u64,
    pub last_block_proposed: u64,
    pub uptime: u64,
}

/// A request to move stake, carried by the hosting service.
pub struct StakeTransaction {
    pub from: String,
    pub amount: u64,
}

/// A proposed block. Immutable once produced.
pub struct Block {
    pub index: u64,
    pub timestamp: u64,
    pub prev_hash: String,
    pub transactions: Vec<String>,
    pub proposer: String,
    pub hash: String,
}

/// The stake ledger's state.
pub struct PoSConsensus {
    pub validators: Vec<Validator>,
    pub total_stake: u64,
    pub current_block: u64,
}

/// The key under which a validator is registered.
pub open spec fn validator_key() -> spec_fn(Validator) -> Seq<char> {
    |v: Validator| v.address@
}

/// The sum of all registered validators' stakes.
pub open spec fn sum_stakes(vs: Seq<Validator>) -> int
    decreases vs.len(),
{
    if vs.len() == 0 {
        0
    } else {
        sum_stakes(vs.drop_last()) + vs.last().stake
    }
}

pub proof fn lemma_sum_nonneg(vs: Seq<Validator>)
    ensures
        sum_stakes(vs) >= 0,
    decreases vs.len(),
{
    if vs.len() > 0 {
        lemma_sum_nonneg(vs.drop_last());
    }
}

pub proof fn lemma_sum_push(vs: Seq<Validator>, v: Validator)
    ensures
        sum_stakes(vs.push(v)) == sum_stakes(vs) + v.stake,
{
    assert(vs.push(v).drop_last() =~= vs);
    assert(vs.push(v).last() == v);
}

pub proof fn lemma_sum_update(vs: Seq<Validator>, i: int, v: Validator)
    requires
        0 <= i < vs.len(),
    ensures
        sum_stakes(vs.update(i, v)) == sum_stakes(vs) - vs[i].stake + v.stake,
    decreases vs.len(),
{
    if i == vs.len() - 1 {
        assert(vs.update(i, v).drop_last() =~= vs.drop_last());
        assert(vs.update(i, v).last() == v);
    } else {
        assert(vs.update(i, v).drop_last() =~= vs.drop_last().update(i, v));
        assert(vs.update(i, v).last() == vs.last());
        lemma_sum_update(vs.drop_last(), i, v);
    }
}

/// Each validator's stake is at most the sum.
pub proof fn lemma_sum_elem(vs: Seq<Validator>, i: int)
    requires
        0 <= i < vs.len(),
    ensures
        vs[i].stake <= sum_stakes(vs),
    decreases vs.len(),
{
    if i == vs.len() - 1 {
        lemma_sum_nonneg(vs.drop_last());
    } else {
        assert(vs.drop_last()[i] == vs[i]);
        lemma_sum_elem(vs.drop_last(), i);
    }
}

pub proof fn lemma_sum_take_next(vs: Seq<Validator>, i: int)
    requires
        0 <= i < vs.len(),
    ensures
        sum_stakes(vs.take(i + 1)) == sum_stakes(vs.take(i)) + vs[i].stake,
{
    assert(vs.take(i + 1).drop_last() =~= vs.take(i));
    assert(vs.take(i + 1).last() == vs[i]);
}

pub proof fn lemma_sum_take_le(vs: Seq<Validator>, j: int)
    requires
        0 <= j <= vs.len(),
    ensures
        sum_stakes(vs.take(j)) <= sum_stakes(vs),
    decreases vs.len() - j,
{
    if j == vs.len() {
        assert(vs.take(j) =~= vs);
    } else {
        lemma_sum_take_next(vs, j);
        lemma_sum_take_le(vs, j + 1);
    }
}

/// What a proposed block's digest is computed over: the decimal index, the
/// decimal timestamp, an address drawn from the validator set (the first
/// one, not necessarily the proposer), and the transactions in order.
pub open spec fn pos_hash_input(
    index: u64,
    timestamp: u64,
    drawn_address: Seq<char>,
    transactions: Seq<String>,
) -> Seq<char> {
    dec_chars(index as nat) + dec_chars(timestamp as nat) + drawn_address + concat_views(
        transactions,
    )
}

/// The placeholder previous-hash reference: the literal `"0"` for the
/// genesis case, otherwise a marker derived from the previous index.
pub open spec fn prev_hash_chars(current_block: u64) -> Seq<char> {
    if current_block == 0 {
        "0"@
    } else {
        "prev_hash_"@ + dec_chars(current_block as nat)
    }
}

impl PoSConsensus {
    /// Registered addresses are unique and the recorded total covers the
    /// sum of all stakes (re-registration can push the total above the sum,
    /// never below).
    pub open spec fn wf(self) -> bool {
        &&& distinct_keys(self.validators@, validator_key())
        &&& sum_stakes(self.validators@) <= self.total_stake as int
    }

    /// The recorded total is exactly the sum of all stakes. Holds for every
    /// ledger built by registrations of fresh addresses, stake, unstake,
    /// proposals and rewards; re-registering an existing address breaks it.
    pub open spec fn balanced(self) -> bool {
        self.total_stake as int == sum_stakes(self.validators@)
    }

    pub open spec fn spec_has(self, address: Seq<char>) -> bool {
        has_key(self.validators@, validator_key(), address)
    }

    pub open spec fn spec_validator(self, address: Seq<char>) -> Validator {
        self.validators@[key_at(self.validators@, validator_key(), address)]
    }

    pub open spec fn spec_stake(self, address: Seq<char>) -> u64 {
        self.spec_validator(address).stake
    }

    /// An empty ledger.
    pub fn new() -> (r: PoSConsensus)
        ensures
            r.wf(),
            r.balanced(),
            r.validators@.len() == 0,
            r.total_stake == 0,
            r.current_block == 0,
    {
        PoSConsensus { validators: Vec::new(), total_stake: 0, current_block: 0 }
    }

    /// Position of the validator registered under `address`.
    fn validator_index(&self, address: &str) -> (r: Option<usize>)
        ensures
            match r {
                Some(i) => i < self.validators@.len() && key_at(
                    self.validators@,
                    validator_key(),
                    address@,
                ) == i as int,
                None => !self.spec_has(address@),
            },
    {
        let n = self.validators.len();
        let mut i: usize = 0;
        while i < n
            invariant
                0 <= i <= n,
                n == self.validators@.len(),
                forall|j: int| 0 <= j < i ==> (#[trigger] self.validators@[j]).address@
                    != address@,
            decreases n - i,
        {
            if str_eq(self.validators[i].address.as_str(), address) {
                proof {
                    lemma_key_at_witness(self.validators@, validator_key(), i as int);
                }
                return Some(i);
            }
            i += 1;
        }
        proof {
            lemma_key_at(self.validators@, validator_key(), address@);
        }
        None
    }

    /// Whether `address` is a registered validator.
    pub fn has_validator(&self, address: &str) -> (r: bool)
        ensures
            r == self.spec_has(address@),
    {
        self.validator_index(address).is_some()
    }

    /// The validator registered under `address`, if any.
    pub fn get_validator(&self, address: &str) -> (r: Option<&Validator>)
        ensures
            match r {
                Some(v) => self.spec_has(address@) && *v == self.spec_validator(address@),
                None => !self.spec_has(address@),
            },
    {
        match self.validator_index(address) {
            Some(i) => Some(&self.validators[i]),
            None => None,
        }
    }

    /// Inserts or overwrites the validator registered under `address` with
    /// a fresh record carrying `initial_stake`, and increments the recorded
    /// total by `initial_stake` — also when the address was already
    /// registered, in which case the total can drift above the sum of
    /// stakes (a documented behavioural contract, not corrected here).
    pub fn register_validator(&mut self, address: String, initial_stake: u64)
        requires
            old(self).wf(),
            old(self).total_stake + initial_stake <= u64::MAX,
        ensures
            final(self).wf(),
            final(self).spec_has(address@),
            final(self).spec_validator(address@).address@ == address@,
            final(self).spec_validator(address@).stake == initial_stake,
            final(self).spec_validator(address@).last_block_proposed == 0,
            final(self).spec_validator(address@).uptime == 100,
            final(self).total_stake == old(self).total_stake + initial_stake,
            final(self).current_block == old(self).current_block,
            forall|b: Seq<char>| b != address@ ==> #[trigger] final(self).spec_has(b) == old(self).spec_has(b),
            forall|b: Seq<char>| b != address@ && old(self).spec_has(b) ==> #[trigger] final(self).spec_validator(b) == old(self).spec_validator(b),
            old(self).balanced() && !old(self).spec_has(address@) ==> final(self).balanced(),
    {
        let ghost pre = self.validators@;
        let v = Validator { address, stake: initial_stake, last_block_proposed: 0, uptime: 100 };
        let idx = self.validator_index(v.address.as_str());
        match idx {
            Some(i) => {
                proof {
                    lemma_key_at(pre, validator_key(), v.address@);
                    lemma_sum_update(pre, i as int, v);
                    lemma_sum_elem(pre, i as int);
                    lemma_distinct_update(pre, validator_key(), i as int, v);
                }
                let ghost vv = v;
                self.validators[i] = v;
                self.total_stake = self.total_stake + initial_stake;
                proof {
                    lemma_key_at_update(pre, validator_key(), v.address@, i as int, vv);
                    lemma_key_at_unique(self.validators@, validator_key(), i as int);
                    assert(forall|b: Seq<char>| b != vv.address@ ==> key_at(
                        pre.update(i as int, vv),
                        validator_key(),
                        b,
                    ) == key_at(pre, validator_key(), b)) by {
                        assert forall|b: Seq<char>| b != vv.address@ implies key_at(
                            pre.update(i as int, vv),
                            validator_key(),
                            b,
                        ) == key_at(pre, validator_key(), b) by {
                            lemma_key_at_update(pre, validator_key(), b, i as int, vv);
                        }
                    }
                    assert(forall|b: Seq<char>| b != vv.address@ && has_key(
                        pre,
                        validator_key(),
                        b,
                    ) ==> pre.update(i as int, vv)[key_at(pre, validator_key(), b)] == pre[key_at(
                        pre,
                        validator_key(),
                        b,
                    )]) by {
                        assert forall|b: Seq<char>|
                            b != vv.address@ && has_key(pre, validator_key(), b) implies pre.update(
                            i as int,
                            vv,
                        )[key_at(pre, validator_key(), b)] == pre[key_at(
                            pre,
                            validator_key(),
                            b,
                        )] by {
                            lemma_key_at(pre, validator_key(), b);
                        }
                    }
                }
            },
            None => {
                proof {
                    lemma_sum_push(pre, v);
                    lemma_distinct_push(pre, validator_key(), v);
                }
                let ghost vv = v;
                self.validators.push(v);
                self.total_stake = self.total_stake + initial_stake;
                proof {
                    lemma_key_at_push(pre, validator_key(), vv.address@, vv);
                    assert forall|b: Seq<char>| b != vv.address@ implies key_at(
                        pre.push(vv),
                        validator_key(),
                        b,
                    ) == key_at(pre, validator_key(), b) by {
                        lemma_key_at_push(pre, validator_key(), b, vv);
                        lemma_key_at(pre, validator_key(), b);
                    }
                    assert forall|b: Seq<char>|
                        b != vv.address@ && has_key(pre, validator_key(), b) implies pre.push(
                        vv,
                    )[key_at(pre, validator_key(), b)] == pre[key_at(pre, validator_key(), b)] by {
                        lemma_key_at(pre, validator_key(), b);
                    }
                }
            },
        }
    }

    /// Adds `amount` to an existing validator's stake and to the total;
    /// returns false and changes nothing when `address` is unregistered.
    pub fn stake(&mut self, address: &str, amount: u64) -> (r: bool)
        requires
            old(self).wf(),
            old(self).spec_has(address@) ==> old(self).total_stake + amount <= u64::MAX,
        ensures
            final(self).wf(),
            r == old(self).spec_has(address@),
            !r ==> *final(self) == *old(self),
            r ==> final(self).total_stake == old(self).total_stake + amount,
            r ==> final(self).spec_has(address@) && final(self).spec_stake(address@) == old(self).spec_stake(address@) + amount,
            r ==> final(self).spec_validator(address@) == (Validator {
                stake: (old(self).spec_stake(address@) + amount) as u64,
                ..old(self).spec_validator(address@)
            }),
            final(self).current_block == old(self).current_block,
            forall|b: Seq<char>| #[trigger]
                final(self).spec_has(b) == old(self).spec_has(b),
            forall|b: Seq<char>| b != address@ && old(self).spec_has(b) ==> #[trigger] final(self).spec_validator(b) == old(self).spec_validator(b),
            old(self).balanced() ==> final(self).balanced(),
    {
        let ghost pre = self.validators@;
        match self.validator_index(address) {
            Some(i) => {
                proof {
                    lemma_key_at(pre, validator_key(), address@);
                    lemma_sum_elem(pre, i as int);
                }
                let v0 = &self.validators[i];
                let v = Validator {
                    address: v0.address.clone(),
                    stake: v0.stake + amount,
                    last_block_proposed: v0.last_block_proposed,
                    uptime: v0.uptime,
                };
                let ghost vv = v;
                proof {
                    lemma_sum_update(pre, i as int, vv);
                    lemma_distinct_update(pre, validator_key(), i as int, vv);
                }
                self.validators[i] = v;
                self.total_stake = self.total_stake + amount;
                proof {
                    lemma_key_at_update(pre, validator_key(), address@, i as int, vv);
                    assert forall|b: Seq<char>| true implies key_at(
                        pre.update(i as int, vv),
                        validator_key(),
                        b,
                    ) == key_at(pre, validator_key(), b) by {
                        lemma_key_at_update(pre, validator_key(), b, i as int, vv);
                    }
                    assert forall|b: Seq<char>|
                        b != address@ && has_key(pre, validator_key(), b) implies pre.update(
                        i as int,
                        vv,
                    )[key_at(pre, validator_key(), b)] == pre[key_at(pre, validator_key(), b)] by {
                        lemma_key_at(pre, validator_key(), b);
                    }
                    assert(final(self).spec_validator(address@) == vv);
                }
                true
            },
            None => false,
        }
    }

    /// Subtracts `amount` from an existing validator's stake and from the
    /// total, but only when the validator holds at least `amount`; returns
    /// false and changes nothing otherwise.
    pub fn unstake(&mut self, address: &str, amount: u64) -> (r: bool)
        requires
            old(self).wf(),
        ensures
            final(self).wf(),
            r == (old(self).spec_has(address@) && old(self).spec_stake(address@) >= amount),
            !r ==> *final(self) == *old(self),
            r ==> final(self).total_stake == old(self).total_stake - amount,
            r ==> final(self).spec_has(address@) && final(self).spec_stake(address@) == old(self).spec_stake(address@) - amount,
            r ==> final(self).spec_validator(address@) == (Validator {
                stake: (old(self).spec_stake(address@) - amount) as u64,
                ..old(self).spec_validator(address@)
            }),
            final(self).current_block == old(self).current_block,
            forall|b: Seq<char>| #[trigger]
                final(self).spec_has(b) == old(self).spec_has(b),
            forall|b: Seq<char>| b != address@ && old(self).spec_has(b) ==> #[trigger] final(self).spec_validator(b) == old(self).spec_validator(b),
            old(self).balanced() ==> final(self).balanced(),
    {
        let ghost pre = self.validators@;
        match self.validator_index(address) {
            Some(i) => {
                proof {
                    lemma_key_at(pre, validator_key(), address@);
                    lemma_sum_elem(pre, i as int);
                    lemma_sum_nonneg(pre);
                }
                let v0 = &self.validators[i];
                if v0.stake >= amount {
                    let v = Validator {
                        address: v0.address.clone(),
                        stake: v0.stake - amount,
                        last_block_proposed: v0.last_block_proposed,
                        uptime: v0.uptime,
                    };
                    let ghost vv = v;
                    proof {
                        lemma_sum_update(pre, i as int, vv);
                        lemma_distinct_update(pre, validator_key(), i as int, vv);
                    }
                    self.validators[i] = v;
                    self.total_stake = self.total_stake - amount;
                    proof {
                        lemma_key_at_update(pre, validator_key(), address@, i as int, vv);
                        assert forall|b: Seq<char>| true implies key_at(
                            pre.update(i as int, vv),
                            validator_key(),
                            b,
                        ) == key_at(pre, validator_key(), b) by {
                            lemma_key_at_update(pre, validator_key(), b, i as int, vv);
                        }
                        assert forall|b: Seq<char>|
                            b != address@ && has_key(pre, validator_key(), b) implies pre.update(
                            i as int,
                            vv,
                        )[key_at(pre, validator_key(), b)] == pre[key_at(
                            pre,
                            validator_key(),
                            b,
                        )] by {
                            lemma_key_at(pre, validator_key(), b);
                        }
                        assert(final(self).spec_validator(address@) == vv);
                    }
                    true
                } else {
                    false
                }
            },
            None => false,
        }
    }

    /// Weighted-random leader selection: a draw uniform in
    /// `[0, total_stake)` picks the first validator whose cumulative stake
    /// reaches it. Returns no selection exactly when the registry is empty
    /// or the recorded total stake is zero. Which validator comes back
    /// depends on the draw; it is always a registered one.
    pub fn select_proposer(&self) -> (r: Option<String>)
        requires
            self.wf(),
        ensures
            (r is None) <==> (self.validators@.len() == 0 || self.total_stake == 0),
            r matches Some(a) ==> self.spec_has(a@),
            self.validators@.len() == 1 ==> (r matches Some(a) ==> a@ == self.validators@[
                0].address@),
    {
        let n = self.validators.len();
        if n == 0 {
            return None;
        }
        if self.total_stake == 0 {
            return None;
        }
        let draw = random_below(self.total_stake);
        let mut cumulative: u64 = 0;
        let mut i: usize = 0;
        while i < n
            invariant
                0 <= i <= n,
                n == self.validators@.len(),
                n > 0,
                self.total_stake != 0,
                self.wf(),
                cumulative as int == sum_stakes(self.validators@.take(i as int)),
            decreases n - i,
        {
            proof {
                lemma_sum_take_next(self.validators@, i as int);
                lemma_sum_take_le(self.validators@, i as int + 1);
            }
            cumulative = cumulative + self.validators[i].stake;
            if cumulative >= draw {
                proof {
                    lemma_key_at_unique(self.validators@, validator_key(), i as int);
                }
                return Some(self.validators[i].address.clone());
            }
            i += 1;
        }
        proof {
            lemma_key_at_unique(self.validators@, validator_key(), 0);
        }
        Some(self.validators[0].address.clone())
    }

    /// Proposes the next block, or returns nothing (and changes nothing)
    /// when `proposer` is unregistered. The new block takes index
    /// `current_block + 1`, the clock's timestamp, the placeholder
    /// previous-hash reference, and a digest over the index, the timestamp,
    /// the first registered validator's address and the transactions; the
    /// proposer's record is marked with the new index.
    pub fn propose_block(&mut self, proposer: &str, transactions: Vec<String>) -> (r: Option<
        Block,
    >)
        requires
            old(self).wf(),
            old(self).current_block < u64::MAX,
        ensures
            final(self).wf(),
            (r is None) <==> !old(self).spec_has(proposer@),
            (r is None) ==> *final(self) == *old(self),
            r matches Some(b) ==> {
                &&& b.index == old(self).current_block + 1
                &&& b.proposer@ == proposer@
                &&& b.transactions@ == transactions@
                &&& b.prev_hash@ == prev_hash_chars(old(self).current_block)
                &&& b.hash@ == sha3_hex_of(
                    pos_hash_input(
                        b.index,
                        b.timestamp,
                        old(self).validators@[0].address@,
                        transactions@,
                    ),
                )
                &&& final(self).current_block == old(self).current_block + 1
                &&& final(self).total_stake == old(self).total_stake
                &&& final(self).spec_has(proposer@)
                &&& final(self).spec_validator(proposer@) == (Validator {
                    last_block_proposed: b.index,
                    ..old(self).spec_validator(proposer@)
                })
                &&& forall|c: Seq<char>| #[trigger]
                    final(self).spec_has(c) == old(self).spec_has(c)
                &&& forall|c: Seq<char>|
                    c != proposer@ && old(self).spec_has(c) ==> #[trigger] final(self).spec_validator(c) == old(self).spec_validator(c)
                &&& (old(self).balanced() ==> final(self).balanced())
            },
    {
        let ghost pre = self.validators@;
        let i = match self.validator_index(proposer) {
            Some(i) => i,
            None => {
                return None;
            },
        };
        proof {
            lemma_key_at(pre, validator_key(), proposer@);
        }
        let index = self.current_block + 1;
        let timestamp = now_secs();

        let mut input = u64_to_string(index);
        input.append(u64_to_string(timestamp).as_str());
        input.append(self.validators[0].address.as_str());
        let m = transactions.len();
        let mut j: usize = 0;
        proof {
            assert(concat_views(transactions@.take(0)) =~= Seq::<char>::empty());
            assert(input@ =~= dec_chars(index as nat) + dec_chars(timestamp as nat)
                + pre[0].address@ + concat_views(transactions@.take(0)));
        }
        while j < m
            invariant
                0 <= j <= m,
                m == transactions@.len(),
                pre.len() > 0,
                input@ == dec_chars(index as nat) + dec_chars(timestamp as nat) + pre[0].address@
                    + concat_views(transactions@.take(j as int)),
            decreases m - j,
        {
            input.append(transactions[j].as_str());
            proof {
                lemma_concat_views_take(transactions@, j as int);
                assert(input@ =~= dec_chars(index as nat) + dec_chars(timestamp as nat)
                    + pre[0].address@ + concat_views(transactions@.take(j as int + 1)));
            }
            j += 1;
        }
        proof {
            lemma_concat_views_all(transactions@);
        }
        let hash = sha3_hex(input.as_str());

        let prev_hash: String = if self.current_block == 0 {
            proof {
                reveal_strlit("0");
            }
            String::from_str("0")
        } else {
            let mut p = String::from_str("prev_hash_");
            p.append(u64_to_string(self.current_block).as_str());
            p
        };

        let block = Block {
            index,
            timestamp,
            prev_hash,
            transactions,
            proposer: String::from_str(proposer),
            hash,
        };

        let v0 = &self.validators[i];
        let v = Validator {
            address: v0.address.clone(),
            stake: v0.stake,
            last_block_proposed: index,
            uptime: v0.uptime,
        };
        let ghost vv = v;
        proof {
            lemma_sum_update(pre, i as int, vv);
            lemma_distinct_update(pre, validator_key(), i as int, vv);
        }
        self.validators[i] = v;
        self.current_block = index;
        proof {
            lemma_key_at_update(pre, validator_key(), proposer@, i as int, vv);
            assert forall|c: Seq<char>| true implies key_at(
                pre.update(i as int, vv),
                validator_key(),
                c,
            ) == key_at(pre, validator_key(), c) by {
                lemma_key_at_update(pre, validator_key(), c, i as int, vv);
            }
            assert forall|c: Seq<char>|
                c != proposer@ && has_key(pre, validator_key(), c) implies pre.update(
                i as int,
                vv,
            )[key_at(pre, validator_key(), c)] == pre[key_at(pre, validator_key(), c)] by {
                lemma_key_at(pre, validator_key(), c);
            }
            assert(final(self).spec_validator(proposer@) == vv);
        }
        Some(block)
    }

    /// Credits the fixed proposer reward of 10 to the block's proposer and
    /// to the total stake; an unregistered proposer earns nothing.
    pub fn calculate_rewards(&mut self, block: &Block)
        requires
            old(self).wf(),
            old(self).spec_has(block.proposer@) ==> old(self).total_stake + 10 <= u64::MAX,
        ensures
            final(self).wf(),
            old(self).spec_has(block.proposer@) ==> {
                &&& final(self).total_stake == old(self).total_stake + 10
                &&& final(self).spec_has(block.proposer@)
                &&& final(self).spec_validator(block.proposer@) == (Validator {
                    stake: (old(self).spec_stake(block.proposer@) + 10) as u64,
                    ..old(self).spec_validator(block.proposer@)
                })
            },
            !old(self).spec_has(block.proposer@) ==> *final(self) == *old(self),
            final(self).current_block == old(self).current_block,
            forall|c: Seq<char>| #[trigger] final(self).spec_has(c) == old(self).spec_has(c),
            forall|c: Seq<char>|
                c != block.proposer@ && old(self).spec_has(c) ==> #[trigger] final(self).spec_validator(c) == old(self).spec_validator(c),
            old(self).balanced() ==> final(self).balanced(),
    {
        let ghost pre = self.validators@;
        match self.validator_index(block.proposer.as_str()) {
            Some(i) => {
                proof {
                    lemma_key_at(pre, validator_key(), block.proposer@);
                    lemma_sum_elem(pre, i as int);
                }
                let v0 = &self.validators[i];
                let v = Validator {
                    address: v0.address.clone(),
                    stake: v0.stake + 10,
                    last_block_proposed: v0.last_block_proposed,
                    uptime: v0.uptime,
                };
                let ghost vv = v;
                proof {
                    lemma_sum_update(pre, i as int, vv);
                    lemma_distinct_update(pre, validator_key(), i as int, vv);
                }
                self.validators[i] = v;
                self.total_stake = self.total_stake + 10;
                proof {
                    lemma_key_at_update(pre, validator_key(), block.proposer@, i as int, vv);
                    assert forall|c: Seq<char>| true implies key_at(
                        pre.update(i as int, vv),
                        validator_key(),
                        c,
                    ) == key_at(pre, validator_key(), c) by {
                        lemma_key_at_update(pre, validator_key(), c, i as int, vv);
                    }
                    assert forall|c: Seq<char>|
                        c != block.proposer@ && has_key(pre, validator_key(), c) implies pre.update(
                        i as int,
                        vv,
                    )[key_at(pre, validator_key(), c)] == pre[key_at(pre, validator_key(), c)] by {
                        lemma_key_at(pre, validator_key(), c);
                    }
                    assert(final(self).spec_validator(block.proposer@) == vv);
                }
            },
            None => {},
        }
    }
}

} // verus!
