//! The hybrid coordinator: composes one stake-elected block with a bounded
//! window of recent proofs into a single hashed unit, and delegates
//! registration and rewards to the stake ledger.

use vstd::prelude::*;
use vstd::string::*;

use crate::digest::{sha3_hex, sha3_hex_of};
use crate::poq::{
    concat_artifacts, lemma_concat_artifacts_all, lemma_concat_artifacts_take, proofs_equiv,
    spec_proof_valid, PoQChallenge, PoQConsensus, QuantumProof,
};
use crate::pos::{pos_hash_input, prev_hash_chars, Block, PoSConsensus, Validator};

verus! {

/// The composite unit: one stake-elected block, the most recent proofs
/// (newest first, at most five), and a digest over both.
pub struct HybridBlock {
    pub pos_block: Block,
    pub quantum_proofs: Vec<QuantumProof>,
    pub hybrid_hash: String,
}

/// The two ledgers behind one coordinating facade.
pub struct HybridConsensus {
    pub pos: PoSConsensus,
    pub poq: PoQConsensus,
}

/// The window of proofs a hybrid block carries: the last entries of the
/// log, most recent first, at most five.
pub open spec fn spec_recent_proofs(ps: Seq<QuantumProof>) -> Seq<QuantumProof> {
    let k = if ps.len() < 5 {
        ps.len() as int
    } else {
        5
    };
    Seq::new(k as nat, |i: int| ps[ps.len() - 1 - i])
}

impl HybridConsensus {
    pub open spec fn wf(self) -> bool {
        self.pos.wf() && self.poq.wf()
    }

    /// Two empty ledgers.
    pub fn new() -> (r: HybridConsensus)
        ensures
            r.wf(),
            r.pos.validators@.len() == 0,
            r.pos.total_stake == 0,
            r.pos.current_block == 0,
            r.pos.balanced(),
            r.poq.challenges@.len() == 0,
            r.poq.proofs@.len() == 0,
            r.poq.validator_scores@.len() == 0,
    {
        HybridConsensus { pos: PoSConsensus::new(), poq: PoQConsensus::new() }
    }

    /// Delegates to the stake ledger's registration.
    pub fn register_validator(&mut self, address: String, initial_stake: u64)
        requires
            old(self).wf(),
            old(self).pos.total_stake + initial_stake <= u64::MAX,
        ensures
            final(self).wf(),
            final(self).pos.spec_has(address@),
            final(self).pos.spec_validator(address@).address@ == address@,
            final(self).pos.spec_validator(address@).stake == initial_stake,
            final(self).pos.spec_validator(address@).last_block_proposed == 0,
            final(self).pos.spec_validator(address@).uptime == 100,
            final(self).pos.total_stake == old(self).pos.total_stake + initial_stake,
            final(self).pos.current_block == old(self).pos.current_block,
            old(self).pos.balanced() && !old(self).pos.spec_has(address@) ==> final(self).pos.balanced(),
            final(self).poq == old(self).poq,
    {
        self.pos.register_validator(address, initial_stake);
    }

    /// Delegates to the stake ledger's staking.
    pub fn stake(&mut self, address: &str, amount: u64) -> (r: bool)
        requires
            old(self).wf(),
            old(self).pos.spec_has(address@) ==> old(self).pos.total_stake + amount <= u64::MAX,
        ensures
            final(self).wf(),
            r == old(self).pos.spec_has(address@),
            !r ==> *final(self) == *old(self),
            r ==> final(self).pos.total_stake == old(self).pos.total_stake + amount,
            r ==> final(self).pos.spec_has(address@) && final(self).pos.spec_stake(address@)
                == old(self).pos.spec_stake(address@) + amount,
            old(self).pos.balanced() ==> final(self).pos.balanced(),
            final(self).poq == old(self).poq,
    {
        self.pos.stake(address, amount)
    }

    /// Delegates to the proof ledger's challenge issuance.
    pub fn generate_quantum_challenge(&mut self, qubit_count: usize) -> (r: PoQChallenge)
        requires
            old(self).wf(),
            qubit_count * 10 <= u64::MAX,
        ensures
            final(self).wf(),
            r.qubit_count == qubit_count,
            r.reward == qubit_count * 10,
            final(self).poq.spec_has_challenge(r.challenge_id@),
            final(self).poq.spec_challenge(r.challenge_id@) == r,
            forall|d: Seq<char>| d != r.challenge_id@ ==> #[trigger] final(self).poq.spec_has_challenge(d) == old(self).poq.spec_has_challenge(d),
            final(self).poq.proofs@ == old(self).poq.proofs@,
            final(self).poq.validator_scores@ == old(self).poq.validator_scores@,
            final(self).pos == old(self).pos,
    {
        self.poq.generate_challenge(qubit_count)
    }

    /// Delegates to the proof ledger's submission.
    pub fn submit_quantum_proof(&mut self, proof: QuantumProof) -> (r: Result<(), String>)
        requires
            old(self).wf(),
            spec_proof_valid(proof) && old(self).poq.spec_has_challenge(proof.circuit_descriptor@)
                ==> old(self).poq.spec_score(proof.validator_address@) + old(self).poq.spec_challenge(proof.circuit_descriptor@).reward <= u64::MAX,
        ensures
            final(self).wf(),
            final(self).pos == old(self).pos,
            !spec_proof_valid(proof) ==> (r matches Err(m) && m@ == "Invalid quantum proof"@
                && final(self).poq == old(self).poq),
            spec_proof_valid(proof) && !old(self).poq.spec_has_challenge(
                proof.circuit_descriptor@,
            ) ==> (r matches Err(m) && m@ == "Challenge not found"@ && final(self).poq == old(self).poq),
            r is Err ==> final(self).poq == old(self).poq,
            r is Ok ==> spec_proof_valid(proof) && old(self).poq.spec_has_challenge(
                proof.circuit_descriptor@,
            ) && {
                &&& final(self).poq.proofs@ == old(self).poq.proofs@.push(proof)
                &&& !final(self).poq.spec_has_challenge(proof.circuit_descriptor@)
                &&& final(self).poq.spec_score(proof.validator_address@) == old(self).poq.spec_score(proof.validator_address@) + old(self).poq.spec_challenge(
                    proof.circuit_descriptor@,
                ).reward
            },
    {
        self.poq.submit_proof(proof)
    }

    /// The most recent proofs of the global log, newest first, at most
    /// five. The window is a fixed count, not a time window.
    fn get_recent_quantum_proofs(&self) -> (r: Vec<QuantumProof>)
        ensures
            proofs_equiv(r@, spec_recent_proofs(self.poq.proofs@)),
    {
        let n = self.poq.proofs.len();
        let k = if n < 5 {
            n
        } else {
            5
        };
        let mut out: Vec<QuantumProof> = Vec::new();
        let mut i: usize = 0;
        while i < k
            invariant
                0 <= i <= k,
                k == (if self.poq.proofs@.len() < 5 {
                    self.poq.proofs@.len() as int
                } else {
                    5
                }),
                n == self.poq.proofs@.len(),
                out@.len() == i,
                forall|j: int| 0 <= j < i ==> crate::poq::proof_equiv(
                    #[trigger] out@[j],
                    self.poq.proofs@[n - 1 - j],
                ),
            decreases k - i,
        {
            out.push(self.poq.proofs[n - 1 - i].clone());
            i += 1;
        }
        out
    }

    /// Proposes a hybrid block, or returns nothing (and changes nothing)
    /// when `proposer` is unregistered: the stake ledger produces the block,
    /// the most recent five proofs are attached, the hybrid digest covers
    /// the block's hash followed by each attached proof's artifact, and the
    /// proposer's reward is applied.
    pub fn propose_hybrid_block(&mut self, proposer: &str, transactions: Vec<String>) -> (r:
        Option<HybridBlock>)
        requires
            old(self).wf(),
            old(self).pos.current_block < u64::MAX,
            old(self).pos.spec_has(proposer@) ==> old(self).pos.total_stake + 10 <= u64::MAX,
        ensures
            final(self).wf(),
            (r is None) <==> !old(self).pos.spec_has(proposer@),
            (r is None) ==> *final(self) == *old(self),
            r matches Some(hb) ==> {
                &&& hb.pos_block.index == old(self).pos.current_block + 1
                &&& hb.pos_block.proposer@ == proposer@
                &&& hb.pos_block.transactions@ == transactions@
                &&& hb.pos_block.prev_hash@ == prev_hash_chars(old(self).pos.current_block)
                &&& hb.pos_block.hash@ == sha3_hex_of(
                    pos_hash_input(
                        hb.pos_block.index,
                        hb.pos_block.timestamp,
                        old(self).pos.validators@[0].address@,
                        transactions@,
                    ),
                )
                &&& proofs_equiv(hb.quantum_proofs@, spec_recent_proofs(old(self).poq.proofs@))
                &&& hb.quantum_proofs@.len() <= 5
                &&& hb.hybrid_hash@ == sha3_hex_of(
                    hb.pos_block.hash@ + concat_artifacts(hb.quantum_proofs@),
                )
                &&& final(self).poq == old(self).poq
                &&& final(self).pos.current_block == old(self).pos.current_block + 1
                &&& final(self).pos.total_stake == old(self).pos.total_stake + 10
                &&& final(self).pos.spec_has(proposer@)
                &&& final(self).pos.spec_validator(proposer@) == (Validator {
                    stake: (old(self).pos.spec_stake(proposer@) + 10) as u64,
                    last_block_proposed: (old(self).pos.current_block + 1) as u64,
                    ..old(self).pos.spec_validator(proposer@)
                })
                &&& forall|c: Seq<char>| #[trigger]
                    final(self).pos.spec_has(c) == old(self).pos.spec_has(c)
                &&& forall|c: Seq<char>|
                    c != proposer@ && old(self).pos.spec_has(c) ==> #[trigger] final(self).pos.spec_validator(c) == old(self).pos.spec_validator(c)
                &&& (old(self).pos.balanced() ==> final(self).pos.balanced())
            },
    {
        let pos_block = match self.pos.propose_block(proposer, transactions) {
            Some(b) => b,
            None => {
                return None;
            },
        };
        let recent = self.get_recent_quantum_proofs();

        let mut input = pos_block.hash.clone();
        let m = recent.len();
        let mut j: usize = 0;
        proof {
            assert(concat_artifacts(recent@.take(0)) =~= Seq::<char>::empty());
            assert(input@ =~= pos_block.hash@ + concat_artifacts(recent@.take(0)));
        }
        while j < m
            invariant
                0 <= j <= m,
                m == recent@.len(),
                input@ == pos_block.hash@ + concat_artifacts(recent@.take(j as int)),
            decreases m - j,
        {
            input.append(recent[j].proof_artifact.as_str());
            proof {
                lemma_concat_artifacts_take(recent@, j as int);
                assert(input@ =~= pos_block.hash@ + concat_artifacts(recent@.take(j as int + 1)));
            }
            j += 1;
        }
        proof {
            lemma_concat_artifacts_all(recent@);
        }
        let hybrid_hash = sha3_hex(input.as_str());

        let hybrid_block = HybridBlock { pos_block, quantum_proofs: recent, hybrid_hash };

        self.pos.calculate_rewards(&hybrid_block.pos_block);

        Some(hybrid_block)
    }
}

} // verus!
