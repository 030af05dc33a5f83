//! The proof ledger: challenge issuance, proof submission and validation,
//! and validator scoring.

use vstd::prelude::*;
use vstd::string::*;

use crate::assoc::{
    distinct_keys, has_key, key_at, lemma_distinct_push, lemma_distinct_remove,
    lemma_distinct_update, lemma_key_at, lemma_key_at_push, lemma_key_at_remove,
    lemma_key_at_remove_self, lemma_key_at_update, lemma_key_at_witness,
};
use crate::platform::{now_secs, random_u64};
use crate::text::{dec_chars, str_eq, u64_to_string};

verus! {

/// A submitted artifact claimed to answer a challenge. `circuit_descriptor`
/// must echo the id of the challenge being answered.
pub struct QuantumProof {
    pub circuit_descriptor: String,
    pub measurement_results: Vec<u8>,
    pub proof_artifact: String,
    pub qubit_count: usize,
    pub validator_address: String,
    pub timestamp: u64,
}

/// A time-bounded task a validator can answer with a proof for reward.
pub struct PoQChallenge {
    pub challenge_id: String,
    pub qubit_count: usize,
    pub deadline: u64,
    pub reward: u64,
}

/// Cumulative reward credited to one validator address.
pub struct ScoreEntry {
    pub address: String,
    pub score: u64,
}

/// The proof ledger's state: open challenges keyed by id, the append-only
/// proof log, and the validators' scores.
pub struct PoQConsensus {
    pub challenges: Vec<PoQChallenge>,
    pub proofs: Vec<QuantumProof>,
    pub validator_scores: Vec<ScoreEntry>,
}

pub open spec fn challenge_key() -> spec_fn(PoQChallenge) -> Seq<char> {
    |c: PoQChallenge| c.challenge_id@
}

pub open spec fn score_key() -> spec_fn(ScoreEntry) -> Seq<char> {
    |e: ScoreEntry| e.address@
}

/// The id given to a challenge issued with random tag `tag`.
pub open spec fn challenge_id_chars(tag: u64) -> Seq<char> {
    "challenge_"@ + dec_chars(tag as nat)
}

/// The structural check a proof must pass: nonempty measurement results and
/// a nonempty proof artifact. No computational claim is validated.
pub open spec fn spec_proof_valid(p: QuantumProof) -> bool {
    p.measurement_results@.len() > 0 && p.proof_artifact@.len() > 0
}

/// Two proofs that carry the same data, field for field (the measurement
/// results compared by contents).
pub open spec fn proof_equiv(a: QuantumProof, b: QuantumProof) -> bool {
    &&& a.circuit_descriptor == b.circuit_descriptor
    &&& a.measurement_results@ == b.measurement_results@
    &&& a.proof_artifact == b.proof_artifact
    &&& a.qubit_count == b.qubit_count
    &&& a.validator_address == b.validator_address
    &&& a.timestamp == b.timestamp
}

/// Pointwise [`proof_equiv`] over two sequences of proofs.
pub open spec fn proofs_equiv(a: Seq<QuantumProof>, b: Seq<QuantumProof>) -> bool {
    a.len() == b.len() && forall|i: int| 0 <= i < a.len() ==> proof_equiv(#[trigger] a[i], b[i])
}

/// The concatenation of the proofs' artifacts, in order.
pub open spec fn concat_artifacts(ps: Seq<QuantumProof>) -> Seq<char>
    decreases ps.len(),
{
    if ps.len() == 0 {
        Seq::empty()
    } else {
        concat_artifacts(ps.drop_last()) + ps.last().proof_artifact@
    }
}

pub proof fn lemma_concat_artifacts_take(ps: Seq<QuantumProof>, i: int)
    requires
        0 <= i < ps.len(),
    ensures
        concat_artifacts(ps.take(i + 1)) == concat_artifacts(ps.take(i)) + ps[i].proof_artifact@,
{
    assert(ps.take(i + 1).drop_last() =~= ps.take(i));
    assert(ps.take(i + 1).last() == ps[i]);
}

pub proof fn lemma_concat_artifacts_all(ps: Seq<QuantumProof>)
    ensures
        concat_artifacts(ps.take(ps.len() as int)) == concat_artifacts(ps),
{
    assert(ps.take(ps.len() as int) =~= ps);
}

impl Clone for QuantumProof {
    /// A clone carries the same data.
    fn clone(&self) -> (r: Self)
        ensures
            proof_equiv(r, *self),
    {
        let r = QuantumProof {
            circuit_descriptor: self.circuit_descriptor.clone(),
            measurement_results: self.measurement_results.clone(),
            proof_artifact: self.proof_artifact.clone(),
            qubit_count: self.qubit_count,
            validator_address: self.validator_address.clone(),
            timestamp: self.timestamp,
        };
        proof {
            assert(r.measurement_results@ =~= self.measurement_results@);
        }
        r
    }
}

impl Clone for PoQChallenge {
    /// A clone carries the same value.
    fn clone(&self) -> (r: Self)
        ensures
            r == *self,
    {
        PoQChallenge {
            challenge_id: self.challenge_id.clone(),
            qubit_count: self.qubit_count,
            deadline: self.deadline,
            reward: self.reward,
        }
    }
}

impl PoQConsensus {
    /// Challenge ids and score addresses are unique.
    pub open spec fn wf(self) -> bool {
        &&& distinct_keys(self.challenges@, challenge_key())
        &&& distinct_keys(self.validator_scores@, score_key())
    }

    pub open spec fn spec_has_challenge(self, id: Seq<char>) -> bool {
        has_key(self.challenges@, challenge_key(), id)
    }

    pub open spec fn spec_challenge(self, id: Seq<char>) -> PoQChallenge {
        self.challenges@[key_at(self.challenges@, challenge_key(), id)]
    }

    /// The cumulative score of an address; zero when it was never credited.
    pub open spec fn spec_score(self, address: Seq<char>) -> u64 {
        if has_key(self.validator_scores@, score_key(), address) {
            self.validator_scores@[key_at(self.validator_scores@, score_key(), address)].score
        } else {
            0
        }
    }

    /// An empty ledger.
    pub fn new() -> (r: PoQConsensus)
        ensures
            r.wf(),
            r.challenges@.len() == 0,
            r.proofs@.len() == 0,
            r.validator_scores@.len() == 0,
    {
        PoQConsensus { challenges: Vec::new(), proofs: Vec::new(), validator_scores: Vec::new() }
    }

    /// Position of the challenge stored under `id`.
    fn challenge_index(&self, id: &str) -> (r: Option<usize>)
        ensures
            match r {
                Some(i) => i < self.challenges@.len() && key_at(
                    self.challenges@,
                    challenge_key(),
                    id@,
                ) == i as int,
                None => !self.spec_has_challenge(id@),
            },
    {
        let n = self.challenges.len();
        let mut i: usize = 0;
        while i < n
            invariant
                0 <= i <= n,
                n == self.challenges@.len(),
                forall|j: int| 0 <= j < i ==> (#[trigger] self.challenges@[j]).challenge_id@
                    != id@,
            decreases n - i,
        {
            if str_eq(self.challenges[i].challenge_id.as_str(), id) {
                proof {
                    lemma_key_at_witness(self.challenges@, challenge_key(), i as int);
                }
                return Some(i);
            }
            i += 1;
        }
        proof {
            lemma_key_at(self.challenges@, challenge_key(), id@);
        }
        None
    }

    /// Whether a challenge with `id` is open.
    pub fn has_challenge(&self, id: &str) -> (r: bool)
        ensures
            r == self.spec_has_challenge(id@),
    {
        self.challenge_index(id).is_some()
    }

    /// Position of the score entry for `address`.
    fn score_index(&self, address: &str) -> (r: Option<usize>)
        ensures
            match r {
                Some(i) => i < self.validator_scores@.len() && key_at(
                    self.validator_scores@,
                    score_key(),
                    address@,
                ) == i as int,
                None => !has_key(self.validator_scores@, score_key(), address@),
            },
    {
        let n = self.validator_scores.len();
        let mut i: usize = 0;
        while i < n
            invariant
                0 <= i <= n,
                n == self.validator_scores@.len(),
                forall|j: int| 0 <= j < i ==> (#[trigger] self.validator_scores@[j]).address@
                    != address@,
            decreases n - i,
        {
            if str_eq(self.validator_scores[i].address.as_str(), address) {
                proof {
                    lemma_key_at_witness(self.validator_scores@, score_key(), i as int);
                }
                return Some(i);
            }
            i += 1;
        }
        proof {
            lemma_key_at(self.validator_scores@, score_key(), address@);
        }
        None
    }

    /// Issues a challenge from a given random tag and clock reading: the id
    /// is `"challenge_"` followed by the tag in decimal, the deadline lies
    /// 300 seconds past `now`, and the reward is `qubit_count * 10`. A
    /// colliding id overwrites the stored challenge, as a map insert would.
    pub fn generate_challenge_with(&mut self, qubit_count: usize, tag: u64, now: u64) -> (r:
        PoQChallenge)
        requires
            old(self).wf(),
            qubit_count * 10 <= u64::MAX,
            now + 300 <= u64::MAX,
        ensures
            final(self).wf(),
            r.challenge_id@ == challenge_id_chars(tag),
            r.qubit_count == qubit_count,
            r.deadline == now + 300,
            r.reward == qubit_count * 10,
            final(self).spec_has_challenge(r.challenge_id@),
            final(self).spec_challenge(r.challenge_id@) == r,
            forall|d: Seq<char>| d != r.challenge_id@ ==> #[trigger] final(self).spec_has_challenge(d) == old(self).spec_has_challenge(d),
            forall|d: Seq<char>| d != r.challenge_id@ && old(self).spec_has_challenge(d)
                ==> #[trigger] final(self).spec_challenge(d) == old(self).spec_challenge(d),
            final(self).proofs@ == old(self).proofs@,
            final(self).validator_scores@ == old(self).validator_scores@,
    {
        let ghost pre = self.challenges@;
        let mut id = String::from_str("challenge_");
        id.append(u64_to_string(tag).as_str());
        let reward = (qubit_count as u64) * 10;
        let deadline = now + 300;
        let challenge = PoQChallenge { challenge_id: id, qubit_count, deadline, reward };
        let stored = challenge.clone();
        let ghost cc = stored;
        match self.challenge_index(stored.challenge_id.as_str()) {
            Some(i) => {
                proof {
                    lemma_key_at(pre, challenge_key(), cc.challenge_id@);
                    lemma_distinct_update(pre, challenge_key(), i as int, cc);
                }
                self.challenges[i] = stored;
                proof {
                    lemma_key_at_update(pre, challenge_key(), cc.challenge_id@, i as int, cc);
                    assert forall|d: Seq<char>| true implies key_at(
                        pre.update(i as int, cc),
                        challenge_key(),
                        d,
                    ) == key_at(pre, challenge_key(), d) by {
                        lemma_key_at_update(pre, challenge_key(), d, i as int, cc);
                    }
                    assert forall|d: Seq<char>|
                        d != cc.challenge_id@ && has_key(pre, challenge_key(), d) implies pre.update(
                        i as int,
                        cc,
                    )[key_at(pre, challenge_key(), d)] == pre[key_at(pre, challenge_key(), d)] by {
                        lemma_key_at(pre, challenge_key(), d);
                    }
                }
            },
            None => {
                proof {
                    lemma_distinct_push(pre, challenge_key(), cc);
                }
                self.challenges.push(stored);
                proof {
                    lemma_key_at_push(pre, challenge_key(), cc.challenge_id@, cc);
                    assert forall|d: Seq<char>| d != cc.challenge_id@ implies key_at(
                        pre.push(cc),
                        challenge_key(),
                        d,
                    ) == key_at(pre, challenge_key(), d) by {
                        lemma_key_at_push(pre, challenge_key(), d, cc);
                        lemma_key_at(pre, challenge_key(), d);
                    }
                    assert forall|d: Seq<char>|
                        d != cc.challenge_id@ && has_key(pre, challenge_key(), d) implies pre.push(
                        cc,
                    )[key_at(pre, challenge_key(), d)] == pre[key_at(pre, challenge_key(), d)] by {
                        lemma_key_at(pre, challenge_key(), d);
                    }
                }
            },
        }
        challenge
    }

    /// Issues a challenge with a random id and a deadline 300 seconds from
    /// the clock's current reading. The reward scales linearly with the
    /// difficulty parameter: `qubit_count * 10`.
    pub fn generate_challenge(&mut self, qubit_count: usize) -> (r: PoQChallenge)
        requires
            old(self).wf(),
            qubit_count * 10 <= u64::MAX,
        ensures
            final(self).wf(),
            r.qubit_count == qubit_count,
            r.reward == qubit_count * 10,
            final(self).spec_has_challenge(r.challenge_id@),
            final(self).spec_challenge(r.challenge_id@) == r,
            forall|d: Seq<char>| d != r.challenge_id@ ==> #[trigger] final(self).spec_has_challenge(d) == old(self).spec_has_challenge(d),
            forall|d: Seq<char>| d != r.challenge_id@ && old(self).spec_has_challenge(d)
                ==> #[trigger] final(self).spec_challenge(d) == old(self).spec_challenge(d),
            final(self).proofs@ == old(self).proofs@,
            final(self).validator_scores@ == old(self).validator_scores@,
    {
        let tag = random_u64();
        let now = now_secs();
        let now = if now <= u64::MAX - 300 {
            now
        } else {
            u64::MAX - 300
        };
        self.generate_challenge_with(qubit_count, tag, now)
    }

    /// The structural check on a proof: nonempty measurement results and a
    /// nonempty artifact. A placeholder for a pluggable verification
    /// strategy; no computational claim is checked.
    pub fn verify_proof(&self, proof: &QuantumProof) -> (r: bool)
        ensures
            r == spec_proof_valid(*proof),
    {
        if proof.measurement_results.len() == 0 {
            return false;
        }
        proof.proof_artifact.as_str().unicode_len() > 0
    }

    /// Accepts or rejects `proof` against the clock reading `now`. On
    /// success the proof is appended to the log, the submitter's score
    /// grows by the challenge's reward, and the challenge is removed; every
    /// rejection leaves the ledger unchanged.
    pub fn submit_proof_at(&mut self, proof: QuantumProof, now: u64) -> (r: Result<(), String>)
        requires
            old(self).wf(),
            spec_proof_valid(proof) && old(self).spec_has_challenge(proof.circuit_descriptor@)
                ==> old(self).spec_score(proof.validator_address@) + old(self).spec_challenge(
                proof.circuit_descriptor@,
            ).reward <= u64::MAX,
        ensures
            final(self).wf(),
            !spec_proof_valid(proof) ==> (r matches Err(m) && m@ == "Invalid quantum proof"@
                && *final(self) == *old(self)),
            spec_proof_valid(proof) && !old(self).spec_has_challenge(proof.circuit_descriptor@)
                ==> (r matches Err(m) && m@ == "Challenge not found"@ && *final(self) == *old(self)),
            spec_proof_valid(proof) && old(self).spec_has_challenge(proof.circuit_descriptor@)
                && now > old(self).spec_challenge(proof.circuit_descriptor@).deadline ==> (
            r matches Err(m) && m@ == "Challenge deadline exceeded"@ && *final(self) == *old(self)),
            spec_proof_valid(proof) && old(self).spec_has_challenge(proof.circuit_descriptor@)
                && now <= old(self).spec_challenge(proof.circuit_descriptor@).deadline ==> {
                &&& r is Ok
                &&& final(self).proofs@ == old(self).proofs@.push(proof)
                &&& !final(self).spec_has_challenge(proof.circuit_descriptor@)
                &&& final(self).spec_score(proof.validator_address@) == old(self).spec_score(
                    proof.validator_address@,
                ) + old(self).spec_challenge(proof.circuit_descriptor@).reward
                &&& forall|d: Seq<char>|
                    d != proof.circuit_descriptor@ ==> #[trigger] final(self).spec_has_challenge(
                        d,
                    ) == old(self).spec_has_challenge(d)
                &&& forall|d: Seq<char>|
                    d != proof.circuit_descriptor@ && old(self).spec_has_challenge(d)
                        ==> #[trigger] final(self).spec_challenge(d) == old(self).spec_challenge(d)
                &&& forall|a: Seq<char>|
                    a != proof.validator_address@ ==> #[trigger] final(self).spec_score(a) == old(self).spec_score(a)
            },
            r is Ok <==> (spec_proof_valid(proof) && old(self).spec_has_challenge(
                proof.circuit_descriptor@,
            ) && now <= old(self).spec_challenge(proof.circuit_descriptor@).deadline),
    {
        if !self.verify_proof(&proof) {
            return Err(String::from_str("Invalid quantum proof"));
        }
        let ci = match self.challenge_index(proof.circuit_descriptor.as_str()) {
            Some(i) => i,
            None => {
                return Err(String::from_str("Challenge not found"));
            },
        };
        proof {
            lemma_key_at(self.challenges@, challenge_key(), proof.circuit_descriptor@);
        }
        if now > self.challenges[ci].deadline {
            return Err(String::from_str("Challenge deadline exceeded"));
        }
        let ghost pre_challenges = self.challenges@;
        let ghost pre_scores = self.validator_scores@;
        let reward = self.challenges[ci].reward;

        // Credit the submitter's score.
        match self.score_index(proof.validator_address.as_str()) {
            Some(si) => {
                proof {
                    lemma_key_at(pre_scores, score_key(), proof.validator_address@);
                }
                let e0 = &self.validator_scores[si];
                let e = ScoreEntry { address: e0.address.clone(), score: e0.score + reward };
                let ghost ee = e;
                proof {
                    lemma_distinct_update(pre_scores, score_key(), si as int, ee);
                }
                self.validator_scores[si] = e;
                proof {
                    lemma_key_at_update(
                        pre_scores,
                        score_key(),
                        proof.validator_address@,
                        si as int,
                        ee,
                    );
                    assert forall|a: Seq<char>| true implies key_at(
                        pre_scores.update(si as int, ee),
                        score_key(),
                        a,
                    ) == key_at(pre_scores, score_key(), a) by {
                        lemma_key_at_update(pre_scores, score_key(), a, si as int, ee);
                    }
                    assert forall|a: Seq<char>|
                        a != proof.validator_address@ && has_key(
                            pre_scores,
                            score_key(),
                            a,
                        ) implies pre_scores.update(si as int, ee)[key_at(
                        pre_scores,
                        score_key(),
                        a,
                    )] == pre_scores[key_at(pre_scores, score_key(), a)] by {
                        lemma_key_at(pre_scores, score_key(), a);
                    }
                }
            },
            None => {
                let e = ScoreEntry { address: proof.validator_address.clone(), score: reward };
                let ghost ee = e;
                proof {
                    lemma_distinct_push(pre_scores, score_key(), ee);
                }
                self.validator_scores.push(e);
                proof {
                    lemma_key_at_push(pre_scores, score_key(), ee.address@, ee);
                    assert forall|a: Seq<char>| a != ee.address@ implies key_at(
                        pre_scores.push(ee),
                        score_key(),
                        a,
                    ) == key_at(pre_scores, score_key(), a) by {
                        lemma_key_at_push(pre_scores, score_key(), a, ee);
                        lemma_key_at(pre_scores, score_key(), a);
                    }
                    assert forall|a: Seq<char>|
                        a != ee.address@ && has_key(pre_scores, score_key(), a) implies
                        pre_scores.push(ee)[key_at(pre_scores, score_key(), a)] == pre_scores[
                        key_at(pre_scores, score_key(), a)] by {
                        lemma_key_at(pre_scores, score_key(), a);
                    }
                }
            },
        }

        // Remove the solved challenge: a challenge is consumed exactly once.
        proof {
            lemma_distinct_remove(pre_challenges, challenge_key(), ci as int);
            lemma_key_at_remove_self(pre_challenges, challenge_key(), ci as int);
            assert forall|d: Seq<char>| d != pre_challenges[ci as int].challenge_id@ implies
                has_key(pre_challenges.remove(ci as int), challenge_key(), d) == has_key(
                pre_challenges,
                challenge_key(),
                d,
            ) && (has_key(pre_challenges, challenge_key(), d) ==> pre_challenges.remove(
                ci as int,
            )[key_at(pre_challenges.remove(ci as int), challenge_key(), d)] == pre_challenges[
                key_at(pre_challenges, challenge_key(), d)]) by {
                lemma_key_at_remove(pre_challenges, challenge_key(), d, ci as int);
            }
        }
        let _removed = self.challenges.remove(ci);

        // Log the accepted proof.
        self.proofs.push(proof);
        Ok(())
    }

    /// Accepts or rejects `proof` against the current clock reading. The
    /// structural check and the challenge lookup do not depend on the
    /// clock; whether an existing challenge is already expired does.
    pub fn submit_proof(&mut self, proof: QuantumProof) -> (r: Result<(), String>)
        requires
            old(self).wf(),
            spec_proof_valid(proof) && old(self).spec_has_challenge(proof.circuit_descriptor@)
                ==> old(self).spec_score(proof.validator_address@) + old(self).spec_challenge(
                proof.circuit_descriptor@,
            ).reward <= u64::MAX,
        ensures
            final(self).wf(),
            !spec_proof_valid(proof) ==> (r matches Err(m) && m@ == "Invalid quantum proof"@
                && *final(self) == *old(self)),
            spec_proof_valid(proof) && !old(self).spec_has_challenge(proof.circuit_descriptor@)
                ==> (r matches Err(m) && m@ == "Challenge not found"@ && *final(self) == *old(self)),
            r is Err ==> *final(self) == *old(self),
            spec_proof_valid(proof) && old(self).spec_has_challenge(proof.circuit_descriptor@)
                && (r is Err) ==> (r matches Err(m) && m@ == "Challenge deadline exceeded"@),
            r is Ok ==> spec_proof_valid(proof) && old(self).spec_has_challenge(
                proof.circuit_descriptor@,
            ) && {
                &&& final(self).proofs@ == old(self).proofs@.push(proof)
                &&& !final(self).spec_has_challenge(proof.circuit_descriptor@)
                &&& final(self).spec_score(proof.validator_address@) == old(self).spec_score(
                    proof.validator_address@,
                ) + old(self).spec_challenge(proof.circuit_descriptor@).reward
                &&& forall|d: Seq<char>|
                    d != proof.circuit_descriptor@ ==> #[trigger] final(self).spec_has_challenge(
                        d,
                    ) == old(self).spec_has_challenge(d)
                &&& forall|d: Seq<char>|
                    d != proof.circuit_descriptor@ && old(self).spec_has_challenge(d)
                        ==> #[trigger] final(self).spec_challenge(d) == old(self).spec_challenge(d)
                &&& forall|a: Seq<char>|
                    a != proof.validator_address@ ==> #[trigger] final(self).spec_score(a) == old(self).spec_score(a)
            },
    {
        let now = now_secs();
        self.submit_proof_at(proof, now)
    }

    /// The cumulative reward credited to `address`; unknown addresses score
    /// zero.
    pub fn get_validator_score(&self, address: &str) -> (r: u64)
        ensures
            r == self.spec_score(address@),
    {
        match self.score_index(address) {
            Some(i) => self.validator_scores[i].score,
            None => 0,
        }
    }
}

} // verus!
