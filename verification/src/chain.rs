//! The stateless chain verifier: block-hash integrity and chain
//! continuity, over already-produced blocks only.

use vstd::prelude::*;
use vstd::string::*;
use vstd::utf8::is_ascii_chars_encode_utf8;

use crate::digest::{hash_matches, sha3_hex, sha3_hex_of, spec_hash_matches};
use crate::hybrid::HybridBlock;
use crate::poq::concat_artifacts;
use crate::pos::Block;
use crate::text::{concat_views, dec_chars, lemma_concat_views_all, lemma_concat_views_take, str_eq, u64_to_string};

verus! {

/// What the verifier recomputes a block's digest over: the decimal index,
/// the decimal timestamp, the previous-hash reference, the transactions in
/// order, and the proposer. This deliberately differs from what proposal
/// hashes (which draws an address from the validator set instead); the
/// lenient prefix rule of [`spec_hash_matches`] tolerates the mismatch.
pub open spec fn verify_hash_input(b: Block) -> Seq<char> {
    dec_chars(b.index as nat) + dec_chars(b.timestamp as nat) + b.prev_hash@ + concat_views(
        b.transactions@,
    ) + b.proposer@
}

/// A block passes when its declared hash equals the recomputed digest, or
/// starts with that digest's first 8 characters.
pub open spec fn spec_pos_block_ok(b: Block) -> bool {
    spec_hash_matches(b.hash@, sha3_hex_of(verify_hash_input(b)))
}

/// What the hybrid digest is recomputed over: the embedded block's hash
/// followed by each attached proof's artifact.
pub open spec fn hybrid_hash_input(hb: HybridBlock) -> Seq<char> {
    hb.pos_block.hash@ + concat_artifacts(hb.quantum_proofs@)
}

/// A hybrid block passes when its embedded block passes and its declared
/// hybrid hash matches the recomputed hybrid digest under the same
/// exact-or-prefix rule.
pub open spec fn spec_hybrid_block_ok(hb: HybridBlock) -> bool {
    spec_pos_block_ok(hb.pos_block) && spec_hash_matches(
        hb.hybrid_hash@,
        sha3_hex_of(hybrid_hash_input(hb)),
    )
}

/// A chain passes when every block passes individually and each block's
/// declared previous hash is its predecessor's actual hash. The empty
/// chain passes.
pub open spec fn spec_chain_valid(bs: Seq<HybridBlock>) -> bool {
    &&& forall|i: int| 0 <= i < bs.len() ==> spec_hybrid_block_ok(#[trigger] bs[i])
    &&& forall|i: int|
        1 <= i < bs.len() ==> (#[trigger] bs[i]).pos_block.prev_hash@ == bs[
            i - 1].pos_block.hash@
}

/// Stateless checker of block-hash integrity and chain continuity.
pub struct BlockVerifier;

impl BlockVerifier {
    /// Recomputes a block's digest and applies the exact-or-prefix
    /// acceptance rule against the declared hash.
    pub fn verify_pos_block(block: &Block) -> (r: bool)
        ensures
            r == spec_pos_block_ok(*block),
    {
        let mut input = u64_to_string(block.index);
        input.append(u64_to_string(block.timestamp).as_str());
        input.append(block.prev_hash.as_str());
        let m = block.transactions.len();
        let mut j: usize = 0;
        proof {
            assert(concat_views(block.transactions@.take(0)) =~= Seq::<char>::empty());
            assert(input@ =~= dec_chars(block.index as nat) + dec_chars(block.timestamp as nat)
                + block.prev_hash@ + concat_views(block.transactions@.take(0)));
        }
        while j < m
            invariant
                0 <= j <= m,
                m == block.transactions@.len(),
                input@ == dec_chars(block.index as nat) + dec_chars(block.timestamp as nat)
                    + block.prev_hash@ + concat_views(block.transactions@.take(j as int)),
            decreases m - j,
        {
            input.append(block.transactions[j].as_str());
            proof {
                lemma_concat_views_take(block.transactions@, j as int);
                assert(input@ =~= dec_chars(block.index as nat) + dec_chars(
                    block.timestamp as nat,
                ) + block.prev_hash@ + concat_views(block.transactions@.take(j as int + 1)));
            }
            j += 1;
        }
        input.append(block.proposer.as_str());
        proof {
            lemma_concat_views_all(block.transactions@);
            assert(input@ =~= verify_hash_input(*block));
        }
        let computed = sha3_hex(input.as_str());
        proof {
            is_ascii_chars_encode_utf8(computed@);
        }
        hash_matches(block.hash.as_str(), computed.as_str())
    }

    /// Verifies the embedded block, then recomputes the hybrid digest and
    /// applies the same exact-or-prefix rule against the declared hybrid
    /// hash.
    pub fn verify_hybrid_block(block: &HybridBlock) -> (r: bool)
        ensures
            r == spec_hybrid_block_ok(*block),
    {
        if !Self::verify_pos_block(&block.pos_block) {
            return false;
        }
        let mut input = block.pos_block.hash.clone();
        let m = block.quantum_proofs.len();
        let mut j: usize = 0;
        proof {
            assert(concat_artifacts(block.quantum_proofs@.take(0)) =~= Seq::<char>::empty());
            assert(input@ =~= block.pos_block.hash@ + concat_artifacts(
                block.quantum_proofs@.take(0),
            ));
        }
        while j < m
            invariant
                0 <= j <= m,
                m == block.quantum_proofs@.len(),
                input@ == block.pos_block.hash@ + concat_artifacts(
                    block.quantum_proofs@.take(j as int),
                ),
            decreases m - j,
        {
            input.append(block.quantum_proofs[j].proof_artifact.as_str());
            proof {
                crate::poq::lemma_concat_artifacts_take(block.quantum_proofs@, j as int);
                assert(input@ =~= block.pos_block.hash@ + concat_artifacts(
                    block.quantum_proofs@.take(j as int + 1),
                ));
            }
            j += 1;
        }
        proof {
            crate::poq::lemma_concat_artifacts_all(block.quantum_proofs@);
        }
        let computed = sha3_hex(input.as_str());
        proof {
            is_ascii_chars_encode_utf8(computed@);
        }
        hash_matches(block.hybrid_hash.as_str(), computed.as_str())
    }

    /// Verifies every block individually and the continuity of the
    /// previous-hash references; false on the first violation, true for a
    /// fully consistent sequence (the empty one included).
    pub fn verify_chain(blocks: &[HybridBlock]) -> (r: bool)
        ensures
            r == spec_chain_valid(blocks@),
    {
        let n = blocks.len();
        let mut i: usize = 0;
        while i < n
            invariant
                0 <= i <= n,
                n == blocks@.len(),
                forall|j: int| 0 <= j < i ==> spec_hybrid_block_ok(#[trigger] blocks@[j]),
                forall|j: int|
                    1 <= j < i ==> (#[trigger] blocks@[j]).pos_block.prev_hash@ == blocks@[
                        j - 1].pos_block.hash@,
            decreases n - i,
        {
            if !Self::verify_hybrid_block(&blocks[i]) {
                return false;
            }
            if i > 0 {
                if !str_eq(
                    blocks[i].pos_block.prev_hash.as_str(),
                    blocks[i - 1].pos_block.hash.as_str(),
                ) {
                    return false;
                }
            }
            i += 1;
        }
        true
    }
}

} // verus!
