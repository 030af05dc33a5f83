//! The contract runtime: a registry of named contracts, each with a
//! string-keyed state store, and the two built-in contract behaviours
//! (randomness requests and proof-backed token minting).

use vstd::prelude::*;
use vstd::string::*;

use crate::assoc::{
    distinct_keys, has_key, key_at, lemma_distinct_push, lemma_distinct_update, lemma_key_at,
    lemma_key_at_push, lemma_key_at_update, lemma_key_at_witness,
};
use crate::platform::now_secs;
use crate::text::{
    all_dec_digits, dec_chars, dec_val, lemma_dec_chars_val, parse_u64_dec, str_eq, u64_to_string,
};

verus! {

/// One key/value pair of a contract's state store.
pub struct StateEntry {
    pub key: String,
    pub value: String,
}

/// A deployed contract and its state.
pub struct Contract {
    pub id: String,
    pub code: String,
    pub creator: String,
    pub timestamp: u64,
    pub state: Vec<StateEntry>,
}

/// What one execution returns: whether it succeeded, the gas charged, its
/// output, and the state entries it wrote.
pub struct ContractExecutionResult {
    pub success: bool,
    pub gas_used: u64,
    pub output: String,
    pub state_changes: Vec<StateEntry>,
}

/// The runtime's registry of contracts, keyed by id.
pub struct ContractRuntime {
    pub contracts: Vec<Contract>,
    pub gas_limit: u64,
}

pub open spec fn state_key() -> spec_fn(StateEntry) -> Seq<char> {
    |e: StateEntry| e.key@
}

pub open spec fn contract_key() -> spec_fn(Contract) -> Seq<char> {
    |c: Contract| c.id@
}

/// How a stored counter reads: the decimal value of the stored string, or
/// zero when the string is absent, empty, non-numeric or too large.
pub open spec fn parse_or_zero(v: Seq<char>) -> u64 {
    if v.len() > 0 && all_dec_digits(v) && dec_val(v) <= u64::MAX {
        dec_val(v) as u64
    } else {
        0
    }
}

/// A counter's next value; the increment saturates at the type's maximum.
pub open spec fn bump(n: u64) -> u64 {
    if n < u64::MAX {
        (n + 1) as u64
    } else {
        n
    }
}

pub open spec fn request_output_chars(n: u64) -> Seq<char> {
    "{\"requestId\": "@ + dec_chars(n as nat) + "}"@
}

pub open spec fn fulfill_output_chars(request_id: Seq<char>) -> Seq<char> {
    "{\"success\": true, \"requestId\": "@ + request_id + "}"@
}

pub open spec fn mint_output_chars(n: u64) -> Seq<char> {
    "{\"tokenId\": "@ + dec_chars(n as nat) + "}"@
}

pub open spec fn missing_randomness_fn_chars(function: Seq<char>) -> Seq<char> {
    "Function '"@ + function + "' not found in quantum randomness contract"@
}

pub open spec fn missing_nft_fn_chars(function: Seq<char>) -> Seq<char> {
    "Function '"@ + function + "' not found in quantum NFT contract"@
}

pub open spec fn randomness_key_chars(request_id: Seq<char>) -> Seq<char> {
    "randomness_"@ + request_id
}

pub open spec fn token_uri_key_chars(n: u64) -> Seq<char> {
    "tokenURI_"@ + dec_chars(n as nat)
}

pub open spec fn proof_hash_key_chars(n: u64) -> Seq<char> {
    "quantumProofHash_"@ + dec_chars(n as nat)
}

impl Contract {
    pub open spec fn state_wf(self) -> bool {
        distinct_keys(self.state@, state_key())
    }

    pub open spec fn spec_state_has(self, key: Seq<char>) -> bool {
        has_key(self.state@, state_key(), key)
    }

    pub open spec fn spec_state_value(self, key: Seq<char>) -> Seq<char> {
        self.state@[key_at(self.state@, state_key(), key)].value@
    }

    /// The stored counter under `key`; a missing or unparsable value counts
    /// as zero.
    pub open spec fn spec_counter(self, key: Seq<char>) -> u64 {
        if self.spec_state_has(key) {
            parse_or_zero(self.spec_state_value(key))
        } else {
            0
        }
    }

    /// The contract's identity and code, apart from its mutable state.
    pub open spec fn same_header(self, other: Contract) -> bool {
        &&& self.id == other.id
        &&& self.code == other.code
        &&& self.creator == other.creator
        &&& self.timestamp == other.timestamp
    }
}

/// Position of the entry stored under `key`.
fn state_index(state: &Vec<StateEntry>, key: &str) -> (r: Option<usize>)
    ensures
        match r {
            Some(i) => i < state@.len() && key_at(state@, state_key(), key@) == i as int,
            None => !has_key(state@, state_key(), key@),
        },
{
    let n = state.len();
    let mut i: usize = 0;
    while i < n
        invariant
            0 <= i <= n,
            n == state@.len(),
            forall|j: int| 0 <= j < i ==> (#[trigger] state@[j]).key@ != key@,
        decreases n - i,
    {
        if str_eq(state[i].key.as_str(), key) {
            proof {
                lemma_key_at_witness(state@, state_key(), i as int);
            }
            return Some(i);
        }
        i += 1;
    }
    proof {
        lemma_key_at(state@, state_key(), key@);
    }
    None
}

/// Reads the counter stored under `key`, defaulting to zero.
fn state_counter(state: &Vec<StateEntry>, key: &str) -> (r: u64)
    ensures
        has_key(state@, state_key(), key@) ==> r == parse_or_zero(
            state@[key_at(state@, state_key(), key@)].value@,
        ),
        !has_key(state@, state_key(), key@) ==> r == 0,
{
    match state_index(state, key) {
        Some(i) => {
            match parse_u64_dec(state[i].value.as_str()) {
                Some(v) => v,
                None => 0,
            }
        },
        None => 0,
    }
}

/// Inserts or overwrites the entry under `key`.
fn state_set(state: &mut Vec<StateEntry>, key: String, value: String)
    requires
        distinct_keys(old(state)@, state_key()),
    ensures
        distinct_keys(final(state)@, state_key()),
        has_key(final(state)@, state_key(), key@),
        final(state)@[key_at(final(state)@, state_key(), key@)].key@ == key@,
        final(state)@[key_at(final(state)@, state_key(), key@)].value@ == value@,
        forall|w: Seq<char>| w != key@ ==> has_key(final(state)@, state_key(), w) == has_key(
            old(state)@,
            state_key(),
            w,
        ),
        forall|w: Seq<char>| w != key@ && has_key(old(state)@, state_key(), w) ==> final(state)@[key_at(final(state)@, state_key(), w)] == old(state)@[key_at(
            old(state)@,
            state_key(),
            w,
        )],
{
    let ghost pre = state@;
    let e = StateEntry { key, value };
    let ghost ee = e;
    match state_index(state, e.key.as_str()) {
        Some(i) => {
            proof {
                lemma_key_at(pre, state_key(), ee.key@);
                lemma_distinct_update(pre, state_key(), i as int, ee);
            }
            state[i] = e;
            proof {
                lemma_key_at_update(pre, state_key(), ee.key@, i as int, ee);
                assert forall|w: Seq<char>| true implies key_at(
                    pre.update(i as int, ee),
                    state_key(),
                    w,
                ) == key_at(pre, state_key(), w) by {
                    lemma_key_at_update(pre, state_key(), w, i as int, ee);
                }
                assert forall|w: Seq<char>|
                    w != ee.key@ && has_key(pre, state_key(), w) implies pre.update(
                    i as int,
                    ee,
                )[key_at(pre, state_key(), w)] == pre[key_at(pre, state_key(), w)] by {
                    lemma_key_at(pre, state_key(), w);
                }
            }
        },
        None => {
            proof {
                lemma_distinct_push(pre, state_key(), ee);
            }
            state.push(e);
            proof {
                lemma_key_at_push(pre, state_key(), ee.key@, ee);
                assert forall|w: Seq<char>| w != ee.key@ implies key_at(
                    pre.push(ee),
                    state_key(),
                    w,
                ) == key_at(pre, state_key(), w) by {
                    lemma_key_at_push(pre, state_key(), w, ee);
                    lemma_key_at(pre, state_key(), w);
                }
                assert forall|w: Seq<char>|
                    w != ee.key@ && has_key(pre, state_key(), w) implies pre.push(ee)[key_at(
                    pre,
                    state_key(),
                    w,
                )] == pre[key_at(pre, state_key(), w)] by {
                    lemma_key_at(pre, state_key(), w);
                }
            }
        },
    }
}

impl ContractRuntime {
    /// Contract ids are unique, and every contract's state keys are.
    pub open spec fn wf(self) -> bool {
        &&& distinct_keys(self.contracts@, contract_key())
        &&& forall|i: int| 0 <= i < self.contracts@.len() ==> (#[trigger] self.contracts@[i]).state_wf()
    }

    pub open spec fn spec_has_contract(self, id: Seq<char>) -> bool {
        has_key(self.contracts@, contract_key(), id)
    }

    pub open spec fn spec_contract(self, id: Seq<char>) -> Contract {
        self.contracts@[key_at(self.contracts@, contract_key(), id)]
    }

    /// An empty runtime with the given gas allowance.
    pub fn new(gas_limit: u64) -> (r: ContractRuntime)
        ensures
            r.wf(),
            r.contracts@.len() == 0,
            r.gas_limit == gas_limit,
    {
        ContractRuntime { contracts: Vec::new(), gas_limit }
    }

    /// Position of the contract stored under `id`.
    fn contract_index(&self, id: &str) -> (r: Option<usize>)
        ensures
            match r {
                Some(i) => i < self.contracts@.len() && key_at(
                    self.contracts@,
                    contract_key(),
                    id@,
                ) == i as int,
                None => !self.spec_has_contract(id@),
            },
    {
        let n = self.contracts.len();
        let mut i: usize = 0;
        while i < n
            invariant
                0 <= i <= n,
                n == self.contracts@.len(),
                forall|j: int| 0 <= j < i ==> (#[trigger] self.contracts@[j]).id@ != id@,
            decreases n - i,
        {
            if str_eq(self.contracts[i].id.as_str(), id) {
                proof {
                    lemma_key_at_witness(self.contracts@, contract_key(), i as int);
                }
                return Some(i);
            }
            i += 1;
        }
        proof {
            lemma_key_at(self.contracts@, contract_key(), id@);
        }
        None
    }

    /// Whether a contract with `id` is deployed.
    pub fn has_contract(&self, id: &str) -> (r: bool)
        ensures
            r == self.spec_has_contract(id@),
    {
        self.contract_index(id).is_some()
    }

    /// Deploys a contract under a fresh id with empty state and the clock's
    /// timestamp; a taken id is rejected and changes nothing.
    pub fn deploy_contract(&mut self, id: String, code: String, creator: String) -> (r: Result<
        (),
        String,
    >)
        requires
            old(self).wf(),
        ensures
            final(self).wf(),
            final(self).gas_limit == old(self).gas_limit,
            old(self).spec_has_contract(id@) ==> (r matches Err(m) && m@
                == "Contract with this ID already exists"@ && *final(self) == *old(self)),
            !old(self).spec_has_contract(id@) ==> {
                &&& r is Ok
                &&& final(self).spec_has_contract(id@)
                &&& final(self).spec_contract(id@).id@ == id@
                &&& final(self).spec_contract(id@).code == code
                &&& final(self).spec_contract(id@).creator == creator
                &&& final(self).spec_contract(id@).state@.len() == 0
                &&& final(self).contracts@.len() == old(self).contracts@.len() + 1
                &&& forall|d: Seq<char>| d != id@ ==> #[trigger] final(self).spec_has_contract(d)
                    == old(self).spec_has_contract(d)
                &&& forall|d: Seq<char>| d != id@ && old(self).spec_has_contract(d)
                    ==> #[trigger] final(self).spec_contract(d) == old(self).spec_contract(d)
            },
    {
        let ghost pre = self.contracts@;
        if self.has_contract(id.as_str()) {
            return Err(String::from_str("Contract with this ID already exists"));
        }
        let timestamp = now_secs();
        let contract = Contract { id, code, creator, timestamp, state: Vec::new() };
        let ghost cc = contract;
        proof {
            lemma_distinct_push(pre, contract_key(), cc);
        }
        self.contracts.push(contract);
        proof {
            lemma_key_at_push(pre, contract_key(), cc.id@, cc);
            assert forall|d: Seq<char>| d != cc.id@ implies key_at(
                pre.push(cc),
                contract_key(),
                d,
            ) == key_at(pre, contract_key(), d) by {
                lemma_key_at_push(pre, contract_key(), d, cc);
                lemma_key_at(pre, contract_key(), d);
            }
            assert forall|d: Seq<char>|
                d != cc.id@ && has_key(pre, contract_key(), d) implies pre.push(cc)[key_at(
                pre,
                contract_key(),
                d,
            )] == pre[key_at(pre, contract_key(), d)] by {
                lemma_key_at(pre, contract_key(), d);
            }
        }
        Ok(())
    }

    /// The built-in randomness contract: `requestRandomness` hands out the
    /// stored request counter and advances it; `fulfillRandomness` stores a
    /// submitted random value under its request id after checking the
    /// accompanying proof string is nonempty.
    fn exec_quantum_randomness(contract: &mut Contract, function: &str, args: &Vec<String>) -> (r:
        Result<ContractExecutionResult, String>)
        requires
            old(contract).state_wf(),
        ensures
            final(contract).state_wf(),
            final(contract).same_header(*old(contract)),
            r is Err ==> *final(contract) == *old(contract),
            function@ == "requestRandomness"@ ==> (r matches Ok(res) && {
                let c0 = old(contract).spec_counter("requestCount"@);
                &&& res.success
                &&& res.gas_used == 100
                &&& res.output@ == request_output_chars(c0)
                &&& res.state_changes@.len() == 1
                &&& res.state_changes@[0].key@ == "requestCount"@
                &&& res.state_changes@[0].value@ == dec_chars(bump(c0) as nat)
                &&& final(contract).spec_state_has("requestCount"@)
                &&& final(contract).spec_state_value("requestCount"@) == dec_chars(
                    bump(c0) as nat,
                )
                &&& forall|w: Seq<char>| w != "requestCount"@ ==> #[trigger] final(contract).spec_state_has(w) == old(contract).spec_state_has(w)
                &&& forall|w: Seq<char>| w != "requestCount"@ && old(contract).spec_state_has(w)
                    ==> #[trigger] final(contract).spec_state_value(w) == old(contract).spec_state_value(w)
            }),
            function@ == "fulfillRandomness"@ && args@.len() < 3 ==> (r matches Err(m) && m@
                == "Insufficient arguments for fulfillRandomness"@),
            function@ == "fulfillRandomness"@ && args@.len() >= 3 && args@[2]@.len() == 0 ==> (
            r matches Err(m) && m@ == "Invalid quantum proof"@),
            function@ == "fulfillRandomness"@ && args@.len() >= 3 && args@[2]@.len() > 0 ==> (
            r matches Ok(res) && {
                &&& res.success
                &&& res.gas_used == 200
                &&& res.output@ == fulfill_output_chars(args@[0]@)
                &&& res.state_changes@.len() == 1
                &&& res.state_changes@[0].key@ == randomness_key_chars(args@[0]@)
                &&& res.state_changes@[0].value@ == args@[1]@
                &&& final(contract).spec_state_has(randomness_key_chars(args@[0]@))
                &&& final(contract).spec_state_value(randomness_key_chars(args@[0]@)) == args@[1]@
                &&& forall|w: Seq<char>| w != randomness_key_chars(args@[0]@) ==> #[trigger] final(contract).spec_state_has(w) == old(contract).spec_state_has(w)
                &&& forall|w: Seq<char>|
                    w != randomness_key_chars(args@[0]@) && old(contract).spec_state_has(w)
                        ==> #[trigger] final(contract).spec_state_value(w) == old(contract).spec_state_value(w)
            }),
            function@ != "requestRandomness"@ && function@ != "fulfillRandomness"@ ==> (
            r matches Err(m) && m@ == missing_randomness_fn_chars(function@)),
    {
        proof {
            reveal_strlit("requestRandomness");
            reveal_strlit("fulfillRandomness");
            assert("requestRandomness"@[0] == 'r');
            assert("fulfillRandomness"@[0] == 'f');
        }
        if str_eq(function, "requestRandomness") {
            let request_id = state_counter(&contract.state, "requestCount");
            let next = if request_id < u64::MAX {
                request_id + 1
            } else {
                request_id
            };
            let next_str = u64_to_string(next);
            state_set(
                &mut contract.state,
                String::from_str("requestCount"),
                u64_to_string(next),
            );
            let mut output = String::from_str("{\"requestId\": ");
            output.append(u64_to_string(request_id).as_str());
            output.append("}");
            let mut changes: Vec<StateEntry> = Vec::new();
            changes.push(StateEntry { key: String::from_str("requestCount"), value: next_str });
            Ok(ContractExecutionResult { success: true, gas_used: 100, output, state_changes: changes })
        } else if str_eq(function, "fulfillRandomness") {
            if args.len() < 3 {
                return Err(String::from_str("Insufficient arguments for fulfillRandomness"));
            }
            if args[2].as_str().unicode_len() == 0 {
                return Err(String::from_str("Invalid quantum proof"));
            }
            let mut skey = String::from_str("randomness_");
            skey.append(args[0].as_str());
            state_set(&mut contract.state, skey, args[1].clone());
            let mut output = String::from_str("{\"success\": true, \"requestId\": ");
            output.append(args[0].as_str());
            output.append("}");
            let mut changes: Vec<StateEntry> = Vec::new();
            let mut ckey = String::from_str("randomness_");
            ckey.append(args[0].as_str());
            changes.push(StateEntry { key: ckey, value: args[1].clone() });
            Ok(ContractExecutionResult { success: true, gas_used: 200, output, state_changes: changes })
        } else {
            let mut m = String::from_str("Function '");
            m.append(function);
            m.append("' not found in quantum randomness contract");
            Err(m)
        }
    }

    /// The built-in token contract: `mintNFT` takes a token reference and a
    /// nonempty proof string (the literal `"0"` is rejected too), hands out
    /// the stored token counter, advances it, and records the reference and
    /// the proof string under the new token's keys.
    fn exec_quantum_nft(contract: &mut Contract, function: &str, args: &Vec<String>) -> (r: Result<
        ContractExecutionResult,
        String,
    >)
        requires
            old(contract).state_wf(),
        ensures
            final(contract).state_wf(),
            final(contract).same_header(*old(contract)),
            r is Err ==> *final(contract) == *old(contract),
            function@ == "mintNFT"@ && args@.len() < 2 ==> (r matches Err(m) && m@
                == "Insufficient arguments for mintNFT"@),
            function@ == "mintNFT"@ && args@.len() >= 2 && (args@[1]@.len() == 0 || args@[1]@
                == "0"@) ==> (r matches Err(m) && m@ == "Invalid quantum proof hash"@),
            function@ == "mintNFT"@ && args@.len() >= 2 && args@[1]@.len() > 0 && args@[1]@
                != "0"@ ==> (r matches Ok(res) && {
                let t = old(contract).spec_counter("tokenCount"@);
                &&& res.success
                &&& res.gas_used == 150
                &&& res.output@ == mint_output_chars(t)
                &&& res.state_changes@.len() == 3
                &&& res.state_changes@[0].key@ == "tokenCount"@
                &&& res.state_changes@[0].value@ == dec_chars(bump(t) as nat)
                &&& res.state_changes@[1].key@ == token_uri_key_chars(t)
                &&& res.state_changes@[1].value@ == args@[0]@
                &&& res.state_changes@[2].key@ == proof_hash_key_chars(t)
                &&& res.state_changes@[2].value@ == args@[1]@
                &&& final(contract).spec_state_has("tokenCount"@)
                &&& final(contract).spec_state_value("tokenCount"@) == dec_chars(bump(t) as nat)
                &&& final(contract).spec_state_has(token_uri_key_chars(t))
                &&& final(contract).spec_state_value(token_uri_key_chars(t)) == args@[0]@
                &&& final(contract).spec_state_has(proof_hash_key_chars(t))
                &&& final(contract).spec_state_value(proof_hash_key_chars(t)) == args@[1]@
                &&& forall|w: Seq<char>|
                    w != "tokenCount"@ && w != token_uri_key_chars(t) && w != proof_hash_key_chars(
                        t,
                    ) ==> #[trigger] final(contract).spec_state_has(w) == old(contract).spec_state_has(w)
                &&& forall|w: Seq<char>|
                    w != "tokenCount"@ && w != token_uri_key_chars(t) && w != proof_hash_key_chars(
                        t,
                    ) && old(contract).spec_state_has(w) ==> #[trigger] final(contract).spec_state_value(w) == old(contract).spec_state_value(w)
            }),
            function@ != "mintNFT"@ ==> (r matches Err(m) && m@ == missing_nft_fn_chars(
                function@,
            )),
    {
        if str_eq(function, "mintNFT") {
            if args.len() < 2 {
                return Err(String::from_str("Insufficient arguments for mintNFT"));
            }
            if args[1].as_str().unicode_len() == 0 || str_eq(args[1].as_str(), "0") {
                return Err(String::from_str("Invalid quantum proof hash"));
            }
            let token_id = state_counter(&contract.state, "tokenCount");
            let next = if token_id < u64::MAX {
                token_id + 1
            } else {
                token_id
            };
            let token_str = u64_to_string(token_id);

            let mut uri_key = String::from_str("tokenURI_");
            uri_key.append(token_str.as_str());
            let mut hash_key = String::from_str("quantumProofHash_");
            hash_key.append(token_str.as_str());
            proof {
                lemma_dec_chars_val(token_id as nat);
                lemma_nft_keys_distinct(token_id);
            }

            state_set(
                &mut contract.state,
                String::from_str("tokenCount"),
                u64_to_string(next),
            );
            let mut uri_key2 = String::from_str("tokenURI_");
            uri_key2.append(token_str.as_str());
            state_set(&mut contract.state, uri_key2, args[0].clone());
            let mut hash_key2 = String::from_str("quantumProofHash_");
            hash_key2.append(token_str.as_str());
            state_set(&mut contract.state, hash_key2, args[1].clone());

            let mut output = String::from_str("{\"tokenId\": ");
            output.append(token_str.as_str());
            output.append("}");

            let mut changes: Vec<StateEntry> = Vec::new();
            changes.push(
                StateEntry { key: String::from_str("tokenCount"), value: u64_to_string(next) },
            );
            changes.push(StateEntry { key: uri_key, value: args[0].clone() });
            changes.push(StateEntry { key: hash_key, value: args[1].clone() });
            Ok(ContractExecutionResult { success: true, gas_used: 150, output, state_changes: changes })
        } else {
            let mut m = String::from_str("Function '");
            m.append(function);
            m.append("' not found in quantum NFT contract");
            Err(m)
        }
    }

    /// Executes `function` on the contract stored under `id`. A missing
    /// contract is the one hard error; everything the contract itself
    /// rejects comes back as a result with `success == false`, gas 0 and
    /// the rejection text as output, leaving the contract unchanged.
    pub fn execute_contract(&mut self, id: &str, function: &str, args: Vec<String>) -> (r: Result<
        ContractExecutionResult,
        String,
    >)
        requires
            old(self).wf(),
        ensures
            final(self).wf(),
            final(self).gas_limit == old(self).gas_limit,
            !old(self).spec_has_contract(id@) ==> (r matches Err(m) && m@ == "Contract not found"@
                && *final(self) == *old(self)),
            old(self).spec_has_contract(id@) ==> {
                let c = old(self).spec_contract(id@);
                let cur = final(self).spec_contract(id@);
                &&& r is Ok
                &&& final(self).spec_has_contract(id@)
                &&& cur.same_header(c)
                &&& forall|d: Seq<char>| d != id@ ==> #[trigger] final(self).spec_has_contract(d)
                    == old(self).spec_has_contract(d)
                &&& forall|d: Seq<char>| d != id@ && old(self).spec_has_contract(d)
                    ==> #[trigger] final(self).spec_contract(d) == old(self).spec_contract(d)
                &&& (r matches Ok(res) ==> !res.success ==> res.gas_used == 0
                    && res.state_changes@.len() == 0 && cur.state@ == c.state@)
                &&& (c.id@ != "quantum_randomness"@ && c.id@ != "quantum_nft"@ ==> (
                r matches Ok(res) && !res.success && res.output@ == "Contract type not found"@))
                &&& (c.id@ == "quantum_randomness"@ && function@ == "requestRandomness"@ ==> (
                r matches Ok(res) && {
                    let c0 = c.spec_counter("requestCount"@);
                    &&& res.success
                    &&& res.gas_used == 100
                    &&& res.output@ == request_output_chars(c0)
                    &&& cur.spec_state_has("requestCount"@)
                    &&& cur.spec_state_value("requestCount"@) == dec_chars(bump(c0) as nat)
                    &&& forall|w: Seq<char>| w != "requestCount"@ ==> #[trigger] cur.spec_state_has(
                        w,
                    ) == c.spec_state_has(w)
                }))
                &&& (c.id@ == "quantum_randomness"@ && function@ == "fulfillRandomness"@
                    && args@.len() < 3 ==> (r matches Ok(res) && !res.success && res.output@
                    == "Insufficient arguments for fulfillRandomness"@))
                &&& (c.id@ == "quantum_randomness"@ && function@ == "fulfillRandomness"@
                    && args@.len() >= 3 && args@[2]@.len() == 0 ==> (r matches Ok(res)
                    && !res.success && res.output@ == "Invalid quantum proof"@))
                &&& (c.id@ == "quantum_randomness"@ && function@ == "fulfillRandomness"@
                    && args@.len() >= 3 && args@[2]@.len() > 0 ==> (r matches Ok(res) && {
                    &&& res.success
                    &&& res.gas_used == 200
                    &&& res.output@ == fulfill_output_chars(args@[0]@)
                    &&& cur.spec_state_has(randomness_key_chars(args@[0]@))
                    &&& cur.spec_state_value(randomness_key_chars(args@[0]@)) == args@[1]@
                }))
                &&& (c.id@ == "quantum_randomness"@ && function@ != "requestRandomness"@
                    && function@ != "fulfillRandomness"@ ==> (r matches Ok(res) && !res.success
                    && res.output@ == missing_randomness_fn_chars(function@)))
                &&& (c.id@ == "quantum_nft"@ && function@ == "mintNFT"@ && args@.len() >= 2
                    && args@[1]@.len() > 0 && args@[1]@ != "0"@ ==> (r matches Ok(res) && {
                    let t = c.spec_counter("tokenCount"@);
                    &&& res.success
                    &&& res.gas_used == 150
                    &&& res.output@ == mint_output_chars(t)
                    &&& cur.spec_state_has("tokenCount"@)
                    &&& cur.spec_state_value("tokenCount"@) == dec_chars(bump(t) as nat)
                    &&& cur.spec_state_has(token_uri_key_chars(t))
                    &&& cur.spec_state_value(token_uri_key_chars(t)) == args@[0]@
                    &&& cur.spec_state_has(proof_hash_key_chars(t))
                    &&& cur.spec_state_value(proof_hash_key_chars(t)) == args@[1]@
                }))
                &&& (c.id@ == "quantum_nft"@ && function@ == "mintNFT"@ && args@.len() < 2 ==> (
                r matches Ok(res) && !res.success && res.output@
                    == "Insufficient arguments for mintNFT"@))
                &&& (c.id@ == "quantum_nft"@ && function@ == "mintNFT"@ && args@.len() >= 2 && (
                args@[1]@.len() == 0 || args@[1]@ == "0"@) ==> (r matches Ok(res) && !res.success
                    && res.output@ == "Invalid quantum proof hash"@))
                &&& (c.id@ == "quantum_nft"@ && function@ != "mintNFT"@ ==> (r matches Ok(res)
                    && !res.success && res.output@ == missing_nft_fn_chars(function@)))
            },
    {
        proof {
            reveal_strlit("quantum_randomness");
            reveal_strlit("quantum_nft");
            assert("quantum_randomness"@.len() == 18);
            assert("quantum_nft"@.len() == 11);
        }
        let ghost pre = self.contracts@;
        let ci = match self.contract_index(id) {
            Some(i) => i,
            None => {
                return Err(String::from_str("Contract not found"));
            },
        };
        proof {
            lemma_key_at(pre, contract_key(), id@);
        }
        let mut c = self.contracts.remove(ci);
        let ghost c0 = c;
        let inner: Result<ContractExecutionResult, String> = if str_eq(
            c.id.as_str(),
            "quantum_randomness",
        ) {
            Self::exec_quantum_randomness(&mut c, function, &args)
        } else if str_eq(c.id.as_str(), "quantum_nft") {
            Self::exec_quantum_nft(&mut c, function, &args)
        } else {
            Err(String::from_str("Contract type not found"))
        };
        let ghost c1 = c;
        self.contracts.insert(ci, c);
        proof {
            assert(pre.remove(ci as int).insert(ci as int, c1) =~= pre.update(ci as int, c1));
            lemma_distinct_update(pre, contract_key(), ci as int, c1);
            lemma_key_at_update(pre, contract_key(), id@, ci as int, c1);
            assert forall|d: Seq<char>| true implies key_at(
                pre.update(ci as int, c1),
                contract_key(),
                d,
            ) == key_at(pre, contract_key(), d) by {
                lemma_key_at_update(pre, contract_key(), d, ci as int, c1);
            }
            assert forall|d: Seq<char>|
                d != id@ && has_key(pre, contract_key(), d) implies pre.update(ci as int, c1)[
                key_at(pre, contract_key(), d)] == pre[key_at(pre, contract_key(), d)] by {
                lemma_key_at(pre, contract_key(), d);
            }
        }
        match inner {
            Ok(res) => Ok(res),
            Err(e) => Ok(
                ContractExecutionResult {
                    success: false,
                    gas_used: 0,
                    output: e,
                    state_changes: Vec::new(),
                },
            ),
        }
    }
}

/// The three state keys a mint writes are pairwise different.
proof fn lemma_nft_keys_distinct(n: u64)
    ensures
        "tokenCount"@ != token_uri_key_chars(n),
        "tokenCount"@ != proof_hash_key_chars(n),
        token_uri_key_chars(n) != proof_hash_key_chars(n),
{
    reveal_strlit("tokenCount");
    reveal_strlit("tokenURI_");
    reveal_strlit("quantumProofHash_");
    lemma_dec_chars_val(n as nat);
    assert(token_uri_key_chars(n)[5] == 'U');
    assert("tokenCount"@[5] == 'C');
    assert(proof_hash_key_chars(n)[0] == 'q');
    assert("tokenCount"@[0] == 't');
    assert(token_uri_key_chars(n)[0] == 't');
}

} // verus!
