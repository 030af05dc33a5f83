//! The block digest. The digest itself comes from an outside crate; the
//! crate names its result and verifies everything built on top of it,
//! including the lenient prefix acceptance rule of the chain verifier.

use vstd::prelude::*;
use vstd::string::*;
use vstd::utf8::{encode_utf8, is_ascii_chars};

use crate::text::str_eq;

verus! {

/// The lowercase-hex SHA3-256 digest of the UTF-8 encoding of `data`.
/// The digest is a function of the input characters alone; its definition
/// is not written out here, so nothing is provable about its value on a
/// given input.
pub uninterp spec fn sha3_hex_of(data: Seq<char>) -> Seq<char>;

/// Relies on `sha3::Sha3_256` (through the `Digest` trait) and on
/// lowercase-hex formatting of the 32-byte digest: the result is a function
/// of the input bytes alone, and consists of exactly 64 ASCII hex
/// characters.
#[verifier::external_body]
pub fn sha3_hex(data: &str) -> (r: String)
    ensures
        r@ == sha3_hex_of(data@),
        r@.len() == 64,
        is_ascii_chars(r@),
{
    let mut hasher: sha3::Sha3_256 = sha3::Digest::new();
    sha3::Digest::update(&mut hasher, data.as_bytes());
    format!("{:x}", sha3::Digest::finalize(hasher))
}

/// The acceptance rule for a declared hash against a recomputed one: the
/// two are equal, or the declared hash starts with the first 8 bytes of the
/// recomputed one (a deliberately lenient fallback).
pub open spec fn spec_hash_matches(declared: Seq<char>, computed: Seq<char>) -> bool {
    ||| declared == computed
    ||| (encode_utf8(declared).len() >= 8 && encode_utf8(declared).subrange(0, 8)
        == encode_utf8(computed).subrange(0, 8))
}

/// Checks a declared hash against a recomputed one, byte for byte.
pub fn hash_matches(declared: &str, computed: &str) -> (r: bool)
    requires
        encode_utf8(computed@).len() >= 8,
    ensures
        r == spec_hash_matches(declared@, computed@),
{
    if str_eq(declared, computed) {
        return true;
    }
    let db = declared.as_bytes();
    let cb = computed.as_bytes();
    if db.len() < 8 {
        return false;
    }
    let mut i: usize = 0;
    while i < 8
        invariant
            0 <= i <= 8,
            db@.len() >= 8,
            cb@.len() >= 8,
            db@ == encode_utf8(declared@),
            cb@ == encode_utf8(computed@),
            forall|j: int| 0 <= j < i ==> db@[j] == cb@[j],
        decreases 8 - i,
    {
        if db[i] != cb[i] {
            proof {
                assert(encode_utf8(declared@).subrange(0, 8)[i as int] != encode_utf8(
                    computed@,
                ).subrange(0, 8)[i as int]);
            }
            return false;
        }
        i += 1;
    }
    proof {
        assert(encode_utf8(declared@).subrange(0, 8) =~= encode_utf8(computed@).subrange(0, 8));
    }
    true
}

} // verus!
