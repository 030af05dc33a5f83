//! Core of a hybrid blockchain consensus engine: a stake ledger with
//! weighted leader election, a proof ledger that scores validators for
//! answering challenges, a coordinator that assembles hybrid blocks, a
//! stateless chain verifier, and a small key-value contract runtime.

pub mod assoc;
pub mod chain;
pub mod contracts;
pub mod digest;
pub mod hybrid;
pub mod platform;
pub mod poq;
pub mod pos;
pub mod text;
