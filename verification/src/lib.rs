//! A proof-backed state access layer and commitment protocol for verifiable
//! execution of read-only calls against historical blockchain state.
//!
//! The host gathers the minimal state needed for an execution together with
//! inclusion proofs tying that state to a block root, and packs it into a
//! portable [`input::EvmInput`]. The guest reconstructs an equivalent
//! environment from that input alone, re-executes, and emits a journal that
//! binds the state root, the result, and optionally a chain of prior
//! commitments.

use vstd::prelude::*;

pub mod selector;
pub mod state;
pub mod commit;
pub mod input;
pub mod codec;
pub mod compose;
pub mod db;
pub mod config;
pub mod env;

verus! {

/// True when `s` is a byte string of exactly 32 bytes, the size of a root
/// digest or a 256-bit word.
pub open spec fn is_b256(s: Seq<u8>) -> bool {
    s.len() == 32
}

/// Compares two byte vectors for equality of their contents.
pub fn bytes_eq(a: &Vec<u8>, b: &Vec<u8>) -> (r: bool)
    ensures
        r == (a@ == b@),
{
    if a.len() != b.len() {
        assert(a@ != b@);
        return false;
    }
    let n: usize = a.len();
    let mut i: usize = 0;
    while i < n
        invariant
            n == a@.len(),
            n == b@.len(),
            i <= n,
            forall|j: int| 0 <= j < i ==> a@[j] == b@[j],
        decreases n - i,
    {
        if a[i] != b[i] {
            assert(a@ != b@);
            return false;
        }
        i += 1;
    }
    assert(a@ =~= b@);
    true
}

} // verus!
