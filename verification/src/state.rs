//! The state facts an execution touches: block headers, account fields,
//! storage slots, contract code, and the inclusion-proof nodes tying them to
//! a state root.

use vstd::prelude::*;
use crate::is_b256;

verus! {

/// True when `s` has the length of an address, 20 bytes.
pub open spec fn is_addr(s: Seq<u8>) -> bool {
    s.len() == 20
}

/// The minimal block header fields needed for execution context and for
/// hashing to a block identifier.
#[derive(Clone, Debug)]
pub struct Header {
    /// Block height.
    pub number: u64,
    /// Block timestamp, seconds.
    pub timestamp: u64,
    /// Root of the state trie the execution reads under.
    pub state_root: Vec<u8>,
}

/// Mathematical image of a [`Header`].
pub ghost struct HeaderV {
    pub number: u64,
    pub timestamp: u64,
    pub state_root: Seq<u8>,
}

impl View for Header {
    type V = HeaderV;

    open spec fn view(&self) -> HeaderV {
        HeaderV { number: self.number, timestamp: self.timestamp, state_root: self.state_root@ }
    }
}

impl Header {
    pub open spec fn wf(self) -> bool {
        is_b256(self.state_root@)
    }
}

/// The per-address account fields served by a state provider.
#[derive(Clone, Debug)]
pub struct AccountState {
    /// Balance as a 256-bit big-endian word.
    pub balance: Vec<u8>,
    /// Transaction / creation nonce.
    pub nonce: u64,
    /// Hash of the account's code.
    pub code_hash: Vec<u8>,
    /// Root of the account's storage trie.
    pub storage_root: Vec<u8>,
}

/// Mathematical image of an [`AccountState`].
pub ghost struct AccountV {
    pub balance: Seq<u8>,
    pub nonce: u64,
    pub code_hash: Seq<u8>,
    pub storage_root: Seq<u8>,
}

impl View for AccountState {
    type V = AccountV;

    open spec fn view(&self) -> AccountV {
        AccountV {
            balance: self.balance@,
            nonce: self.nonce,
            code_hash: self.code_hash@,
            storage_root: self.storage_root@,
        }
    }
}

impl AccountState {
    pub open spec fn wf(self) -> bool {
        is_b256(self.balance@) && is_b256(self.code_hash@) && is_b256(self.storage_root@)
    }
}

/// One fetched account, keyed by its address.
#[derive(Clone, Debug)]
pub struct AccountEntry {
    pub address: Vec<u8>,
    pub account: AccountState,
}

pub ghost struct AccountEntryV {
    pub address: Seq<u8>,
    pub account: AccountV,
}

impl View for AccountEntry {
    type V = AccountEntryV;

    open spec fn view(&self) -> AccountEntryV {
        AccountEntryV { address: self.address@, account: self.account@ }
    }
}

impl AccountEntry {
    pub open spec fn wf(self) -> bool {
        is_addr(self.address@) && self.account.wf()
    }
}

/// One fetched storage slot, keyed by address and slot.
#[derive(Clone, Debug)]
pub struct StorageEntry {
    pub address: Vec<u8>,
    pub slot: Vec<u8>,
    pub value: Vec<u8>,
}

pub ghost struct StorageEntryV {
    pub address: Seq<u8>,
    pub slot: Seq<u8>,
    pub value: Seq<u8>,
}

impl View for StorageEntry {
    type V = StorageEntryV;

    open spec fn view(&self) -> StorageEntryV {
        StorageEntryV { address: self.address@, slot: self.slot@, value: self.value@ }
    }
}

impl StorageEntry {
    pub open spec fn wf(self) -> bool {
        is_addr(self.address@) && is_b256(self.slot@) && is_b256(self.value@)
    }
}

/// One fetched contract bytecode, keyed by its hash.
#[derive(Clone, Debug)]
pub struct CodeEntry {
    pub hash: Vec<u8>,
    pub code: Vec<u8>,
}

pub ghost struct CodeEntryV {
    pub hash: Seq<u8>,
    pub code: Seq<u8>,
}

impl View for CodeEntry {
    type V = CodeEntryV;

    open spec fn view(&self) -> CodeEntryV {
        CodeEntryV { hash: self.hash@, code: self.code@ }
    }
}

impl CodeEntry {
    pub open spec fn wf(self) -> bool {
        is_b256(self.hash@)
    }
}

/// One inclusion-proof node, keyed by its path so that repeated reads of
/// the same fact are deduplicated. The path names the committed leaf; the
/// witness is the bytes standing left and right of that leaf in the
/// preimage of the root it is bound under.
#[derive(Clone, Debug)]
pub struct ProofNode {
    pub path: Vec<u8>,
    pub left: Vec<u8>,
    pub right: Vec<u8>,
}

pub ghost struct ProofNodeV {
    pub path: Seq<u8>,
    pub left: Seq<u8>,
    pub right: Seq<u8>,
}

impl View for ProofNode {
    type V = ProofNodeV;

    open spec fn view(&self) -> ProofNodeV {
        ProofNodeV { path: self.path@, left: self.left@, right: self.right@ }
    }
}

} // verus!
