//! The portable snapshot a host produces and a guest consumes: everything
//! needed to reconstruct an equivalent environment without network access.

use vstd::prelude::*;
use crate::state::{
    AccountEntry, AccountEntryV, CodeEntry, CodeEntryV, Header, HeaderV, ProofNode, ProofNodeV,
    StorageEntry, StorageEntryV,
};
use crate::commit::{BeaconLink, BeaconLinkV};

verus! {

/// The proof-bearing state snapshot for one execution block: the header, the
/// chain configuration it was evaluated under, the fetched facts, and the
/// accumulated inclusion proofs.
pub struct BlockInput {
    pub header: Header,
    /// Chain identifier the execution ran under.
    pub chain_id: u64,
    /// Identifier of the active fork rules at this header.
    pub spec_id: u64,
    /// Digest of the chain configuration, 32 bytes.
    pub config_digest: Vec<u8>,
    pub accounts: Vec<AccountEntry>,
    pub storages: Vec<StorageEntry>,
    pub codes: Vec<CodeEntry>,
    pub proofs: Vec<ProofNode>,
}

pub ghost struct BlockInputV {
    pub header: HeaderV,
    pub chain_id: u64,
    pub spec_id: u64,
    pub config_digest: Seq<u8>,
    pub accounts: Seq<AccountEntryV>,
    pub storages: Seq<StorageEntryV>,
    pub codes: Seq<CodeEntryV>,
    pub proofs: Seq<ProofNodeV>,
}

impl View for BlockInput {
    type V = BlockInputV;

    open spec fn view(&self) -> BlockInputV {
        BlockInputV {
            header: self.header@,
            chain_id: self.chain_id,
            spec_id: self.spec_id,
            config_digest: self.config_digest@,
            accounts: self.accounts@.map_values(|e: AccountEntry| e@),
            storages: self.storages@.map_values(|e: StorageEntry| e@),
            codes: self.codes@.map_values(|e: CodeEntry| e@),
            proofs: self.proofs@.map_values(|e: ProofNode| e@),
        }
    }
}

/// A state snapshot together with the proof material linking its block to a
/// higher consensus root.
pub struct ComposeInput {
    pub input: BlockInput,
    /// Beacon uses exactly one link; History a chain of them, oldest first.
    pub links: Vec<BeaconLink>,
}

pub ghost struct ComposeInputV {
    pub input: BlockInputV,
    pub links: Seq<BeaconLinkV>,
}

impl View for ComposeInput {
    type V = ComposeInputV;

    open spec fn view(&self) -> ComposeInputV {
        ComposeInputV {
            input: self.input@,
            links: self.links@.map_values(|l: BeaconLink| l@),
        }
    }
}

/// The input of one guest run, tagged by the commitment strategy the
/// environment was built with.
pub enum EvmInput {
    /// Commit to the execution block hash itself.
    Block(BlockInput),
    /// Commit to a Beacon-chain root proved to contain the block hash.
    Beacon(ComposeInput),
    /// Commit to a Beacon root reached through a chain of intermediate
    /// roots.
    History(ComposeInput),
}

pub ghost enum EvmInputV {
    Block(BlockInputV),
    Beacon(ComposeInputV),
    History(ComposeInputV),
}

impl View for EvmInput {
    type V = EvmInputV;

    open spec fn view(&self) -> EvmInputV {
        match self {
            EvmInput::Block(b) => EvmInputV::Block(b@),
            EvmInput::Beacon(c) => EvmInputV::Beacon(c@),
            EvmInput::History(c) => EvmInputV::History(c@),
        }
    }
}

} // verus!
