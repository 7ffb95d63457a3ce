//! The environment coupling a proof-recording database, a header, a chain
//! configuration, and a commitment strategy; and its guest-side twin built
//! from a portable input alone.

use vstd::prelude::*;
use crate::is_b256;
use crate::commit::{
    spec_block_hash, spec_chain_root, spec_chain_valid, BeaconLink, BeaconLinkV, block_hash,
    verify_chain, Commitment, CommitmentKind, CommitmentV,
};
use crate::config::{spec_active_fork, spec_config_digest, ChainSpec};
use crate::db::{accounts_map_of, codes_map_of, proofs_map_of, storages_map_of, DbV, ProofDb};
use crate::input::{BlockInput, BlockInputV, ComposeInput, EvmInput, EvmInputV};
use crate::selector::{BlockNumberOrTag, ResolveError, RpcBlockId, spec_resolve};
use crate::state::{AccountEntry, CodeEntry, Header, ProofNode, StorageEntry};

verus! {

/// The commitment strategy of an environment on the host: which root the
/// eventual journal will attest, the proof links fetched for it, and the
/// configuration digest.
pub struct HostCommit {
    pub kind: CommitmentKind,
    /// Empty for `Block`; one link for `Beacon`; a chain for `History`.
    pub links: Vec<BeaconLink>,
    /// Digest of the chain configuration, 32 bytes.
    pub config_id: Vec<u8>,
}

/// What a builder or an environment constructor can reject.
#[derive(Clone, Copy, Debug, PartialEq, Eq, Structural)]
pub enum EnvError {
    /// The header's state root is not 32 bytes.
    InvalidHeader,
    /// The number of proof links does not fit the commitment strategy.
    InvalidLinkCount,
}

/// The provable environment on the host: a header, the recording database,
/// the active chain configuration, and the commitment strategy.
///
/// The database sits in an `Option` because blocking work needs it moved out
/// to a worker: while it is checked out the environment must not be queried,
/// and [`HostEvmEnv::take_db`] / [`HostEvmEnv::restore_db`] make that state
/// explicit instead of a silent invalid use.
pub struct HostEvmEnv {
    pub db: Option<ProofDb>,
    pub header: Header,
    pub chain_id: u64,
    pub spec_id: u64,
    pub commit: HostCommit,
}

impl HostEvmEnv {
    /// The database has been moved out to a worker; the environment is
    /// unusable until it is restored.
    pub open spec fn db_checked_out(self) -> bool {
        self.db is None
    }

    /// Structural soundness of the environment: a proper header and a link
    /// count that fits the commitment strategy.
    pub open spec fn wf(self) -> bool {
        &&& self.header.wf()
        &&& is_b256(self.commit.config_id@)
        &&& match self.commit.kind {
            CommitmentKind::Block => self.commit.links@.len() == 0,
            CommitmentKind::Beacon => self.commit.links@.len() == 1,
            CommitmentKind::History => self.commit.links@.len() >= 1,
        }
    }

    /// Moves the database out for exclusive use by a blocking worker. The
    /// caller must restore it with [`HostEvmEnv::restore_db`] before the
    /// environment is used again, on every exit path.
    pub fn take_db(&mut self) -> (r: ProofDb)
        requires
            !old(self).db_checked_out(),
        ensures
            final(self).db_checked_out(),
            r == old(self).db->Some_0,
            final(self).header == old(self).header,
            final(self).chain_id == old(self).chain_id,
            final(self).spec_id == old(self).spec_id,
            final(self).commit == old(self).commit,
    {
        let db = self.db.take();
        db.unwrap()
    }

    /// Restores a database taken out with [`HostEvmEnv::take_db`].
    pub fn restore_db(&mut self, db: ProofDb)
        requires
            old(self).db_checked_out(),
        ensures
            final(self).db == Some(db),
            final(self).header == old(self).header,
            final(self).chain_id == old(self).chain_id,
            final(self).spec_id == old(self).spec_id,
            final(self).commit == old(self).commit,
    {
        self.db = Some(db);
    }

    /// Sets the chain id, the active fork rules, and the configuration
    /// digest from the given chain specification.
    ///
    /// The schedule must have a fork active at the header: a gap there is a
    /// configuration bug, which the precondition excludes.
    pub fn with_chain_spec(self, chain_spec: &ChainSpec) -> (r: Self)
        requires
            spec_active_fork(
                chain_spec.forks@,
                self.header.number,
                self.header.timestamp,
            ) is Some,
        ensures
            r.chain_id == chain_spec.chain_id,
            Some(r.spec_id) == spec_active_fork(
                chain_spec.forks@,
                self.header.number,
                self.header.timestamp,
            ),
            r.commit.config_id@ == spec_config_digest(chain_spec.chain_id, chain_spec.forks@),
            r.commit.kind == self.commit.kind,
            r.commit.links == self.commit.links,
            r.header == self.header,
            r.db == self.db,
    {
        let spec_id = match chain_spec.active_fork(self.header.number, self.header.timestamp) {
            Some(id) => id,
            None => unreached(),
        };
        let config_id = chain_spec.digest();
        HostEvmEnv {
            db: self.db,
            header: self.header,
            chain_id: chain_spec.chain_id,
            spec_id,
            commit: HostCommit { kind: self.commit.kind, links: self.commit.links, config_id },
        }
    }

    /// The portable input this environment finalizes into, as a function of
    /// its parts.
    pub open spec fn spec_into_input(self) -> EvmInputV {
        let b = BlockInputV {
            header: self.header@,
            chain_id: self.chain_id,
            spec_id: self.spec_id,
            config_digest: self.commit.config_id@,
            accounts: self.db->Some_0.accounts@.map_values(|e: AccountEntry| e@),
            storages: self.db->Some_0.storages@.map_values(|e: StorageEntry| e@),
            codes: self.db->Some_0.codes@.map_values(|e: CodeEntry| e@),
            proofs: self.db->Some_0.proofs@.map_values(|e: ProofNode| e@),
        };
        match self.commit.kind {
            CommitmentKind::Block => EvmInputV::Block(b),
            CommitmentKind::Beacon => EvmInputV::Beacon(
                crate::input::ComposeInputV {
                    input: b,
                    links: self.commit.links@.map_values(|l: BeaconLink| l@),
                },
            ),
            CommitmentKind::History => EvmInputV::History(
                crate::input::ComposeInputV {
                    input: b,
                    links: self.commit.links@.map_values(|l: BeaconLink| l@),
                },
            ),
        }
    }

    /// Drains the accumulated facts and proofs into a portable input,
    /// consuming the environment. Finalize only after all reads for the
    /// intended execution are complete: an early input is insufficient for
    /// the guest, which treats a missing fact as fatal.
    pub fn into_input(self) -> (r: EvmInput)
        requires
            !self.db_checked_out(),
        ensures
            r@ == self.spec_into_input(),
    {
        let db = match self.db {
            Some(db) => db,
            None => unreached(),
        };
        let input = BlockInput {
            header: self.header,
            chain_id: self.chain_id,
            spec_id: self.spec_id,
            config_digest: self.commit.config_id,
            accounts: db.accounts,
            storages: db.storages,
            codes: db.codes,
            proofs: db.proofs,
        };
        match self.commit.kind {
            CommitmentKind::Block => EvmInput::Block(input),
            CommitmentKind::Beacon => EvmInput::Beacon(
                ComposeInput { input, links: self.commit.links },
            ),
            CommitmentKind::History => EvmInput::History(
                ComposeInput { input, links: self.commit.links },
            ),
        }
    }
}

/// Builds a host environment from recognized options: a block selector and
/// a commitment strategy. The network-facing steps (resolving the selector
/// against the provider and fetching the header and any Beacon links)
/// happen outside; the builder checks and assembles their results.
pub struct EvmEnvBuilder {
    pub selector: BlockNumberOrTag,
    pub kind: CommitmentKind,
}

impl EvmEnvBuilder {
    /// A builder for the latest block with a plain block-hash commitment.
    pub fn new() -> (r: Self)
        ensures
            r.selector == BlockNumberOrTag::Latest,
            r.kind == CommitmentKind::Block,
    {
        EvmEnvBuilder { selector: BlockNumberOrTag::Latest, kind: CommitmentKind::Block }
    }

    /// Selects which block the environment is built for.
    pub fn block_number_or_tag(self, selector: BlockNumberOrTag) -> (r: Self)
        ensures
            r.selector == selector,
            r.kind == self.kind,
    {
        EvmEnvBuilder { selector, kind: self.kind }
    }

    /// Selects the commitment strategy.
    pub fn commitment_kind(self, kind: CommitmentKind) -> (r: Self)
        ensures
            r.kind == kind,
            r.selector == self.selector,
    {
        EvmEnvBuilder { selector: self.selector, kind }
    }

    /// Resolves the selector against the provider's reported chain height:
    /// the only step of header resolution that is not plain I/O. Exactly one
    /// query results from any selector, except `Parent` of genesis, which is
    /// an error and never a block.
    pub fn resolve(&self, latest: u64) -> (r: Result<RpcBlockId, ResolveError>)
        ensures
            r == spec_resolve(self.selector, latest),
    {
        self.selector.into_rpc_type(latest)
    }

    /// Assembles the environment from the fetched header and proof links,
    /// with a fresh, empty recording database. The configuration fields
    /// start zeroed; [`HostEvmEnv::with_chain_spec`] sets them.
    pub fn build(self, header: Header, links: Vec<BeaconLink>) -> (r: Result<HostEvmEnv, EnvError>)
        ensures
            match r {
                Ok(env) => {
                    &&& header.wf()
                    &&& env.wf()
                    &&& !env.db_checked_out()
                    &&& env.header == header
                    &&& env.chain_id == 0
                    &&& env.spec_id == 0
                    &&& env.commit.kind == self.kind
                    &&& env.commit.links == links
                    &&& env.db->Some_0.accounts@.len() == 0
                    &&& env.db->Some_0.storages@.len() == 0
                    &&& env.db->Some_0.codes@.len() == 0
                    &&& env.db->Some_0.proofs@.len() == 0
                },
                Err(EnvError::InvalidHeader) => !header.wf(),
                Err(EnvError::InvalidLinkCount) => header.wf() && !(match self.kind {
                    CommitmentKind::Block => links@.len() == 0,
                    CommitmentKind::Beacon => links@.len() == 1,
                    CommitmentKind::History => links@.len() >= 1,
                }),
            },
    {
        if header.state_root.len() != 32 {
            return Err(EnvError::InvalidHeader);
        }
        let count_ok = match self.kind {
            CommitmentKind::Block => links.len() == 0,
            CommitmentKind::Beacon => links.len() == 1,
            CommitmentKind::History => links.len() >= 1,
        };
        if !count_ok {
            return Err(EnvError::InvalidLinkCount);
        }
        let mut config_id: Vec<u8> = Vec::new();
        let mut i: usize = 0;
        while i < 32
            invariant
                i <= 32,
                config_id@.len() == i,
            decreases 32 - i,
        {
            config_id.push(0);
            i += 1;
        }
        Ok(
            HostEvmEnv {
                db: Some(ProofDb::new()),
                header,
                chain_id: 0,
                spec_id: 0,
                commit: HostCommit { kind: self.kind, links, config_id },
            },
        )
    }
}

/// The leaf digest under which an account fact is committed: the hash of
/// its canonical bytes, address included.
pub open spec fn spec_account_leaf(e: crate::state::AccountEntryV) -> Seq<u8> {
    crate::commit::keccak_of(crate::codec::se_account(e))
}

/// The leaf digest under which a storage fact is committed.
pub open spec fn spec_storage_leaf(e: crate::state::StorageEntryV) -> Seq<u8> {
    crate::commit::keccak_of(crate::codec::se_storage(e))
}

/// A leaf is bound under `root` when the proof set holds a node for it
/// whose witness bytes, placed around the leaf, hash to `root`.
pub open spec fn spec_fact_bound(root: Seq<u8>, proofs: Seq<crate::state::ProofNodeV>, leaf: Seq<u8>) -> bool {
    exists|i: int|
        0 <= i < proofs.len() && (#[trigger] proofs[i]).path == leaf && crate::commit::keccak_of(
            proofs[i].left + leaf + proofs[i].right,
        ) == root
}

/// Soundness of a state snapshot: every embedded account and storage fact
/// is bound under the header's state root through the proof set, and every
/// bytecode hashes to the hash it is filed under. Execution may read only
/// facts so proven.
pub open spec fn spec_state_proofs_valid(b: BlockInputV) -> bool {
    &&& forall|i: int|
        0 <= i < b.accounts.len() ==> spec_fact_bound(
            b.header.state_root,
            b.proofs,
            spec_account_leaf(#[trigger] b.accounts[i]),
        )
    &&& forall|i: int|
        0 <= i < b.storages.len() ==> spec_fact_bound(
            b.header.state_root,
            b.proofs,
            spec_storage_leaf(#[trigger] b.storages[i]),
        )
    &&& forall|i: int|
        0 <= i < b.codes.len() ==> crate::commit::keccak_of((#[trigger] b.codes[i]).code)
            == b.codes[i].hash
}

/// Searches the proof set for a node binding `leaf` under `root`.
fn fact_bound(root: &Vec<u8>, proofs: &Vec<ProofNode>, leaf: &Vec<u8>) -> (r: bool)
    ensures
        r == spec_fact_bound(root@, proofs@.map_values(|e: ProofNode| e@), leaf@),
{
    let ghost pv = proofs@.map_values(|e: ProofNode| e@);
    let mut i: usize = 0;
    while i < proofs.len()
        invariant
            i <= proofs@.len(),
            pv == proofs@.map_values(|e: ProofNode| e@),
            forall|j: int|
                0 <= j < i ==> !((#[trigger] pv[j]).path == leaf@ && crate::commit::keccak_of(
                    pv[j].left + leaf@ + pv[j].right,
                ) == root@),
        decreases proofs@.len() - i,
    {
        proof {
            assert(pv[i as int] == proofs@[i as int]@);
        }
        let node = &proofs[i];
        if crate::bytes_eq(&node.path, leaf) {
            let mut pre: Vec<u8> = crate::db::clone_bytes(&node.left);
            crate::codec::append_bytes(&mut pre, leaf);
            crate::codec::append_bytes(&mut pre, &node.right);
            let h = crate::commit::keccak(&pre);
            if crate::bytes_eq(&h, root) {
                proof {
                    assert(pv[i as int].path == leaf@ && crate::commit::keccak_of(
                        pv[i as int].left + leaf@ + pv[i as int].right,
                    ) == root@);
                }
                return true;
            }
        }
        i += 1;
    }
    false
}

/// Checks every embedded fact of a snapshot against its state root; true
/// exactly when the whole snapshot is proof-bound. No fact is skipped.
fn verify_state_proofs(b: &BlockInput) -> (r: bool)
    ensures
        r == spec_state_proofs_valid(b@),
{
    let ghost bv = b@;
    let mut i: usize = 0;
    while i < b.accounts.len()
        invariant
            i <= b.accounts@.len(),
            bv == b@,
            forall|j: int|
                0 <= j < i ==> spec_fact_bound(
                    bv.header.state_root,
                    bv.proofs,
                    spec_account_leaf(#[trigger] bv.accounts[j]),
                ),
        decreases b.accounts@.len() - i,
    {
        proof {
            assert(bv.accounts[i as int] == b.accounts@[i as int]@);
        }
        let mut leaf_bytes: Vec<u8> = Vec::new();
        crate::codec::enc_account(&mut leaf_bytes, &b.accounts[i]);
        let leaf = crate::commit::keccak(&leaf_bytes);
        if !fact_bound(&b.header.state_root, &b.proofs, &leaf) {
            return false;
        }
        i += 1;
    }
    let mut i: usize = 0;
    while i < b.storages.len()
        invariant
            i <= b.storages@.len(),
            bv == b@,
            forall|j: int|
                0 <= j < i ==> spec_fact_bound(
                    bv.header.state_root,
                    bv.proofs,
                    spec_storage_leaf(#[trigger] bv.storages[j]),
                ),
        decreases b.storages@.len() - i,
    {
        proof {
            assert(bv.storages[i as int] == b.storages@[i as int]@);
        }
        let mut leaf_bytes: Vec<u8> = Vec::new();
        crate::codec::enc_storage(&mut leaf_bytes, &b.storages[i]);
        let leaf = crate::commit::keccak(&leaf_bytes);
        if !fact_bound(&b.header.state_root, &b.proofs, &leaf) {
            return false;
        }
        i += 1;
    }
    let mut i: usize = 0;
    while i < b.codes.len()
        invariant
            i <= b.codes@.len(),
            bv == b@,
            forall|j: int|
                0 <= j < i ==> crate::commit::keccak_of((#[trigger] bv.codes[j]).code)
                    == bv.codes[j].hash,
        decreases b.codes@.len() - i,
    {
        proof {
            assert(bv.codes[i as int] == b.codes@[i as int]@);
        }
        let h = crate::commit::keccak(&b.codes[i].code);
        if !crate::bytes_eq(&h, &b.codes[i].hash) {
            return false;
        }
        i += 1;
    }
    true
}

/// What a guest accepts of an input: the commitment it certifies, or
/// nothing when any state fact is not bound under the state root or any
/// proof link fails. A failing fact or link anywhere is fatal; none is
/// skipped.
pub open spec fn spec_guest_commitment(v: EvmInputV) -> Option<CommitmentV> {
    if !spec_state_proofs_valid(spec_input_block(v)) {
        None
    } else {
        spec_guest_root_commitment(v)
    }
}

/// The commitment the links certify, taken alone: the fact-binding side is
/// [`spec_state_proofs_valid`].
pub open spec fn spec_guest_root_commitment(v: EvmInputV) -> Option<CommitmentV> {
    match v {
        EvmInputV::Block(b) => Some(
            CommitmentV {
                kind: CommitmentKind::Block,
                id: b.header.number,
                root: spec_block_hash(b.header),
                config_id: b.config_digest,
            },
        ),
        EvmInputV::Beacon(c) => if c.links.len() == 1 && spec_chain_valid(
            spec_block_hash(c.input.header),
            c.links,
        ) {
            Some(
                CommitmentV {
                    kind: CommitmentKind::Beacon,
                    id: c.input.header.number,
                    root: spec_chain_root(spec_block_hash(c.input.header), c.links),
                    config_id: c.input.config_digest,
                },
            )
        } else {
            None
        },
        EvmInputV::History(c) => if c.links.len() >= 1 && spec_chain_valid(
            spec_block_hash(c.input.header),
            c.links,
        ) {
            Some(
                CommitmentV {
                    kind: CommitmentKind::History,
                    id: c.input.header.number,
                    root: spec_chain_root(spec_block_hash(c.input.header), c.links),
                    config_id: c.input.config_digest,
                },
            )
        } else {
            None
        },
    }
}

/// A guest run failed before execution: the input's commitment could not be
/// certified. Unrecoverable; no journal results.
#[derive(Clone, Copy, Debug, PartialEq, Eq, Structural)]
pub enum GuestError {
    /// An embedded state fact is not bound under the header's state root
    /// by the proof set: unproven state must never reach execution.
    InvalidStateProof,
    /// A proof link failed to verify, or the link count does not fit the
    /// strategy.
    InvalidCommitment,
}

/// The reconstructed environment inside the guest: pure, no network, serves
/// reads from the embedded facts alone.
pub struct GuestEvmEnv {
    pub db: ProofDb,
    pub header: Header,
    pub chain_id: u64,
    pub spec_id: u64,
    pub commitment: Commitment,
}

/// The fact mappings an input carries.
pub open spec fn input_db_view(b: BlockInputV) -> DbV {
    DbV {
        accounts: accounts_map_of(b.accounts),
        storages: storages_map_of(b.storages),
        codes: codes_map_of(b.codes),
        proofs: proofs_map_of(b.proofs),
    }
}

/// Reconstructs an environment from a portable input, trusting nothing but
/// proof verification: first every embedded state fact is checked against
/// the header's state root through the proof set, then each strategy's
/// links are checked in order against the header's hash. Any failure
/// aborts with no environment, so no unproven state can reach execution.
pub fn into_env(input: EvmInput) -> (r: Result<GuestEvmEnv, GuestError>)
    ensures
        match r {
            Ok(env) => {
                &&& spec_state_proofs_valid(spec_input_block(input@))
                &&& spec_guest_commitment(input@) == Some(env.commitment@)
                &&& env.db@ == input_db_view(spec_input_block(input@))
                &&& env.header@ == spec_input_block(input@).header
                &&& env.chain_id == spec_input_block(input@).chain_id
                &&& env.spec_id == spec_input_block(input@).spec_id
            },
            Err(GuestError::InvalidStateProof) => !spec_state_proofs_valid(
                spec_input_block(input@),
            ),
            Err(GuestError::InvalidCommitment) => spec_state_proofs_valid(
                spec_input_block(input@),
            ) && spec_guest_root_commitment(input@) is None,
        },
        r is Err ==> spec_guest_commitment(input@) is None,
{
    let facts_ok = match &input {
        EvmInput::Block(b) => verify_state_proofs(b),
        EvmInput::Beacon(c) => verify_state_proofs(&c.input),
        EvmInput::History(c) => verify_state_proofs(&c.input),
    };
    if !facts_ok {
        return Err(GuestError::InvalidStateProof);
    }
    match input {
        EvmInput::Block(b) => {
            let root = block_hash(&b.header);
            let commitment = Commitment {
                kind: CommitmentKind::Block,
                id: b.header.number,
                root,
                config_id: b.config_digest,
            };
            Ok(
                GuestEvmEnv {
                    db: ProofDb {
                        accounts: b.accounts,
                        storages: b.storages,
                        codes: b.codes,
                        proofs: b.proofs,
                    },
                    header: b.header,
                    chain_id: b.chain_id,
                    spec_id: b.spec_id,
                    commitment,
                },
            )
        },
        EvmInput::Beacon(c) => {
            if c.links.len() != 1 {
                return Err(GuestError::InvalidCommitment);
            }
            let h = block_hash(&c.input.header);
            match verify_chain(&h, &c.links) {
                None => Err(GuestError::InvalidCommitment),
                Some(root) => {
                    let commitment = Commitment {
                        kind: CommitmentKind::Beacon,
                        id: c.input.header.number,
                        root,
                        config_id: c.input.config_digest,
                    };
                    Ok(
                        GuestEvmEnv {
                            db: ProofDb {
                                accounts: c.input.accounts,
                                storages: c.input.storages,
                                codes: c.input.codes,
                                proofs: c.input.proofs,
                            },
                            header: c.input.header,
                            chain_id: c.input.chain_id,
                            spec_id: c.input.spec_id,
                            commitment,
                        },
                    )
                },
            }
        },
        EvmInput::History(c) => {
            if c.links.len() == 0 {
                return Err(GuestError::InvalidCommitment);
            }
            let h = block_hash(&c.input.header);
            match verify_chain(&h, &c.links) {
                None => Err(GuestError::InvalidCommitment),
                Some(root) => {
                    let commitment = Commitment {
                        kind: CommitmentKind::History,
                        id: c.input.header.number,
                        root,
                        config_id: c.input.config_digest,
                    };
                    Ok(
                        GuestEvmEnv {
                            db: ProofDb {
                                accounts: c.input.accounts,
                                storages: c.input.storages,
                                codes: c.input.codes,
                                proofs: c.input.proofs,
                            },
                            header: c.input.header,
                            chain_id: c.input.chain_id,
                            spec_id: c.input.spec_id,
                            commitment,
                        },
                    )
                },
            }
        },
    }
}

impl GuestEvmEnv {
    /// The commitment this environment certifies; the journal of the run
    /// embeds it.
    pub fn commitment(&self) -> (r: &Commitment)
        ensures
            r == self.commitment,
    {
        &self.commitment
    }

    /// Serves an account read from the embedded facts alone. `None` means
    /// the host proved less than this run reads: a soundness-fatal
    /// condition for the caller, never a retryable one.
    pub fn account(&self, addr: &Vec<u8>) -> (r: Option<&crate::state::AccountState>)
        ensures
            match r {
                Some(a) => self.db@.accounts.contains_key(addr@) && a@ == self.db@.accounts[addr@],
                None => !self.db@.accounts.contains_key(addr@),
            },
    {
        self.db.get_account(addr)
    }

    /// Serves a storage read from the embedded facts alone.
    pub fn storage(&self, addr: &Vec<u8>, slot: &Vec<u8>) -> (r: Option<&Vec<u8>>)
        ensures
            match r {
                Some(v) => self.db@.storages.contains_key((addr@, slot@)) && v@
                    == self.db@.storages[(addr@, slot@)],
                None => !self.db@.storages.contains_key((addr@, slot@)),
            },
    {
        self.db.get_storage(addr, slot)
    }

    /// Serves a code read from the embedded facts alone.
    pub fn code(&self, hash: &Vec<u8>) -> (r: Option<&Vec<u8>>)
        ensures
            match r {
                Some(c) => self.db@.codes.contains_key(hash@) && c@ == self.db@.codes[hash@],
                None => !self.db@.codes.contains_key(hash@),
            },
    {
        self.db.get_code(hash)
    }
}

/// A Beacon-committed input is certified exactly when both checks pass:
/// every embedded state fact is bound under the execution block's state
/// root through the proof set, and the light-client link binds the block
/// hash under the embedded Beacon root. Either failing invalidates the
/// whole commitment.
pub proof fn lemma_beacon_certified_iff_both_checks(c: crate::input::ComposeInputV)
    ensures
        spec_guest_commitment(EvmInputV::Beacon(c)) is Some <==> (spec_state_proofs_valid(c.input)
            && c.links.len() == 1 && spec_chain_valid(spec_block_hash(c.input.header), c.links)),
{
}

/// A History-committed input is certified exactly when every state fact is
/// bound under the state root and every link of the chain holds, in order.
pub proof fn lemma_history_certified_iff_both_checks(c: crate::input::ComposeInputV)
    ensures
        spec_guest_commitment(EvmInputV::History(c)) is Some <==> (spec_state_proofs_valid(
            c.input,
        ) && c.links.len() >= 1 && spec_chain_valid(spec_block_hash(c.input.header), c.links)),
{
}

/// The state snapshot inside an input, whatever its strategy.
pub open spec fn spec_input_block(v: EvmInputV) -> BlockInputV {
    match v {
        EvmInputV::Block(b) => b,
        EvmInputV::Beacon(c) => c.input,
        EvmInputV::History(c) => c.input,
    }
}

/// Round-tripping an input through the codec loses nothing: the guest
/// decodes exactly the state the host encoded, so its reads return the
/// same values and its certified commitment is the same.
pub proof fn lemma_roundtrip_preserves_env(v: EvmInputV)
    requires
        crate::codec::evm_input_bounded(v),
    ensures
        crate::codec::spec_decode_input(crate::codec::se_evm_input(v)) == Some(v),
        spec_guest_commitment(v) == spec_guest_commitment(
            crate::codec::spec_decode_input(crate::codec::se_evm_input(v))->Some_0,
        ),
        input_db_view(spec_input_block(v)) == input_db_view(
            spec_input_block(
                crate::codec::spec_decode_input(crate::codec::se_evm_input(v))->Some_0,
            ),
        ),
{
    crate::codec::lemma_input_roundtrip(v);
}

/// Finalizing a host environment and reconstructing from it on the guest
/// yields exactly the host's fact mappings: every read the guest can make
/// returns what the host recorded.
pub proof fn lemma_host_guest_state_agreement(env: HostEvmEnv)
    requires
        !env.db_checked_out(),
    ensures
        input_db_view(spec_input_block(env.spec_into_input())) == env.db->Some_0@,
{
}

} // verus!
