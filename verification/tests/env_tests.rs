use steel::codec::{
    decode_input, decode_journal, enc_account, enc_storage, encode_input, encode_journal,
};
use steel::commit::{block_hash, verify_chain, BeaconLink, Commitment, CommitmentKind};
use steel::compose::{begin_run, finish_run, ComposeError};
use steel::config::{ChainSpec, ForkCondition};
use steel::db::ProofDb;
use steel::env::{into_env, EnvError, EvmEnvBuilder, GuestError};
use steel::input::EvmInput;
use steel::state::{AccountEntry, AccountState, Header, ProofNode, StorageEntry};

fn addr(x: u8) -> Vec<u8> {
    vec![x; 20]
}

fn b256(x: u8) -> Vec<u8> {
    vec![x; 32]
}

fn keccak(data: &[u8]) -> Vec<u8> {
    alloy_primitives::keccak256(data).as_slice().to_vec()
}

fn code_bytes() -> Vec<u8> {
    vec![0x60, 0x00]
}

fn code_hash() -> Vec<u8> {
    keccak(&code_bytes())
}

fn account(x: u8) -> AccountState {
    AccountState {
        balance: b256(x),
        nonce: x as u64,
        code_hash: code_hash(),
        storage_root: b256(0x22),
    }
}

/// The leaf digest the guest checks an account fact under.
fn account_leaf(address: &[u8], st: &AccountState) -> Vec<u8> {
    let entry = AccountEntry { address: address.to_vec(), account: st.clone() };
    let mut bytes: Vec<u8> = Vec::new();
    enc_account(&mut bytes, &entry);
    keccak(&bytes)
}

/// The leaf digest the guest checks a storage fact under.
fn storage_leaf(address: &[u8], slot: &[u8], value: &[u8]) -> Vec<u8> {
    let entry = StorageEntry {
        address: address.to_vec(),
        slot: slot.to_vec(),
        value: value.to_vec(),
    };
    let mut bytes: Vec<u8> = Vec::new();
    enc_storage(&mut bytes, &entry);
    keccak(&bytes)
}

/// The fixture state: one account and one storage slot, whose leaves hash
/// together into the state root the fixture header carries.
fn fixture_leaves() -> (Vec<u8>, Vec<u8>) {
    (
        account_leaf(&addr(1), &account(5)),
        storage_leaf(&addr(1), &b256(3), &b256(4)),
    )
}

fn fixture_root() -> Vec<u8> {
    let (la, ls) = fixture_leaves();
    let mut pre = la.clone();
    pre.extend_from_slice(&ls);
    keccak(&pre)
}

fn fixture_header() -> Header {
    Header { number: 64, timestamp: 1_700_000_000, state_root: fixture_root() }
}

fn account_nodes() -> Vec<ProofNode> {
    let (la, ls) = fixture_leaves();
    vec![ProofNode { path: la, left: Vec::new(), right: ls }]
}

fn storage_nodes() -> Vec<ProofNode> {
    let (la, ls) = fixture_leaves();
    vec![ProofNode { path: ls, left: la, right: Vec::new() }]
}

/// A host environment over the fixture facts, committed per `kind`.
fn host_env(kind: CommitmentKind, links: Vec<BeaconLink>) -> steel::env::HostEvmEnv {
    let builder = EvmEnvBuilder::new().commitment_kind(kind);
    let env = builder.build(fixture_header(), links).unwrap();
    let spec = ChainSpec {
        chain_id: 1,
        forks: vec![(10, ForkCondition::Block(0)), (17, ForkCondition::Timestamp(1_600_000_000))],
    };
    let mut env = env.with_chain_spec(&spec);
    let mut db = env.take_db();
    db.record_account(&addr(1), &account(5), account_nodes());
    db.record_storage(&addr(1), &b256(3), &b256(4), storage_nodes());
    db.record_code(&code_hash(), &code_bytes());
    env.restore_db(db);
    env
}

#[test]
fn builder_rejects_bad_header() {
    let bad = Header { number: 1, timestamp: 2, state_root: vec![0; 31] };
    assert_eq!(
        EvmEnvBuilder::new().build(bad, Vec::new()).err(),
        Some(EnvError::InvalidHeader)
    );
}

#[test]
fn builder_rejects_bad_link_count() {
    assert_eq!(
        EvmEnvBuilder::new()
            .commitment_kind(CommitmentKind::Beacon)
            .build(fixture_header(), Vec::new())
            .err(),
        Some(EnvError::InvalidLinkCount)
    );
}

#[test]
fn chain_spec_picks_newest_active_fork() {
    let spec = ChainSpec {
        chain_id: 1,
        forks: vec![
            (10, ForkCondition::Block(0)),
            (17, ForkCondition::Timestamp(1_600_000_000)),
            (20, ForkCondition::Timestamp(2_000_000_000)),
        ],
    };
    assert_eq!(spec.active_fork(64, 1_700_000_000), Some(17));
    assert_eq!(spec.active_fork(64, 2_000_000_001), Some(20));
    let gap = ChainSpec { chain_id: 1, forks: vec![(10, ForkCondition::Block(100))] };
    assert_eq!(gap.active_fork(64, 0), None);
}

#[test]
fn config_digest_is_keccak_of_canonical_bytes() {
    let spec = ChainSpec { chain_id: 7, forks: vec![(3, ForkCondition::Block(5))] };
    let mut expected: Vec<u8> = Vec::new();
    expected.extend_from_slice(&7u64.to_le_bytes());
    expected.extend_from_slice(&1u64.to_le_bytes());
    expected.extend_from_slice(&3u64.to_le_bytes());
    expected.extend_from_slice(&0u64.to_le_bytes());
    expected.extend_from_slice(&5u64.to_le_bytes());
    assert_eq!(spec.digest(), keccak(&expected));
    // the digest is a real hash, not the input handed back
    assert_ne!(spec.digest(), expected);
}

#[test]
fn block_hash_is_keccak_of_header_bytes() {
    let h = fixture_header();
    let mut expected: Vec<u8> = Vec::new();
    expected.extend_from_slice(&h.number.to_le_bytes());
    expected.extend_from_slice(&h.timestamp.to_le_bytes());
    expected.extend_from_slice(&h.state_root);
    assert_eq!(block_hash(&h), keccak(&expected));
    assert_ne!(block_hash(&h), expected);
}

#[test]
fn proof_db_reads_back_facts() {
    let mut db = ProofDb::new();
    db.record_account(&addr(1), &account(5), account_nodes());
    db.record_storage(&addr(1), &b256(3), &b256(4), storage_nodes());
    db.record_code(&code_hash(), &code_bytes());
    assert_eq!(db.get_account(&addr(1)).unwrap().nonce, 5);
    assert!(db.get_account(&addr(2)).is_none());
    assert_eq!(db.get_storage(&addr(1), &b256(3)).unwrap(), &b256(4));
    assert!(db.get_storage(&addr(1), &b256(5)).is_none());
    assert_eq!(db.get_code(&code_hash()).unwrap(), &code_bytes());
    assert!(db.get_code(&b256(0x12)).is_none());
}

#[test]
fn repeated_reads_add_one_proof_entry() {
    let mut db = ProofDb::new();
    db.record_account(&addr(1), &account(5), account_nodes());
    let after_first = db.proofs.len();
    assert_eq!(after_first, 1);
    // recording the same fact again, any number of times, changes nothing
    db.record_account(&addr(1), &account(5), account_nodes());
    db.record_account(&addr(1), &account(5), account_nodes());
    assert_eq!(db.proofs.len(), after_first);
    assert_eq!(db.accounts.len(), 1);
    // a different fact sharing proof paths adds no duplicate path either
    db.record_storage(&addr(1), &b256(3), &b256(4), account_nodes());
    assert_eq!(db.proofs.len(), after_first);
    assert_eq!(db.storages.len(), 1);
}

#[test]
fn input_round_trip_block() {
    let env = host_env(CommitmentKind::Block, Vec::new());
    let input = env.into_input();
    let bytes = encode_input(&input);
    let decoded = decode_input(&bytes).expect("canonical bytes decode");
    // the guest reconstructs an environment whose reads return the same
    // values and whose commitment equals the host's
    let genv1 = into_env(input).unwrap();
    let genv2 = into_env(decoded).unwrap();
    assert!(genv1.commitment.matches(&genv2.commitment));
    assert_eq!(genv1.header.number, genv2.header.number);
    assert_eq!(genv1.chain_id, genv2.chain_id);
    assert_eq!(genv1.spec_id, genv2.spec_id);
    assert_eq!(
        genv2.db.get_account(&addr(1)).unwrap().nonce,
        genv1.db.get_account(&addr(1)).unwrap().nonce
    );
    assert_eq!(
        genv2.db.get_storage(&addr(1), &b256(3)).unwrap(),
        genv1.db.get_storage(&addr(1), &b256(3)).unwrap()
    );
    assert_eq!(
        genv2.db.get_code(&code_hash()).unwrap(),
        genv1.db.get_code(&code_hash()).unwrap()
    );
}

#[test]
fn guest_rejects_tampered_account_fact() {
    let env = host_env(CommitmentKind::Block, Vec::new());
    let mut input = env.into_input();
    // the host embeds a wrong value: the proof set no longer binds it
    if let EvmInput::Block(b) = &mut input {
        b.accounts[0].account.nonce = 99;
    } else {
        unreachable!();
    }
    assert_eq!(into_env(input).err(), Some(GuestError::InvalidStateProof));
}

#[test]
fn guest_rejects_tampered_storage_fact() {
    let env = host_env(CommitmentKind::Block, Vec::new());
    let mut input = env.into_input();
    if let EvmInput::Block(b) = &mut input {
        b.storages[0].value[0] ^= 0x01;
    } else {
        unreachable!();
    }
    assert_eq!(into_env(input).err(), Some(GuestError::InvalidStateProof));
}

#[test]
fn guest_rejects_tampered_code() {
    let env = host_env(CommitmentKind::Block, Vec::new());
    let mut input = env.into_input();
    if let EvmInput::Block(b) = &mut input {
        b.codes[0].code.push(0xfe);
    } else {
        unreachable!();
    }
    assert_eq!(into_env(input).err(), Some(GuestError::InvalidStateProof));
}

#[test]
fn guest_rejects_missing_proof_node() {
    let env = host_env(CommitmentKind::Block, Vec::new());
    let mut input = env.into_input();
    // a fact whose proof the host never supplied must not be certified
    if let EvmInput::Block(b) = &mut input {
        b.proofs.clear();
    } else {
        unreachable!();
    }
    assert_eq!(into_env(input).err(), Some(GuestError::InvalidStateProof));
}

#[test]
fn decode_rejects_trailing_bytes() {
    let env = host_env(CommitmentKind::Block, Vec::new());
    let input = env.into_input();
    let mut bytes = encode_input(&input);
    bytes.push(0);
    assert!(decode_input(&bytes).is_none());
}

/// A link whose root really is keccak(child || witness).
fn good_link(child: &[u8], witness: Vec<u8>) -> BeaconLink {
    let mut pre = child.to_vec();
    pre.extend_from_slice(&witness);
    BeaconLink { root: keccak(&pre), witness }
}

#[test]
fn beacon_commitment_verifies_and_round_trips() {
    let h = fixture_header();
    let child = block_hash(&h);
    let link = good_link(&child, vec![1, 2, 3]);
    let beacon_root = link.root.clone();
    let env = host_env(CommitmentKind::Beacon, vec![link]);
    let input = env.into_input();
    let bytes = encode_input(&input);
    let decoded = decode_input(&bytes).unwrap();
    let genv = into_env(decoded).unwrap();
    assert_eq!(genv.commitment.kind, CommitmentKind::Beacon);
    assert_eq!(genv.commitment.root, beacon_root);
    assert_eq!(genv.commitment.id, 64);
}

#[test]
fn beacon_rejects_wrong_witness() {
    let h = fixture_header();
    let child = block_hash(&h);
    let mut link = good_link(&child, vec![1, 2, 3]);
    link.witness[1] ^= 0x40;
    let env = host_env(CommitmentKind::Beacon, vec![link]);
    let input = env.into_input();
    assert_eq!(into_env(input).err(), Some(GuestError::InvalidCommitment));
}

#[test]
fn history_chain_verifies_whole_chain() {
    let h = fixture_header();
    let child = block_hash(&h);
    let l1 = good_link(&child, vec![10, 11]);
    let l2 = good_link(&l1.root, vec![20, 21]);
    let l3 = good_link(&l2.root, vec![30, 31]);
    let final_root = l3.root.clone();
    assert_eq!(
        verify_chain(&child, &vec![l1.clone(), l2.clone(), l3.clone()]),
        Some(final_root.clone())
    );
    let env = host_env(CommitmentKind::History, vec![l1, l2, l3]);
    let genv = into_env(env.into_input()).unwrap();
    assert_eq!(genv.commitment.kind, CommitmentKind::History);
    assert_eq!(genv.commitment.root, final_root);
}

#[test]
fn history_chain_rejects_one_flipped_byte_in_middle_link() {
    let h = fixture_header();
    let child = block_hash(&h);
    let l1 = good_link(&child, vec![10, 11]);
    let mut l2 = good_link(&l1.root, vec![20, 21]);
    let l3 = good_link(&l2.root, vec![30, 31]);
    // corrupt a single byte in the middle link's proof material
    l2.witness[0] ^= 0x01;
    assert_eq!(verify_chain(&child, &vec![l1.clone(), l2.clone(), l3.clone()]), None);
    let env = host_env(CommitmentKind::History, vec![l1, l2, l3]);
    assert_eq!(into_env(env.into_input()).err(), Some(GuestError::InvalidCommitment));
}

#[test]
fn decode_rejects_unknown_tag_and_truncation() {
    let env = host_env(CommitmentKind::Block, Vec::new());
    let input = env.into_input();
    let bytes = encode_input(&input);
    let mut bad_tag = bytes.clone();
    bad_tag[0] = 9;
    assert!(decode_input(&bad_tag).is_none());
    let mut truncated = bytes.clone();
    truncated.truncate(bytes.len() - 1);
    assert!(decode_input(&truncated).is_none());
    assert!(decode_input(&Vec::new()).is_none());
}

#[test]
fn journal_encoding_is_the_documented_layout() {
    let j = finish_run(
        Commitment { kind: CommitmentKind::Block, id: 1, root: b256(0x01), config_id: b256(0x02) },
        b256(0x03),
        9,
    );
    let mut expected: Vec<u8> = Vec::new();
    expected.extend_from_slice(&0u64.to_le_bytes()); // kind tag
    expected.extend_from_slice(&1u64.to_le_bytes()); // id
    expected.extend_from_slice(&32u64.to_le_bytes());
    expected.extend_from_slice(&b256(0x01));
    expected.extend_from_slice(&32u64.to_le_bytes());
    expected.extend_from_slice(&b256(0x02));
    expected.extend_from_slice(&32u64.to_le_bytes());
    expected.extend_from_slice(&b256(0x03));
    expected.extend_from_slice(&9u64.to_le_bytes()); // accumulator
    assert_eq!(encode_journal(&j), expected);
}

#[test]
fn guest_env_serves_reads_and_misses_are_explicit() {
    let env = host_env(CommitmentKind::Block, Vec::new());
    let genv = into_env(env.into_input()).unwrap();
    assert_eq!(genv.account(&addr(1)).unwrap().nonce, 5);
    // a fact the host never proved is absent: fatal for the caller
    assert!(genv.account(&addr(9)).is_none());
    assert_eq!(genv.storage(&addr(1), &b256(3)).unwrap(), &b256(4));
    assert!(genv.storage(&addr(9), &b256(3)).is_none());
    assert_eq!(genv.code(&code_hash()).unwrap(), &code_bytes());
    assert_eq!(genv.commitment().id, 64);
}

#[test]
fn journal_codec_round_trips() {
    let j = finish_run(
        Commitment { kind: CommitmentKind::Beacon, id: 64, root: b256(1), config_id: b256(2) },
        b256(0x77),
        12345,
    );
    let bytes = encode_journal(&j);
    let back = decode_journal(&bytes).unwrap();
    assert!(back.commitment.matches(&j.commitment));
    assert_eq!(back.image_id, j.image_id);
    assert_eq!(back.accumulator, j.accumulator);
    let mut truncated = bytes.clone();
    truncated.pop();
    assert!(decode_journal(&truncated).is_none());
}

#[test]
fn composition_rejects_foreign_program() {
    let image_p = b256(0xaa);
    let image_q = b256(0xbb);
    let c1 = Commitment { kind: CommitmentKind::Block, id: 64, root: b256(1), config_id: b256(2) };
    let j = finish_run(c1.clone(), image_p.clone(), 5);
    let c2 = Commitment { kind: CommitmentKind::Block, id: 65, root: b256(3), config_id: b256(2) };
    // a journal of program P handed to program Q is an identity mismatch
    assert_eq!(
        begin_run(&image_q, Some(&j), &c2, 100),
        Err(ComposeError::IdentityMismatch)
    );
    // handed back to P it is accepted with its accumulator
    assert_eq!(begin_run(&image_p, Some(&j), &c2, 100), Ok(5));
}

#[test]
fn composition_checks_config_and_drift() {
    let image = b256(0xaa);
    let c1 = Commitment { kind: CommitmentKind::Block, id: 64, root: b256(1), config_id: b256(2) };
    let j = finish_run(c1, image.clone(), 5);
    let other_config = Commitment { kind: CommitmentKind::Block, id: 65, root: b256(3), config_id: b256(9) };
    assert_eq!(
        begin_run(&image, Some(&j), &other_config, 100),
        Err(ComposeError::ConfigMismatch)
    );
    let too_far = Commitment { kind: CommitmentKind::Block, id: 300, root: b256(3), config_id: b256(2) };
    assert_eq!(
        begin_run(&image, Some(&j), &too_far, 100),
        Err(ComposeError::StaleAssumption)
    );
}

#[test]
fn two_sequential_runs_carry_the_accumulator() {
    let image = b256(0xcc);
    // run 1: no assumption, accumulator starts from its default
    let env1 = host_env(CommitmentKind::Block, Vec::new());
    let genv1 = into_env(env1.into_input()).unwrap();
    let start1 = begin_run(&image, None, &genv1.commitment, 100).unwrap();
    assert_eq!(start1, 0);
    let new_data_1: u64 = 40;
    let v1 = start1 + new_data_1;
    let j1 = finish_run(genv1.commitment, image.clone(), v1);
    let j1 = decode_journal(&encode_journal(&j1)).unwrap();
    // run 2: supplies run 1's journal and combines new data into it
    let env2 = host_env(CommitmentKind::Block, Vec::new());
    let genv2 = into_env(env2.into_input()).unwrap();
    let start2 = begin_run(&image, Some(&j1), &genv2.commitment, 100).unwrap();
    assert_eq!(start2, v1);
    let new_data_2: u64 = 2;
    let v2 = start2 + new_data_2;
    let j2 = finish_run(genv2.commitment, image, v2);
    assert_eq!(j2.accumulator, v1 + new_data_2);
    assert_ne!(j2.accumulator, 0 + new_data_2);
}
