//! The proof-recording database: every fact an execution reads is cached
//! here together with the inclusion proofs tying it to the state root, and
//! proofs are deduplicated by path so repeated reads cost one entry.
//!
//! On the host the facts arrive from a state provider; on the guest they
//! come embedded in the input and a missing fact is a fatal condition for
//! the caller, never a retryable one.

use vstd::prelude::*;
use crate::bytes_eq;
use crate::state::{
    AccountEntry, AccountEntryV, AccountState, AccountV, CodeEntry, CodeEntryV, ProofNode,
    ProofNodeV, StorageEntry, StorageEntryV,
};

verus! {

/// The account facts, as a mapping from address to account.
pub open spec fn accounts_map_of(s: Seq<AccountEntryV>) -> Map<Seq<u8>, AccountV>
    decreases s.len(),
{
    if s.len() == 0 {
        Map::empty()
    } else {
        accounts_map_of(s.drop_last()).insert(s.last().address, s.last().account)
    }
}

/// The storage facts, as a mapping from (address, slot) to value.
pub open spec fn storages_map_of(s: Seq<StorageEntryV>) -> Map<(Seq<u8>, Seq<u8>), Seq<u8>>
    decreases s.len(),
{
    if s.len() == 0 {
        Map::empty()
    } else {
        storages_map_of(s.drop_last()).insert(
            (s.last().address, s.last().slot),
            s.last().value,
        )
    }
}

/// The code facts, as a mapping from code hash to bytecode.
pub open spec fn codes_map_of(s: Seq<CodeEntryV>) -> Map<Seq<u8>, Seq<u8>>
    decreases s.len(),
{
    if s.len() == 0 {
        Map::empty()
    } else {
        codes_map_of(s.drop_last()).insert(s.last().hash, s.last().code)
    }
}

/// The accumulated proof set, as a mapping from node path to the witness
/// bytes standing left and right of the committed leaf.
pub open spec fn proofs_map_of(s: Seq<ProofNodeV>) -> Map<Seq<u8>, (Seq<u8>, Seq<u8>)>
    decreases s.len(),
{
    if s.len() == 0 {
        Map::empty()
    } else {
        proofs_map_of(s.drop_last()).insert(s.last().path, (s.last().left, s.last().right))
    }
}

/// Mathematical image of a [`ProofDb`]: the four fact mappings.
pub ghost struct DbV {
    pub accounts: Map<Seq<u8>, AccountV>,
    pub storages: Map<(Seq<u8>, Seq<u8>), Seq<u8>>,
    pub codes: Map<Seq<u8>, Seq<u8>>,
    pub proofs: Map<Seq<u8>, (Seq<u8>, Seq<u8>)>,
}

/// A state-query cache that records an inclusion proof for every fact it
/// serves. Grows monotonically during a host run; never shrinks.
pub struct ProofDb {
    pub accounts: Vec<AccountEntry>,
    pub storages: Vec<StorageEntry>,
    pub codes: Vec<CodeEntry>,
    pub proofs: Vec<ProofNode>,
}

impl View for ProofDb {
    type V = DbV;

    open spec fn view(&self) -> DbV {
        DbV {
            accounts: accounts_map_of(self.accounts@.map_values(|e: AccountEntry| e@)),
            storages: storages_map_of(self.storages@.map_values(|e: StorageEntry| e@)),
            codes: codes_map_of(self.codes@.map_values(|e: CodeEntry| e@)),
            proofs: proofs_map_of(self.proofs@.map_values(|e: ProofNode| e@)),
        }
    }
}

/// Merges proof nodes into the proof set, keeping the existing node for any
/// path already present: repeated reads of a fact cost one proof entry.
pub open spec fn merge_proofs(
    m: Map<Seq<u8>, (Seq<u8>, Seq<u8>)>,
    nodes: Seq<ProofNodeV>,
) -> Map<Seq<u8>, (Seq<u8>, Seq<u8>)>
    decreases nodes.len(),
{
    if nodes.len() == 0 {
        m
    } else {
        let m1 = if m.contains_key(nodes[0].path) {
            m
        } else {
            m.insert(nodes[0].path, (nodes[0].left, nodes[0].right))
        };
        merge_proofs(m1, nodes.skip(1))
    }
}

/// What recording an account fact does to the database: nothing at all when
/// the address is already cached, otherwise the account is added and the
/// proof nodes are merged path-deduplicated.
pub open spec fn spec_record_account(d: DbV, addr: Seq<u8>, a: AccountV, nodes: Seq<ProofNodeV>) -> DbV {
    if d.accounts.contains_key(addr) {
        d
    } else {
        DbV {
            accounts: d.accounts.insert(addr, a),
            storages: d.storages,
            codes: d.codes,
            proofs: merge_proofs(d.proofs, nodes),
        }
    }
}

/// What recording a storage fact does to the database.
pub open spec fn spec_record_storage(
    d: DbV,
    addr: Seq<u8>,
    slot: Seq<u8>,
    value: Seq<u8>,
    nodes: Seq<ProofNodeV>,
) -> DbV {
    if d.storages.contains_key((addr, slot)) {
        d
    } else {
        DbV {
            accounts: d.accounts,
            storages: d.storages.insert((addr, slot), value),
            codes: d.codes,
            proofs: merge_proofs(d.proofs, nodes),
        }
    }
}

/// What recording a code fact does to the database. Code is keyed by its
/// hash, which the state root already pins, so no proof nodes come with it.
pub open spec fn spec_record_code(d: DbV, hash: Seq<u8>, code: Seq<u8>) -> DbV {
    if d.codes.contains_key(hash) {
        d
    } else {
        DbV { accounts: d.accounts, storages: d.storages, codes: d.codes.insert(hash, code), proofs: d.proofs }
    }
}

/// Recording the same account fact again changes nothing: during one run a
/// repeated read adds exactly one proof entry, regardless of read count.
pub proof fn lemma_record_account_idempotent(
    d: DbV,
    addr: Seq<u8>,
    a: AccountV,
    nodes: Seq<ProofNodeV>,
)
    ensures
        spec_record_account(spec_record_account(d, addr, a, nodes), addr, a, nodes)
            == spec_record_account(d, addr, a, nodes),
{
}

/// Recording the same storage fact again changes nothing.
pub proof fn lemma_record_storage_idempotent(
    d: DbV,
    addr: Seq<u8>,
    slot: Seq<u8>,
    value: Seq<u8>,
    nodes: Seq<ProofNodeV>,
)
    ensures
        spec_record_storage(spec_record_storage(d, addr, slot, value, nodes), addr, slot, value, nodes)
            == spec_record_storage(d, addr, slot, value, nodes),
{
}

impl ProofDb {
    /// An empty database: no facts, no proofs.
    pub fn new() -> (r: ProofDb)
        ensures
            r@.accounts == Map::<Seq<u8>, AccountV>::empty(),
            r@.storages == Map::<(Seq<u8>, Seq<u8>), Seq<u8>>::empty(),
            r@.codes == Map::<Seq<u8>, Seq<u8>>::empty(),
            r@.proofs == Map::<Seq<u8>, (Seq<u8>, Seq<u8>)>::empty(),
            r.accounts@.len() == 0 && r.storages@.len() == 0 && r.codes@.len() == 0
                && r.proofs@.len() == 0,
    {
        let r = ProofDb { accounts: Vec::new(), storages: Vec::new(), codes: Vec::new(), proofs: Vec::new() };
        proof {
            assert(r.accounts@.map_values(|e: AccountEntry| e@) =~= Seq::<AccountEntryV>::empty());
            assert(r.storages@.map_values(|e: StorageEntry| e@) =~= Seq::<StorageEntryV>::empty());
            assert(r.codes@.map_values(|e: CodeEntry| e@) =~= Seq::<CodeEntryV>::empty());
            assert(r.proofs@.map_values(|e: ProofNode| e@) =~= Seq::<ProofNodeV>::empty());
        }
        r
    }

    /// Looks an account up by address; the most recently recorded fact for
    /// an address wins, matching the mapping view.
    pub fn get_account(&self, addr: &Vec<u8>) -> (r: Option<&AccountState>)
        ensures
            match r {
                Some(a) => self@.accounts.contains_key(addr@) && a@ == self@.accounts[addr@],
                None => !self@.accounts.contains_key(addr@),
            },
    {
        let ghost av = self.accounts@.map_values(|e: AccountEntry| e@);
        let mut found: Option<usize> = None;
        let mut i: usize = 0;
        proof {
            assert(av.take(0) =~= Seq::<AccountEntryV>::empty());
        }
        while i < self.accounts.len()
            invariant
                i <= self.accounts@.len(),
                av == self.accounts@.map_values(|e: AccountEntry| e@),
                match found {
                    Some(j) => j < i && av[j as int].address == addr@ && accounts_map_of(
                        av.take(i as int),
                    ).contains_key(addr@) && accounts_map_of(av.take(i as int))[addr@]
                        == av[j as int].account,
                    None => !accounts_map_of(av.take(i as int)).contains_key(addr@),
                },
            decreases self.accounts@.len() - i,
        {
            proof {
                assert(av.take(i + 1).drop_last() =~= av.take(i as int));
                assert(av.take(i + 1).last() == av[i as int]);
                assert(av[i as int] == self.accounts@[i as int]@);
            }
            if bytes_eq(&self.accounts[i].address, addr) {
                found = Some(i);
            }
            i += 1;
        }
        proof {
            assert(av.take(self.accounts@.len() as int) =~= av);
        }
        match found {
            Some(j) => Some(&self.accounts[j].account),
            None => None,
        }
    }

    /// Looks a storage slot up by address and slot.
    pub fn get_storage(&self, addr: &Vec<u8>, slot: &Vec<u8>) -> (r: Option<&Vec<u8>>)
        ensures
            match r {
                Some(v) => self@.storages.contains_key((addr@, slot@)) && v@ == self@.storages[
                    (addr@, slot@)
                ],
                None => !self@.storages.contains_key((addr@, slot@)),
            },
    {
        let ghost sv = self.storages@.map_values(|e: StorageEntry| e@);
        let mut found: Option<usize> = None;
        let mut i: usize = 0;
        proof {
            assert(sv.take(0) =~= Seq::<StorageEntryV>::empty());
        }
        while i < self.storages.len()
            invariant
                i <= self.storages@.len(),
                sv == self.storages@.map_values(|e: StorageEntry| e@),
                match found {
                    Some(j) => j < i && sv[j as int].address == addr@ && sv[j as int].slot
                        == slot@ && storages_map_of(sv.take(i as int)).contains_key(
                        (addr@, slot@),
                    ) && storages_map_of(sv.take(i as int))[(addr@, slot@)]
                        == sv[j as int].value,
                    None => !storages_map_of(sv.take(i as int)).contains_key((addr@, slot@)),
                },
            decreases self.storages@.len() - i,
        {
            proof {
                assert(sv.take(i + 1).drop_last() =~= sv.take(i as int));
                assert(sv.take(i + 1).last() == sv[i as int]);
                assert(sv[i as int] == self.storages@[i as int]@);
            }
            if bytes_eq(&self.storages[i].address, addr) && bytes_eq(&self.storages[i].slot, slot) {
                found = Some(i);
            }
            i += 1;
        }
        proof {
            assert(sv.take(self.storages@.len() as int) =~= sv);
        }
        match found {
            Some(j) => Some(&self.storages[j].value),
            None => None,
        }
    }

    /// Looks bytecode up by its hash.
    pub fn get_code(&self, hash: &Vec<u8>) -> (r: Option<&Vec<u8>>)
        ensures
            match r {
                Some(c) => self@.codes.contains_key(hash@) && c@ == self@.codes[hash@],
                None => !self@.codes.contains_key(hash@),
            },
    {
        let ghost cv = self.codes@.map_values(|e: CodeEntry| e@);
        let mut found: Option<usize> = None;
        let mut i: usize = 0;
        proof {
            assert(cv.take(0) =~= Seq::<CodeEntryV>::empty());
        }
        while i < self.codes.len()
            invariant
                i <= self.codes@.len(),
                cv == self.codes@.map_values(|e: CodeEntry| e@),
                match found {
                    Some(j) => j < i && cv[j as int].hash == hash@ && codes_map_of(
                        cv.take(i as int),
                    ).contains_key(hash@) && codes_map_of(cv.take(i as int))[hash@]
                        == cv[j as int].code,
                    None => !codes_map_of(cv.take(i as int)).contains_key(hash@),
                },
            decreases self.codes@.len() - i,
        {
            proof {
                assert(cv.take(i + 1).drop_last() =~= cv.take(i as int));
                assert(cv.take(i + 1).last() == cv[i as int]);
                assert(cv[i as int] == self.codes@[i as int]@);
            }
            if bytes_eq(&self.codes[i].hash, hash) {
                found = Some(i);
            }
            i += 1;
        }
        proof {
            assert(cv.take(self.codes@.len() as int) =~= cv);
        }
        match found {
            Some(j) => Some(&self.codes[j].code),
            None => None,
        }
    }

    /// True when a proof node with this path is already in the set.
    fn contains_proof_path(&self, path: &Vec<u8>) -> (r: bool)
        ensures
            r == self@.proofs.contains_key(path@),
    {
        let ghost pv = self.proofs@.map_values(|e: ProofNode| e@);
        let mut found: bool = false;
        let mut i: usize = 0;
        proof {
            assert(pv.take(0) =~= Seq::<ProofNodeV>::empty());
        }
        while i < self.proofs.len()
            invariant
                i <= self.proofs@.len(),
                pv == self.proofs@.map_values(|e: ProofNode| e@),
                found == proofs_map_of(pv.take(i as int)).contains_key(path@),
            decreases self.proofs@.len() - i,
        {
            proof {
                assert(pv.take(i + 1).drop_last() =~= pv.take(i as int));
                assert(pv.take(i + 1).last() == pv[i as int]);
                assert(pv[i as int] == self.proofs@[i as int]@);
            }
            if bytes_eq(&self.proofs[i].path, path) {
                found = true;
            }
            i += 1;
        }
        proof {
            assert(pv.take(self.proofs@.len() as int) =~= pv);
        }
        found
    }

    /// Merges proof nodes, keeping the first node seen for each path.
    fn merge_proof_nodes(&mut self, nodes: Vec<ProofNode>)
        ensures
            final(self)@.proofs == merge_proofs(old(self)@.proofs, nodes@.map_values(|e: ProofNode| e@)),
            final(self)@.accounts == old(self)@.accounts,
            final(self)@.storages == old(self)@.storages,
            final(self)@.codes == old(self)@.codes,
            final(self).accounts@ == old(self).accounts@,
            final(self).storages@ == old(self).storages@,
            final(self).codes@ == old(self).codes@,
    {
        let ghost nv = nodes@.map_values(|e: ProofNode| e@);
        let n: usize = nodes.len();
        let mut k: usize = 0;
        proof {
            assert(nv.take(0) =~= Seq::<ProofNodeV>::empty());
        }
        while k < n
            invariant
                k <= n,
                n == nodes@.len(),
                nv == nodes@.map_values(|e: ProofNode| e@),
                self@.proofs == merge_proofs(old(self)@.proofs, nv.take(k as int)),
                self@.accounts == old(self)@.accounts,
                self@.storages == old(self)@.storages,
                self@.codes == old(self)@.codes,
                self.accounts@ == old(self).accounts@,
                self.storages@ == old(self).storages@,
                self.codes@ == old(self).codes@,
            decreases n - k,
        {
            let node = &nodes[k];
            proof {
                assert(nv[k as int] == nodes@[k as int]@);
                lemma_merge_append(old(self)@.proofs, nv.take(k as int), nv[k as int]);
                assert(nv.take(k as int).push(nv[k as int]) =~= nv.take(k + 1));
            }
            if !self.contains_proof_path(&node.path) {
                let ghost pv = self.proofs@.map_values(|e: ProofNode| e@);
                self.proofs.push(
                    ProofNode {
                        path: clone_bytes(&node.path),
                        left: clone_bytes(&node.left),
                        right: clone_bytes(&node.right),
                    },
                );
                proof {
                    let pv2 = self.proofs@.map_values(|e: ProofNode| e@);
                    assert(pv2.drop_last() =~= pv);
                    assert(pv2.last() == self.proofs@.last()@);
                }
            }
            k += 1;
        }
        proof {
            assert(nv.take(n as int) =~= nv);
        }
    }

    /// Records a fetched account fact with its inclusion proof. A fact
    /// already cached leaves the database untouched; new proof nodes are
    /// merged path-deduplicated.
    pub fn record_account(&mut self, addr: &Vec<u8>, account: &AccountState, nodes: Vec<ProofNode>)
        ensures
            final(self)@ == spec_record_account(
                old(self)@,
                addr@,
                account@,
                nodes@.map_values(|e: ProofNode| e@),
            ),
    {
        match self.get_account(addr) {
            Some(_) => (),
            None => {
                let ghost av = self.accounts@.map_values(|e: AccountEntry| e@);
                self.accounts.push(
                    AccountEntry {
                        address: clone_bytes(addr),
                        account: AccountState {
                            balance: clone_bytes(&account.balance),
                            nonce: account.nonce,
                            code_hash: clone_bytes(&account.code_hash),
                            storage_root: clone_bytes(&account.storage_root),
                        },
                    },
                );
                proof {
                    let av2 = self.accounts@.map_values(|e: AccountEntry| e@);
                    assert(av2.drop_last() =~= av);
                    assert(av2.last() == self.accounts@.last()@);
                }
                self.merge_proof_nodes(nodes);
            },
        }
    }

    /// Records a fetched storage fact with its inclusion proof.
    pub fn record_storage(
        &mut self,
        addr: &Vec<u8>,
        slot: &Vec<u8>,
        value: &Vec<u8>,
        nodes: Vec<ProofNode>,
    )
        ensures
            final(self)@ == spec_record_storage(
                old(self)@,
                addr@,
                slot@,
                value@,
                nodes@.map_values(|e: ProofNode| e@),
            ),
    {
        match self.get_storage(addr, slot) {
            Some(_) => (),
            None => {
                let ghost sv = self.storages@.map_values(|e: StorageEntry| e@);
                self.storages.push(
                    StorageEntry {
                        address: clone_bytes(addr),
                        slot: clone_bytes(slot),
                        value: clone_bytes(value),
                    },
                );
                proof {
                    let sv2 = self.storages@.map_values(|e: StorageEntry| e@);
                    assert(sv2.drop_last() =~= sv);
                    assert(sv2.last() == self.storages@.last()@);
                }
                self.merge_proof_nodes(nodes);
            },
        }
    }

    /// Records fetched bytecode under its hash.
    pub fn record_code(&mut self, hash: &Vec<u8>, code: &Vec<u8>)
        ensures
            final(self)@ == spec_record_code(old(self)@, hash@, code@),
    {
        match self.get_code(hash) {
            Some(_) => (),
            None => {
                let ghost cv = self.codes@.map_values(|e: CodeEntry| e@);
                self.codes.push(CodeEntry { hash: clone_bytes(hash), code: clone_bytes(code) });
                proof {
                    let cv2 = self.codes@.map_values(|e: CodeEntry| e@);
                    assert(cv2.drop_last() =~= cv);
                    assert(cv2.last() == self.codes@.last()@);
                }
            },
        }
    }
}

/// Copies a byte vector.
pub fn clone_bytes(b: &Vec<u8>) -> (r: Vec<u8>)
    ensures
        r@ == b@,
{
    let mut r: Vec<u8> = Vec::new();
    let mut i: usize = 0;
    while i < b.len()
        invariant
            i <= b@.len(),
            r@ == b@.take(i as int),
        decreases b@.len() - i,
    {
        r.push(b[i]);
        proof {
            assert(r@ =~= b@.take(i + 1));
        }
        i += 1;
    }
    proof {
        assert(r@ =~= b@);
    }
    r
}

/// Merging one more node after a batch equals merging the extended batch.
proof fn lemma_merge_append(m: Map<Seq<u8>, (Seq<u8>, Seq<u8>)>, s: Seq<ProofNodeV>, x: ProofNodeV)
    ensures
        merge_proofs(m, s.push(x)) == ({
            let m1 = merge_proofs(m, s);
            if m1.contains_key(x.path) {
                m1
            } else {
                m1.insert(x.path, (x.left, x.right))
            }
        }),
    decreases s.len(),
{
    if s.len() == 0 {
        assert(merge_proofs(m, s) == m);
        assert(s.push(x)[0] == x);
        assert(s.push(x).skip(1) =~= Seq::<ProofNodeV>::empty());
        let m1 = if m.contains_key(x.path) {
            m
        } else {
            m.insert(x.path, (x.left, x.right))
        };
        assert(merge_proofs(m1, s.push(x).skip(1)) == m1);
        assert(merge_proofs(m, s.push(x)) == m1);
    } else {
        assert(s.push(x)[0] == s[0]);
        assert(s.push(x).skip(1) =~= s.skip(1).push(x));
        let m1 = if m.contains_key(s[0].path) {
            m
        } else {
            m.insert(s[0].path, (s[0].left, s[0].right))
        };
        assert(merge_proofs(m, s) == merge_proofs(m1, s.skip(1)));
        assert(merge_proofs(m, s.push(x)) == merge_proofs(m1, s.skip(1).push(x)));
        lemma_merge_append(m1, s.skip(1), x);
    }
}

} // verus!
