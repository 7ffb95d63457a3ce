//! Canonical byte codec for the portable input and the journal.
//!
//! Every logical structure has exactly one encoding (a length-prefixed,
//! little-endian format), and decoding is proved to invert encoding, so the
//! guest decodes exactly what the host encoded.

use vstd::prelude::*;
use vstd::bytes::{
    lemma_auto_spec_u64_to_from_le_bytes, spec_u64_from_le_bytes, spec_u64_to_le_bytes,
    u64_from_le_bytes, u64_to_le_bytes,
};
use vstd::slice::{slice_subrange, slice_to_vec};
use crate::state::{
    AccountEntry, AccountEntryV, AccountState, AccountV, CodeEntry, CodeEntryV, ProofNode,
    ProofNodeV, StorageEntry, StorageEntryV,
};
use crate::commit::{BeaconLink, BeaconLinkV, Commitment, CommitmentKind, CommitmentV};
use crate::state::Header;
use crate::state::HeaderV;
use crate::input::{BlockInput, BlockInputV, ComposeInput, ComposeInputV, EvmInput, EvmInputV};
use crate::compose::{Journal, JournalV};

verus! {

/// A 64-bit value, little endian.
pub open spec fn se_u64(v: u64) -> Seq<u8> {
    spec_u64_to_le_bytes(v)
}

/// Reads a 64-bit value at `pos`.
pub open spec fn sd_u64(s: Seq<u8>, pos: int) -> Option<(u64, int)> {
    if 0 <= pos && pos + 8 <= s.len() {
        Some((spec_u64_from_le_bytes(s.subrange(pos, pos + 8)), pos + 8))
    } else {
        None
    }
}

/// A byte string, prefixed by its 64-bit length.
pub open spec fn se_var(b: Seq<u8>) -> Seq<u8> {
    se_u64(b.len() as u64) + b
}

/// Reads a length-prefixed byte string at `pos`.
pub open spec fn sd_var(s: Seq<u8>, pos: int) -> Option<(Seq<u8>, int)> {
    match sd_u64(s, pos) {
        None => None,
        Some((n, p)) => if p + n <= s.len() {
            Some((s.subrange(p, p + n), p + n))
        } else {
            None
        },
    }
}

/// Decoding a 64-bit value wherever its encoding stands in a larger string
/// yields the value back.
pub proof fn lemma_sd_u64(s: Seq<u8>, pos: int, v: u64)
    requires
        0 <= pos,
        pos + 8 <= s.len(),
        s.subrange(pos, pos + 8) == se_u64(v),
    ensures
        sd_u64(s, pos) == Some((v, pos + 8)),
{
    lemma_auto_spec_u64_to_from_le_bytes();
}

/// Decoding a length-prefixed byte string wherever its encoding stands in a
/// larger string yields the payload back.
pub proof fn lemma_sd_var(s: Seq<u8>, pos: int, b: Seq<u8>)
    requires
        0 <= pos,
        b.len() <= u64::MAX,
        pos + 8 + b.len() <= s.len(),
        s.subrange(pos, pos + 8 + b.len()) == se_var(b),
    ensures
        sd_var(s, pos) == Some((b, pos + 8 + b.len())),
{
    lemma_auto_spec_u64_to_from_le_bytes();
    assert(s.subrange(pos, pos + 8) =~= se_var(b).subrange(0, 8));
    assert(se_var(b).subrange(0, 8) =~= se_u64((b.len() as u64)));
    lemma_sd_u64(s, pos, b.len() as u64);
    assert forall|i: int| 0 <= i < b.len() implies s.subrange(pos + 8, pos + 8 + b.len())[i]
        == b[i] by {
        assert(s.subrange(pos, pos + 8 + b.len())[8 + i] == se_var(b)[8 + i]);
    }
    assert(s.subrange(pos + 8, pos + 8 + b.len()) =~= b);
}

/// Splits knowledge of a decoded window into its two halves.
pub proof fn lemma_split(s: Seq<u8>, pos: int, a: Seq<u8>, rest: Seq<u8>)
    requires
        0 <= pos,
        pos + a.len() + rest.len() <= s.len(),
        s.subrange(pos, pos + a.len() + rest.len()) == a + rest,
    ensures
        s.subrange(pos, pos + a.len()) == a,
        s.subrange(pos + a.len(), pos + a.len() + rest.len()) == rest,
{
    assert forall|i: int| 0 <= i < a.len() implies s.subrange(pos, pos + a.len())[i] == a[i] by {
        assert(s.subrange(pos, pos + a.len() + rest.len())[i] == (a + rest)[i]);
    }
    assert(s.subrange(pos, pos + a.len()) =~= a);
    assert forall|i: int|
        0 <= i < rest.len() implies s.subrange(pos + a.len(), pos + a.len() + rest.len())[i]
        == rest[i] by {
        assert(s.subrange(pos + a.len(), pos + a.len() + rest.len())[i] == s[pos + a.len() + i]);
        assert(s.subrange(pos, pos + a.len() + rest.len())[a.len() + i] == s[pos + a.len() + i]);
        assert((a + rest)[a.len() + i] == rest[i]);
    }
    assert(s.subrange(pos + a.len(), pos + a.len() + rest.len()) =~= rest);
}

/// Appends the contents of `b` to `buf`.
pub fn append_bytes(buf: &mut Vec<u8>, b: &Vec<u8>)
    ensures
        final(buf)@ == old(buf)@ + b@,
{
    let mut i: usize = 0;
    while i < b.len()
        invariant
            i <= b@.len(),
            buf@ == old(buf)@ + b@.take(i as int),
        decreases b@.len() - i,
    {
        buf.push(b[i]);
        proof {
            assert(buf@ =~= old(buf)@ + b@.take(i + 1));
        }
        i += 1;
    }
    proof {
        assert(buf@ =~= old(buf)@ + b@);
    }
}

/// Appends the encoding of a 64-bit value.
pub fn enc_u64(buf: &mut Vec<u8>, v: u64)
    ensures
        final(buf)@ == old(buf)@ + se_u64(v),
{
    let mut t = u64_to_le_bytes(v);
    buf.append(&mut t);
}

/// Reads a 64-bit value at `pos`.
pub fn dec_u64(data: &Vec<u8>, pos: usize) -> (r: Option<(u64, usize)>)
    ensures
        match r {
            Some((v, p)) => sd_u64(data@, pos as int) == Some((v, p as int)),
            None => sd_u64(data@, pos as int) is None,
        },
{
    if pos <= data.len() && data.len() - pos >= 8 {
        let sl = slice_subrange(data.as_slice(), pos, pos + 8);
        let v = u64_from_le_bytes(sl);
        Some((v, pos + 8))
    } else {
        None
    }
}

/// Appends the length-prefixed encoding of a byte string.
pub fn enc_var(buf: &mut Vec<u8>, b: &Vec<u8>)
    ensures
        final(buf)@ == old(buf)@ + se_var(b@),
{
    enc_u64(buf, b.len() as u64);
    append_bytes(buf, b);
    proof {
        assert(buf@ =~= old(buf)@ + se_var(b@));
    }
}

/// Reads a length-prefixed byte string at `pos`.
pub fn dec_var(data: &Vec<u8>, pos: usize) -> (r: Option<(Vec<u8>, usize)>)
    ensures
        match r {
            Some((b, p)) => sd_var(data@, pos as int) == Some((b@, p as int)),
            None => sd_var(data@, pos as int) is None,
        },
{
    match dec_u64(data, pos) {
        None => None,
        Some((n, p)) => {
            if n <= (data.len() - p) as u64 {
                let end: usize = p + (n as usize);
                let sl = slice_subrange(data.as_slice(), p, end);
                let b = slice_to_vec(sl);
                Some((b, end))
            } else {
                None
            }
        },
    }
}

/// All length prefixes of an account entry fit in 64 bits.
pub open spec fn account_bounded(e: AccountEntryV) -> bool {
    e.address.len() <= u64::MAX && e.account.balance.len() <= u64::MAX
        && e.account.code_hash.len() <= u64::MAX && e.account.storage_root.len() <= u64::MAX
}

/// One fetched account entry.
pub open spec fn se_account(e: AccountEntryV) -> Seq<u8> {
    se_var(e.address) + se_var(e.account.balance) + se_u64(e.account.nonce) + se_var(
        e.account.code_hash,
    ) + se_var(e.account.storage_root)
}

/// Reads one account entry at `pos`.
pub open spec fn sd_account_at(s: Seq<u8>, pos: int) -> Option<(AccountEntryV, int)> {
    match sd_var(s, pos) {
        None => None,
        Some((address, p1)) => match sd_var(s, p1) {
            None => None,
            Some((balance, p2)) => match sd_u64(s, p2) {
                None => None,
                Some((nonce, p3)) => match sd_var(s, p3) {
                    None => None,
                    Some((code_hash, p4)) => match sd_var(s, p4) {
                        None => None,
                        Some((storage_root, p5)) => Some(
                            (
                                AccountEntryV {
                                    address,
                                    account: AccountV { balance, nonce, code_hash, storage_root },
                                },
                                p5,
                            ),
                        ),
                    },
                },
            },
        },
    }
}

/// Decoding an account entry wherever its encoding stands yields it back.
pub proof fn lemma_sd_account(s: Seq<u8>, pos: int, e: AccountEntryV)
    requires
        0 <= pos,
        account_bounded(e),
        pos + se_account(e).len() <= s.len(),
        s.subrange(pos, pos + se_account(e).len()) == se_account(e),
    ensures
        sd_account_at(s, pos) == Some((e, pos + se_account(e).len())),
{
    lemma_auto_spec_u64_to_from_le_bytes();
    let a1 = se_var(e.address);
    let a2 = se_var(e.account.balance);
    let a3 = se_u64(e.account.nonce);
    let a4 = se_var(e.account.code_hash);
    let a5 = se_var(e.account.storage_root);
    let r1 = a2 + a3 + a4 + a5;
    let r2 = a3 + a4 + a5;
    let r3 = a4 + a5;
    assert(se_account(e) =~= a1 + r1);
    assert(s.subrange(pos, pos + a1.len() + r1.len()) == a1 + r1);
    lemma_split(s, pos, a1, r1);
    lemma_sd_var(s, pos, e.address);
    let p1 = pos + a1.len();
    assert(r1 =~= a2 + r2);
    lemma_split(s, p1, a2, r2);
    lemma_sd_var(s, p1, e.account.balance);
    let p2 = p1 + a2.len();
    assert(r2 =~= a3 + r3);
    lemma_split(s, p2, a3, r3);
    lemma_sd_u64(s, p2, e.account.nonce);
    let p3 = p2 + 8;
    assert(r3 =~= a4 + a5);
    lemma_split(s, p3, a4, a5);
    lemma_sd_var(s, p3, e.account.code_hash);
    let p4 = p3 + a4.len();
    lemma_sd_var(s, p4, e.account.storage_root);
}

/// Appends one account entry.
pub fn enc_account(buf: &mut Vec<u8>, e: &AccountEntry)
    ensures
        final(buf)@ == old(buf)@ + se_account(e@),
{
    enc_var(buf, &e.address);
    enc_var(buf, &e.account.balance);
    enc_u64(buf, e.account.nonce);
    enc_var(buf, &e.account.code_hash);
    enc_var(buf, &e.account.storage_root);
    proof {
        assert(buf@ =~= old(buf)@ + se_account(e@));
    }
}

/// Reads one account entry at `pos`.
pub fn dec_account(data: &Vec<u8>, pos: usize) -> (r: Option<(AccountEntry, usize)>)
    ensures
        match r {
            Some((e, p)) => sd_account_at(data@, pos as int) == Some((e@, p as int)),
            None => sd_account_at(data@, pos as int) is None,
        },
{
    match dec_var(data, pos) {
        None => None,
        Some((address, p1)) => match dec_var(data, p1) {
            None => None,
            Some((balance, p2)) => match dec_u64(data, p2) {
                None => None,
                Some((nonce, p3)) => match dec_var(data, p3) {
                    None => None,
                    Some((code_hash, p4)) => match dec_var(data, p4) {
                        None => None,
                        Some((storage_root, p5)) => Some(
                            (
                                AccountEntry {
                                    address,
                                    account: AccountState {
                                        balance,
                                        nonce,
                                        code_hash,
                                        storage_root,
                                    },
                                },
                                p5,
                            ),
                        ),
                    },
                },
            },
        },
    }
}

/// A list of account entries, in order; the count stands before it.
pub open spec fn se_account_list(items: Seq<AccountEntryV>) -> Seq<u8>
    decreases items.len(),
{
    if items.len() == 0 {
        Seq::empty()
    } else {
        se_account(items[0]) + se_account_list(items.skip(1))
    }
}

/// Reads `count` account entries starting at `pos`.
pub open spec fn sd_account_list(s: Seq<u8>, pos: int, count: int) -> Option<
    (Seq<AccountEntryV>, int),
>
    decreases count,
{
    if count <= 0 {
        Some((Seq::empty(), pos))
    } else {
        match sd_account_at(s, pos) {
            None => None,
            Some((e, p)) => match sd_account_list(s, p, count - 1) {
                None => None,
                Some((es, p2)) => Some((seq![e] + es, p2)),
            },
        }
    }
}

pub open spec fn account_list_bounded(items: Seq<AccountEntryV>) -> bool {
    forall|i: int| 0 <= i < items.len() ==> account_bounded(#[trigger] items[i])
}

/// Decoding an encoded list of account entries yields the list back.
pub proof fn lemma_sd_account_list(s: Seq<u8>, pos: int, items: Seq<AccountEntryV>)
    requires
        0 <= pos,
        account_list_bounded(items),
        pos + se_account_list(items).len() <= s.len(),
        s.subrange(pos, pos + se_account_list(items).len()) == se_account_list(items),
    ensures
        sd_account_list(s, pos, items.len() as int) == Some(
            (items, pos + se_account_list(items).len()),
        ),
    decreases items.len(),
{
    if items.len() == 0 {
    } else {
        let a = se_account(items[0]);
        let rest = se_account_list(items.skip(1));
        assert(se_account_list(items) == a + rest);
        lemma_split(s, pos, a, rest);
        lemma_sd_account(s, pos, items[0]);
        assert(account_list_bounded(items.skip(1))) by {
            assert(forall|i: int|
                0 <= i < items.skip(1).len() ==> #[trigger] items.skip(1)[i] == items[i + 1]);
        }
        lemma_sd_account_list(s, pos + a.len(), items.skip(1));
        assert(seq![items[0]] + items.skip(1) =~= items);
    }
}

/// Appends a list of account entries.
pub fn enc_account_list(buf: &mut Vec<u8>, items: &Vec<AccountEntry>)
    ensures
        final(buf)@ == old(buf)@ + se_account_list(
            items@.map_values(|e: AccountEntry| e@),
        ),
{
    let ghost iv = items@.map_values(|e: AccountEntry| e@);
    let mut i: usize = items.len();
    proof {
        assert(iv.skip(items@.len() as int) =~= Seq::<AccountEntryV>::empty());
    }
    let mut tail: Vec<u8> = Vec::new();
    while i > 0
        invariant
            i <= items@.len(),
            iv == items@.map_values(|e: AccountEntry| e@),
            tail@ == se_account_list(iv.skip(i as int)),
        decreases i,
    {
        i = i - 1;
        let mut piece: Vec<u8> = Vec::new();
        enc_account(&mut piece, &items[i]);
        append_bytes(&mut piece, &tail);
        tail = piece;
        proof {
            assert(iv[i as int] == items@[i as int]@);
            assert(iv.skip(i as int)[0] == iv[i as int]);
            assert(iv.skip(i as int).skip(1) =~= iv.skip(i + 1));
            assert(tail@ =~= se_account_list(iv.skip(i as int)));
        }
    }
    proof {
        assert(iv.skip(0) =~= iv);
    }
    append_bytes(buf, &tail);
}

/// Reads `count` account entries starting at `pos`.
pub fn dec_account_list(data: &Vec<u8>, pos: usize, count: u64) -> (r: Option<
    (Vec<AccountEntry>, usize),
>)
    ensures
        match r {
            Some((es, p)) => sd_account_list(data@, pos as int, count as int) == Some(
                (es@.map_values(|e: AccountEntry| e@), p as int),
            ),
            None => sd_account_list(data@, pos as int, count as int) is None,
        },
    decreases count,
{
    if count == 0 {
        let es: Vec<AccountEntry> = Vec::new();
        proof {
            assert(es@.map_values(|e: AccountEntry| e@) =~= Seq::<AccountEntryV>::empty());
        }
        Some((es, pos))
    } else {
        match dec_account(data, pos) {
            None => None,
            Some((e, p)) => match dec_account_list(data, p, count - 1) {
                None => None,
                Some((mut es, p2)) => {
                    let ghost es0 = es@;
                    es.insert(0, e);
                    proof {
                        assert(es@.map_values(|x: AccountEntry| x@) =~= seq![e@]
                            + es0.map_values(|x: AccountEntry| x@));
                    }
                    Some((es, p2))
                },
            },
        }
    }
}


/// All length prefixes of this record fit in 64 bits.
pub open spec fn storage_bounded(e: StorageEntryV) -> bool {
    e.address.len() <= u64::MAX && e.slot.len() <= u64::MAX && e.value.len() <= u64::MAX
}

/// One fetched storage slot entry.
pub open spec fn se_storage(e: StorageEntryV) -> Seq<u8> {
    se_var(e.address) + se_var(e.slot) + se_var(e.value)
}

/// Reads one record at `pos`.
pub open spec fn sd_storage_at(s: Seq<u8>, pos: int) -> Option<(StorageEntryV, int)> {
    match sd_var(s, pos) {
        None => None,
        Some((address, p1)) =>
        match sd_var(s, p1) {
            None => None,
            Some((slot, p2)) =>
            match sd_var(s, p2) {
                None => None,
                Some((value, p3)) =>
                Some((StorageEntryV { address, slot, value }, p3)),
            },
        },
    }
}

/// Decoding this record wherever its encoding stands yields it back.
pub proof fn lemma_sd_storage(s: Seq<u8>, pos: int, e: StorageEntryV)
    requires
        0 <= pos,
        storage_bounded(e),
        pos + se_storage(e).len() <= s.len(),
        s.subrange(pos, pos + se_storage(e).len()) == se_storage(e),
    ensures
        sd_storage_at(s, pos) == Some((e, pos + se_storage(e).len())),
{
    lemma_auto_spec_u64_to_from_le_bytes();
    let a1 = se_var(e.address);
    let a2 = se_var(e.slot);
    let a3 = se_var(e.value);
    let r1 = a2 + a3;
    let r2 = a3;
    assert(se_storage(e) =~= a1 + r1);
    assert(s.subrange(pos, pos + a1.len() + r1.len()) == a1 + r1);
    lemma_split(s, pos, a1, r1);
    lemma_sd_var(s, pos, e.address);
    let q1 = pos + a1.len();
    assert(r1 =~= a2 + r2);
    lemma_split(s, q1, a2, r2);
    lemma_sd_var(s, q1, e.slot);
    let q2 = q1 + a2.len();
    lemma_sd_var(s, q2, e.value);
}

/// Appends one record.
pub fn enc_storage(buf: &mut Vec<u8>, e: &StorageEntry)
    ensures
        final(buf)@ == old(buf)@ + se_storage(e@),
{
    enc_var(buf, &e.address);
    enc_var(buf, &e.slot);
    enc_var(buf, &e.value);
    proof {
        assert(buf@ =~= old(buf)@ + se_storage(e@));
    }
}

/// Reads one record at `pos`.
pub fn dec_storage(data: &Vec<u8>, pos: usize) -> (r: Option<(StorageEntry, usize)>)
    ensures
        match r {
            Some((e, p)) => sd_storage_at(data@, pos as int) == Some((e@, p as int)),
            None => sd_storage_at(data@, pos as int) is None,
        },
{
    match dec_var(data, pos) {
        None => None,
        Some((address, p1)) =>
        match dec_var(data, p1) {
            None => None,
            Some((slot, p2)) =>
            match dec_var(data, p2) {
                None => None,
                Some((value, p3)) =>
                Some((StorageEntry { address, slot, value }, p3)),
            },
        },
    }
}

/// A list of records, in order.
pub open spec fn se_storage_list(items: Seq<StorageEntryV>) -> Seq<u8>
    decreases items.len(),
{
    if items.len() == 0 {
        Seq::empty()
    } else {
        se_storage(items[0]) + se_storage_list(items.skip(1))
    }
}

/// Reads `count` records starting at `pos`.
pub open spec fn sd_storage_list(s: Seq<u8>, pos: int, count: int) -> Option<(Seq<StorageEntryV>, int)>
    decreases count,
{
    if count <= 0 {
        Some((Seq::empty(), pos))
    } else {
        match sd_storage_at(s, pos) {
            None => None,
            Some((e, p)) => match sd_storage_list(s, p, count - 1) {
                None => None,
                Some((es, p2)) => Some((seq![e] + es, p2)),
            },
        }
    }
}

pub open spec fn storage_list_bounded(items: Seq<StorageEntryV>) -> bool {
    forall|i: int| 0 <= i < items.len() ==> storage_bounded(#[trigger] items[i])
}

/// Decoding an encoded list of records yields the list back.
pub proof fn lemma_sd_storage_list(s: Seq<u8>, pos: int, items: Seq<StorageEntryV>)
    requires
        0 <= pos,
        storage_list_bounded(items),
        pos + se_storage_list(items).len() <= s.len(),
        s.subrange(pos, pos + se_storage_list(items).len()) == se_storage_list(items),
    ensures
        sd_storage_list(s, pos, items.len() as int) == Some(
            (items, pos + se_storage_list(items).len()),
        ),
    decreases items.len(),
{
    if items.len() == 0 {
    } else {
        let a = se_storage(items[0]);
        let rest = se_storage_list(items.skip(1));
        assert(se_storage_list(items) == a + rest);
        lemma_split(s, pos, a, rest);
        lemma_sd_storage(s, pos, items[0]);
        assert(storage_list_bounded(items.skip(1))) by {
            assert(forall|i: int|
                0 <= i < items.skip(1).len() ==> #[trigger] items.skip(1)[i] == items[i + 1]);
        }
        lemma_sd_storage_list(s, pos + a.len(), items.skip(1));
        assert(seq![items[0]] + items.skip(1) =~= items);
    }
}

/// Appends a list of records.
pub fn enc_storage_list(buf: &mut Vec<u8>, items: &Vec<StorageEntry>)
    ensures
        final(buf)@ == old(buf)@ + se_storage_list(items@.map_values(|e: StorageEntry| e@)),
{
    let ghost iv = items@.map_values(|e: StorageEntry| e@);
    let mut i: usize = items.len();
    proof {
        assert(iv.skip(items@.len() as int) =~= Seq::<StorageEntryV>::empty());
    }
    let mut tail: Vec<u8> = Vec::new();
    while i > 0
        invariant
            i <= items@.len(),
            iv == items@.map_values(|e: StorageEntry| e@),
            tail@ == se_storage_list(iv.skip(i as int)),
        decreases i,
    {
        i = i - 1;
        let mut piece: Vec<u8> = Vec::new();
        enc_storage(&mut piece, &items[i]);
        append_bytes(&mut piece, &tail);
        tail = piece;
        proof {
            assert(iv[i as int] == items@[i as int]@);
            assert(iv.skip(i as int)[0] == iv[i as int]);
            assert(iv.skip(i as int).skip(1) =~= iv.skip(i + 1));
            assert(tail@ =~= se_storage_list(iv.skip(i as int)));
        }
    }
    proof {
        assert(iv.skip(0) =~= iv);
    }
    append_bytes(buf, &tail);
}

/// Reads `count` records starting at `pos`.
pub fn dec_storage_list(data: &Vec<u8>, pos: usize, count: u64) -> (r: Option<(Vec<StorageEntry>, usize)>)
    ensures
        match r {
            Some((es, p)) => sd_storage_list(data@, pos as int, count as int) == Some(
                (es@.map_values(|e: StorageEntry| e@), p as int),
            ),
            None => sd_storage_list(data@, pos as int, count as int) is None,
        },
    decreases count,
{
    if count == 0 {
        let es: Vec<StorageEntry> = Vec::new();
        proof {
            assert(es@.map_values(|e: StorageEntry| e@) =~= Seq::<StorageEntryV>::empty());
        }
        Some((es, pos))
    } else {
        match dec_storage(data, pos) {
            None => None,
            Some((e, p)) => match dec_storage_list(data, p, count - 1) {
                None => None,
                Some((mut es, p2)) => {
                    let ghost es0 = es@;
                    es.insert(0, e);
                    proof {
                        assert(es@.map_values(|x: StorageEntry| x@) =~= seq![e@] + es0.map_values(
                            |x: StorageEntry| x@,
                        ));
                    }
                    Some((es, p2))
                },
            },
        }
    }
}


/// All length prefixes of this record fit in 64 bits.
pub open spec fn code_bounded(e: CodeEntryV) -> bool {
    e.hash.len() <= u64::MAX && e.code.len() <= u64::MAX
}

/// One fetched contract code entry.
pub open spec fn se_code(e: CodeEntryV) -> Seq<u8> {
    se_var(e.hash) + se_var(e.code)
}

/// Reads one record at `pos`.
pub open spec fn sd_code_at(s: Seq<u8>, pos: int) -> Option<(CodeEntryV, int)> {
    match sd_var(s, pos) {
        None => None,
        Some((hash, p1)) =>
        match sd_var(s, p1) {
            None => None,
            Some((code, p2)) =>
            Some((CodeEntryV { hash, code }, p2)),
        },
    }
}

/// Decoding this record wherever its encoding stands yields it back.
pub proof fn lemma_sd_code(s: Seq<u8>, pos: int, e: CodeEntryV)
    requires
        0 <= pos,
        code_bounded(e),
        pos + se_code(e).len() <= s.len(),
        s.subrange(pos, pos + se_code(e).len()) == se_code(e),
    ensures
        sd_code_at(s, pos) == Some((e, pos + se_code(e).len())),
{
    lemma_auto_spec_u64_to_from_le_bytes();
    let a1 = se_var(e.hash);
    let a2 = se_var(e.code);
    let r1 = a2;
    assert(se_code(e) =~= a1 + r1);
    assert(s.subrange(pos, pos + a1.len() + r1.len()) == a1 + r1);
    lemma_split(s, pos, a1, r1);
    lemma_sd_var(s, pos, e.hash);
    let q1 = pos + a1.len();
    lemma_sd_var(s, q1, e.code);
}

/// Appends one record.
pub fn enc_code(buf: &mut Vec<u8>, e: &CodeEntry)
    ensures
        final(buf)@ == old(buf)@ + se_code(e@),
{
    enc_var(buf, &e.hash);
    enc_var(buf, &e.code);
    proof {
        assert(buf@ =~= old(buf)@ + se_code(e@));
    }
}

/// Reads one record at `pos`.
pub fn dec_code(data: &Vec<u8>, pos: usize) -> (r: Option<(CodeEntry, usize)>)
    ensures
        match r {
            Some((e, p)) => sd_code_at(data@, pos as int) == Some((e@, p as int)),
            None => sd_code_at(data@, pos as int) is None,
        },
{
    match dec_var(data, pos) {
        None => None,
        Some((hash, p1)) =>
        match dec_var(data, p1) {
            None => None,
            Some((code, p2)) =>
            Some((CodeEntry { hash, code }, p2)),
        },
    }
}

/// A list of records, in order.
pub open spec fn se_code_list(items: Seq<CodeEntryV>) -> Seq<u8>
    decreases items.len(),
{
    if items.len() == 0 {
        Seq::empty()
    } else {
        se_code(items[0]) + se_code_list(items.skip(1))
    }
}

/// Reads `count` records starting at `pos`.
pub open spec fn sd_code_list(s: Seq<u8>, pos: int, count: int) -> Option<(Seq<CodeEntryV>, int)>
    decreases count,
{
    if count <= 0 {
        Some((Seq::empty(), pos))
    } else {
        match sd_code_at(s, pos) {
            None => None,
            Some((e, p)) => match sd_code_list(s, p, count - 1) {
                None => None,
                Some((es, p2)) => Some((seq![e] + es, p2)),
            },
        }
    }
}

pub open spec fn code_list_bounded(items: Seq<CodeEntryV>) -> bool {
    forall|i: int| 0 <= i < items.len() ==> code_bounded(#[trigger] items[i])
}

/// Decoding an encoded list of records yields the list back.
pub proof fn lemma_sd_code_list(s: Seq<u8>, pos: int, items: Seq<CodeEntryV>)
    requires
        0 <= pos,
        code_list_bounded(items),
        pos + se_code_list(items).len() <= s.len(),
        s.subrange(pos, pos + se_code_list(items).len()) == se_code_list(items),
    ensures
        sd_code_list(s, pos, items.len() as int) == Some(
            (items, pos + se_code_list(items).len()),
        ),
    decreases items.len(),
{
    if items.len() == 0 {
    } else {
        let a = se_code(items[0]);
        let rest = se_code_list(items.skip(1));
        assert(se_code_list(items) == a + rest);
        lemma_split(s, pos, a, rest);
        lemma_sd_code(s, pos, items[0]);
        assert(code_list_bounded(items.skip(1))) by {
            assert(forall|i: int|
                0 <= i < items.skip(1).len() ==> #[trigger] items.skip(1)[i] == items[i + 1]);
        }
        lemma_sd_code_list(s, pos + a.len(), items.skip(1));
        assert(seq![items[0]] + items.skip(1) =~= items);
    }
}

/// Appends a list of records.
pub fn enc_code_list(buf: &mut Vec<u8>, items: &Vec<CodeEntry>)
    ensures
        final(buf)@ == old(buf)@ + se_code_list(items@.map_values(|e: CodeEntry| e@)),
{
    let ghost iv = items@.map_values(|e: CodeEntry| e@);
    let mut i: usize = items.len();
    proof {
        assert(iv.skip(items@.len() as int) =~= Seq::<CodeEntryV>::empty());
    }
    let mut tail: Vec<u8> = Vec::new();
    while i > 0
        invariant
            i <= items@.len(),
            iv == items@.map_values(|e: CodeEntry| e@),
            tail@ == se_code_list(iv.skip(i as int)),
        decreases i,
    {
        i = i - 1;
        let mut piece: Vec<u8> = Vec::new();
        enc_code(&mut piece, &items[i]);
        append_bytes(&mut piece, &tail);
        tail = piece;
        proof {
            assert(iv[i as int] == items@[i as int]@);
            assert(iv.skip(i as int)[0] == iv[i as int]);
            assert(iv.skip(i as int).skip(1) =~= iv.skip(i + 1));
            assert(tail@ =~= se_code_list(iv.skip(i as int)));
        }
    }
    proof {
        assert(iv.skip(0) =~= iv);
    }
    append_bytes(buf, &tail);
}

/// Reads `count` records starting at `pos`.
pub fn dec_code_list(data: &Vec<u8>, pos: usize, count: u64) -> (r: Option<(Vec<CodeEntry>, usize)>)
    ensures
        match r {
            Some((es, p)) => sd_code_list(data@, pos as int, count as int) == Some(
                (es@.map_values(|e: CodeEntry| e@), p as int),
            ),
            None => sd_code_list(data@, pos as int, count as int) is None,
        },
    decreases count,
{
    if count == 0 {
        let es: Vec<CodeEntry> = Vec::new();
        proof {
            assert(es@.map_values(|e: CodeEntry| e@) =~= Seq::<CodeEntryV>::empty());
        }
        Some((es, pos))
    } else {
        match dec_code(data, pos) {
            None => None,
            Some((e, p)) => match dec_code_list(data, p, count - 1) {
                None => None,
                Some((mut es, p2)) => {
                    let ghost es0 = es@;
                    es.insert(0, e);
                    proof {
                        assert(es@.map_values(|x: CodeEntry| x@) =~= seq![e@] + es0.map_values(
                            |x: CodeEntry| x@,
                        ));
                    }
                    Some((es, p2))
                },
            },
        }
    }
}


/// All length prefixes of this record fit in 64 bits.
pub open spec fn proof_node_bounded(e: ProofNodeV) -> bool {
    e.path.len() <= u64::MAX && e.left.len() <= u64::MAX && e.right.len() <= u64::MAX
}

/// One inclusion-proof node.
pub open spec fn se_proof_node(e: ProofNodeV) -> Seq<u8> {
    se_var(e.path) + se_var(e.left) + se_var(e.right)
}

/// Reads one record at `pos`.
pub open spec fn sd_proof_node_at(s: Seq<u8>, pos: int) -> Option<(ProofNodeV, int)> {
    match sd_var(s, pos) {
        None => None,
        Some((path, p1)) =>
        match sd_var(s, p1) {
            None => None,
            Some((left, p2)) =>
            match sd_var(s, p2) {
                None => None,
                Some((right, p3)) =>
                Some((ProofNodeV { path, left, right }, p3)),
            },
        },
    }
}

/// Decoding this record wherever its encoding stands yields it back.
pub proof fn lemma_sd_proof_node(s: Seq<u8>, pos: int, e: ProofNodeV)
    requires
        0 <= pos,
        proof_node_bounded(e),
        pos + se_proof_node(e).len() <= s.len(),
        s.subrange(pos, pos + se_proof_node(e).len()) == se_proof_node(e),
    ensures
        sd_proof_node_at(s, pos) == Some((e, pos + se_proof_node(e).len())),
{
    lemma_auto_spec_u64_to_from_le_bytes();
    let a1 = se_var(e.path);
    let a2 = se_var(e.left);
    let a3 = se_var(e.right);
    let r1 = a2 + a3;
    let r2 = a3;
    assert(se_proof_node(e) =~= a1 + r1);
    assert(s.subrange(pos, pos + a1.len() + r1.len()) == a1 + r1);
    lemma_split(s, pos, a1, r1);
    lemma_sd_var(s, pos, e.path);
    let q1 = pos + a1.len();
    assert(r1 =~= a2 + r2);
    lemma_split(s, q1, a2, r2);
    lemma_sd_var(s, q1, e.left);
    let q2 = q1 + a2.len();
    lemma_sd_var(s, q2, e.right);
}

/// Appends one record.
pub fn enc_proof_node(buf: &mut Vec<u8>, e: &ProofNode)
    ensures
        final(buf)@ == old(buf)@ + se_proof_node(e@),
{
    enc_var(buf, &e.path);
    enc_var(buf, &e.left);
    enc_var(buf, &e.right);
    proof {
        assert(buf@ =~= old(buf)@ + se_proof_node(e@));
    }
}

/// Reads one record at `pos`.
pub fn dec_proof_node(data: &Vec<u8>, pos: usize) -> (r: Option<(ProofNode, usize)>)
    ensures
        match r {
            Some((e, p)) => sd_proof_node_at(data@, pos as int) == Some((e@, p as int)),
            None => sd_proof_node_at(data@, pos as int) is None,
        },
{
    match dec_var(data, pos) {
        None => None,
        Some((path, p1)) =>
        match dec_var(data, p1) {
            None => None,
            Some((left, p2)) =>
            match dec_var(data, p2) {
                None => None,
                Some((right, p3)) =>
                Some((ProofNode { path, left, right }, p3)),
            },
        },
    }
}

/// A list of records, in order.
pub open spec fn se_proof_node_list(items: Seq<ProofNodeV>) -> Seq<u8>
    decreases items.len(),
{
    if items.len() == 0 {
        Seq::empty()
    } else {
        se_proof_node(items[0]) + se_proof_node_list(items.skip(1))
    }
}

/// Reads `count` records starting at `pos`.
pub open spec fn sd_proof_node_list(s: Seq<u8>, pos: int, count: int) -> Option<(Seq<ProofNodeV>, int)>
    decreases count,
{
    if count <= 0 {
        Some((Seq::empty(), pos))
    } else {
        match sd_proof_node_at(s, pos) {
            None => None,
            Some((e, p)) => match sd_proof_node_list(s, p, count - 1) {
                None => None,
                Some((es, p2)) => Some((seq![e] + es, p2)),
            },
        }
    }
}

pub open spec fn proof_node_list_bounded(items: Seq<ProofNodeV>) -> bool {
    forall|i: int| 0 <= i < items.len() ==> proof_node_bounded(#[trigger] items[i])
}

/// Decoding an encoded list of records yields the list back.
pub proof fn lemma_sd_proof_node_list(s: Seq<u8>, pos: int, items: Seq<ProofNodeV>)
    requires
        0 <= pos,
        proof_node_list_bounded(items),
        pos + se_proof_node_list(items).len() <= s.len(),
        s.subrange(pos, pos + se_proof_node_list(items).len()) == se_proof_node_list(items),
    ensures
        sd_proof_node_list(s, pos, items.len() as int) == Some(
            (items, pos + se_proof_node_list(items).len()),
        ),
    decreases items.len(),
{
    if items.len() == 0 {
    } else {
        let a = se_proof_node(items[0]);
        let rest = se_proof_node_list(items.skip(1));
        assert(se_proof_node_list(items) == a + rest);
        lemma_split(s, pos, a, rest);
        lemma_sd_proof_node(s, pos, items[0]);
        assert(proof_node_list_bounded(items.skip(1))) by {
            assert(forall|i: int|
                0 <= i < items.skip(1).len() ==> #[trigger] items.skip(1)[i] == items[i + 1]);
        }
        lemma_sd_proof_node_list(s, pos + a.len(), items.skip(1));
        assert(seq![items[0]] + items.skip(1) =~= items);
    }
}

/// Appends a list of records.
pub fn enc_proof_node_list(buf: &mut Vec<u8>, items: &Vec<ProofNode>)
    ensures
        final(buf)@ == old(buf)@ + se_proof_node_list(items@.map_values(|e: ProofNode| e@)),
{
    let ghost iv = items@.map_values(|e: ProofNode| e@);
    let mut i: usize = items.len();
    proof {
        assert(iv.skip(items@.len() as int) =~= Seq::<ProofNodeV>::empty());
    }
    let mut tail: Vec<u8> = Vec::new();
    while i > 0
        invariant
            i <= items@.len(),
            iv == items@.map_values(|e: ProofNode| e@),
            tail@ == se_proof_node_list(iv.skip(i as int)),
        decreases i,
    {
        i = i - 1;
        let mut piece: Vec<u8> = Vec::new();
        enc_proof_node(&mut piece, &items[i]);
        append_bytes(&mut piece, &tail);
        tail = piece;
        proof {
            assert(iv[i as int] == items@[i as int]@);
            assert(iv.skip(i as int)[0] == iv[i as int]);
            assert(iv.skip(i as int).skip(1) =~= iv.skip(i + 1));
            assert(tail@ =~= se_proof_node_list(iv.skip(i as int)));
        }
    }
    proof {
        assert(iv.skip(0) =~= iv);
    }
    append_bytes(buf, &tail);
}

/// Reads `count` records starting at `pos`.
pub fn dec_proof_node_list(data: &Vec<u8>, pos: usize, count: u64) -> (r: Option<(Vec<ProofNode>, usize)>)
    ensures
        match r {
            Some((es, p)) => sd_proof_node_list(data@, pos as int, count as int) == Some(
                (es@.map_values(|e: ProofNode| e@), p as int),
            ),
            None => sd_proof_node_list(data@, pos as int, count as int) is None,
        },
    decreases count,
{
    if count == 0 {
        let es: Vec<ProofNode> = Vec::new();
        proof {
            assert(es@.map_values(|e: ProofNode| e@) =~= Seq::<ProofNodeV>::empty());
        }
        Some((es, pos))
    } else {
        match dec_proof_node(data, pos) {
            None => None,
            Some((e, p)) => match dec_proof_node_list(data, p, count - 1) {
                None => None,
                Some((mut es, p2)) => {
                    let ghost es0 = es@;
                    es.insert(0, e);
                    proof {
                        assert(es@.map_values(|x: ProofNode| x@) =~= seq![e@] + es0.map_values(
                            |x: ProofNode| x@,
                        ));
                    }
                    Some((es, p2))
                },
            },
        }
    }
}

/// All length prefixes of this record fit in 64 bits.
pub open spec fn link_bounded(e: BeaconLinkV) -> bool {
    e.root.len() <= u64::MAX && e.witness.len() <= u64::MAX
}

/// One Beacon link.
pub open spec fn se_link(e: BeaconLinkV) -> Seq<u8> {
    se_var(e.root) + se_var(e.witness)
}

/// Reads one record at `pos`.
pub open spec fn sd_link_at(s: Seq<u8>, pos: int) -> Option<(BeaconLinkV, int)> {
    match sd_var(s, pos) {
        None => None,
        Some((root, p1)) =>
        match sd_var(s, p1) {
            None => None,
            Some((witness, p2)) =>
            Some((BeaconLinkV { root, witness }, p2)),
        },
    }
}

/// Decoding this record wherever its encoding stands yields it back.
pub proof fn lemma_sd_link(s: Seq<u8>, pos: int, e: BeaconLinkV)
    requires
        0 <= pos,
        link_bounded(e),
        pos + se_link(e).len() <= s.len(),
        s.subrange(pos, pos + se_link(e).len()) == se_link(e),
    ensures
        sd_link_at(s, pos) == Some((e, pos + se_link(e).len())),
{
    lemma_auto_spec_u64_to_from_le_bytes();
    let a1 = se_var(e.root);
    let a2 = se_var(e.witness);
    let r1 = a2;
    assert(se_link(e) =~= a1 + r1);
    assert(s.subrange(pos, pos + a1.len() + r1.len()) == a1 + r1);
    lemma_split(s, pos, a1, r1);
    lemma_sd_var(s, pos, e.root);
    let q1 = pos + a1.len();
    lemma_sd_var(s, q1, e.witness);
}

/// Appends one record.
pub fn enc_link(buf: &mut Vec<u8>, e: &BeaconLink)
    ensures
        final(buf)@ == old(buf)@ + se_link(e@),
{
    enc_var(buf, &e.root);
    enc_var(buf, &e.witness);
    proof {
        assert(buf@ =~= old(buf)@ + se_link(e@));
    }
}

/// Reads one record at `pos`.
pub fn dec_link(data: &Vec<u8>, pos: usize) -> (r: Option<(BeaconLink, usize)>)
    ensures
        match r {
            Some((e, p)) => sd_link_at(data@, pos as int) == Some((e@, p as int)),
            None => sd_link_at(data@, pos as int) is None,
        },
{
    match dec_var(data, pos) {
        None => None,
        Some((root, p1)) =>
        match dec_var(data, p1) {
            None => None,
            Some((witness, p2)) =>
            Some((BeaconLink { root, witness }, p2)),
        },
    }
}

/// A list of records, in order.
pub open spec fn se_link_list(items: Seq<BeaconLinkV>) -> Seq<u8>
    decreases items.len(),
{
    if items.len() == 0 {
        Seq::empty()
    } else {
        se_link(items[0]) + se_link_list(items.skip(1))
    }
}

/// Reads `count` records starting at `pos`.
pub open spec fn sd_link_list(s: Seq<u8>, pos: int, count: int) -> Option<(Seq<BeaconLinkV>, int)>
    decreases count,
{
    if count <= 0 {
        Some((Seq::empty(), pos))
    } else {
        match sd_link_at(s, pos) {
            None => None,
            Some((e, p)) => match sd_link_list(s, p, count - 1) {
                None => None,
                Some((es, p2)) => Some((seq![e] + es, p2)),
            },
        }
    }
}

pub open spec fn link_list_bounded(items: Seq<BeaconLinkV>) -> bool {
    forall|i: int| 0 <= i < items.len() ==> link_bounded(#[trigger] items[i])
}

/// Decoding an encoded list of records yields the list back.
pub proof fn lemma_sd_link_list(s: Seq<u8>, pos: int, items: Seq<BeaconLinkV>)
    requires
        0 <= pos,
        link_list_bounded(items),
        pos + se_link_list(items).len() <= s.len(),
        s.subrange(pos, pos + se_link_list(items).len()) == se_link_list(items),
    ensures
        sd_link_list(s, pos, items.len() as int) == Some(
            (items, pos + se_link_list(items).len()),
        ),
    decreases items.len(),
{
    if items.len() == 0 {
    } else {
        let a = se_link(items[0]);
        let rest = se_link_list(items.skip(1));
        assert(se_link_list(items) == a + rest);
        lemma_split(s, pos, a, rest);
        lemma_sd_link(s, pos, items[0]);
        assert(link_list_bounded(items.skip(1))) by {
            assert(forall|i: int|
                0 <= i < items.skip(1).len() ==> #[trigger] items.skip(1)[i] == items[i + 1]);
        }
        lemma_sd_link_list(s, pos + a.len(), items.skip(1));
        assert(seq![items[0]] + items.skip(1) =~= items);
    }
}

/// Appends a list of records.
pub fn enc_link_list(buf: &mut Vec<u8>, items: &Vec<BeaconLink>)
    ensures
        final(buf)@ == old(buf)@ + se_link_list(items@.map_values(|e: BeaconLink| e@)),
{
    let ghost iv = items@.map_values(|e: BeaconLink| e@);
    let mut i: usize = items.len();
    proof {
        assert(iv.skip(items@.len() as int) =~= Seq::<BeaconLinkV>::empty());
    }
    let mut tail: Vec<u8> = Vec::new();
    while i > 0
        invariant
            i <= items@.len(),
            iv == items@.map_values(|e: BeaconLink| e@),
            tail@ == se_link_list(iv.skip(i as int)),
        decreases i,
    {
        i = i - 1;
        let mut piece: Vec<u8> = Vec::new();
        enc_link(&mut piece, &items[i]);
        append_bytes(&mut piece, &tail);
        tail = piece;
        proof {
            assert(iv[i as int] == items@[i as int]@);
            assert(iv.skip(i as int)[0] == iv[i as int]);
            assert(iv.skip(i as int).skip(1) =~= iv.skip(i + 1));
            assert(tail@ =~= se_link_list(iv.skip(i as int)));
        }
    }
    proof {
        assert(iv.skip(0) =~= iv);
    }
    append_bytes(buf, &tail);
}

/// Reads `count` records starting at `pos`.
pub fn dec_link_list(data: &Vec<u8>, pos: usize, count: u64) -> (r: Option<(Vec<BeaconLink>, usize)>)
    ensures
        match r {
            Some((es, p)) => sd_link_list(data@, pos as int, count as int) == Some(
                (es@.map_values(|e: BeaconLink| e@), p as int),
            ),
            None => sd_link_list(data@, pos as int, count as int) is None,
        },
    decreases count,
{
    if count == 0 {
        let es: Vec<BeaconLink> = Vec::new();
        proof {
            assert(es@.map_values(|e: BeaconLink| e@) =~= Seq::<BeaconLinkV>::empty());
        }
        Some((es, pos))
    } else {
        match dec_link(data, pos) {
            None => None,
            Some((e, p)) => match dec_link_list(data, p, count - 1) {
                None => None,
                Some((mut es, p2)) => {
                    let ghost es0 = es@;
                    es.insert(0, e);
                    proof {
                        assert(es@.map_values(|x: BeaconLink| x@) =~= seq![e@] + es0.map_values(
                            |x: BeaconLink| x@,
                        ));
                    }
                    Some((es, p2))
                },
            },
        }
    }
}

/// Canonical encoding of this structure.
pub open spec fn se_block_input(b: BlockInputV) -> Seq<u8> {
    se_u64(b.header.number) + se_u64(b.header.timestamp) + se_var(b.header.state_root) + se_u64(b.chain_id) + se_u64(b.spec_id) + se_var(b.config_digest) + se_u64(b.accounts.len() as u64) + se_account_list(b.accounts) + se_u64(b.storages.len() as u64) + se_storage_list(b.storages) + se_u64(b.codes.len() as u64) + se_code_list(b.codes) + se_u64(b.proofs.len() as u64) + se_proof_node_list(b.proofs)
}

/// Reads this structure at `pos`.
pub open spec fn sd_block_input(s: Seq<u8>, pos: int) -> Option<(BlockInputV, int)> {
    match sd_u64(s, pos) {
        None => None,
        Some((number, p0a)) =>
        match sd_u64(s, p0a) {
            None => None,
            Some((timestamp, p1a)) =>
            match sd_var(s, p1a) {
                None => None,
                Some((state_root, p2a)) =>
                match sd_u64(s, p2a) {
                    None => None,
                    Some((chain_id, p3a)) =>
                    match sd_u64(s, p3a) {
                        None => None,
                        Some((spec_id, p4a)) =>
                        match sd_var(s, p4a) {
                            None => None,
                            Some((config_digest, p5a)) =>
                            match sd_u64(s, p5a) {
                                None => None,
                                Some((n_accounts, p6a)) =>
                                match sd_account_list(s, p6a, n_accounts as int) {
                                    None => None,
                                    Some((accounts, p6b)) =>
                                    match sd_u64(s, p6b) {
                                        None => None,
                                        Some((n_storages, p7a)) =>
                                        match sd_storage_list(s, p7a, n_storages as int) {
                                            None => None,
                                            Some((storages, p7b)) =>
                                            match sd_u64(s, p7b) {
                                                None => None,
                                                Some((n_codes, p8a)) =>
                                                match sd_code_list(s, p8a, n_codes as int) {
                                                    None => None,
                                                    Some((codes, p8b)) =>
                                                    match sd_u64(s, p8b) {
                                                        None => None,
                                                        Some((n_proofs, p9a)) =>
                                                        match sd_proof_node_list(s, p9a, n_proofs as int) {
                                                            None => None,
                                                            Some((proofs, p9b)) =>
                                                            Some((BlockInputV { header: HeaderV { number, timestamp, state_root }, chain_id, spec_id, config_digest, accounts, storages, codes, proofs }, p9b)),
                                                        },
                                                    },
                                                },
                                            },
                                        },
                                    },
                                },
                            },
                        },
                    },
                },
            },
        },
    }
}

pub open spec fn block_input_bounded(b: BlockInputV) -> bool {
    b.header.state_root.len() <= u64::MAX && b.config_digest.len() <= u64::MAX && account_list_bounded(b.accounts) && b.accounts.len() <= u64::MAX && storage_list_bounded(b.storages) && b.storages.len() <= u64::MAX && code_list_bounded(b.codes) && b.codes.len() <= u64::MAX && proof_node_list_bounded(b.proofs) && b.proofs.len() <= u64::MAX
}

/// Decoding this structure wherever its encoding stands yields it back.
#[verifier::rlimit(100)]
#[verifier::spinoff_prover]
pub proof fn lemma_sd_block_input(s: Seq<u8>, pos: int, b: BlockInputV)
    requires
        0 <= pos,
        block_input_bounded(b),
        pos + se_block_input(b).len() <= s.len(),
        s.subrange(pos, pos + se_block_input(b).len()) == se_block_input(b),
    ensures
        sd_block_input(s, pos) == Some((b, pos + se_block_input(b).len())),
{
    lemma_auto_spec_u64_to_from_le_bytes();
    let a0 = se_u64(b.header.number);
    let a1 = se_u64(b.header.timestamp);
    let a2 = se_var(b.header.state_root);
    let a3 = se_u64(b.chain_id);
    let a4 = se_u64(b.spec_id);
    let a5 = se_var(b.config_digest);
    let a6 = se_u64(b.accounts.len() as u64) + se_account_list(b.accounts);
    let a7 = se_u64(b.storages.len() as u64) + se_storage_list(b.storages);
    let a8 = se_u64(b.codes.len() as u64) + se_code_list(b.codes);
    let a9 = se_u64(b.proofs.len() as u64) + se_proof_node_list(b.proofs);
    let r0 = a1 + a2 + a3 + a4 + a5 + a6 + a7 + a8 + a9;
    let r1 = a2 + a3 + a4 + a5 + a6 + a7 + a8 + a9;
    let r2 = a3 + a4 + a5 + a6 + a7 + a8 + a9;
    let r3 = a4 + a5 + a6 + a7 + a8 + a9;
    let r4 = a5 + a6 + a7 + a8 + a9;
    let r5 = a6 + a7 + a8 + a9;
    let r6 = a7 + a8 + a9;
    let r7 = a8 + a9;
    let r8 = a9;
    assert(se_block_input(b) =~= a0 + r0);
    assert(s.subrange(pos, pos + a0.len() + r0.len()) == a0 + r0);
    lemma_split(s, pos, a0, r0);
    lemma_sd_u64(s, pos, b.header.number);
    let q0 = pos + a0.len();
    assert(r0 =~= a1 + r1);
    lemma_split(s, q0, a1, r1);
    lemma_sd_u64(s, q0, b.header.timestamp);
    let q1 = q0 + a1.len();
    assert(r1 =~= a2 + r2);
    lemma_split(s, q1, a2, r2);
    lemma_sd_var(s, q1, b.header.state_root);
    let q2 = q1 + a2.len();
    assert(r2 =~= a3 + r3);
    lemma_split(s, q2, a3, r3);
    lemma_sd_u64(s, q2, b.chain_id);
    let q3 = q2 + a3.len();
    assert(r3 =~= a4 + r4);
    lemma_split(s, q3, a4, r4);
    lemma_sd_u64(s, q3, b.spec_id);
    let q4 = q3 + a4.len();
    assert(r4 =~= a5 + r5);
    lemma_split(s, q4, a5, r5);
    lemma_sd_var(s, q4, b.config_digest);
    let q5 = q4 + a5.len();
    assert(r5 =~= a6 + r6);
    lemma_split(s, q5, a6, r6);
    assert(a6 =~= se_u64(b.accounts.len() as u64) + se_account_list(b.accounts));
    lemma_split(s, q5, se_u64(b.accounts.len() as u64), se_account_list(b.accounts));
    lemma_sd_u64(s, q5, b.accounts.len() as u64);
    lemma_sd_account_list(s, q5 + 8, b.accounts);
    let q6 = q5 + a6.len();
    assert(r6 =~= a7 + r7);
    lemma_split(s, q6, a7, r7);
    assert(a7 =~= se_u64(b.storages.len() as u64) + se_storage_list(b.storages));
    lemma_split(s, q6, se_u64(b.storages.len() as u64), se_storage_list(b.storages));
    lemma_sd_u64(s, q6, b.storages.len() as u64);
    lemma_sd_storage_list(s, q6 + 8, b.storages);
    let q7 = q6 + a7.len();
    assert(r7 =~= a8 + r8);
    lemma_split(s, q7, a8, r8);
    assert(a8 =~= se_u64(b.codes.len() as u64) + se_code_list(b.codes));
    lemma_split(s, q7, se_u64(b.codes.len() as u64), se_code_list(b.codes));
    lemma_sd_u64(s, q7, b.codes.len() as u64);
    lemma_sd_code_list(s, q7 + 8, b.codes);
    let q8 = q7 + a8.len();
    assert(a9 =~= se_u64(b.proofs.len() as u64) + se_proof_node_list(b.proofs));
    lemma_split(s, q8, se_u64(b.proofs.len() as u64), se_proof_node_list(b.proofs));
    lemma_sd_u64(s, q8, b.proofs.len() as u64);
    lemma_sd_proof_node_list(s, q8 + 8, b.proofs);
}
/// Canonical encoding of this structure.
pub open spec fn se_compose_input(b: ComposeInputV) -> Seq<u8> {
    se_block_input(b.input) + se_u64(b.links.len() as u64) + se_link_list(b.links)
}

/// Reads this structure at `pos`.
pub open spec fn sd_compose_input(s: Seq<u8>, pos: int) -> Option<(ComposeInputV, int)> {
    match sd_block_input(s, pos) {
        None => None,
        Some((input, p0a)) =>
        match sd_u64(s, p0a) {
            None => None,
            Some((n_links, p1a)) =>
            match sd_link_list(s, p1a, n_links as int) {
                None => None,
                Some((links, p1b)) =>
                Some((ComposeInputV { input, links }, p1b)),
            },
        },
    }
}

pub open spec fn compose_input_bounded(b: ComposeInputV) -> bool {
    block_input_bounded(b.input) && link_list_bounded(b.links) && b.links.len() <= u64::MAX
}

/// Decoding this structure wherever its encoding stands yields it back.
pub proof fn lemma_sd_compose_input(s: Seq<u8>, pos: int, b: ComposeInputV)
    requires
        0 <= pos,
        compose_input_bounded(b),
        pos + se_compose_input(b).len() <= s.len(),
        s.subrange(pos, pos + se_compose_input(b).len()) == se_compose_input(b),
    ensures
        sd_compose_input(s, pos) == Some((b, pos + se_compose_input(b).len())),
{
    lemma_auto_spec_u64_to_from_le_bytes();
    let a0 = se_block_input(b.input);
    let a1 = se_u64(b.links.len() as u64) + se_link_list(b.links);
    let r0 = a1;
    assert(se_compose_input(b) =~= a0 + r0);
    assert(s.subrange(pos, pos + a0.len() + r0.len()) == a0 + r0);
    lemma_split(s, pos, a0, r0);
    lemma_sd_block_input(s, pos, b.input);
    let q0 = pos + a0.len();
    assert(a1 =~= se_u64(b.links.len() as u64) + se_link_list(b.links));
    lemma_split(s, q0, se_u64(b.links.len() as u64), se_link_list(b.links));
    lemma_sd_u64(s, q0, b.links.len() as u64);
    lemma_sd_link_list(s, q0 + 8, b.links);
}


/// Appends a whole state snapshot.
#[verifier::rlimit(100)]
#[verifier::spinoff_prover]
pub fn enc_block_input(buf: &mut Vec<u8>, i: &BlockInput)
    ensures
        final(buf)@ == old(buf)@ + se_block_input(i@),
{
    enc_u64(buf, i.header.number);
    enc_u64(buf, i.header.timestamp);
    enc_var(buf, &i.header.state_root);
    enc_u64(buf, i.chain_id);
    enc_u64(buf, i.spec_id);
    enc_var(buf, &i.config_digest);
    enc_u64(buf, i.accounts.len() as u64);
    enc_account_list(buf, &i.accounts);
    enc_u64(buf, i.storages.len() as u64);
    enc_storage_list(buf, &i.storages);
    enc_u64(buf, i.codes.len() as u64);
    enc_code_list(buf, &i.codes);
    enc_u64(buf, i.proofs.len() as u64);
    enc_proof_node_list(buf, &i.proofs);
    proof {
        assert(buf@ =~= old(buf)@ + se_block_input(i@));
    }
}

/// Reads a whole state snapshot at `pos`.
pub fn dec_block_input(data: &Vec<u8>, pos: usize) -> (r: Option<(BlockInput, usize)>)
    ensures
        match r {
            Some((i, p)) => sd_block_input(data@, pos as int) == Some((i@, p as int)),
            None => sd_block_input(data@, pos as int) is None,
        },
{
    match dec_u64(data, pos) {
        None => None,
        Some((number, p1)) => match dec_u64(data, p1) {
            None => None,
            Some((timestamp, p2)) => match dec_var(data, p2) {
                None => None,
                Some((state_root, p3)) => match dec_u64(data, p3) {
                    None => None,
                    Some((chain_id, p4)) => match dec_u64(data, p4) {
                        None => None,
                        Some((spec_id, p5)) => match dec_var(data, p5) {
                            None => None,
                            Some((config_digest, p6)) => match dec_u64(data, p6) {
                                None => None,
                                Some((na, p7)) => match dec_account_list(data, p7, na) {
                                    None => None,
                                    Some((accounts, p8)) => match dec_u64(data, p8) {
                                        None => None,
                                        Some((ns, p9)) => match dec_storage_list(data, p9, ns) {
                                            None => None,
                                            Some((storages, p10)) => match dec_u64(data, p10) {
                                                None => None,
                                                Some((nc, p11)) => match dec_code_list(
                                                    data,
                                                    p11,
                                                    nc,
                                                ) {
                                                    None => None,
                                                    Some((codes, p12)) => match dec_u64(
                                                        data,
                                                        p12,
                                                    ) {
                                                        None => None,
                                                        Some((np, p13)) => match dec_proof_node_list(
                                                            data,
                                                            p13,
                                                            np,
                                                        ) {
                                                            None => None,
                                                            Some((proofs, p14)) => Some(
                                                                (
                                                                    BlockInput {
                                                                        header: Header {
                                                                            number,
                                                                            timestamp,
                                                                            state_root,
                                                                        },
                                                                        chain_id,
                                                                        spec_id,
                                                                        config_digest,
                                                                        accounts,
                                                                        storages,
                                                                        codes,
                                                                        proofs,
                                                                    },
                                                                    p14,
                                                                ),
                                                            ),
                                                        },
                                                    },
                                                },
                                            },
                                        },
                                    },
                                },
                            },
                        },
                    },
                },
            },
        },
    }
}

/// Appends a snapshot plus its consensus links.
pub fn enc_compose_input(buf: &mut Vec<u8>, i: &ComposeInput)
    ensures
        final(buf)@ == old(buf)@ + se_compose_input(i@),
{
    enc_block_input(buf, &i.input);
    enc_u64(buf, i.links.len() as u64);
    enc_link_list(buf, &i.links);
    proof {
        assert(buf@ =~= old(buf)@ + se_compose_input(i@));
    }
}

/// Reads a snapshot plus its consensus links at `pos`.
pub fn dec_compose_input(data: &Vec<u8>, pos: usize) -> (r: Option<(ComposeInput, usize)>)
    ensures
        match r {
            Some((i, p)) => sd_compose_input(data@, pos as int) == Some((i@, p as int)),
            None => sd_compose_input(data@, pos as int) is None,
        },
{
    match dec_block_input(data, pos) {
        None => None,
        Some((input, p1)) => match dec_u64(data, p1) {
            None => None,
            Some((nl, p2)) => match dec_link_list(data, p2, nl) {
                None => None,
                Some((links, p3)) => Some((ComposeInput { input, links }, p3)),
            },
        },
    }
}

/// The numeric tag of each input variant in the encoding.
pub open spec fn input_tag(v: EvmInputV) -> u64 {
    match v {
        EvmInputV::Block(_) => 0,
        EvmInputV::Beacon(_) => 1,
        EvmInputV::History(_) => 2,
    }
}

/// Canonical encoding of a guest input.
pub open spec fn se_evm_input(v: EvmInputV) -> Seq<u8> {
    match v {
        EvmInputV::Block(b) => se_u64(0) + se_block_input(b),
        EvmInputV::Beacon(c) => se_u64(1) + se_compose_input(c),
        EvmInputV::History(c) => se_u64(2) + se_compose_input(c),
    }
}

/// Reads a guest input at `pos`.
pub open spec fn sd_evm_input(s: Seq<u8>, pos: int) -> Option<(EvmInputV, int)> {
    match sd_u64(s, pos) {
        None => None,
        Some((tag, p)) => if tag == 0 {
            match sd_block_input(s, p) {
                None => None,
                Some((b, p2)) => Some((EvmInputV::Block(b), p2)),
            }
        } else if tag == 1 {
            match sd_compose_input(s, p) {
                None => None,
                Some((c, p2)) => Some((EvmInputV::Beacon(c), p2)),
            }
        } else if tag == 2 {
            match sd_compose_input(s, p) {
                None => None,
                Some((c, p2)) => Some((EvmInputV::History(c), p2)),
            }
        } else {
            None
        },
    }
}

pub open spec fn evm_input_bounded(v: EvmInputV) -> bool {
    match v {
        EvmInputV::Block(b) => block_input_bounded(b),
        EvmInputV::Beacon(c) => compose_input_bounded(c),
        EvmInputV::History(c) => compose_input_bounded(c),
    }
}

/// Decoding a guest input wherever its encoding stands yields it back.
#[verifier::rlimit(100)]
#[verifier::spinoff_prover]
pub proof fn lemma_sd_evm_input(s: Seq<u8>, pos: int, v: EvmInputV)
    requires
        0 <= pos,
        evm_input_bounded(v),
        pos + se_evm_input(v).len() <= s.len(),
        s.subrange(pos, pos + se_evm_input(v).len()) == se_evm_input(v),
    ensures
        sd_evm_input(s, pos) == Some((v, pos + se_evm_input(v).len())),
{
    lemma_auto_spec_u64_to_from_le_bytes();
    match v {
        EvmInputV::Block(b) => {
            let a0 = se_u64(0);
            let r0 = se_block_input(b);
            assert(se_evm_input(v) =~= a0 + r0);
            assert(s.subrange(pos, pos + a0.len() + r0.len()) == a0 + r0);
            lemma_split(s, pos, a0, r0);
            lemma_sd_u64(s, pos, 0);
            lemma_sd_block_input(s, pos + 8, b);
        },
        EvmInputV::Beacon(c) => {
            let a0 = se_u64(1);
            let r0 = se_compose_input(c);
            assert(se_evm_input(v) =~= a0 + r0);
            assert(s.subrange(pos, pos + a0.len() + r0.len()) == a0 + r0);
            lemma_split(s, pos, a0, r0);
            lemma_sd_u64(s, pos, 1);
            lemma_sd_compose_input(s, pos + 8, c);
        },
        EvmInputV::History(c) => {
            let a0 = se_u64(2);
            let r0 = se_compose_input(c);
            assert(se_evm_input(v) =~= a0 + r0);
            assert(s.subrange(pos, pos + a0.len() + r0.len()) == a0 + r0);
            lemma_split(s, pos, a0, r0);
            lemma_sd_u64(s, pos, 2);
            lemma_sd_compose_input(s, pos + 8, c);
        },
    }
}

/// Decoding accepts exactly one byte string per logical input: the encoding,
/// with nothing after it.
pub open spec fn spec_decode_input(s: Seq<u8>) -> Option<EvmInputV> {
    match sd_evm_input(s, 0) {
        None => None,
        Some((v, p)) => if p == s.len() {
            Some(v)
        } else {
            None
        },
    }
}

/// Encodes a guest input into its canonical byte string.
pub fn encode_input(i: &EvmInput) -> (r: Vec<u8>)
    ensures
        r@ == se_evm_input(i@),
{
    let mut buf: Vec<u8> = Vec::new();
    match i {
        EvmInput::Block(b) => {
            enc_u64(&mut buf, 0);
            enc_block_input(&mut buf, b);
        },
        EvmInput::Beacon(c) => {
            enc_u64(&mut buf, 1);
            enc_compose_input(&mut buf, c);
        },
        EvmInput::History(c) => {
            enc_u64(&mut buf, 2);
            enc_compose_input(&mut buf, c);
        },
    }
    proof {
        assert(buf@ =~= se_evm_input(i@));
    }
    buf
}

/// Decodes a canonical byte string back into a guest input; trailing bytes
/// or any malformed field fail the decode.
pub fn decode_input(data: &Vec<u8>) -> (r: Option<EvmInput>)
    ensures
        match r {
            Some(v) => spec_decode_input(data@) == Some(v@),
            None => spec_decode_input(data@) is None,
        },
{
    match dec_u64(data, 0) {
        None => None,
        Some((tag, p)) => {
            if tag == 0 {
                match dec_block_input(data, p) {
                    None => None,
                    Some((b, p2)) => {
                        if p2 == data.len() {
                            Some(EvmInput::Block(b))
                        } else {
                            None
                        }
                    },
                }
            } else if tag == 1 {
                match dec_compose_input(data, p) {
                    None => None,
                    Some((c, p2)) => {
                        if p2 == data.len() {
                            Some(EvmInput::Beacon(c))
                        } else {
                            None
                        }
                    },
                }
            } else if tag == 2 {
                match dec_compose_input(data, p) {
                    None => None,
                    Some((c, p2)) => {
                        if p2 == data.len() {
                            Some(EvmInput::History(c))
                        } else {
                            None
                        }
                    },
                }
            } else {
                None
            }
        },
    }
}

/// Encoding then decoding a guest input yields the input back: the codec is
/// lossless and canonical.
pub proof fn lemma_input_roundtrip(v: EvmInputV)
    requires
        evm_input_bounded(v),
    ensures
        spec_decode_input(se_evm_input(v)) == Some(v),
{
    let s = se_evm_input(v);
    assert(s.subrange(0, s.len() as int) =~= s);
    lemma_sd_evm_input(s, 0, v);
}

/// The numeric tag of each commitment kind in the encoding.
pub open spec fn kind_tag(k: CommitmentKind) -> u64 {
    match k {
        CommitmentKind::Block => 0,
        CommitmentKind::Beacon => 1,
        CommitmentKind::History => 2,
    }
}

/// Canonical encoding of a journal.
pub open spec fn se_journal(j: JournalV) -> Seq<u8> {
    se_u64(kind_tag(j.commitment.kind)) + se_u64(j.commitment.id) + se_var(j.commitment.root)
        + se_var(j.commitment.config_id) + se_var(j.image_id) + se_u64(j.accumulator)
}

/// Reads a journal at `pos`.
pub open spec fn sd_journal(s: Seq<u8>, pos: int) -> Option<(JournalV, int)> {
    match sd_u64(s, pos) {
        None => None,
        Some((tag, p1)) => if tag == 0 || tag == 1 || tag == 2 {
            match sd_u64(s, p1) {
                None => None,
                Some((id, p2)) => match sd_var(s, p2) {
                    None => None,
                    Some((root, p3)) => match sd_var(s, p3) {
                        None => None,
                        Some((config_id, p4)) => match sd_var(s, p4) {
                            None => None,
                            Some((image_id, p5)) => match sd_u64(s, p5) {
                                None => None,
                                Some((accumulator, p6)) => Some(
                                    (
                                        JournalV {
                                            commitment: CommitmentV {
                                                kind: if tag == 0 {
                                                    CommitmentKind::Block
                                                } else if tag == 1 {
                                                    CommitmentKind::Beacon
                                                } else {
                                                    CommitmentKind::History
                                                },
                                                id,
                                                root,
                                                config_id,
                                            },
                                            image_id,
                                            accumulator,
                                        },
                                        p6,
                                    ),
                                ),
                            },
                        },
                    },
                },
            }
        } else {
            None
        },
    }
}

pub open spec fn journal_bounded(j: JournalV) -> bool {
    j.commitment.root.len() <= u64::MAX && j.commitment.config_id.len() <= u64::MAX
        && j.image_id.len() <= u64::MAX
}

/// Decoding a journal wherever its encoding stands yields it back.
pub proof fn lemma_sd_journal(s: Seq<u8>, pos: int, j: JournalV)
    requires
        0 <= pos,
        journal_bounded(j),
        pos + se_journal(j).len() <= s.len(),
        s.subrange(pos, pos + se_journal(j).len()) == se_journal(j),
    ensures
        sd_journal(s, pos) == Some((j, pos + se_journal(j).len())),
{
    lemma_auto_spec_u64_to_from_le_bytes();
    let a0 = se_u64(kind_tag(j.commitment.kind));
    let a1 = se_u64(j.commitment.id);
    let a2 = se_var(j.commitment.root);
    let a3 = se_var(j.commitment.config_id);
    let a4 = se_var(j.image_id);
    let a5 = se_u64(j.accumulator);
    let r0 = a1 + a2 + a3 + a4 + a5;
    let r1 = a2 + a3 + a4 + a5;
    let r2 = a3 + a4 + a5;
    let r3 = a4 + a5;
    assert(se_journal(j) =~= a0 + r0);
    assert(s.subrange(pos, pos + a0.len() + r0.len()) == a0 + r0);
    lemma_split(s, pos, a0, r0);
    lemma_sd_u64(s, pos, kind_tag(j.commitment.kind));
    let q0 = pos + a0.len();
    assert(r0 =~= a1 + r1);
    lemma_split(s, q0, a1, r1);
    lemma_sd_u64(s, q0, j.commitment.id);
    let q1 = q0 + a1.len();
    assert(r1 =~= a2 + r2);
    lemma_split(s, q1, a2, r2);
    lemma_sd_var(s, q1, j.commitment.root);
    let q2 = q1 + a2.len();
    assert(r2 =~= a3 + r3);
    lemma_split(s, q2, a3, r3);
    lemma_sd_var(s, q2, j.commitment.config_id);
    let q3 = q2 + a3.len();
    assert(r3 =~= a4 + a5);
    lemma_split(s, q3, a4, a5);
    lemma_sd_var(s, q3, j.image_id);
    let q4 = q3 + a4.len();
    lemma_sd_u64(s, q4, j.accumulator);
}

pub open spec fn spec_decode_journal(s: Seq<u8>) -> Option<JournalV> {
    match sd_journal(s, 0) {
        None => None,
        Some((j, p)) => if p == s.len() {
            Some(j)
        } else {
            None
        },
    }
}

/// Encodes a journal into its canonical byte string.
pub fn encode_journal(j: &Journal) -> (r: Vec<u8>)
    ensures
        r@ == se_journal(j@),
{
    let mut buf: Vec<u8> = Vec::new();
    let tag: u64 = match j.commitment.kind {
        CommitmentKind::Block => 0,
        CommitmentKind::Beacon => 1,
        CommitmentKind::History => 2,
    };
    enc_u64(&mut buf, tag);
    enc_u64(&mut buf, j.commitment.id);
    enc_var(&mut buf, &j.commitment.root);
    enc_var(&mut buf, &j.commitment.config_id);
    enc_var(&mut buf, &j.image_id);
    enc_u64(&mut buf, j.accumulator);
    proof {
        assert(buf@ =~= se_journal(j@));
    }
    buf
}

/// Decodes a canonical byte string back into a journal.
pub fn decode_journal(data: &Vec<u8>) -> (r: Option<Journal>)
    ensures
        match r {
            Some(j) => spec_decode_journal(data@) == Some(j@),
            None => spec_decode_journal(data@) is None,
        },
{
    match dec_u64(data, 0) {
        None => None,
        Some((tag, p1)) => {
            if tag > 2 {
                return None;
            }
            let kind = if tag == 0 {
                CommitmentKind::Block
            } else if tag == 1 {
                CommitmentKind::Beacon
            } else {
                CommitmentKind::History
            };
            match dec_u64(data, p1) {
                None => None,
                Some((id, p2)) => match dec_var(data, p2) {
                    None => None,
                    Some((root, p3)) => match dec_var(data, p3) {
                        None => None,
                        Some((config_id, p4)) => match dec_var(data, p4) {
                            None => None,
                            Some((image_id, p5)) => match dec_u64(data, p5) {
                                None => None,
                                Some((accumulator, p6)) => {
                                    if p6 == data.len() {
                                        Some(
                                            Journal {
                                                commitment: Commitment {
                                                    kind,
                                                    id,
                                                    root,
                                                    config_id,
                                                },
                                                image_id,
                                                accumulator,
                                            },
                                        )
                                    } else {
                                        None
                                    }
                                },
                            },
                        },
                    },
                },
            }
        },
    }
}

/// Encoding then decoding a journal yields the journal back.
pub proof fn lemma_journal_roundtrip(j: JournalV)
    requires
        journal_bounded(j),
    ensures
        spec_decode_journal(se_journal(j)) == Some(j),
{
    let s = se_journal(j);
    assert(s.subrange(0, s.len() as int) =~= s);
    lemma_sd_journal(s, 0, j);
}

} // verus!
