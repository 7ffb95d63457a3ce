//! Commitments: the fixed-size values binding a journal to a checkable root,
//! and the proofs linking an execution block hash to a Beacon-chain root,
//! possibly through a chain of intermediate roots.

use vstd::prelude::*;
use crate::is_b256;
use crate::state::{Header, HeaderV};
use vstd::bytes::spec_u64_to_le_bytes;
use vstd::bytes::u64_to_le_bytes;

verus! {

/// Keccak-256 digest of a byte string; 32 bytes, a function of the input
/// bytes alone.
pub uninterp spec fn keccak_of(data: Seq<u8>) -> Seq<u8>;

/// Relies on `alloy_primitives::keccak256`: computes the Keccak-256 digest
/// of the input bytes, always 32 bytes, depending on the input alone.
#[verifier::external_body]
pub(crate) fn keccak(data: &Vec<u8>) -> (r: Vec<u8>)
    ensures
        r@ == keccak_of(data@),
        r@.len() == 32,
{
    alloy_primitives::keccak256(data.as_slice()).as_slice().to_vec()
}

/// Which trust root a commitment names.
#[derive(Clone, Copy, Debug, PartialEq, Eq, Structural)]
pub enum CommitmentKind {
    /// The hash of a single execution block.
    Block,
    /// A Beacon-chain root proved to contain the execution block hash.
    Beacon,
    /// A Beacon-chain root reached through a verified chain of intermediate
    /// roots; for state older than a single proof spans.
    History,
}

/// The fixed-size value a journal commits to: the attested root, an
/// identifier locating it (block number), and the digest of the chain
/// configuration the execution ran under.
#[derive(Clone, Debug)]
pub struct Commitment {
    pub kind: CommitmentKind,
    /// Block number of the execution block the state was read under.
    pub id: u64,
    /// The attested root: a block hash or a Beacon-chain root, 32 bytes.
    pub root: Vec<u8>,
    /// Digest of the chain configuration, 32 bytes.
    pub config_id: Vec<u8>,
}

pub ghost struct CommitmentV {
    pub kind: CommitmentKind,
    pub id: u64,
    pub root: Seq<u8>,
    pub config_id: Seq<u8>,
}

impl View for Commitment {
    type V = CommitmentV;

    open spec fn view(&self) -> CommitmentV {
        CommitmentV {
            kind: self.kind,
            id: self.id,
            root: self.root@,
            config_id: self.config_id@,
        }
    }
}

impl Commitment {
    pub open spec fn wf(self) -> bool {
        is_b256(self.root@) && is_b256(self.config_id@)
    }

    /// Field-wise comparison of two commitments.
    pub fn matches(&self, other: &Commitment) -> (r: bool)
        ensures
            r == (self@ == other@),
    {
        let k = match (self.kind, other.kind) {
            (CommitmentKind::Block, CommitmentKind::Block) => true,
            (CommitmentKind::Beacon, CommitmentKind::Beacon) => true,
            (CommitmentKind::History, CommitmentKind::History) => true,
            _ => false,
        };
        let r = k && self.id == other.id && crate::bytes_eq(&self.root, &other.root)
            && crate::bytes_eq(&self.config_id, &other.config_id);
        r
    }
}

/// One light-client style link: `witness` proves that some child digest is
/// bound under `root`.
#[derive(Clone, Debug)]
pub struct BeaconLink {
    /// The root this link attests, 32 bytes.
    pub root: Vec<u8>,
    /// The proof material binding the child digest to `root`.
    pub witness: Vec<u8>,
}

pub ghost struct BeaconLinkV {
    pub root: Seq<u8>,
    pub witness: Seq<u8>,
}

impl View for BeaconLink {
    type V = BeaconLinkV;

    open spec fn view(&self) -> BeaconLinkV {
        BeaconLinkV { root: self.root@, witness: self.witness@ }
    }
}

impl BeaconLink {
    pub open spec fn wf(self) -> bool {
        is_b256(self.root@)
    }
}

/// A link holds exactly when hashing the child digest together with the
/// witness reproduces the link's root.
pub open spec fn spec_link_valid(child: Seq<u8>, link: BeaconLinkV) -> bool {
    keccak_of(child + link.witness) == link.root
}

/// A chain of links holds when every link holds, each against the root of
/// the link before it, starting from `child`.
pub open spec fn spec_chain_valid(child: Seq<u8>, links: Seq<BeaconLinkV>) -> bool
    decreases links.len(),
{
    if links.len() == 0 {
        true
    } else {
        spec_link_valid(child, links[0]) && spec_chain_valid(links[0].root, links.skip(1))
    }
}

/// The root the chain ends in: the last link's root, or `child` itself for
/// an empty chain.
pub open spec fn spec_chain_root(child: Seq<u8>, links: Seq<BeaconLinkV>) -> Seq<u8> {
    if links.len() == 0 {
        child
    } else {
        links.last().root
    }
}

/// Checks one link against a child digest.
pub fn verify_link(child: &Vec<u8>, link: &BeaconLink) -> (r: bool)
    ensures
        r == spec_link_valid(child@, link@),
{
    let mut buf: Vec<u8> = Vec::new();
    let mut i: usize = 0;
    while i < child.len()
        invariant
            i <= child@.len(),
            buf@ == child@.take(i as int),
        decreases child@.len() - i,
    {
        buf.push(child[i]);
        proof {
            assert(buf@ =~= child@.take(i + 1));
        }
        i += 1;
    }
    proof {
        assert(buf@ =~= child@);
    }
    let mut j: usize = 0;
    while j < link.witness.len()
        invariant
            j <= link.witness@.len(),
            buf@ == child@ + link.witness@.take(j as int),
        decreases link.witness@.len() - j,
    {
        buf.push(link.witness[j]);
        proof {
            assert(buf@ =~= child@ + link.witness@.take(j + 1));
        }
        j += 1;
    }
    proof {
        assert(buf@ =~= child@ + link.witness@);
    }
    let h = keccak(&buf);
    crate::bytes_eq(&h, &link.root)
}

/// Verifies a whole chain of links starting from `child`; returns the final
/// root on success. A single failing link anywhere fails the whole chain;
/// no link is ever skipped.
pub fn verify_chain(child: &Vec<u8>, links: &Vec<BeaconLink>) -> (r: Option<Vec<u8>>)
    ensures
        match r {
            Some(root) => spec_chain_valid(child@, links@.map_values(|l: BeaconLink| l@))
                && root@ == spec_chain_root(child@, links@.map_values(|l: BeaconLink| l@)),
            None => !spec_chain_valid(child@, links@.map_values(|l: BeaconLink| l@)),
        },
{
    let ghost lv = links@.map_values(|l: BeaconLink| l@);
    let mut cur: Vec<u8> = child.clone();
    let mut i: usize = 0;
    proof {
        assert(cur@ == child@);
        assert(lv.skip(0) =~= lv);
        assert(lv.take(0) =~= Seq::<BeaconLinkV>::empty());
    }
    while i < links.len()
        invariant
            i <= links@.len(),
            lv == links@.map_values(|l: BeaconLink| l@),
            cur@ == spec_chain_root(child@, lv.take(i as int)),
            spec_chain_valid(child@, lv.take(i as int)),
            spec_chain_valid(cur@, lv.skip(i as int)) ==> spec_chain_valid(child@, lv),
            spec_chain_valid(child@, lv) ==> spec_chain_valid(cur@, lv.skip(i as int)),
        decreases links@.len() - i,
    {
        let link = &links[i];
        proof {
            assert(lv.skip(i as int)[0] == lv[i as int]);
        }
        if !verify_link(&cur, link) {
            proof {
                assert(!spec_chain_valid(cur@, lv.skip(i as int)));
            }
            return None;
        }
        proof {
            assert(lv.skip(i as int).skip(1) =~= lv.skip(i + 1));
            assert(lv.take(i + 1).last() == lv[i as int]);
            lemma_chain_append(child@, lv, i as int);
        }
        let mut next: Vec<u8> = Vec::new();
        let mut j: usize = 0;
        while j < link.root.len()
            invariant
                j <= link.root@.len(),
                next@ == link.root@.take(j as int),
            decreases link.root@.len() - j,
        {
            next.push(link.root[j]);
            proof {
                assert(next@ =~= link.root@.take(j + 1));
            }
            j += 1;
        }
        proof {
            assert(next@ =~= link.root@);
        }
        cur = next;
        i += 1;
    }
    proof {
        assert(lv.take(links@.len() as int) =~= lv);
        assert(lv.skip(links@.len() as int) =~= Seq::<BeaconLinkV>::empty());
    }
    Some(cur)
}

/// Extending a valid chain prefix by one valid link keeps it valid and moves
/// its root to that link's root.
proof fn lemma_chain_append(child: Seq<u8>, links: Seq<BeaconLinkV>, i: int)
    requires
        0 <= i < links.len(),
        spec_chain_valid(child, links.take(i)),
        spec_link_valid(spec_chain_root(child, links.take(i)), links[i]),
    ensures
        spec_chain_valid(child, links.take(i + 1)),
        spec_chain_root(child, links.take(i + 1)) == links[i].root,
    decreases i,
{
    if i == 0 {
        assert(links.take(1)[0] == links[0]);
        assert(links.take(1).skip(1) =~= Seq::<BeaconLinkV>::empty());
        assert(links.take(0) =~= Seq::<BeaconLinkV>::empty());
        assert(spec_link_valid(child, links[0]));
        assert(spec_chain_valid(links[0].root, Seq::<BeaconLinkV>::empty()));
        assert(spec_chain_valid(child, links.take(1)));
        assert(links.take(1).last() == links[0]);
        assert(spec_chain_root(child, links.take(1)) == links[0].root);
    } else {
        let rest = links.skip(1);
        // unfold the premise one step
        assert(links.take(i)[0] == links[0]);
        assert(links.take(i).skip(1) =~= rest.take(i - 1));
        assert(spec_link_valid(child, links[0]));
        assert(spec_chain_valid(links[0].root, rest.take(i - 1)));
        // the prefix roots agree between the two framings
        assert(links.take(i).last() == links[i - 1]);
        assert(spec_chain_root(child, links.take(i)) == links[i - 1].root);
        if i - 1 == 0 {
            assert(spec_chain_root(links[0].root, rest.take(0)) == links[0].root) by {
                assert(rest.take(0) =~= Seq::<BeaconLinkV>::empty());
            }
        } else {
            assert(rest.take(i - 1).last() == rest[i - 2]);
            assert(rest[i - 2] == links[i - 1]);
            assert(spec_chain_root(links[0].root, rest.take(i - 1)) == links[i - 1].root);
        }
        assert(rest[i - 1] == links[i]);
        lemma_chain_append(links[0].root, rest, i - 1);
        // fold the conclusion back up
        assert(links.take(i + 1)[0] == links[0]);
        assert(links.take(i + 1).skip(1) =~= rest.take(i));
        assert(spec_chain_valid(child, links.take(i + 1)));
        assert(links.take(i + 1).last() == links[i]);
    }
}

/// What a block commits to: the Keccak-256 hash of its canonically encoded
/// header fields.
pub open spec fn spec_header_bytes(h: HeaderV) -> Seq<u8> {
    spec_u64_to_le_bytes(h.number) + spec_u64_to_le_bytes(h.timestamp) + h.state_root
}

pub open spec fn spec_block_hash(h: HeaderV) -> Seq<u8> {
    keccak_of(spec_header_bytes(h))
}

/// Computes the canonical hash of a header.
pub fn block_hash(h: &Header) -> (r: Vec<u8>)
    ensures
        r@ == spec_block_hash(h@),
        r@.len() == 32,
{
    let mut buf = u64_to_le_bytes(h.number);
    let mut ts = u64_to_le_bytes(h.timestamp);
    buf.append(&mut ts);
    let mut i: usize = 0;
    while i < h.state_root.len()
        invariant
            i <= h.state_root@.len(),
            buf@ == spec_u64_to_le_bytes(h@.number) + spec_u64_to_le_bytes(h@.timestamp)
                + h.state_root@.take(i as int),
        decreases h.state_root@.len() - i,
    {
        buf.push(h.state_root[i]);
        proof {
            assert(buf@ =~= spec_u64_to_le_bytes(h@.number) + spec_u64_to_le_bytes(h@.timestamp)
                + h.state_root@.take(i + 1));
        }
        i += 1;
    }
    proof {
        assert(buf@ =~= spec_header_bytes(h@));
    }
    keccak(&buf)
}

} // verus!
