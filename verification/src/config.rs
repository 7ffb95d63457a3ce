//! Chain configuration: which fork rules are active at a given block, and
//! the digest under which a commitment pins the configuration used.

use vstd::prelude::*;
use crate::codec::se_u64;
use crate::commit::{keccak, keccak_of};
use crate::codec::enc_u64;

verus! {

/// When a fork activates: at a block height or at a timestamp.
#[derive(Clone, Copy, Debug, PartialEq, Eq, Structural)]
pub enum ForkCondition {
    Block(u64),
    Timestamp(u64),
}

impl ForkCondition {
    /// Whether the fork is active at the given block position.
    pub open spec fn spec_active(self, number: u64, timestamp: u64) -> bool {
        match self {
            ForkCondition::Block(b) => number >= b,
            ForkCondition::Timestamp(t) => timestamp >= t,
        }
    }

    pub fn active(&self, number: u64, timestamp: u64) -> (r: bool)
        ensures
            r == self.spec_active(number, timestamp),
    {
        match self {
            ForkCondition::Block(b) => number >= *b,
            ForkCondition::Timestamp(t) => timestamp >= *t,
        }
    }
}

/// The fork schedule of a chain: an identifier plus fork rules ordered from
/// oldest to newest, each with its activation condition.
pub struct ChainSpec {
    pub chain_id: u64,
    /// Pairs of (fork identifier, activation), oldest first; the newest
    /// active entry wins.
    pub forks: Vec<(u64, ForkCondition)>,
}

/// The newest fork (scanning from the end) whose condition holds, if any.
pub open spec fn spec_active_fork(forks: Seq<(u64, ForkCondition)>, number: u64, timestamp: u64) -> Option<u64>
    decreases forks.len(),
{
    if forks.len() == 0 {
        None
    } else if forks.last().1.spec_active(number, timestamp) {
        Some(forks.last().0)
    } else {
        spec_active_fork(forks.drop_last(), number, timestamp)
    }
}

/// Canonical bytes of a fork schedule, hashed into the config digest.
pub open spec fn spec_fork_bytes(forks: Seq<(u64, ForkCondition)>) -> Seq<u8>
    decreases forks.len(),
{
    if forks.len() == 0 {
        Seq::empty()
    } else {
        spec_fork_bytes(forks.drop_last()) + se_u64(forks.last().0) + se_u64(
            spec_cond_tag(forks.last().1),
        ) + se_u64(spec_cond_value(forks.last().1))
    }
}

pub open spec fn spec_cond_tag(c: ForkCondition) -> u64 {
    match c {
        ForkCondition::Block(_) => 0,
        ForkCondition::Timestamp(_) => 1,
    }
}

pub open spec fn spec_cond_value(c: ForkCondition) -> u64 {
    match c {
        ForkCondition::Block(b) => b,
        ForkCondition::Timestamp(t) => t,
    }
}

/// Canonical bytes of a whole configuration.
pub open spec fn spec_config_bytes(chain_id: u64, forks: Seq<(u64, ForkCondition)>) -> Seq<u8> {
    se_u64(chain_id) + se_u64(forks.len() as u64) + spec_fork_bytes(forks)
}

/// The digest binding a commitment to the configuration used.
pub open spec fn spec_config_digest(chain_id: u64, forks: Seq<(u64, ForkCondition)>) -> Seq<u8> {
    keccak_of(spec_config_bytes(chain_id, forks))
}

impl ChainSpec {
    /// The newest fork whose activation condition holds at the header's
    /// (number, timestamp), or `None` when the schedule has a gap there.
    pub fn active_fork(&self, number: u64, timestamp: u64) -> (r: Option<u64>)
        ensures
            r == spec_active_fork(self.forks@, number, timestamp),
    {
        let mut i: usize = self.forks.len();
        proof {
            assert(self.forks@.take(self.forks@.len() as int) =~= self.forks@);
        }
        while i > 0
            invariant
                i <= self.forks@.len(),
                spec_active_fork(self.forks@, number, timestamp) == spec_active_fork(
                    self.forks@.take(i as int),
                    number,
                    timestamp,
                ),
            decreases i,
        {
            i = i - 1;
            let (id, cond) = self.forks[i];
            proof {
                assert(self.forks@.take(i + 1).last() == self.forks@[i as int]);
                assert(self.forks@.take(i + 1).drop_last() =~= self.forks@.take(i as int));
            }
            if cond.active(number, timestamp) {
                return Some(id);
            }
        }
        proof {
            assert(self.forks@.take(0) =~= Seq::<(u64, ForkCondition)>::empty());
        }
        None
    }

    /// Computes the configuration digest: the Keccak-256 hash of the
    /// canonical configuration bytes.
    pub fn digest(&self) -> (r: Vec<u8>)
        ensures
            r@ == spec_config_digest(self.chain_id, self.forks@),
            r@.len() == 32,
    {
        let mut buf: Vec<u8> = Vec::new();
        enc_u64(&mut buf, self.chain_id);
        enc_u64(&mut buf, self.forks.len() as u64);
        let ghost prefix = buf@;
        let mut i: usize = 0;
        proof {
            assert(self.forks@.take(0) =~= Seq::<(u64, ForkCondition)>::empty());
            assert(buf@ =~= prefix + spec_fork_bytes(self.forks@.take(0)));
        }
        while i < self.forks.len()
            invariant
                i <= self.forks@.len(),
                prefix == se_u64(self.chain_id) + se_u64(self.forks@.len() as u64),
                buf@ == prefix + spec_fork_bytes(self.forks@.take(i as int)),
            decreases self.forks@.len() - i,
        {
            let (id, cond) = self.forks[i];
            enc_u64(&mut buf, id);
            let tag: u64 = match cond {
                ForkCondition::Block(_) => 0,
                ForkCondition::Timestamp(_) => 1,
            };
            enc_u64(&mut buf, tag);
            let value: u64 = match cond {
                ForkCondition::Block(b) => b,
                ForkCondition::Timestamp(t) => t,
            };
            enc_u64(&mut buf, value);
            proof {
                assert(self.forks@.take(i + 1).last() == self.forks@[i as int]);
                assert(self.forks@.take(i + 1).drop_last() =~= self.forks@.take(i as int));
                assert(buf@ =~= prefix + spec_fork_bytes(self.forks@.take(i + 1)));
            }
            i += 1;
        }
        proof {
            assert(self.forks@.take(self.forks@.len() as int) =~= self.forks@);
            assert(buf@ =~= spec_config_bytes(self.chain_id, self.forks@));
        }
        keccak(&buf)
    }
}

} // verus!
