//! The journal a guest run emits, and the composition protocol that lets a
//! later run of the same program consume it and continue an accumulation.

use vstd::prelude::*;
use crate::commit::{Commitment, CommitmentV};
use crate::is_b256;

verus! {

/// The public output of a guest run: the commitment the state was checked
/// against, the identity of the program that produced it, and the
/// application-level accumulator value.
pub struct Journal {
    pub commitment: Commitment,
    /// Fixed-width identity of the producing program, 32 bytes.
    pub image_id: Vec<u8>,
    /// Application-defined accumulator carried across composed runs.
    pub accumulator: u64,
}

pub ghost struct JournalV {
    pub commitment: CommitmentV,
    pub image_id: Seq<u8>,
    pub accumulator: u64,
}

impl View for Journal {
    type V = JournalV;

    open spec fn view(&self) -> JournalV {
        JournalV {
            commitment: self.commitment@,
            image_id: self.image_id@,
            accumulator: self.accumulator,
        }
    }
}

impl Journal {
    pub open spec fn wf(self) -> bool {
        self.commitment.wf() && is_b256(self.image_id@)
    }
}

/// Why a prior journal was rejected as an assumption. All of these are
/// fatal: the run aborts and emits no journal.
#[derive(Clone, Copy, Debug, PartialEq, Eq, Structural)]
pub enum ComposeError {
    /// The journal was produced by a different program: one chain must not
    /// impersonate another's.
    IdentityMismatch,
    /// The journal's commitment names a different chain configuration.
    ConfigMismatch,
    /// The journal's commitment does not link to the new input within the
    /// configured drift policy.
    StaleAssumption,
}

pub open spec fn spec_opt_journal(a: Option<&Journal>) -> Option<JournalV> {
    match a {
        Some(j) => Some(j@),
        None => None,
    }
}

/// The entry transition of a guest run. With no assumption the accumulator
/// starts from zero; with one, the journal is accepted only if it names the
/// running program's own identity, the same configuration, and a commitment
/// within `max_drift` blocks behind the current one, and then its
/// accumulator is the starting point.
pub open spec fn spec_begin_run(
    self_image: Seq<u8>,
    assumption: Option<JournalV>,
    current: CommitmentV,
    max_drift: u64,
) -> Result<u64, ComposeError> {
    match assumption {
        None => Ok(0),
        Some(j) => if j.image_id != self_image {
            Err(ComposeError::IdentityMismatch)
        } else if j.commitment.config_id != current.config_id {
            Err(ComposeError::ConfigMismatch)
        } else if !(j.commitment.id <= current.id && current.id - j.commitment.id
            <= max_drift) {
            Err(ComposeError::StaleAssumption)
        } else {
            Ok(j.accumulator)
        },
    }
}

/// Decides how a run starts: from zero, or continuing a verified prior
/// journal's accumulator. The cryptographic check that the journal bytes
/// came from a proven run is the proving system's; this is the
/// identity-and-continuity gate on the decoded journal, and a mismatch is
/// fatal.
pub fn begin_run(
    self_image: &Vec<u8>,
    assumption: Option<&Journal>,
    current: &Commitment,
    max_drift: u64,
) -> (r: Result<u64, ComposeError>)
    ensures
        r == spec_begin_run(self_image@, spec_opt_journal(assumption), current@, max_drift),
{
    match assumption {
        None => Ok(0),
        Some(j) => {
            if !crate::bytes_eq(&j.image_id, self_image) {
                Err(ComposeError::IdentityMismatch)
            } else if !crate::bytes_eq(&j.commitment.config_id, &current.config_id) {
                Err(ComposeError::ConfigMismatch)
            } else if !(j.commitment.id <= current.id && current.id - j.commitment.id
                <= max_drift) {
                Err(ComposeError::StaleAssumption)
            } else {
                Ok(j.accumulator)
            }
        },
    }
}

/// The journal a run terminates with.
pub open spec fn spec_finish_run(commitment: CommitmentV, image: Seq<u8>, acc: u64) -> JournalV {
    JournalV { commitment, image_id: image, accumulator: acc }
}

/// Emits the journal of a completed run: the new commitment, the running
/// program's own identity, and the (possibly updated) accumulator, ready
/// for a further round of composition.
pub fn finish_run(commitment: Commitment, image_id: Vec<u8>, accumulator: u64) -> (r: Journal)
    ensures
        r@ == spec_finish_run(commitment@, image_id@, accumulator),
{
    Journal { commitment, image_id, accumulator }
}

/// A journal produced by one program, supplied as an assumption to a run of
/// a different program, is rejected with an identity mismatch, whatever the
/// rest of its content.
pub proof fn lemma_compose_rejects_foreign(
    self_image: Seq<u8>,
    j: JournalV,
    current: CommitmentV,
    max_drift: u64,
)
    requires
        j.image_id != self_image,
    ensures
        spec_begin_run(self_image, Some(j), current, max_drift) == Err::<u64, ComposeError>(
            ComposeError::IdentityMismatch,
        ),
{
}

/// A journal produced by the same program, over the same configuration and
/// within the drift policy, is accepted: its accumulator is the starting
/// point of the new run, and whatever value the run combines it into is
/// exactly the accumulator of the emitted journal.
pub proof fn lemma_compose_accepts_own(
    self_image: Seq<u8>,
    j: JournalV,
    current: CommitmentV,
    max_drift: u64,
    combined: u64,
)
    requires
        j.image_id == self_image,
        j.commitment.config_id == current.config_id,
        j.commitment.id <= current.id,
        current.id - j.commitment.id <= max_drift,
    ensures
        spec_begin_run(self_image, Some(j), current, max_drift) == Ok::<u64, ComposeError>(
            j.accumulator,
        ),
        spec_finish_run(current, self_image, combined).accumulator == combined,
        spec_finish_run(current, self_image, combined).image_id == self_image,
        spec_finish_run(current, self_image, combined).commitment == current,
{
}

/// A run that starts with no assumption starts from the zero accumulator.
pub proof fn lemma_compose_fresh_default(self_image: Seq<u8>, current: CommitmentV, max_drift: u64)
    ensures
        spec_begin_run(self_image, None, current, max_drift) == Ok::<u64, ComposeError>(0),
{
}

} // verus!
