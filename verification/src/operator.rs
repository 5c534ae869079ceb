//! Operator overrides: extraordinary, constrained, and permanently visible.

use crate::belief::state::{state_name, BeliefState};
use crate::encode::{digest_with_domain, domain_digest, framed_str, le_u64, write_str, write_u64};
use crate::epoch::Epoch;
use crate::id::{OperatorId, OverrideId, SubjectId};
use vstd::prelude::*;

verus! {

/// A visible operator intervention on one subject's merged belief. The
/// justification is required, and applying one produces an `Overridden`
/// resolution plus a residue scar: an override can never masquerade as
/// organic convergence.
#[derive(Debug, Clone, PartialEq, Eq)]
pub struct OperatorOverride {
    pub operator: OperatorId,
    pub subject: SubjectId,
    pub forced: BeliefState,
    pub reason: String,
    pub epoch: Epoch,
}

pub struct OperatorOverrideV {
    pub operator: Seq<char>,
    pub subject: Seq<char>,
    pub forced: BeliefState,
    pub reason: Seq<char>,
    pub epoch: Epoch,
}

impl View for OperatorOverride {
    type V = OperatorOverrideV;

    open spec fn view(&self) -> OperatorOverrideV {
        OperatorOverrideV {
            operator: self.operator@,
            subject: self.subject@,
            forced: self.forced,
            reason: self.reason@,
            epoch: self.epoch,
        }
    }
}

pub open spec fn override_bytes(o: OperatorOverrideV) -> Seq<u8> {
    framed_str(o.operator) + framed_str(o.subject) + framed_str(state_name(o.forced)) + framed_str(
        o.reason,
    ) + le_u64(o.epoch.0)
}

pub open spec fn override_id(o: OperatorOverrideV) -> Seq<u8> {
    domain_digest("resonant/override/v1"@, override_bytes(o))
}

/// An override's id.
pub open spec fn spec_override_id(o: OperatorOverrideV) -> OverrideId {
    OverrideId::with_bytes(override_id(o))
}

impl OperatorOverride {
    pub fn id(&self) -> (r: OverrideId)
        ensures
            r.spec_bytes() == override_id(self@),
            r == spec_override_id(self@),
    {
        let mut out: Vec<u8> = Vec::new();
        write_str(&mut out, self.operator.as_str());
        write_str(&mut out, self.subject.as_str());
        write_str(&mut out, self.forced.as_str());
        write_str(&mut out, self.reason.as_str());
        write_u64(&mut out, self.epoch.0);
        assert(out@ =~= override_bytes(self@));
        let r = OverrideId::from_bytes(digest_with_domain("resonant/override/v1", out.as_slice()));
        proof {
            r.lemma_with_bytes();
        }
        r
    }

    pub fn duplicate(&self) -> (r: Self)
        ensures
            r@ == self@,
    {
        OperatorOverride {
            operator: self.operator.duplicate(),
            subject: self.subject.duplicate(),
            forced: self.forced,
            reason: self.reason.clone(),
            epoch: self.epoch,
        }
    }
}

} // verus!
