//! Policy-shaped knobs, with pinned reference defaults.
//!
//! Strengthening is slow (hysteresis), weakening is immediate. The merge
//! score tables and margins live here, in policy, never in the comparator.

use crate::evidence::{Diversity, Quality};
use crate::scope::ScopeAuthority;
use vstd::prelude::*;

verus! {

/// The full policy surface of the kernel.
#[derive(Debug, Clone, Copy, PartialEq, Eq, Structural)]
pub struct PolicyBundle {
    /// Rounds a cell must hold its state before a strengthening
    /// transition (`CorroborationReached`) is allowed.
    pub strengthen_hysteresis_rounds: u64,
    /// Rounds in quarantine before release is allowed.
    pub quarantine_release_rounds: u64,
    /// Evidence older than this many epochs behind the merging scope's
    /// current epoch is classified `Stale`.
    pub stale_after_epochs: u64,
    pub merge: MergePolicy,
}

impl PolicyBundle {
    /// The pinned reference defaults.
    pub fn reference() -> (r: PolicyBundle)
        ensures
            r.strengthen_hysteresis_rounds == 2,
            r.quarantine_release_rounds == 2,
            r.stale_after_epochs == 2,
            r.merge == lab_compat_policy(),
    {
        PolicyBundle {
            strengthen_hysteresis_rounds: 2,
            quarantine_release_rounds: 2,
            stale_after_epochs: 2,
            merge: MergePolicy::lab_compat(),
        }
    }
}

impl Default for PolicyBundle {
    fn default() -> (r: PolicyBundle)
        ensures
            r.strengthen_hysteresis_rounds == 2,
            r.quarantine_release_rounds == 2,
            r.stale_after_epochs == 2,
            r.merge == lab_compat_policy(),
    {
        PolicyBundle::reference()
    }
}

/// Score tables and margins for the merge calculus. All integers.
#[derive(Debug, Clone, Copy, PartialEq, Eq, Structural)]
pub struct MergePolicy {
    pub quality_strong: i64,
    pub quality_mixed: i64,
    pub quality_weak: i64,
    pub diversity_cross_scope: i64,
    pub diversity_mixed: i64,
    pub diversity_single_scope: i64,
    pub diversity_laundered: i64,
    pub scope_global: i64,
    pub scope_regional: i64,
    pub scope_local: i64,
    /// Cap on the witness-count informer: `min(count * 2, cap)`.
    pub informer_cap: i64,
    /// One-sided evidence is only `stable` at or above this score.
    pub one_sided_stable: i64,
    /// A fresher permissive entry wins if its score is within this slack.
    pub permissive_epoch_slack: i64,
    /// Score margin that decides between permissive peers.
    pub permissive_margin: i64,
    /// The clean side wins if its score is within this tolerance below the
    /// laundered side.
    pub laundering_tolerance: i64,
    /// Same-epoch restrictive/permissive conflict closer than this is an
    /// honest dispute.
    pub dispute_closeness: i64,
    /// A fresher restrictive entry dominates if its score is at least
    /// (other - slack).
    pub restrictive_fresh_slack: i64,
    /// A same-or-older restrictive entry needs this much score advantage.
    pub restrictive_dominance: i64,
    /// Both-permissive convergence is only `stable` if the accepted side
    /// leads by this margin.
    pub accept_converge_margin: i64,
}

/// The largest magnitude a policy weight or margin may have: 2^59. The
/// merge adds and subtracts at most a handful of weights (never more than
/// ten at once), so every sum stays inside `i64`.
pub const WEIGHT_LIMIT: i64 = 576460752303423488;

/// Every table entry and margin lies within +-`WEIGHT_LIMIT`: what the
/// merge arithmetic needs to stay clear of overflow.
pub open spec fn merge_policy_bounded(p: MergePolicy) -> bool {
    &&& -WEIGHT_LIMIT <= p.quality_strong <= WEIGHT_LIMIT
    &&& -WEIGHT_LIMIT <= p.quality_mixed <= WEIGHT_LIMIT
    &&& -WEIGHT_LIMIT <= p.quality_weak <= WEIGHT_LIMIT
    &&& -WEIGHT_LIMIT <= p.diversity_cross_scope <= WEIGHT_LIMIT
    &&& -WEIGHT_LIMIT <= p.diversity_mixed <= WEIGHT_LIMIT
    &&& -WEIGHT_LIMIT <= p.diversity_single_scope <= WEIGHT_LIMIT
    &&& -WEIGHT_LIMIT <= p.diversity_laundered <= WEIGHT_LIMIT
    &&& -WEIGHT_LIMIT <= p.scope_global <= WEIGHT_LIMIT
    &&& -WEIGHT_LIMIT <= p.scope_regional <= WEIGHT_LIMIT
    &&& -WEIGHT_LIMIT <= p.scope_local <= WEIGHT_LIMIT
    &&& -WEIGHT_LIMIT <= p.informer_cap <= WEIGHT_LIMIT
    &&& -WEIGHT_LIMIT <= p.one_sided_stable <= WEIGHT_LIMIT
    &&& -WEIGHT_LIMIT <= p.permissive_epoch_slack <= WEIGHT_LIMIT
    &&& -WEIGHT_LIMIT <= p.permissive_margin <= WEIGHT_LIMIT
    &&& -WEIGHT_LIMIT <= p.laundering_tolerance <= WEIGHT_LIMIT
    &&& -WEIGHT_LIMIT <= p.dispute_closeness <= WEIGHT_LIMIT
    &&& -WEIGHT_LIMIT <= p.restrictive_fresh_slack <= WEIGHT_LIMIT
    &&& -WEIGHT_LIMIT <= p.restrictive_dominance <= WEIGHT_LIMIT
    &&& -WEIGHT_LIMIT <= p.accept_converge_margin <= WEIGHT_LIMIT
}

pub open spec fn lab_compat_policy() -> MergePolicy {
    MergePolicy {
        quality_strong: 22,
        quality_mixed: 10,
        quality_weak: -8i64,
        diversity_cross_scope: 14,
        diversity_mixed: 6,
        diversity_single_scope: 0,
        diversity_laundered: -16i64,
        scope_global: 12,
        scope_regional: 4,
        scope_local: 0,
        informer_cap: 10,
        one_sided_stable: 95,
        permissive_epoch_slack: 12,
        permissive_margin: 4,
        laundering_tolerance: 8,
        dispute_closeness: 14,
        restrictive_fresh_slack: 6,
        restrictive_dominance: 14,
        accept_converge_margin: 8,
    }
}

pub open spec fn spec_quality_score(p: MergePolicy, q: Quality) -> i64 {
    match q {
        Quality::Strong => p.quality_strong,
        Quality::Mixed => p.quality_mixed,
        Quality::Weak => p.quality_weak,
    }
}

pub open spec fn spec_diversity_score(p: MergePolicy, d: Diversity) -> i64 {
    match d {
        Diversity::CrossScope => p.diversity_cross_scope,
        Diversity::Mixed => p.diversity_mixed,
        Diversity::SingleScope => p.diversity_single_scope,
        Diversity::Laundered => p.diversity_laundered,
    }
}

pub open spec fn spec_authority_score(p: MergePolicy, a: ScopeAuthority) -> i64 {
    match a {
        ScopeAuthority::Global => p.scope_global,
        ScopeAuthority::Regional => p.scope_regional,
        ScopeAuthority::Local => p.scope_local,
    }
}

/// `min(count * 2, cap)`: raw count can inform but never overwhelm.
pub open spec fn spec_informer_score(p: MergePolicy, count: u32) -> int {
    if 2 * (count as int) <= p.informer_cap {
        2 * (count as int)
    } else {
        p.informer_cap as int
    }
}

impl MergePolicy {
    /// The Deterministic Reunion Lab's exact constants.
    pub fn lab_compat() -> (r: MergePolicy)
        ensures
            r == lab_compat_policy(),
            merge_policy_bounded(r),
    {
        MergePolicy {
            quality_strong: 22,
            quality_mixed: 10,
            quality_weak: -8,
            diversity_cross_scope: 14,
            diversity_mixed: 6,
            diversity_single_scope: 0,
            diversity_laundered: -16,
            scope_global: 12,
            scope_regional: 4,
            scope_local: 0,
            informer_cap: 10,
            one_sided_stable: 95,
            permissive_epoch_slack: 12,
            permissive_margin: 4,
            laundering_tolerance: 8,
            dispute_closeness: 14,
            restrictive_fresh_slack: 6,
            restrictive_dominance: 14,
            accept_converge_margin: 8,
        }
    }

    pub fn quality_score(&self, quality: Quality) -> (r: i64)
        ensures
            r == spec_quality_score(*self, quality),
    {
        match quality {
            Quality::Strong => self.quality_strong,
            Quality::Mixed => self.quality_mixed,
            Quality::Weak => self.quality_weak,
        }
    }

    pub fn diversity_score(&self, diversity: Diversity) -> (r: i64)
        ensures
            r == spec_diversity_score(*self, diversity),
    {
        match diversity {
            Diversity::CrossScope => self.diversity_cross_scope,
            Diversity::Mixed => self.diversity_mixed,
            Diversity::SingleScope => self.diversity_single_scope,
            Diversity::Laundered => self.diversity_laundered,
        }
    }

    pub fn authority_score(&self, authority: ScopeAuthority) -> (r: i64)
        ensures
            r == spec_authority_score(*self, authority),
    {
        match authority {
            ScopeAuthority::Global => self.scope_global,
            ScopeAuthority::Regional => self.scope_regional,
            ScopeAuthority::Local => self.scope_local,
        }
    }

    pub fn informer_score(&self, count: u32) -> (r: i64)
        ensures
            r == spec_informer_score(*self, count),
    {
        let doubled: i64 = (count as i64) * 2;
        if doubled <= self.informer_cap {
            doubled
        } else {
            self.informer_cap
        }
    }
}

/// The informer is capped: whatever the witness count, its contribution
/// never exceeds the policy cap.
pub proof fn lemma_informer_capped(p: MergePolicy, count: u32)
    ensures
        spec_informer_score(p, count) <= p.informer_cap,
        spec_informer_score(p, count) <= 2 * (count as int),
{
}

} // verus!
