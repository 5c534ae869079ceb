//! Epochs, rounds, and freshness.
//!
//! The kernel has no wall clock: time is a caller-supplied per-scope
//! `Epoch` generation counter plus a kernel-step `Round` counter.

use vstd::prelude::*;

verus! {

/// Per-scope generation counter.
#[derive(Debug, Clone, Copy, PartialEq, Eq, Structural, PartialOrd, Ord, Hash)]
pub struct Epoch(pub u64);

impl View for Epoch {
    type V = Epoch;

    open spec fn view(&self) -> Epoch {
        *self
    }
}

impl Epoch {
    pub fn get(self) -> (r: u64)
        ensures
            r == self.0,
    {
        self.0
    }

    /// The later of two epochs.
    pub fn later(self, other: Epoch) -> (r: Epoch)
        ensures
            r.0 == if self.0 >= other.0 { self.0 } else { other.0 },
    {
        if self.0 >= other.0 {
            self
        } else {
            other
        }
    }
}

/// Kernel step counter used for hysteresis and repair rounds.
#[derive(Debug, Clone, Copy, Default, PartialEq, Eq, Structural, PartialOrd, Ord, Hash)]
pub struct Round(pub u64);

impl Round {
    pub fn get(self) -> (r: u64)
        ensures
            r == self.0,
    {
        self.0
    }

    pub fn next(self) -> (r: Round)
        requires
            self.0 < u64::MAX,
        ensures
            r.0 == self.0 + 1,
    {
        Round(self.0 + 1)
    }
}

/// Freshness classification of evidence relative to the merging scope's
/// current epoch.
#[derive(Debug, Clone, Copy, PartialEq, Eq, Structural, PartialOrd, Ord)]
pub enum FreshnessClass {
    Stale,
    Fresh,
}

pub open spec fn spec_classify(record: u64, now: u64, stale_after_epochs: u64) -> FreshnessClass {
    if now > record && now - record > stale_after_epochs {
        FreshnessClass::Stale
    } else {
        FreshnessClass::Fresh
    }
}

impl FreshnessClass {
    /// Stale when the record lags the current epoch by more than the
    /// policy allows (saturating at zero for records from the future).
    pub fn classify(record: Epoch, now: Epoch, stale_after_epochs: u64) -> (r: FreshnessClass)
        ensures
            r == spec_classify(record.0, now.0, stale_after_epochs),
    {
        let lag = now.0.saturating_sub(record.0);
        if lag > stale_after_epochs {
            FreshnessClass::Stale
        } else {
            FreshnessClass::Fresh
        }
    }
}

} // verus!
