//! Phase deadlines: one shared round deadline for the pre-prepare, prepare
//! and commit phases, a longer view-change deadline that doubles on every
//! successive view change. Times are milliseconds on the caller's clock.

use vstd::prelude::*;
use crate::types::Phase;

verus! {

/// `base` doubled `k` times.
pub open spec fn doubled(base: nat, k: nat) -> nat
    decreases k,
{
    if k == 0 { base } else { 2 * doubled(base, (k - 1) as nat) }
}

pub open spec fn cap(x: nat) -> nat {
    if x > u64::MAX { u64::MAX as nat } else { x }
}

pub struct TimeoutManager {
    /// Deadline length of the pre-prepare, prepare and commit phases.
    pub round_ms: u64,
    /// Deadline length of the first view change.
    pub view_change_ms: u64,
    /// How many view changes have followed one another since the last commit.
    pub backoff: u64,
    /// The armed deadline, if any.
    pub deadline: Option<u64>,
}

impl TimeoutManager {
    /// The deadline length for a phase: the view-change length doubled once
    /// per earlier successive view change, or the round length, capped at
    /// the largest u64.
    pub open spec fn spec_duration(&self, phase: Phase) -> nat {
        if phase == Phase::ViewChanging {
            cap(doubled(self.view_change_ms as nat, self.backoff as nat))
        } else {
            cap(self.round_ms as nat)
        }
    }

    pub fn new(round_ms: u64, view_change_ms: u64) -> (r: TimeoutManager)
        ensures
            r.round_ms == round_ms,
            r.view_change_ms == view_change_ms,
            r.backoff == 0,
            r.deadline is None,
    {
        TimeoutManager { round_ms, view_change_ms, backoff: 0, deadline: None }
    }

    pub fn duration(&self, phase: Phase) -> (r: u64)
        ensures
            r as nat == self.spec_duration(phase),
    {
        if phase != Phase::ViewChanging {
            return self.round_ms;
        }
        let mut d: u64 = self.view_change_ms;
        let mut i: u64 = 0;
        while i < self.backoff
            invariant
                i <= self.backoff,
                d as nat == cap(doubled(self.view_change_ms as nat, i as nat)),
            decreases self.backoff - i,
        {
            if d > u64::MAX / 2 {
                d = u64::MAX;
            } else {
                d = d * 2;
            }
            i = i + 1;
        }
        d
    }

    /// Cancels the armed deadline and arms a new one for `phase`, counted from `now`.
    pub fn arm(&mut self, now: u64, phase: Phase)
        ensures
            final(self).deadline == Some(cap((now + old(self).spec_duration(phase)) as nat) as u64),
            final(self).round_ms == old(self).round_ms,
            final(self).view_change_ms == old(self).view_change_ms,
            final(self).backoff == old(self).backoff,
    {
        let d = self.duration(phase);
        self.deadline = Some(now.saturating_add(d));
    }

    pub fn cancel(&mut self)
        ensures
            final(self).deadline is None,
            final(self).round_ms == old(self).round_ms,
            final(self).view_change_ms == old(self).view_change_ms,
            final(self).backoff == old(self).backoff,
    {
        self.deadline = None;
    }

    /// Whether the armed deadline has passed at `now`.
    pub fn expired(&self, now: u64) -> (r: bool)
        ensures
            r == (self.deadline matches Some(d) && now >= d),
    {
        match self.deadline {
            Some(d) => now >= d,
            None => false,
        }
    }

    /// Counts one more successive view change.
    pub fn escalate(&mut self)
        ensures
            final(self).backoff == (if old(self).backoff == u64::MAX { u64::MAX } else { (old(self).backoff + 1) as u64 }),
            final(self).round_ms == old(self).round_ms,
            final(self).view_change_ms == old(self).view_change_ms,
            final(self).deadline == old(self).deadline,
    {
        self.backoff = self.backoff.saturating_add(1);
    }

    /// Forgets the successive view changes after a commit.
    pub fn reset_backoff(&mut self)
        ensures
            final(self).backoff == 0,
            final(self).round_ms == old(self).round_ms,
            final(self).view_change_ms == old(self).view_change_ms,
            final(self).deadline == old(self).deadline,
    {
        self.backoff = 0;
    }
}

} // verus!
