//! Cold-start and freeze/thaw detection.
//!
//! A cold-start flag starts raised; the first observer takes it and
//! every later observer sees it lowered until a reset. Freeze detection
//! compares the wall clock against the last recorded activity: a gap
//! over the threshold means the host was suspended and thawed.

use vstd::prelude::*;

verus! {

/// Relies on `std::time::SystemTime::now`: the wall clock in
/// milliseconds since the epoch; nothing is promised of its value.
#[verifier::external_body]
fn now_millis() -> u64 {
    match std::time::SystemTime::now().duration_since(std::time::SystemTime::UNIX_EPOCH) {
        Ok(d) => d.as_millis() as u64,
        Err(_) => 0,
    }
}

/// The process-wide cold-start flag, held by the orchestrator.
pub struct ColdStartFlag {
    /// Whether the flag is still raised.
    pub cold: bool,
}

impl ColdStartFlag {
    /// A fresh flag, raised.
    pub fn new() -> (r: ColdStartFlag)
        ensures
            r.cold,
    {
        ColdStartFlag { cold: true }
    }

    /// Take the flag: the first call returns true and lowers it; every
    /// later call returns false until a reset.
    pub fn is_cold_start(&mut self) -> (r: bool)
        ensures
            r == old(self).cold,
            !final(self).cold,
    {
        let was = self.cold;
        self.cold = false;
        was
    }

    /// Raise the flag again.
    pub fn reset_cold_start(&mut self)
        ensures
            final(self).cold,
    {
        self.cold = true;
    }
}

/// Cold-start detection that also counts a long freeze as cold: the
/// first invocation is cold, and later ones are cold exactly when the
/// gap since the last invocation exceeds the threshold.
pub struct ColdStartDetector {
    /// When the last invocation was seen, in milliseconds.
    pub last_invocation_ms: Option<u64>,
    /// The freeze threshold in milliseconds.
    pub freeze_threshold_ms: u64,
}

impl ColdStartDetector {
    /// A detector that has seen no invocation yet.
    pub fn new(freeze_threshold_ms: u64) -> (r: ColdStartDetector)
        ensures
            r.last_invocation_ms is None,
            r.freeze_threshold_ms == freeze_threshold_ms,
    {
        ColdStartDetector { last_invocation_ms: None, freeze_threshold_ms }
    }

    /// Decide cold-or-frozen for an invocation at `now_ms` and record
    /// the invocation: true on the first call, and later exactly when
    /// the elapsed time exceeds the threshold.
    pub fn is_cold_or_frozen_at(&mut self, now_ms: u64) -> (r: bool)
        ensures
            final(self).last_invocation_ms == Some(now_ms),
            final(self).freeze_threshold_ms == old(self).freeze_threshold_ms,
            r == (match old(self).last_invocation_ms {
                None => true,
                Some(last) => last <= now_ms && now_ms - last > old(self).freeze_threshold_ms,
            }),
    {
        let r = match self.last_invocation_ms {
            None => true,
            Some(last) => last <= now_ms && now_ms - last > self.freeze_threshold_ms,
        };
        self.last_invocation_ms = Some(now_ms);
        r
    }

    /// Decide cold-or-frozen against the real clock.
    pub fn is_cold_or_frozen(&mut self) -> (r: bool)
        ensures
            final(self).last_invocation_ms is Some,
            final(self).freeze_threshold_ms == old(self).freeze_threshold_ms,
            old(self).last_invocation_ms is None ==> r,
    {
        let now = now_millis();
        self.is_cold_or_frozen_at(now)
    }

    /// Forget the last invocation.
    pub fn reset(&mut self)
        ensures
            final(self).last_invocation_ms is None,
            final(self).freeze_threshold_ms == old(self).freeze_threshold_ms,
    {
        self.last_invocation_ms = None;
    }
}

/// Freeze/thaw detection over recorded activity timestamps.
pub struct FreezeThawDetector {
    /// The last recorded activity, in milliseconds since the epoch.
    pub last_activity_ms: u64,
    /// The freeze threshold in milliseconds.
    pub freeze_threshold_ms: u64,
}

impl FreezeThawDetector {
    /// A detector whose last activity is the present moment.
    pub fn new(freeze_threshold_ms: u64) -> (r: FreezeThawDetector)
        ensures
            r.freeze_threshold_ms == freeze_threshold_ms,
    {
        let now = now_millis();
        FreezeThawDetector { last_activity_ms: now, freeze_threshold_ms }
    }

    /// A detector whose last activity is `now_ms`.
    pub fn new_at(freeze_threshold_ms: u64, now_ms: u64) -> (r: FreezeThawDetector)
        ensures
            r.freeze_threshold_ms == freeze_threshold_ms,
            r.last_activity_ms == now_ms,
    {
        FreezeThawDetector { last_activity_ms: now_ms, freeze_threshold_ms }
    }

    /// Move the activity timestamp to the present moment.
    pub fn record_activity(&mut self)
        ensures
            final(self).freeze_threshold_ms == old(self).freeze_threshold_ms,
    {
        self.last_activity_ms = now_millis();
    }

    /// Move the activity timestamp to `now_ms`.
    pub fn record_activity_at(&mut self, now_ms: u64)
        ensures
            final(self).last_activity_ms == now_ms,
            final(self).freeze_threshold_ms == old(self).freeze_threshold_ms,
    {
        self.last_activity_ms = now_ms;
    }

    /// Whether a freeze happened before `now_ms`: true exactly when the
    /// gap since the last activity exceeds the threshold; a detected
    /// freeze re-records activity, so an immediate second call is false.
    pub fn was_frozen_at(&mut self, now_ms: u64) -> (r: bool)
        ensures
            r == (old(self).last_activity_ms <= now_ms && now_ms - old(self).last_activity_ms
                > old(self).freeze_threshold_ms),
            final(self).freeze_threshold_ms == old(self).freeze_threshold_ms,
            r ==> final(self).last_activity_ms == now_ms,
            !r ==> final(self).last_activity_ms == old(self).last_activity_ms,
    {
        let last = self.last_activity_ms;
        let frozen = last <= now_ms && now_ms - last > self.freeze_threshold_ms;
        if frozen {
            self.last_activity_ms = now_ms;
        }
        frozen
    }

    /// Whether a freeze happened before the present moment.
    pub fn was_frozen(&mut self) -> (r: bool)
        ensures
            final(self).freeze_threshold_ms == old(self).freeze_threshold_ms,
    {
        let now = now_millis();
        self.was_frozen_at(now)
    }
}

} // verus!
