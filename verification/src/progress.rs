//! A progress counter and cancellation flag shared between clones.
use vstd::prelude::*;
use std::sync::Arc;
use std::sync::atomic::{AtomicBool, AtomicU32, Ordering};

verus! {

/// The percentage stored for a requested one: at most 100.
pub open spec fn clamped_percent(p: u32) -> u32 {
    if p > 100 { 100 } else { p }
}

/// The value `set_progress` stores for a requested percentage.
pub fn clamp_percent(p: u32) -> (r: u32)
    ensures
        r == clamped_percent(p),
{
    if p > 100 { 100 } else { p }
}

/// Progress of a transcription, shared by every clone of the tracker (a clone holds
/// the same counters).
///
/// The stored values live in atomics that other clones may change at any time, so the
/// readers' results are not tied to earlier writes.
#[derive(Clone)]
pub struct ProgressTracker {
    percent: Arc<AtomicU32>,
    cancelled: Arc<AtomicBool>,
}

impl ProgressTracker {
    /// A tracker at 0 % and not cancelled.
    pub fn new() -> Self {
        Self { percent: Arc::new(AtomicU32::new(0)), cancelled: Arc::new(AtomicBool::new(false)) }
    }

    /// The current percentage.
    pub fn progress(&self) -> u32 {
        self.percent.load(Ordering::SeqCst)
    }

    /// Stores `percent`, capped at 100.
    pub fn set_progress(&self, percent: u32) {
        let p = clamp_percent(percent);
        self.percent.store(p, Ordering::SeqCst);
    }

    /// Whether the work was cancelled.
    pub fn is_cancelled(&self) -> bool {
        self.cancelled.load(Ordering::SeqCst)
    }

    /// Marks the work as cancelled.
    pub fn cancel(&self) {
        self.cancelled.store(true, Ordering::SeqCst);
    }
}

impl Default for ProgressTracker {
    fn default() -> Self {
        Self::new()
    }
}

} // verus!
