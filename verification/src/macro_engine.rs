//! The decisions of macro playback: which step comes next, how long a delay
//! lasts, and how a delay is sliced so that an interrupt is noticed.
use vstd::prelude::*;
use crate::types::RunMode;
use crate::commands::sat_add;

verus! {

/// What playback does at position `pos` of a sequence.
#[derive(Clone, Copy, Debug, PartialEq, Eq, Structural)]
pub enum RunDecision {
    /// Playback ends.
    Finish,
    /// A new pass starts at the first step.
    Restart,
    /// The step at this index is played.
    Step(usize),
}

/// The decision at position `pos` of a sequence of `len` steps: an interrupt
/// ends playback; otherwise the step at `pos` plays; after the last step a
/// single run ends and a loop starts a new pass.
pub open spec fn decision(mode: RunMode, len: usize, pos: usize, cancelled: bool) -> RunDecision {
    if cancelled {
        RunDecision::Finish
    } else if pos < len {
        RunDecision::Step(pos)
    } else {
        match mode {
            RunMode::Once => RunDecision::Finish,
            RunMode::LoopUntilCancel => RunDecision::Restart,
        }
    }
}

/// An interrupt ends playback in every mode, wherever it stands; without
/// one, each step plays in order, and at the end a single run finishes while
/// a loop starts over.
pub proof fn lemma_interrupt_ends(mode: RunMode, len: usize, pos: usize)
    ensures
        decision(mode, len, pos, true) == RunDecision::Finish,
        pos < len ==> decision(mode, len, pos, false) == RunDecision::Step(pos),
        pos >= len ==> decision(RunMode::Once, len, pos, false) == RunDecision::Finish,
        pos >= len ==> decision(RunMode::LoopUntilCancel, len, pos, false) == RunDecision::Restart,
{
}

pub fn next_decision(mode: RunMode, len: usize, pos: usize, cancelled: bool) -> (r: RunDecision)
    ensures
        r == decision(mode, len, pos, cancelled),
{
    if cancelled {
        RunDecision::Finish
    } else if pos < len {
        RunDecision::Step(pos)
    } else {
        match mode {
            RunMode::Once => RunDecision::Finish,
            RunMode::LoopUntilCancel => RunDecision::Restart,
        }
    }
}

/// The position after playing step `pos`: the next one, or the end of the
/// pass when the step could not be sent.
pub fn after_step(len: usize, pos: usize, failed: bool) -> (r: usize)
    requires
        pos < len,
    ensures
        r == if failed { len } else { (pos + 1) as usize },
{
    if failed {
        len
    } else {
        pos + 1
    }
}

/// A random value between `lo` and `hi` inclusive (`rand::Rng::gen_range` on
/// the thread-local generator).
#[verifier::external_body]
fn random_between(lo: u64, hi: u64) -> (r: u64)
    requires
        lo <= hi,
    ensures
        lo <= r <= hi,
{
    rand::Rng::gen_range(&mut rand::thread_rng(), lo..=hi)
}

/// A delay of `ms` milliseconds lengthened by a drawn jitter of `x`
/// milliseconds (saturating).
pub fn add_jitter(ms: u64, x: u64) -> (r: u64)
    ensures
        r == sat_add(ms, x),
{
    ms.saturating_add(x)
}

/// The length of a delay of `ms` milliseconds with jitter: a random amount
/// between `lo` and `max(lo, hi)` is added (saturating).
pub fn jittered_delay(ms: u64, jitter_ms: Option<(u64, u64)>) -> (r: u64)
    ensures
        jitter_ms is None ==> r == ms,
        jitter_ms matches Some((lo, hi)) ==> exists|x: u64| lo <= x <= (if hi < lo { lo } else { hi }) && r == #[trigger] sat_add(ms, x),
{
    match jitter_ms {
        None => ms,
        Some((lo, hi)) => {
            let hi = if hi < lo { lo } else { hi };
            let x = random_between(lo, hi);
            add_jitter(ms, x)
        },
    }
}

/// The milliseconds slept by an uninterrupted sleep of `left` milliseconds,
/// slice by slice.
pub open spec fn slept(left: u64) -> nat
    decreases left,
{
    if left == 0 {
        0
    } else {
        let slice: u64 = if left < 10 { left } else { 10u64 };
        (slice + slept((left - slice) as u64)) as nat
    }
}

/// An uninterrupted sleep, taken in the slices of `sleep_slice`, lasts
/// exactly as long as asked, and no slice is longer than 10 ms.
pub proof fn lemma_slept(left: u64)
    ensures
        slept(left) == left,
    decreases left,
{
    if left > 0 {
        let slice: u64 = if left < 10 { left } else { 10u64 };
        lemma_slept((left - slice) as u64);
    }
}

/// The next slice of an interruptible sleep with `left` milliseconds to go:
/// nothing when done or interrupted, otherwise at most 10 ms.
pub fn sleep_slice(left: u64, cancelled: bool) -> (r: Option<u64>)
    ensures
        left == 0 || cancelled ==> r is None,
        !(left == 0 || cancelled) ==> r == Some(if left < 10 { left } else { 10u64 }),
{
    if left == 0 || cancelled {
        None
    } else if left < 10 {
        Some(left)
    } else {
        Some(10)
    }
}

} // verus!
