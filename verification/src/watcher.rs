//! Waiting for the proxy to write its credentials: the artifact is looked at
//! at a fixed interval, a fixed number of times at most.

use crate::text::{chars_of, contains, has_infix};
use vstd::prelude::*;

verus! {

/// How often the artifact is looked at before the watcher gives up.
pub const MAX_ATTEMPTS: u32 = 20;

/// How long the watcher sleeps after a look that found nothing, in
/// milliseconds.
pub const POLL_INTERVAL_MS: u64 = 500;

/// What the proxy writes once it has credentials: the two spaces at the
/// start count.
pub open spec fn ready_marker() -> Seq<char> {
    "  export AWS_ACCESS_KEY_ID="@
}

/// Whether one look at the artifact found it ready. An artifact that could
/// not be read is not ready yet.
pub open spec fn is_ready(observation: Option<Seq<char>>) -> bool {
    match observation {
        Some(content) => has_infix(content, ready_marker()),
        None => false,
    }
}

/// What the watcher does after one look at the artifact.
#[derive(Debug, Clone, Copy, PartialEq, Eq, Structural)]
pub enum WatchStep {
    /// The marker is there.
    Ready,
    /// Sleep for the interval, then look again.
    Wait,
    /// Sleep for the interval, then report a timeout.
    TimedOut,
}

/// The step after a look that came with `attempts` fruitless looks before it.
pub open spec fn step_of(attempts: nat, observation: Option<Seq<char>>) -> WatchStep {
    if is_ready(observation) {
        WatchStep::Ready
    } else if attempts + 1 >= MAX_ATTEMPTS {
        WatchStep::TimedOut
    } else {
        WatchStep::Wait
    }
}

/// How a watch ended, or that it has not ended yet.
#[derive(Debug, Clone, Copy, PartialEq, Eq, Structural)]
pub enum WatchOutcome {
    Ready,
    TimedOut,
    Pending,
}

/// A watch in figures: how it ended, how many looks it took, and how many
/// milliseconds of sleep it asked for.
#[derive(Debug, Clone, Copy, PartialEq, Eq, Structural)]
pub struct WatchReport {
    pub outcome: WatchOutcome,
    pub polls: u32,
    pub waited_ms: u64,
}

/// Position of the first look that found the artifact ready, or the number
/// of looks where none did.
pub open spec fn first_ready(observations: Seq<Option<Seq<char>>>) -> int
    decreases observations.len(),
{
    if observations.len() == 0 {
        0
    } else if is_ready(observations[0]) {
        0
    } else {
        1 + first_ready(observations.drop_first())
    }
}

/// The report of a watch that is shown `observations`, one per look: ready
/// at the first look that finds the marker, if that is one of the first
/// `MAX_ATTEMPTS`; timed out after `MAX_ATTEMPTS` fruitless looks, each
/// followed by a sleep; pending where the looks ran out before either.
pub open spec fn report_of(observations: Seq<Option<Seq<char>>>) -> WatchReport {
    let k = first_ready(observations);
    if k < observations.len() && k < MAX_ATTEMPTS {
        WatchReport { outcome: WatchOutcome::Ready, polls: (k + 1) as u32, waited_ms: (k * 500) as u64 }
    } else if observations.len() >= MAX_ATTEMPTS {
        WatchReport {
            outcome: WatchOutcome::TimedOut,
            polls: MAX_ATTEMPTS,
            waited_ms: (MAX_ATTEMPTS * 500) as u64,
        }
    } else {
        WatchReport {
            outcome: WatchOutcome::Pending,
            polls: observations.len() as u32,
            waited_ms: (observations.len() * 500) as u64,
        }
    }
}

/// The views of a list of observations.
pub open spec fn observation_views(v: Seq<Option<String>>) -> Seq<Option<Seq<char>>> {
    Seq::new(
        v.len(),
        |i: int|
            match v[i] {
                Some(s) => Some(s@),
                None => None,
            },
    )
}

/// `first_ready` stays within the looks, finds a ready one where it stops
/// short of the end, and passes over none.
pub proof fn lemma_first_ready(observations: Seq<Option<Seq<char>>>)
    ensures
        0 <= first_ready(observations) <= observations.len(),
        first_ready(observations) < observations.len() ==> is_ready(
            observations[first_ready(observations)],
        ),
        forall|j: int| 0 <= j < first_ready(observations) ==> !is_ready(observations[j]),
    decreases observations.len(),
{
    if observations.len() > 0 && !is_ready(observations[0]) {
        let rest = observations.drop_first();
        lemma_first_ready(rest);
        assert forall|j: int| 0 <= j < first_ready(observations) implies !is_ready(
            observations[j],
        ) by {
            if j > 0 {
                assert(observations[j] == rest[j - 1]);
            }
        }
    }
}

/// A look that is ready with none ready before it is the first ready one.
pub proof fn lemma_first_ready_is(observations: Seq<Option<Seq<char>>>, k: int)
    requires
        0 <= k <= observations.len(),
        k < observations.len() ==> is_ready(observations[k]),
        forall|j: int| 0 <= j < k ==> !is_ready(observations[j]),
    ensures
        first_ready(observations) == k,
{
    lemma_first_ready(observations);
}

/// Whether the content of the artifact holds the readiness marker.
pub fn content_is_ready(content: &str) -> (b: bool)
    ensures
        b == is_ready(Some(content@)),
{
    let chars = chars_of(content);
    contains(&chars, &chars_of("  export AWS_ACCESS_KEY_ID="))
}

/// The watcher between two looks: how many looks found nothing so far.
pub struct Watcher {
    pub attempts: u32,
}

impl Watcher {
    /// A watcher that has not looked yet.
    pub fn new() -> (w: Watcher)
        ensures
            w.attempts == 0,
    {
        Watcher { attempts: 0 }
    }

    /// Whether the watcher may look once more.
    pub open spec fn is_active(&self) -> bool {
        self.attempts < MAX_ATTEMPTS
    }

    /// One look: `observation` is the content of the artifact, or nothing
    /// where it could not be read. A fruitless look counts as an attempt,
    /// up to `MAX_ATTEMPTS` of them.
    pub fn observe(&mut self, observation: Option<&str>) -> (step: WatchStep)
        ensures
            step == step_of(
                old(self).attempts as nat,
                match observation {
                    Some(s) => Some(s@),
                    None => None,
                },
            ),
            step == WatchStep::Ready ==> final(self).attempts == old(self).attempts,
            step != WatchStep::Ready ==> final(self).attempts == if old(self).is_active() {
                (old(self).attempts + 1) as u32
            } else {
                old(self).attempts
            },
            step == WatchStep::Wait ==> final(self).is_active(),
    {
        let ready = match observation {
            Some(content) => content_is_ready(content),
            None => false,
        };
        if ready {
            WatchStep::Ready
        } else {
            if self.attempts < MAX_ATTEMPTS {
                self.attempts = self.attempts + 1;
            }
            if self.attempts >= MAX_ATTEMPTS {
                WatchStep::TimedOut
            } else {
                WatchStep::Wait
            }
        }
    }
}

/// Runs a watcher over recorded looks at the artifact, in order, until it
/// is ready, times out, or the looks run out.
pub fn watch(observations: &Vec<Option<String>>) -> (report: WatchReport)
    ensures
        report == report_of(observation_views(observations@)),
{
    let ghost all = observation_views(observations@);
    let mut watcher = Watcher::new();
    let mut waited_ms: u64 = 0;
    let mut i: usize = 0;
    while i < observations.len()
        invariant
            i <= observations.len(),
            all == observation_views(observations@),
            watcher.attempts == i,
            watcher.is_active(),
            waited_ms == i * 500,
            forall|j: int| 0 <= j < i ==> !is_ready(all[j]),
        decreases observations.len() - i,
    {
        let step = match &observations[i] {
            Some(content) => watcher.observe(Some(content.as_str())),
            None => watcher.observe(None),
        };
        assert(step == step_of(i as nat, all[i as int]));
        match step {
            WatchStep::Ready => {
                proof {
                    lemma_first_ready_is(all, i as int);
                }
                return WatchReport {
                    outcome: WatchOutcome::Ready,
                    polls: watcher.attempts + 1,
                    waited_ms,
                };
            },
            WatchStep::TimedOut => {
                proof {
                    lemma_first_ready(all);
                    if first_ready(all) < i + 1 {
                        assert(!is_ready(all[first_ready(all)]));
                    }
                }
                return WatchReport {
                    outcome: WatchOutcome::TimedOut,
                    polls: watcher.attempts,
                    waited_ms: waited_ms + POLL_INTERVAL_MS,
                };
            },
            WatchStep::Wait => {
                waited_ms = waited_ms + POLL_INTERVAL_MS;
            },
        }
        i += 1;
    }
    proof {
        lemma_first_ready_is(all, i as int);
    }
    WatchReport { outcome: WatchOutcome::Pending, polls: watcher.attempts, waited_ms }
}

/// A watch that never sees the marker ends in a timeout after exactly
/// `MAX_ATTEMPTS` looks, having asked for ten seconds of sleep.
pub proof fn law_watch_times_out(observations: Seq<Option<Seq<char>>>)
    requires
        observations.len() >= MAX_ATTEMPTS,
        forall|i: int| 0 <= i < observations.len() ==> !is_ready(#[trigger] observations[i]),
    ensures
        report_of(observations).outcome == WatchOutcome::TimedOut,
        report_of(observations).polls == 20,
        report_of(observations).waited_ms == 10_000,
{
    lemma_first_ready(observations);
    if first_ready(observations) < observations.len() {
        assert(!is_ready(observations[first_ready(observations)]));
    }
}

/// A watch ends as ready exactly when one of its first `MAX_ATTEMPTS` looks
/// finds the marker, and then at the first such look, after one sleep for
/// each look before it.
pub proof fn law_watch_ready_at_first_marker(observations: Seq<Option<Seq<char>>>, k: int)
    requires
        0 <= k < observations.len(),
        k < MAX_ATTEMPTS,
        is_ready(observations[k]),
        forall|j: int| 0 <= j < k ==> !is_ready(observations[j]),
    ensures
        report_of(observations).outcome == WatchOutcome::Ready,
        report_of(observations).polls == k + 1,
        report_of(observations).waited_ms == k * 500,
{
    lemma_first_ready_is(observations, k);
}

} // verus!
