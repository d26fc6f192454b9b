//! The stability monitor: decides from repeated polls when the element tree
//! has caught up with the actions of the last trip.
//!
//! Durations are turned into numbers of polls by dividing them by the poll
//! interval.

use crate::error::ExecutionError;
use vstd::prelude::*;

verus! {

/// Options for executing a command against an interface.
#[derive(Debug, Clone, Copy)]
pub struct ExecutorOpts {
    /// The maximum number of round trips to be made to and from the model.
    pub max_round_trips: u32,
    /// The number of milliseconds to wait between each poll of the element
    /// tree.
    pub tree_poll_interval_ms: u32,
    /// The number of milliseconds for which the tree must stay unchanged,
    /// after a change, to be considered stable.
    pub stability_threshold_ms: u32,
    /// The number of milliseconds after which waiting for the tree to
    /// stabilise is given up.
    pub stability_timeout_ms: u32,
}

impl ExecutorOpts {
    /// The poll interval is positive, and both the stability threshold and
    /// the stability timeout are greater than it.
    pub open spec fn valid(&self) -> bool {
        &&& self.tree_poll_interval_ms > 0
        &&& self.stability_threshold_ms > self.tree_poll_interval_ms
        &&& self.stability_timeout_ms > self.tree_poll_interval_ms
    }

    /// Number of consecutive unchanged polls that make the tree stable.
    pub open spec fn stable_polls(&self) -> int {
        self.stability_threshold_ms as int / self.tree_poll_interval_ms as int
    }

    /// Number of polls after which the monitor gives up.
    pub open spec fn timeout_polls(&self) -> int {
        self.stability_timeout_ms as int / self.tree_poll_interval_ms as int
    }

    /// Whether the options are valid.
    pub fn is_valid(&self) -> (r: bool)
        ensures
            r == self.valid(),
    {
        self.tree_poll_interval_ms > 0 && self.stability_threshold_ms > self.tree_poll_interval_ms
            && self.stability_timeout_ms > self.tree_poll_interval_ms
    }
}

/// What the monitor has seen since the last trip.
#[derive(Debug, Clone, Copy)]
pub struct Stability {
    /// Whether any poll differed from the one before it.
    pub change_recorded: bool,
    /// Number of consecutive unchanged polls since the last change.
    pub stable_iters: u32,
    /// Number of polls made.
    pub total_iters: u32,
}

/// Why the monitor ended.
#[derive(Debug, Clone, Copy)]
pub enum Verdict {
    /// A change was seen and the tree then stayed unchanged long enough.
    Stable,
    /// No poll ever differed from the reference tree.
    NoTreeUpdate { timeout_ms: u32 },
    /// The tree changed but did not stay unchanged long enough in time.
    TreeStabilisationTimeout { timeout_ms: u32 },
}

impl Stability {
    /// The monitor before its first poll.
    pub open spec fn fresh() -> Stability {
        Stability { change_recorded: false, stable_iters: 0, total_iters: 0 }
    }

    /// Whether another poll is due: the timeout is not exhausted and the tree
    /// is not yet stable.
    pub open spec fn polling(self, opts: ExecutorOpts) -> bool {
        self.total_iters < opts.timeout_polls() && self.stable_iters < opts.stable_polls()
    }

    /// The monitor after a poll that gave a tree equal (`same`) or not equal
    /// to the one before it. A change resets the count of unchanged polls;
    /// an unchanged poll counts only once a change has been seen.
    pub open spec fn observed(self, same: bool) -> Stability {
        Stability {
            change_recorded: self.change_recorded || !same,
            stable_iters: if !same {
                0
            } else if self.change_recorded {
                (self.stable_iters + 1) as u32
            } else {
                self.stable_iters
            },
            total_iters: (self.total_iters + 1) as u32,
        }
    }

    /// How the monitor ends once no poll is due.
    pub open spec fn verdict(self, opts: ExecutorOpts) -> Verdict {
        if !self.change_recorded {
            Verdict::NoTreeUpdate { timeout_ms: opts.stability_threshold_ms }
        } else if self.stable_iters < opts.stable_polls() {
            Verdict::TreeStabilisationTimeout { timeout_ms: opts.stability_timeout_ms }
        } else {
            Verdict::Stable
        }
    }

    /// The monitor after the polls `sames`, each telling whether the polled
    /// tree equalled the one before it; polls that are not due are ignored.
    pub open spec fn after(self, opts: ExecutorOpts, sames: Seq<bool>) -> Stability
        decreases sames.len(),
    {
        if sames.len() == 0 {
            self
        } else {
            let before = self.after(opts, sames.drop_last());
            if before.polling(opts) {
                before.observed(sames.last())
            } else {
                before
            }
        }
    }

    /// Starts the monitor.
    pub fn new() -> (r: Stability)
        ensures
            r == Stability::fresh(),
    {
        Stability { change_recorded: false, stable_iters: 0, total_iters: 0 }
    }

    /// Whether another poll is due.
    pub fn keep_polling(&self, opts: &ExecutorOpts) -> (r: bool)
        requires
            opts.tree_poll_interval_ms > 0,
        ensures
            r == self.polling(*opts),
    {
        let num_iters_stable = opts.stability_threshold_ms / opts.tree_poll_interval_ms;
        let num_iters_timeout = opts.stability_timeout_ms / opts.tree_poll_interval_ms;
        self.total_iters < num_iters_timeout && self.stable_iters < num_iters_stable
    }

    /// Records a poll that was due.
    pub fn observe(&self, same: bool) -> (r: Stability)
        requires
            self.total_iters < u32::MAX,
            self.stable_iters < u32::MAX,
        ensures
            r == self.observed(same),
    {
        let stable_iters = if !same {
            0
        } else if self.change_recorded {
            self.stable_iters + 1
        } else {
            self.stable_iters
        };
        Stability {
            change_recorded: self.change_recorded || !same,
            stable_iters,
            total_iters: self.total_iters + 1,
        }
    }

    /// How the monitor ends.
    pub fn conclude(&self, opts: &ExecutorOpts) -> (r: Verdict)
        requires
            opts.tree_poll_interval_ms > 0,
        ensures
            r == self.verdict(*opts),
    {
        let num_iters_stable = opts.stability_threshold_ms / opts.tree_poll_interval_ms;
        if !self.change_recorded {
            Verdict::NoTreeUpdate { timeout_ms: opts.stability_threshold_ms }
        } else if self.stable_iters < num_iters_stable {
            Verdict::TreeStabilisationTimeout { timeout_ms: opts.stability_timeout_ms }
        } else {
            Verdict::Stable
        }
    }
}

impl Verdict {
    /// The failure that the verdict stands for, if it is one.
    pub open spec fn error(self) -> Option<ExecutionError> {
        match self {
            Verdict::Stable => None,
            Verdict::NoTreeUpdate { timeout_ms } => Some(
                ExecutionError::NoTreeUpdate { timeout_ms },
            ),
            Verdict::TreeStabilisationTimeout { timeout_ms } => Some(
                ExecutionError::TreeStabilisationTimeout { timeout_ms },
            ),
        }
    }

    /// The failure that the verdict stands for, if it is one.
    pub fn into_error(self) -> (r: Option<ExecutionError>)
        ensures
            r == self.error(),
    {
        match self {
            Verdict::Stable => None,
            Verdict::NoTreeUpdate { timeout_ms } => Some(
                ExecutionError::NoTreeUpdate { timeout_ms },
            ),
            Verdict::TreeStabilisationTimeout { timeout_ms } => Some(
                ExecutionError::TreeStabilisationTimeout { timeout_ms },
            ),
        }
    }
}

/// The counts of the monitor never pass their limits, and the unchanged
/// polls counted are among the polls made.
pub open spec fn stability_bounded(s: Stability, opts: ExecutorOpts) -> bool {
    &&& s.total_iters <= opts.timeout_polls()
    &&& s.stable_iters <= opts.stable_polls()
    &&& s.stable_iters <= s.total_iters
    &&& s.stable_iters > 0 ==> s.change_recorded
}

/// The monitor never polls more often than the timeout allows: whatever the
/// polls show, the counts stay within their limits.
pub proof fn lemma_monitor_bounded(opts: ExecutorOpts, sames: Seq<bool>)
    requires
        opts.valid(),
    ensures
        stability_bounded(Stability::fresh().after(opts, sames), opts),
    decreases sames.len(),
{
    if sames.len() > 0 {
        lemma_monitor_bounded(opts, sames.drop_last());
    }
}

/// If no poll ever shows a change, the monitor ends with `NoTreeUpdate`.
pub proof fn lemma_no_change_no_update(opts: ExecutorOpts, sames: Seq<bool>)
    requires
        opts.valid(),
        forall|i: int| 0 <= i < sames.len() ==> sames[i],
    ensures
        Stability::fresh().after(opts, sames).verdict(opts) == (Verdict::NoTreeUpdate {
            timeout_ms: opts.stability_threshold_ms,
        }),
        !Stability::fresh().after(opts, sames).change_recorded,
        Stability::fresh().after(opts, sames).stable_iters == 0,
    decreases sames.len(),
{
    if sames.len() > 0 {
        let earlier = sames.drop_last();
        assert forall|i: int| 0 <= i < earlier.len() implies earlier[i] by {
            assert(earlier[i] == sames[i]);
        }
        lemma_no_change_no_update(opts, earlier);
        assert(sames.last() == sames[sames.len() - 1]);
    }
}

/// The monitor reports the tree as stable only after a change and then as
/// many unchanged polls as the threshold asks for.
pub proof fn lemma_stable_means_settled(s: Stability, opts: ExecutorOpts)
    requires
        s.verdict(opts) == Verdict::Stable,
    ensures
        s.change_recorded,
        s.stable_iters >= opts.stable_polls(),
{
}

} // verus!
