//! A polling readiness barrier that gates scene logic on a bundle and fires
//! its completion signal exactly once.

use vstd::prelude::*;
use crate::bundle::DependencyBundle;
use crate::handle::LoadState;
use crate::tracker::LoadStateTracker;

verus! {

/// Lifecycle of a [`ReadinessBarrier`].
///
/// `Empty` — the bundle's loads have not been requested yet. `Pending` — the
/// loads run and every poll re-evaluates the aggregate from scratch.
/// `Ready` and `Failed` are terminal: further polls are no-ops.
#[derive(Clone, Copy, PartialEq, Eq, Structural, Debug)]
pub enum BarrierPhase {
    Empty,
    Pending,
    Ready,
    Failed,
}

/// Owns one immutable [`DependencyBundle`] and advances once per scheduling
/// tick. On the first tick where the bundle's transitive dependency set
/// aggregates to `Loaded`, the barrier reports `true` exactly once and
/// settles in `Ready`; a failed or stale dependency settles it in `Failed`
/// without ever reporting completion.
pub struct ReadinessBarrier {
    bundle: DependencyBundle,
    phase: BarrierPhase,
}

impl ReadinessBarrier {
    /// The barrier's current phase.
    pub closed spec fn spec_phase(&self) -> BarrierPhase {
        self.phase
    }

    /// The bundle the barrier gates on.
    pub closed spec fn spec_bundle(&self) -> DependencyBundle {
        self.bundle
    }

    /// One poll of the barrier as a pure transition: from a phase and the
    /// observation of the tracker — whether all members are live, and the
    /// aggregate severity of the transitive dependency set — to the next
    /// phase and whether the completion signal fires on this tick.
    pub open spec fn step(p: BarrierPhase, live: bool, sev: int) -> (BarrierPhase, bool) {
        match p {
            BarrierPhase::Empty => (BarrierPhase::Pending, false),
            BarrierPhase::Pending => if !live || sev == 3 {
                (BarrierPhase::Failed, false)
            } else if sev == 0 {
                (BarrierPhase::Ready, true)
            } else {
                (BarrierPhase::Pending, false)
            },
            BarrierPhase::Ready => (BarrierPhase::Ready, false),
            BarrierPhase::Failed => (BarrierPhase::Failed, false),
        }
    }

    /// The phase after a whole sequence of observations.
    pub open spec fn run_phase(p: BarrierPhase, obs: Seq<(bool, int)>) -> BarrierPhase
        decreases obs.len(),
    {
        if obs.len() == 0 {
            p
        } else {
            Self::run_phase(Self::step(p, obs[0].0, obs[0].1).0, obs.drop_first())
        }
    }

    /// How often the completion signal fires along a sequence of
    /// observations.
    pub open spec fn run_fires(p: BarrierPhase, obs: Seq<(bool, int)>) -> nat
        decreases obs.len(),
    {
        if obs.len() == 0 {
            0
        } else {
            (if Self::step(p, obs[0].0, obs[0].1).1 {
                1nat
            } else {
                0nat
            }) + Self::run_fires(Self::step(p, obs[0].0, obs[0].1).0, obs.drop_first())
        }
    }

    /// Declares a barrier over a bundle. It starts `Empty`; the loads are
    /// requested by the caller around the first poll.
    pub fn new(bundle: DependencyBundle) -> (b: ReadinessBarrier)
        ensures
            b.spec_phase() is Empty,
            b.spec_bundle() == bundle,
    {
        ReadinessBarrier { bundle, phase: BarrierPhase::Empty }
    }

    /// The barrier's current phase.
    pub fn phase(&self) -> (p: BarrierPhase)
        ensures
            p == self.spec_phase(),
    {
        self.phase
    }

    /// The bundle the barrier gates on.
    pub fn bundle(&self) -> (b: &DependencyBundle)
        ensures
            *b == self.spec_bundle(),
    {
        &self.bundle
    }

    /// One scheduling tick. Returns whether the completion signal fires on
    /// this tick; it does so at most once over the barrier's lifetime.
    ///
    /// The poll is level-triggered: in `Pending` it re-evaluates the
    /// bundle's aggregate from scratch and reacts only to what it observes
    /// now. A stale member counts as failure, never as completion.
    pub fn poll(&mut self, tracker: &LoadStateTracker) -> (fired: bool)
        requires
            tracker.wf(),
        ensures
            final(self).spec_bundle() == old(self).spec_bundle(),
            ({
                let live = tracker.members_live(&old(self).spec_bundle());
                let sev = tracker.agg_of_bundle(&old(self).spec_bundle()).0;
                let st = Self::step(old(self).spec_phase(), live, sev);
                final(self).spec_phase() == st.0 && fired == st.1
            }),
    {
        match self.phase {
            BarrierPhase::Empty => {
                self.phase = BarrierPhase::Pending;
                false
            },
            BarrierPhase::Pending => {
                match tracker.transitive_state_of(&self.bundle) {
                    Err(_) => {
                        self.phase = BarrierPhase::Failed;
                        false
                    },
                    Ok(state) => {
                        match state {
                            LoadState::Loaded => {
                                self.phase = BarrierPhase::Ready;
                                true
                            },
                            LoadState::Failed(_) => {
                                self.phase = BarrierPhase::Failed;
                                false
                            },
                            _ => false,
                        }
                    },
                }
            },
            BarrierPhase::Ready => false,
            BarrierPhase::Failed => false,
        }
    }

    /// A terminal barrier stays terminal and never fires again, however
    /// often it is polled.
    pub proof fn lemma_terminal_polls_are_noops(p: BarrierPhase, obs: Seq<(bool, int)>)
        requires
            p is Ready || p is Failed,
        ensures
            Self::run_phase(p, obs) == p,
            Self::run_fires(p, obs) == 0,
        decreases obs.len(),
    {
        if obs.len() > 0 {
            Self::lemma_terminal_polls_are_noops(p, obs.drop_first());
        }
    }

    /// The completion signal fires at most once over any sequence of polls,
    /// from any starting phase: firing settles the barrier in `Ready`, and
    /// `Ready` never fires again.
    pub proof fn lemma_signal_fires_at_most_once(p: BarrierPhase, obs: Seq<(bool, int)>)
        ensures
            Self::run_fires(p, obs) <= 1,
        decreases obs.len(),
    {
        if obs.len() > 0 {
            let st = Self::step(p, obs[0].0, obs[0].1);
            if st.1 {
                Self::lemma_terminal_polls_are_noops(st.0, obs.drop_first());
            } else {
                Self::lemma_signal_fires_at_most_once(st.0, obs.drop_first());
            }
        }
    }

    /// A barrier that reached `Ready` from a fresh or pending start fired
    /// its signal exactly once along the way.
    pub proof fn lemma_ready_means_fired_exactly_once(p: BarrierPhase, obs: Seq<(bool, int)>)
        requires
            p is Empty || p is Pending,
            Self::run_phase(p, obs) is Ready,
        ensures
            Self::run_fires(p, obs) == 1,
        decreases obs.len(),
    {
        if obs.len() > 0 {
            let st = Self::step(p, obs[0].0, obs[0].1);
            if st.1 {
                Self::lemma_terminal_polls_are_noops(st.0, obs.drop_first());
            } else if st.0 is Failed {
                Self::lemma_terminal_polls_are_noops(st.0, obs.drop_first());
                assert(false);
            } else {
                Self::lemma_ready_means_fired_exactly_once(st.0, obs.drop_first());
            }
        }
    }

    /// While every observation reports live members and an unresolved
    /// aggregate (neither loaded nor failed), a pending barrier stays
    /// pending and fires nothing; a fresh barrier merely starts pending.
    pub proof fn lemma_unresolved_observations_keep_pending(p: BarrierPhase, obs: Seq<(bool, int)>)
        requires
            p is Empty || p is Pending,
            forall|t: int| 0 <= t < obs.len() ==> (#[trigger] obs[t]).0 && 1 <= obs[t].1 <= 2,
        ensures
            Self::run_fires(p, obs) == 0,
            Self::run_phase(p, obs) is Pending || (obs.len() == 0 && Self::run_phase(p, obs) == p),
        decreases obs.len(),
    {
        if obs.len() > 0 {
            let st = Self::step(p, obs[0].0, obs[0].1);
            assert(obs[0].0 && 1 <= obs[0].1 <= 2);
            Self::lemma_unresolved_observations_keep_pending(st.0, obs.drop_first());
        }
    }
}

} // verus!
