//! Episode bookkeeping shared by the episode runners: counting intervention
//! windows. The failsafe reports once per control tick whether it overrode
//! the driver; an intervention window is a maximal run of overridden ticks,
//! opened by an off->on transition and closed by an on->off one.

use vstd::prelude::*;

verus! {

/// A window boundary seen on a control tick.
#[derive(Clone, Copy, Debug, PartialEq, Eq, Structural)]
pub enum InterventionEdge {
    /// The failsafe started overriding (off -> on).
    Start,
    /// The failsafe stopped overriding (on -> off).
    End,
}

/// Running count of intervention windows.
#[derive(Clone, Copy, Debug, PartialEq, Eq, Structural)]
pub struct InterventionTracker {
    /// Whether the last observed tick was overridden.
    pub intervening: bool,
    /// Number of distinct intervention windows (off -> on transitions).
    pub interventions: u64,
}

/// The window boundary, if any, between a tick with verdict `was` and the
/// next with verdict `now`.
pub open spec fn edge_between(was: bool, now: bool) -> Option<InterventionEdge> {
    if now && !was {
        Some(InterventionEdge::Start)
    } else if !now && was {
        Some(InterventionEdge::End)
    } else {
        None
    }
}

/// Off -> on transitions in a run of per-tick verdicts that starts off.
pub open spec fn rising_edges(obs: Seq<bool>) -> nat
    decreases obs.len(),
{
    if obs.len() == 0 {
        0
    } else {
        let was = obs.len() > 1 && obs[obs.len() - 2];
        rising_edges(obs.drop_last()) + if obs.last() && !was {
            1nat
        } else {
            0nat
        }
    }
}

/// On -> off transitions in a run of per-tick verdicts that starts off.
pub open spec fn falling_edges(obs: Seq<bool>) -> nat
    decreases obs.len(),
{
    if obs.len() == 0 {
        0
    } else {
        let was = obs.len() > 1 && obs[obs.len() - 2];
        falling_edges(obs.drop_last()) + if !obs.last() && was {
            1nat
        } else {
            0nat
        }
    }
}

impl InterventionTracker {
    /// No tick observed yet: not intervening, no windows.
    pub fn new() -> (t: InterventionTracker)
        ensures
            !t.intervening,
            t.interventions == 0,
    {
        InterventionTracker { intervening: false, interventions: 0 }
    }

    /// Record one control tick's verdict; returns the window boundary it
    /// crosses, if any. A new window is counted on its opening tick.
    pub fn observe(&mut self, intervened: bool) -> (edge: Option<InterventionEdge>)
        requires
            old(self).interventions < u64::MAX,
        ensures
            final(self).intervening == intervened,
            final(self).interventions == old(self).interventions + if intervened && !old(
                self,
            ).intervening {
                1int
            } else {
                0int
            },
            edge == edge_between(old(self).intervening, intervened),
    {
        let edge = if intervened && !self.intervening {
            self.interventions = self.interventions + 1;
            Some(InterventionEdge::Start)
        } else if !intervened && self.intervening {
            Some(InterventionEdge::End)
        } else {
            None
        };
        self.intervening = intervened;
        edge
    }
}

/// The state of a tracker after observing `obs` from a fresh start.
pub open spec fn tracker_after(obs: Seq<bool>) -> (bool, nat)
    decreases obs.len(),
{
    if obs.len() == 0 {
        (false, 0)
    } else {
        let prev = tracker_after(obs.drop_last());
        (obs.last(), prev.1 + if obs.last() && !prev.0 {
            1nat
        } else {
            0nat
        })
    }
}

/// Counting law: after any run of verdicts, the tracker holds the last
/// verdict, has counted exactly the off->on transitions (the intervention
/// windows), and every window but a still-open one has been closed.
pub proof fn lemma_tracker_counts_windows(obs: Seq<bool>)
    ensures
        tracker_after(obs).0 == (obs.len() > 0 && obs.last()),
        tracker_after(obs).1 == rising_edges(obs),
        falling_edges(obs) + (if tracker_after(obs).0 {
            1nat
        } else {
            0nat
        }) == rising_edges(obs),
    decreases obs.len(),
{
    if obs.len() > 0 {
        let p = obs.drop_last();
        lemma_tracker_counts_windows(p);
        if p.len() > 0 {
            assert(p.last() == obs[obs.len() - 2]);
        }
    }
}

} // verus!
