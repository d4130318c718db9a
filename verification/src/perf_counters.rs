//! Counters of the work that layer flushes do, and of what made it necessary.
//!
//! The counters belong to one thread of the engine, and stop at their largest value.

use vstd::prelude::*;

use crate::game_state::{EscalationReason, FullEvalClass, FullEvalClasses};

verus! {

/// One more, as far as the counter goes.
pub open spec fn bumped(count: u64) -> u64 {
    if count < u64::MAX {
        (count + 1) as u64
    } else {
        count
    }
}

fn bump(count: u64) -> (more: u64)
    ensures
        more == bumped(count),
{
    if count < u64::MAX {
        count + 1
    } else {
        count
    }
}

/// Which kinds of change the flushes that were not incremental are owed to.
#[derive(Clone, Copy, Debug)]
pub struct LayersAttribution {
    /// Flushes that found a full evaluation owed.
    pub full_windows: u64,
    /// Those of them to which no class was attached.
    pub unattributed_windows: u64,
    /// For each class, those of them to which it was attached.
    pub class_windows: [u64; FullEvalClass::COUNT],
    /// For each reason, incremental flushes that gave way to a full evaluation.
    pub escalation_windows: [u64; EscalationReason::COUNT],
}

/// The counters of an attribution.
#[verifier::ext_equal]
pub struct LayersAttributionView {
    pub full_windows: u64,
    pub unattributed_windows: u64,
    pub class_windows: Seq<u64>,
    pub escalation_windows: Seq<u64>,
}

impl View for LayersAttribution {
    type V = LayersAttributionView;

    open spec fn view(&self) -> LayersAttributionView {
        LayersAttributionView {
            full_windows: self.full_windows,
            unattributed_windows: self.unattributed_windows,
            class_windows: self.class_windows@,
            escalation_windows: self.escalation_windows@,
        }
    }
}

/// An attribution that has seen nothing.
pub open spec fn nothing_attributed() -> LayersAttributionView {
    LayersAttributionView {
        full_windows: 0,
        unattributed_windows: 0,
        class_windows: Seq::new(FullEvalClass::COUNT as nat, |i: int| 0),
        escalation_windows: Seq::new(EscalationReason::COUNT as nat, |i: int| 0),
    }
}

/// An attribution once a flush has found a full evaluation owed to these classes.
pub open spec fn with_full_window(
    attribution: LayersAttributionView,
    classes: Set<FullEvalClass>,
) -> LayersAttributionView {
    LayersAttributionView {
        full_windows: bumped(attribution.full_windows),
        unattributed_windows: if classes == Set::<FullEvalClass>::empty() {
            bumped(attribution.unattributed_windows)
        } else {
            attribution.unattributed_windows
        },
        class_windows: Seq::new(
            FullEvalClass::COUNT as nat,
            |i: int|
                if classes.contains(FullEvalClass::ALL@[i]) {
                    bumped(attribution.class_windows[i])
                } else {
                    attribution.class_windows[i]
                },
        ),
        escalation_windows: attribution.escalation_windows,
    }
}

/// An attribution once an incremental flush has given way for this reason.
pub open spec fn with_escalation(
    attribution: LayersAttributionView,
    reason: EscalationReason,
) -> LayersAttributionView {
    LayersAttributionView {
        escalation_windows: attribution.escalation_windows.update(
            reason.place(),
            bumped(attribution.escalation_windows[reason.place()]),
        ),
        ..attribution
    }
}

impl LayersAttribution {
    /// An attribution that has seen nothing.
    pub fn new() -> (attribution: Self)
        ensures
            attribution@ == nothing_attributed(),
    {
        let attribution = LayersAttribution {
            full_windows: 0,
            unattributed_windows: 0,
            class_windows: [0; FullEvalClass::COUNT],
            escalation_windows: [0; EscalationReason::COUNT],
        };
        proof {
            assert(attribution@ =~= nothing_attributed());
        }
        attribution
    }

    /// Counts a flush that found a full evaluation owed to these classes.
    pub fn record_full_window(&mut self, classes: &FullEvalClasses)
        ensures
            final(self)@ == with_full_window(old(self)@, classes@),
    {
        let ghost before = *self;
        self.full_windows = bump(self.full_windows);
        if classes.is_empty() {
            self.unattributed_windows = bump(self.unattributed_windows);
        }
        let mut i: usize = 0;
        while i < FullEvalClass::COUNT
            invariant
                i <= FullEvalClass::COUNT,
                self.full_windows == with_full_window(before@, classes@).full_windows,
                self.unattributed_windows
                    == with_full_window(before@, classes@).unattributed_windows,
                self.escalation_windows@ == before.escalation_windows@,
                forall|k: int|
                    0 <= k < FullEvalClass::COUNT ==> #[trigger] self.class_windows@[k] == (if k < i {
                        with_full_window(before@, classes@).class_windows[k]
                    } else {
                        before.class_windows@[k]
                    }),
            decreases FullEvalClass::COUNT - i,
        {
            if classes.contains(FullEvalClass::ALL[i]) {
                let count: u64 = self.class_windows[i];
                self.class_windows[i] = bump(count);
            }
            i = i + 1;
        }
        proof {
            assert(self@ =~= with_full_window(before@, classes@));
        }
    }

    /// Counts an incremental flush that gave way to a full evaluation.
    pub fn record_escalation(&mut self, reason: EscalationReason)
        ensures
            final(self)@ == with_escalation(old(self)@, reason),
    {
        let i: usize = reason.index();
        let count: u64 = self.escalation_windows[i];
        self.escalation_windows[i] = bump(count);
    }
}

/// The counters of one thread.
#[derive(Clone, Copy, Debug)]
pub struct PerfCounters {
    /// Flushes that took the incremental arm.
    pub layers_incremental: u64,
    /// Incremental flushes that gave way to a full evaluation.
    pub layers_escalated: u64,
    /// What full evaluations are owed to.
    pub attribution: LayersAttribution,
    /// How often the active continuous effects were gathered.
    pub active_effect_collections: u64,
    /// Whether gathering is counted at the moment.
    pub observing: bool,
}

/// The counters of one thread.
#[verifier::ext_equal]
pub struct PerfCountersView {
    pub layers_incremental: u64,
    pub layers_escalated: u64,
    pub attribution: LayersAttributionView,
    pub active_effect_collections: u64,
    pub observing: bool,
}

impl View for PerfCounters {
    type V = PerfCountersView;

    open spec fn view(&self) -> PerfCountersView {
        PerfCountersView {
            layers_incremental: self.layers_incremental,
            layers_escalated: self.layers_escalated,
            attribution: self.attribution@,
            active_effect_collections: self.active_effect_collections,
            observing: self.observing,
        }
    }
}

/// The counters once the active effects have been gathered.
pub open spec fn with_collection(counters: PerfCountersView) -> PerfCountersView {
    if counters.observing {
        PerfCountersView {
            active_effect_collections: bumped(counters.active_effect_collections),
            ..counters
        }
    } else {
        counters
    }
}

impl PerfCounters {
    /// Counters that have seen nothing.
    pub fn new() -> (counters: Self)
        ensures
            counters@ == (PerfCountersView {
                layers_incremental: 0,
                layers_escalated: 0,
                attribution: nothing_attributed(),
                active_effect_collections: 0,
                observing: true,
            }),
    {
        PerfCounters {
            layers_incremental: 0,
            layers_escalated: 0,
            attribution: LayersAttribution::new(),
            active_effect_collections: 0,
            observing: true,
        }
    }

    /// Forgets how flushes were done.
    pub fn reset(&mut self)
        ensures
            final(self)@ == (PerfCountersView {
                layers_incremental: 0,
                layers_escalated: 0,
                ..old(self)@
            }),
    {
        self.layers_incremental = 0;
        self.layers_escalated = 0;
    }

    /// Forgets what full evaluations were owed to.
    pub fn layers_attribution_reset(&mut self)
        ensures
            final(self)@ == (PerfCountersView { attribution: nothing_attributed(), ..old(self)@ }),
    {
        self.attribution = LayersAttribution::new();
    }

    /// What full evaluations were owed to.
    pub fn layers_attribution_snapshot(&self) -> (attribution: LayersAttribution)
        ensures
            attribution@ == self@.attribution,
    {
        self.attribution
    }

    /// Counts a gathering of the active effects, unless counting is suspended.
    pub fn record_collection(&mut self)
        ensures
            final(self)@ == with_collection(old(self)@),
    {
        if self.observing {
            self.active_effect_collections = bump(self.active_effect_collections);
        }
    }

    /// Counts a flush that took the incremental arm.
    pub fn record_incremental(&mut self)
        ensures
            final(self)@ == (PerfCountersView {
                layers_incremental: bumped(old(self)@.layers_incremental),
                ..old(self)@
            }),
    {
        self.layers_incremental = bump(self.layers_incremental);
    }

    /// Counts an incremental flush that gave way to a full evaluation.
    pub fn record_escalation(&mut self, reason: EscalationReason)
        ensures
            final(self)@ == (PerfCountersView {
                layers_escalated: bumped(old(self)@.layers_escalated),
                attribution: with_escalation(old(self)@.attribution, reason),
                ..old(self)@
            }),
    {
        self.layers_escalated = bump(self.layers_escalated);
        self.attribution.record_escalation(reason);
    }

    /// Counts a flush that found a full evaluation owed to these classes.
    pub fn record_full_window(&mut self, classes: &FullEvalClasses)
        ensures
            final(self)@ == (PerfCountersView {
                attribution: with_full_window(old(self)@.attribution, classes@),
                ..old(self)@
            }),
    {
        self.attribution.record_full_window(classes);
    }

    /// How often the active effects were gathered.
    pub fn active_effect_collection_count(&self) -> (count: u64)
        ensures
            count == self@.active_effect_collections,
    {
        self.active_effect_collections
    }

    /// Forgets how often the active effects were gathered.
    pub fn reset_active_effect_collection_count(&mut self)
        ensures
            final(self)@ == (PerfCountersView { active_effect_collections: 0, ..old(self)@ }),
    {
        self.active_effect_collections = 0;
    }

    /// Starts or stops counting, and says which it was before.
    pub fn set_observing(&mut self, on: bool) -> (before: bool)
        ensures
            before == old(self)@.observing,
            final(self)@ == (PerfCountersView { observing: on, ..old(self)@ }),
    {
        let before = self.observing;
        self.observing = on;
        before
    }
}

} // verus!
