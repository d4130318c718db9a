//! What holds of the attribution of flushes as a whole.

use vstd::prelude::*;

use crate::game_state::{
    owing_full, EscalationReason, FullEvalClass, GameStateView, LayersDirtyView,
};
use crate::layers::{escalation, flushed, flushed_counters};
use crate::perf_counters::{bumped, nothing_attributed, LayersAttributionView, PerfCountersView};

verus! {

/// Whether an attribution has a counter for every class and for every reason.
pub open spec fn is_complete(attribution: LayersAttributionView) -> bool {
    &&& attribution.class_windows.len() == FullEvalClass::COUNT
    &&& attribution.escalation_windows.len() == EscalationReason::COUNT
}

/// The classes stand at their indices, without gaps and without repetition, and so do the
/// reasons.
pub proof fn indices_are_dense()
    ensures
        FullEvalClass::ALL@.len() == FullEvalClass::COUNT,
        forall|i: int|
            0 <= i < FullEvalClass::COUNT ==> (#[trigger] FullEvalClass::ALL@[i]).place() == i,
        forall|class: FullEvalClass|
            0 <= (#[trigger] class.place()) < FullEvalClass::COUNT
                && FullEvalClass::ALL@[class.place()] == class,
        EscalationReason::ALL@.len() == EscalationReason::COUNT,
        forall|i: int|
            0 <= i < EscalationReason::COUNT ==> (#[trigger] EscalationReason::ALL@[i]).place()
                == i,
        forall|reason: EscalationReason|
            0 <= (#[trigger] reason.place()) < EscalationReason::COUNT
                && EscalationReason::ALL@[reason.place()] == reason,
{
}

/// It does not matter in which order changes are marked.
pub proof fn marks_commute(state: GameStateView, a: FullEvalClass, b: FullEvalClass)
    ensures
        owing_full(owing_full(state, a), b) == owing_full(owing_full(state, b), a),
{
    assert(owing_full(owing_full(state, a), b) =~= owing_full(owing_full(state, b), a));
}

/// However many changes were marked since the last flush, a flush that owes a full
/// evaluation is one full window. It is credited to every class that was marked and to no
/// other, and is unattributed where none was.
pub proof fn marks_share_one_window(
    state: GameStateView,
    counters: PerfCountersView,
    class: FullEvalClass,
)
    requires
        state.layers_dirty is Full,
        is_complete(counters.attribution),
    ensures
        ({
            let before = counters.attribution;
            let after = flushed_counters(state, counters).attribution;
            &&& after.full_windows == bumped(before.full_windows)
            &&& after.class_windows[class.place()] == (if state.layers_full_classes.contains(class) {
                bumped(before.class_windows[class.place()])
            } else {
                before.class_windows[class.place()]
            })
            &&& after.unattributed_windows == (if state.layers_full_classes
                == Set::<FullEvalClass>::empty() {
                bumped(before.unattributed_windows)
            } else {
                before.unattributed_windows
            })
            &&& after.escalation_windows == before.escalation_windows
        }),
{
    indices_are_dense();
}

/// A flush drains every mark, whatever it owed: a full evaluation that is asked for after
/// it without a class is unattributed.
pub proof fn marks_do_not_leak(
    state: GameStateView,
    counters: PerfCountersView,
    class: FullEvalClass,
)
    requires
        is_complete(counters.attribution),
    ensures
        ({
            let next = GameStateView { layers_dirty: LayersDirtyView::Full, ..flushed(state) };
            let before = counters.attribution;
            let after = flushed_counters(next, counters).attribution;
            &&& after.full_windows == bumped(before.full_windows)
            &&& after.unattributed_windows == bumped(before.unattributed_windows)
            &&& after.class_windows[class.place()] == before.class_windows[class.place()]
        }),
{
    let next = GameStateView { layers_dirty: LayersDirtyView::Full, ..flushed(state) };
    marks_share_one_window(next, counters, class);
}

/// A flush that owes entered objects opens no full window. It counts as incremental or, where
/// the escalation gate stops it, as escalated for that reason and for no other.
pub proof fn entries_open_no_full_window(
    state: GameStateView,
    counters: PerfCountersView,
    reason: EscalationReason,
)
    requires
        state.layers_dirty is EnteredObjects,
        is_complete(counters.attribution),
    ensures
        ({
            let stopped = escalation(state.objects, state.layers_dirty->EnteredObjects_0);
            let after = flushed_counters(state, counters);
            &&& after.attribution.full_windows == counters.attribution.full_windows
            &&& after.attribution.unattributed_windows == counters.attribution.unattributed_windows
            &&& after.attribution.class_windows == counters.attribution.class_windows
            &&& after.attribution.escalation_windows[reason.place()] == (if stopped == Some(reason) {
                bumped(counters.attribution.escalation_windows[reason.place()])
            } else {
                counters.attribution.escalation_windows[reason.place()]
            })
            &&& after.layers_escalated == (if stopped is Some {
                bumped(counters.layers_escalated)
            } else {
                counters.layers_escalated
            })
            &&& after.layers_incremental == (if stopped is None {
                bumped(counters.layers_incremental)
            } else {
                counters.layers_incremental
            })
        }),
{
}

/// A flush leaves nothing to do: a second one right after it changes nothing and counts
/// nothing.
pub proof fn a_second_flush_is_idle(state: GameStateView, counters: PerfCountersView)
    ensures
        flushed(flushed(state)) == flushed(state),
        flushed_counters(flushed(state), counters) == counters,
{
}

/// An attribution starts with nothing in any counter.
pub proof fn attribution_starts_at_nothing()
    ensures
        is_complete(nothing_attributed()),
        nothing_attributed().full_windows == 0,
        nothing_attributed().unattributed_windows == 0,
        forall|i: int|
            0 <= i < FullEvalClass::COUNT ==> #[trigger] nothing_attributed().class_windows[i] == 0,
        forall|i: int|
            0 <= i < EscalationReason::COUNT
                ==> #[trigger] nothing_attributed().escalation_windows[i] == 0,
{
}

} // verus!
