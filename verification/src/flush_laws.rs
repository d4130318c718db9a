//! What a flush does, from the marks it finds to the counters it leaves.

use vstd::prelude::*;

use crate::evaluation_laws::{
    incremental_flush_adds_up, is_in_play, is_rederived, preparation_goes_back_to_the_start,
    recipients_are_entries_and_hosts, rises, starting_point,
};
use crate::game_object::GameObjectView;
use crate::game_state::{
    entered_too, EscalationReason, FullEvalClass, GameStateView, LayersDirtyView,
    TransientEffectView,
};
use crate::identifiers::{ObjectId, Zone};
use crate::layer_laws::{
    entry_is_coherent, evaluation_settles, incremental_flush_is_a_full_pass, lemma_same_effects,
};
use crate::layers::{
    blocks_incremental, confined, entry_blocks, escalation, evaluated, everything, flushed,
    flushed_counters, flushes_incrementally, incremental, lemma_derived_where, object_effects,
    prepared, prepared_where, recipients, some_entry_blocks, some_entry_missing, takes_part,
};
use crate::mutation_laws::what_is_in_play_takes_part;
use crate::object_table::{lemma_lookup, Board};
use crate::perf_counters::{bumped, PerfCountersView};
use crate::vocabulary::{StaticDefinitionView, TargetFilter};

verus! {

/// Whether an object of a board is in play.
pub open spec fn some_object_in_play(board: Board, id: ObjectId) -> bool {
    exists|i: int| 0 <= i < board.len() && (#[trigger] board[i]).0 == id && is_in_play(board[i].1)
}

/// Whether a static ability could apply to an object that is not derived anew.
pub open spec fn reaches_out(
    board: Board,
    entered: Seq<ObjectId>,
    ability: StaticDefinitionView,
) -> bool {
    match ability.affected {
        None => false,
        Some(TargetFilter::Typed(_)) => true,
        Some(TargetFilter::SpecificObject { id }) => !is_rederived(board, entered, id),
    }
}

/// Whether an object that entered carries counters, or starts with a static ability that
/// could apply to an object that is not derived anew.
pub open spec fn is_too_much(board: Board, entered: Seq<ObjectId>, object: GameObjectView) -> bool {
    ||| object.counters.plus1_plus1 != 0
    ||| exists|d: int|
        0 <= d < starting_point(object).static_definitions.len() && reaches_out(
            board,
            entered,
            #[trigger] starting_point(object).static_definitions[d],
        )
}

proof fn lemma_too_much(board: Board, entered: Seq<ObjectId>, object: GameObjectView)
    requires
        rises(board),
    ensures
        blocks_incremental(prepared(object), recipients(board, entered)) <==> is_too_much(
            board,
            entered,
            object,
        ),
{
    let chosen = recipients(board, entered);
    preparation_goes_back_to_the_start(object);
    let abilities = starting_point(object).static_definitions;
    assert forall|d: int| 0 <= d < abilities.len() implies reaches_out(
        board,
        entered,
        #[trigger] abilities[d],
    ) == !confined(abilities[d].affected, chosen) by {
        if let Some(TargetFilter::SpecificObject { id }) = abilities[d].affected {
            recipients_are_entries_and_hosts(board, entered, id);
        }
    }
}

/// The escalation gate. It stops entries of which one is not in play, as missing. Otherwise
/// it stops those of which one carries any counters, or has a static ability that could apply
/// to an object that is not derived anew. It lets all others pass.
pub proof fn the_gate_decides(board: Board, entered: Seq<ObjectId>)
    requires
        rises(board),
    ensures
        ({
            let missing = exists|k: int|
                0 <= k < entered.len() && !some_object_in_play(board, #[trigger] entered[k]);
            let too_much = exists|k: int, i: int|
                0 <= k < entered.len() && 0 <= i < board.len() && (#[trigger] board[i]).0
                    == #[trigger] entered[k] && is_too_much(board, entered, board[i].1);
            escalation(board, entered) == (if missing {
                Some(EscalationReason::EnteredMissing)
            } else if too_much {
                Some(EscalationReason::EnteredBlocksIncremental)
            } else {
                None
            })
        }),
{
    assert forall|id: ObjectId| #[trigger] takes_part(board, id) == some_object_in_play(board, id) by {
        what_is_in_play_takes_part(board, id);
    }
    if some_entry_missing(board, entered) {
        let k = choose|k: int| 0 <= k < entered.len() && !takes_part(board, #[trigger] entered[k]);
        assert(!some_object_in_play(board, entered[k]));
    }
    if exists|k: int| 0 <= k < entered.len() && !some_object_in_play(board, #[trigger] entered[k]) {
        let k = choose|k: int|
            0 <= k < entered.len() && !some_object_in_play(board, #[trigger] entered[k]);
        assert(!takes_part(board, entered[k]));
    }
    if some_entry_blocks(board, entered) {
        let k = choose|k: int|
            0 <= k < entered.len() && entry_blocks(board, entered, #[trigger] entered[k]);
        let i = choose|i: int| 0 <= i < board.len() && (#[trigger] board[i]).0 == entered[k];
        lemma_lookup(board, i);
        lemma_too_much(board, entered, board[i].1);
        assert(board[i].0 == entered[k]);
    }
    if exists|k: int, i: int|
        0 <= k < entered.len() && 0 <= i < board.len() && (#[trigger] board[i]).0
            == #[trigger] entered[k] && is_too_much(board, entered, board[i].1) {
        let (k, i) = choose|k: int, i: int|
            0 <= k < entered.len() && 0 <= i < board.len() && (#[trigger] board[i]).0
                == #[trigger] entered[k] && is_too_much(board, entered, board[i].1);
        lemma_lookup(board, i);
        lemma_too_much(board, entered, board[i].1);
        assert(entry_blocks(board, entered, entered[k]));
    }
}

/// Entries that are on the battlefield and phased in, without counters, are never stopped
/// where none of their static abilities has a filter but one that names an entry, or that
/// names the object on the battlefield that the entry is attached to.
pub proof fn confined_entries_pass(board: Board, entered: Seq<ObjectId>)
    requires
        rises(board),
        forall|k: int|
            0 <= k < entered.len() ==> exists|i: int|
                0 <= i < board.len() && (#[trigger] board[i]).0 == #[trigger] entered[k]
                    && board[i].1.zone == Zone::Battlefield && board[i].1.phased_out is None,
        forall|i: int|
            0 <= i < board.len() && entered.contains((#[trigger] board[i]).0)
                ==> board[i].1.base_initialized && board[i].1.counters.plus1_plus1 == 0,
        forall|i: int, d: int|
            0 <= i < board.len() && entered.contains((#[trigger] board[i]).0) && 0 <= d
                < board[i].1.base.static_definitions.len() ==> match (
            #[trigger] board[i].1.base.static_definitions[d]).affected {
                None => true,
                Some(TargetFilter::Typed(_)) => false,
                Some(TargetFilter::SpecificObject { id }) => entered.contains(id) || (
                board[i].1.attached_to == Some(id) && exists|m: int|
                    0 <= m < board.len() && (#[trigger] board[m]).0 == id && board[m].1.zone
                        == Zone::Battlefield && board[m].1.phased_out is None),
            },
    ensures
        escalation(board, entered) is None,
{
    the_gate_decides(board, entered);
    assert forall|k: int| 0 <= k < entered.len() implies some_object_in_play(
        board,
        #[trigger] entered[k],
    ) by {}
    assert forall|k: int, i: int|
        0 <= k < entered.len() && 0 <= i < board.len() && (#[trigger] board[i]).0
            == #[trigger] entered[k] implies !is_too_much(board, entered, board[i].1) by {
        assert(entered.contains(board[i].0));
        let object = board[i].1;
        assert forall|d: int| 0 <= d < starting_point(object).static_definitions.len() implies !reaches_out(
            board,
            entered,
            #[trigger] starting_point(object).static_definitions[d],
        ) by {
            let ability = object.base.static_definitions[d];
            if let Some(TargetFilter::SpecificObject { id }) = ability.affected {
                if entered.contains(id) {
                    let n = choose|n: int| 0 <= n < entered.len() && entered[n] == id;
                    assert(some_object_in_play(board, entered[n]));
                } else {
                    assert(board[i].0 == entered[k] && board[i].1.attached_to == Some(id));
                }
                assert(is_rederived(board, entered, id));
            }
        }
    }
}

/// Entries that are all in play, of which one carries counters, however many, are stopped.
pub proof fn counters_stop_an_entry(board: Board, entered: Seq<ObjectId>, k: int, i: int)
    requires
        rises(board),
        forall|k: int|
            0 <= k < entered.len() ==> exists|i: int|
                0 <= i < board.len() && (#[trigger] board[i]).0 == #[trigger] entered[k]
                    && board[i].1.zone == Zone::Battlefield && board[i].1.phased_out is None,
        0 <= k < entered.len(),
        0 <= i < board.len(),
        board[i].0 == entered[k],
        board[i].1.counters.plus1_plus1 > 0,
    ensures
        escalation(board, entered) == Some(EscalationReason::EnteredBlocksIncremental),
{
    the_gate_decides(board, entered);
    assert forall|k: int| 0 <= k < entered.len() implies some_object_in_play(
        board,
        #[trigger] entered[k],
    ) by {}
    assert(is_too_much(board, entered, board[i].1));
}

/// Entries that are all in play, of which one has a static ability for a type of objects, or
/// for an object that neither entered nor has an entry attached to it, are stopped.
pub proof fn a_reaching_ability_stops_an_entry(
    board: Board,
    entered: Seq<ObjectId>,
    k: int,
    i: int,
    d: int,
)
    requires
        rises(board),
        forall|k: int|
            0 <= k < entered.len() ==> exists|i: int|
                0 <= i < board.len() && (#[trigger] board[i]).0 == #[trigger] entered[k]
                    && board[i].1.zone == Zone::Battlefield && board[i].1.phased_out is None,
        0 <= k < entered.len(),
        0 <= i < board.len(),
        board[i].0 == entered[k],
        board[i].1.base_initialized,
        0 <= d < board[i].1.base.static_definitions.len(),
        match board[i].1.base.static_definitions[d].affected {
            None => false,
            Some(TargetFilter::Typed(_)) => true,
            Some(TargetFilter::SpecificObject { id }) => !entered.contains(id) && forall|m: int|
                0 <= m < board.len() && entered.contains((#[trigger] board[m]).0)
                    ==> board[m].1.attached_to != Some(id),
        },
    ensures
        escalation(board, entered) == Some(EscalationReason::EnteredBlocksIncremental),
{
    the_gate_decides(board, entered);
    assert forall|k: int| 0 <= k < entered.len() implies some_object_in_play(
        board,
        #[trigger] entered[k],
    ) by {}
    let ability = starting_point(board[i].1).static_definitions[d];
    if let Some(TargetFilter::SpecificObject { id }) = ability.affected {
        if is_rederived(board, entered, id) {
            if exists|n: int| 0 <= n < entered.len() && #[trigger] entered[n] == id {
                let n = choose|n: int| 0 <= n < entered.len() && #[trigger] entered[n] == id;
                assert(entered.contains(id));
            } else {
                let (n, m) = choose|n: int, m: int|
                    0 <= n < entered.len() && 0 <= m < board.len() && (#[trigger] board[m]).0
                        == #[trigger] entered[n] && board[m].1.attached_to == Some(id);
                assert(entered.contains(board[m].0));
            }
        }
    }
    assert(reaches_out(board, entered, ability));
    assert(is_too_much(board, entered, board[i].1));
}

/// Entries of which one is not on the battlefield, or not phased in, are missing.
pub proof fn an_absent_entry_is_missing(board: Board, entered: Seq<ObjectId>, k: int)
    requires
        rises(board),
        0 <= k < entered.len(),
        forall|i: int|
            0 <= i < board.len() && (#[trigger] board[i]).0 == entered[k] ==> board[i].1.zone
                != Zone::Battlefield || board[i].1.phased_out is Some,
    ensures
        escalation(board, entered) == Some(EscalationReason::EnteredMissing),
{
    the_gate_decides(board, entered);
    assert(!some_object_in_play(board, entered[k]));
}

/// Entries that are all on the battlefield and phased in are not missing.
pub proof fn present_entries_are_not_missing(board: Board, entered: Seq<ObjectId>)
    requires
        rises(board),
        forall|k: int|
            0 <= k < entered.len() ==> exists|i: int|
                0 <= i < board.len() && (#[trigger] board[i]).0 == #[trigger] entered[k]
                    && board[i].1.zone == Zone::Battlefield && board[i].1.phased_out is None,
    ensures
        escalation(board, entered) != Some(EscalationReason::EnteredMissing),
{
    the_gate_decides(board, entered);
    assert forall|k: int| 0 <= k < entered.len() implies some_object_in_play(
        board,
        #[trigger] entered[k],
    ) by {}
}

/// Objects on the battlefield, phased in, that entered, or to which one that entered is
/// attached, are stripped to their base by the first half of an incremental flush. Where
/// every object in play shows the static abilities of its base, the second half derives them
/// as a full evaluation does.
pub proof fn entries_and_hosts_are_derived_anew(
    board: Board,
    transients: Seq<TransientEffectView>,
    entered: Seq<ObjectId>,
    i: int,
)
    requires
        rises(board),
        0 <= i < board.len(),
        board[i].1.zone == Zone::Battlefield,
        board[i].1.phased_out is None,
        entered.contains(board[i].0) || exists|m: int|
            0 <= m < board.len() && entered.contains((#[trigger] board[m]).0)
                && board[m].1.attached_to == Some(board[i].0),
        board[i].1.base_initialized,
    ensures
        recipients(board, entered)(board[i].0),
        prepared_where(board, recipients(board, entered))[i].1.live == board[i].1.base,
        prepared_where(board, recipients(board, entered))[i].1.controller
            == board[i].1.base_controller,
        (forall|m: int|
            0 <= m < board.len() && (#[trigger] board[m]).1.zone == Zone::Battlefield
                && board[m].1.phased_out is None ==> board[m].1.base_initialized
                && board[m].1.live.static_definitions == board[m].1.base.static_definitions)
            ==> incremental(board, transients, entered)[i] == evaluated(board, transients)[i],
{
    let id = board[i].0;
    assert(is_in_play(board[i].1));
    if entered.contains(id) {
        let k = choose|k: int| 0 <= k < entered.len() && entered[k] == id;
        assert(entered[k] == id);
    } else {
        let m = choose|m: int|
            0 <= m < board.len() && entered.contains((#[trigger] board[m]).0)
                && board[m].1.attached_to == Some(id);
        let k = choose|k: int| 0 <= k < entered.len() && entered[k] == board[m].0;
        assert(board[m].0 == entered[k]);
    }
    recipients_are_entries_and_hosts(board, entered, id);
    let chosen = recipients(board, entered);
    let some = prepared_where(board, chosen);
    let all = prepared_where(board, everything());
    if forall|m: int|
        0 <= m < board.len() && (#[trigger] board[m]).1.zone == Zone::Battlefield
            && board[m].1.phased_out is None ==> board[m].1.base_initialized
            && board[m].1.live.static_definitions == board[m].1.base.static_definitions {
        assert forall|m: int| 0 <= m < some.len() implies object_effects((#[trigger] some[m]).1)
            == object_effects(all[m].1) by {
            assert(board[m].1.zone == board[m].1.zone);
            preparation_goes_back_to_the_start(board[m].1);
        }
        lemma_same_effects(some, all);
    }
}

/// An incremental flush leaves an object as it is that did not enter, and to which nothing
/// that entered is attached; and every object that is not in play.
pub proof fn bystanders_are_left_alone(
    board: Board,
    transients: Seq<TransientEffectView>,
    entered: Seq<ObjectId>,
    i: int,
)
    requires
        rises(board),
        0 <= i < board.len(),
        board[i].1.zone != Zone::Battlefield || board[i].1.phased_out is Some || (!entered.contains(
            board[i].0,
        ) && forall|m: int|
            0 <= m < board.len() && entered.contains((#[trigger] board[m]).0)
                ==> board[m].1.attached_to != Some(board[i].0)),
    ensures
        incremental(board, transients, entered)[i] == board[i],
{
    incremental_flush_adds_up(board, transients, entered, i);
    let id = board[i].0;
    if is_rederived(board, entered, id) {
        let k = choose|k: int|
            0 <= k < board.len() && (#[trigger] board[k]).0 == id && is_in_play(board[k].1);
        if k < i {
            assert(board[k].0.0 < board[i].0.0);
        } else if i < k {
            assert(board[i].0.0 < board[k].0.0);
        }
        if exists|n: int| 0 <= n < entered.len() && #[trigger] entered[n] == id {
            let n = choose|n: int| 0 <= n < entered.len() && #[trigger] entered[n] == id;
            assert(entered.contains(id));
        } else {
            let (n, m) = choose|n: int, m: int|
                0 <= n < entered.len() && 0 <= m < board.len() && (#[trigger] board[m]).0
                    == #[trigger] entered[n] && board[m].1.attached_to == Some(id);
            assert(entered.contains(board[m].0));
        }
    }
}

/// What a flush makes of a state: it settles what is owed and drains every mark, and touches
/// nothing but the objects. Where nothing is owed the objects stay as they are; where a full
/// evaluation is owed, or entries that are stopped, they are evaluated; entries that are not
/// are flushed incrementally.
pub proof fn a_flush_pays_what_is_owed(state: GameStateView)
    ensures
        ({
            let after = flushed(state);
            &&& after.layers_dirty is Clean
            &&& forall|class: FullEvalClass| !(#[trigger] after.layers_full_classes.contains(class))
            &&& after.seed == state.seed
            &&& after.transient_effects == state.transient_effects
            &&& after.next_object_id == state.next_object_id
            &&& after.next_timestamp == state.next_timestamp
            &&& after.objects == (match state.layers_dirty {
                LayersDirtyView::Clean => state.objects,
                LayersDirtyView::Full => evaluated(state.objects, state.transient_effects),
                LayersDirtyView::EnteredObjects(entered) => if escalation(
                    state.objects,
                    entered,
                ) is None {
                    incremental(state.objects, state.transient_effects, entered)
                } else {
                    evaluated(state.objects, state.transient_effects)
                },
            })
            &&& flushes_incrementally(state) <==> (state.layers_dirty matches
                LayersDirtyView::EnteredObjects(entered) && escalation(state.objects, entered) is None)
        }),
{
}

/// Whatever a board owed, once it has been evaluated in full an object can enter, and a flush
/// of that entry ends in the board that a full evaluation makes of all the objects. It does
/// not matter whether the entry is stopped.
pub proof fn an_entry_after_a_flush_ends_in_a_full_pass(
    state: GameStateView,
    id: ObjectId,
    object: GameObjectView,
)
    requires
        rises(state.objects),
        state.layers_dirty is Full,
        forall|i: int| 0 <= i < state.objects.len() ==> (#[trigger] state.objects[i]).0.0 < id.0,
    ensures
        ({
            let objects = flushed(state).objects.push((id, object));
            let next = GameStateView {
                objects,
                layers_dirty: LayersDirtyView::EnteredObjects(seq![id]),
                ..flushed(state)
            };
            flushed(next).objects == evaluated(objects, state.transient_effects)
        }),
{
    let settled = flushed(state);
    let objects = settled.objects.push((id, object));
    evaluation_settles(state.objects, state.transient_effects);
    lemma_derived_where(state.objects, state.transient_effects, everything());
    assert forall|i: int| 0 <= i < settled.objects.len() implies (#[trigger] settled.objects[i]).0.0
        < id.0 by {
        assert(settled.objects[i].0 == state.objects[i].0);
    }
    assert(rises(objects));
    entry_is_coherent(settled, id, object);
    assert(entered_too(settled.layers_dirty, id) == LayersDirtyView::EnteredObjects(seq![id]));
    if escalation(objects, seq![id]) is None {
        incremental_flush_is_a_full_pass(objects, state.transient_effects, seq![id]);
    }
}

/// Every counter counts by one, until it can count no further.
pub proof fn counters_count_by_one(count: u64)
    ensures
        count < u64::MAX ==> bumped(count) == count + 1,
        count == u64::MAX ==> bumped(count) == count,
{
}

/// How a flush is counted: a clean one not at all; one that owed a full evaluation as a full
/// window; one of entries as escalated where they are stopped, and as incremental where
/// they are not. The effects are gathered once in each but the first, and that is counted while
/// counting is on.
pub proof fn a_flush_is_counted_once(state: GameStateView, counters: PerfCountersView)
    requires
        counters.layers_incremental < u64::MAX,
        counters.layers_escalated < u64::MAX,
        counters.attribution.full_windows < u64::MAX,
        counters.active_effect_collections < u64::MAX,
    ensures
        ({
            let after = flushed_counters(state, counters);
            let passed = state.layers_dirty matches LayersDirtyView::EnteredObjects(entered)
                && escalation(state.objects, entered) is None;
            let stopped = state.layers_dirty matches LayersDirtyView::EnteredObjects(entered)
                && escalation(state.objects, entered) is Some;
            &&& after.layers_incremental == counters.layers_incremental + (if passed {
                1int
            } else {
                0int
            })
            &&& after.layers_escalated == counters.layers_escalated + (if stopped {
                1int
            } else {
                0int
            })
            &&& after.attribution.full_windows == counters.attribution.full_windows + (
            if state.layers_dirty is Full {
                1int
            } else {
                0int
            })
            &&& after.active_effect_collections == counters.active_effect_collections + (
            if counters.observing && !(state.layers_dirty is Clean) {
                1int
            } else {
                0int
            })
            &&& after.observing == counters.observing
            &&& state.layers_dirty is Clean ==> after == counters
        }),
{
}

} // verus!
