//! What full evaluations are attributed to.
//!
//! A full layer pass is always a correct answer, so nothing here is a claim about the
//! rules. These tests pin which kind of change each mutation reports.

use layer_differential::differential::Harness;
use layer_differential::events::GameEvent;
use layer_differential::game_object::{BestowFormState, CounterType, PhaseOutCause};
use layer_differential::game_state::{Duration, EscalationReason, FullEvalClass, GameState};
use layer_differential::identifiers::{CardId, ObjectId, PlayerId, Zone};
use layer_differential::layers::{flush_layers, mark_layers_entered, prune_end_of_turn_effects};
use layer_differential::pairing;
use layer_differential::perf_counters::{LayersAttribution, PerfCounters};
use layer_differential::phasing;
use layer_differential::vocabulary::{
    ContinuousModification, CoreType, StaticDefinition, TargetFilter, TypeFilter, TypedFilter,
};
use layer_differential::zones::{create_object, move_to_zone};

fn make_creature(state: &mut GameState, name: &str, zone: Zone) -> ObjectId {
    let id = create_object(state, CardId(0), PlayerId(0), name.to_string(), zone);
    let timestamp = state.next_timestamp();
    let object = state.objects.get_mut(&id).expect("created object exists");
    object.live.card_types.core_types.push(CoreType::Creature);
    object.base.card_types = object.live.card_types.clone();
    object.live.power = Some(2);
    object.live.toughness = Some(2);
    object.base.power = Some(2);
    object.base.toughness = Some(2);
    object.timestamp = timestamp;
    id
}

/// Flushes with the harness on.
fn flush(state: &mut GameState, counters: &mut PerfCounters) {
    flush_layers(state, &mut Harness::new(true), counters).unwrap();
}

/// Pays whatever the fixture owed and zeroes the counters, so that each test's assertions
/// describe exactly one window.
fn settle(state: &mut GameState, counters: &mut PerfCounters) {
    flush(state, counters);
    counters.reset();
    counters.layers_attribution_reset();
    assert!(
        state.layers_full_classes.is_empty(),
        "settle() must leave no pending class marks"
    );
}

fn windows(attr: &LayersAttribution, class: FullEvalClass) -> u64 {
    attr.class_windows[class.index()]
}

/// Asserts that `expected` is exactly the set of classes credited with a window.
fn assert_classes(attr: &LayersAttribution, expected: &[FullEvalClass]) {
    let actual: Vec<FullEvalClass> = FullEvalClass::ALL
        .into_iter()
        .filter(|c| windows(attr, *c) > 0)
        .collect();
    assert_eq!(
        actual, expected,
        "credited classes differ (windows: full={}, unattributed={})",
        attr.full_windows, attr.unattributed_windows
    );
}

#[test]
fn library_to_hand_move_is_classed_hand_churn_only() {
    let mut counters = PerfCounters::new();
    let mut state = GameState::new_two_player(42);
    let card = make_creature(&mut state, "Drawn Card", Zone::Library);
    settle(&mut state, &mut counters);

    let mut events: Vec<GameEvent> = Vec::new();
    move_to_zone(&mut state, card, Zone::Hand, &mut events);
    flush(&mut state, &mut counters);

    let attr = counters.layers_attribution_snapshot();
    assert_eq!(attr.full_windows, 1);
    assert_eq!(attr.unattributed_windows, 0);
    assert_classes(&attr, &[FullEvalClass::HandChurn]);
}

#[test]
fn battlefield_to_graveyard_move_is_classed_battlefield_exit_not_hand_churn() {
    let mut counters = PerfCounters::new();
    let mut state = GameState::new_two_player(42);
    let creature = make_creature(&mut state, "Dying Creature", Zone::Battlefield);
    settle(&mut state, &mut counters);

    let mut events: Vec<GameEvent> = Vec::new();
    move_to_zone(&mut state, creature, Zone::Graveyard, &mut events);
    flush(&mut state, &mut counters);

    let attr = counters.layers_attribution_snapshot();
    assert_eq!(attr.full_windows, 1);
    assert_classes(&attr, &[FullEvalClass::BattlefieldExit]);
}

#[test]
fn hand_to_battlefield_entry_is_classed_both_entry_and_hand_churn() {
    let mut counters = PerfCounters::new();
    let mut state = GameState::new_two_player(42);
    let creature = make_creature(&mut state, "Played Creature", Zone::Hand);
    settle(&mut state, &mut counters);

    let mut events: Vec<GameEvent> = Vec::new();
    move_to_zone(&mut state, creature, Zone::Battlefield, &mut events);
    flush(&mut state, &mut counters);

    let attr = counters.layers_attribution_snapshot();
    assert_eq!(attr.full_windows, 1);
    // The same window is both an entry from a hand or exile and hand churn.
    assert_classes(
        &attr,
        &[FullEvalClass::EntryHandExile, FullEvalClass::HandChurn],
    );
}

/// A plain entry from the graveyard opens no full window at all, so the tests above do not
/// pass merely because nothing was marked.
#[test]
fn plain_battlefield_entry_takes_incremental_path_and_opens_no_full_window() {
    let mut counters = PerfCounters::new();
    let mut state = GameState::new_two_player(42);
    let creature = make_creature(&mut state, "Reanimated Creature", Zone::Graveyard);
    settle(&mut state, &mut counters);

    let mut events: Vec<GameEvent> = Vec::new();
    move_to_zone(&mut state, creature, Zone::Battlefield, &mut events);
    flush(&mut state, &mut counters);

    assert_eq!(counters.layers_incremental, 1, "expected the fast path");
    assert_eq!(counters.layers_escalated, 0);

    let attr = counters.layers_attribution_snapshot();
    assert_eq!(attr.full_windows, 0);
    assert_eq!(attr.unattributed_windows, 0);
    assert_classes(&attr, &[]);
}

/// The bestow revert fires inside the same window as the exit, so one window carries two
/// classes.
#[test]
fn bestowed_aura_leaving_battlefield_is_classed_form_change_and_exit() {
    let mut counters = PerfCounters::new();
    let mut state = GameState::new_two_player(42);
    let aura = make_creature(&mut state, "Bestowed Aura", Zone::Battlefield);
    state
        .objects
        .get_mut(&aura)
        .expect("aura exists")
        .bestow_form = Some(BestowFormState);
    settle(&mut state, &mut counters);

    let mut events: Vec<GameEvent> = Vec::new();
    move_to_zone(&mut state, aura, Zone::Graveyard, &mut events);
    flush(&mut state, &mut counters);

    assert!(
        state.objects.get(&aura).unwrap().bestow_form.is_none(),
        "the revert must actually have run, or FormChange would be vacuous"
    );
    let attr = counters.layers_attribution_snapshot();
    assert_eq!(attr.full_windows, 1);
    assert_classes(
        &attr,
        &[FullEvalClass::BattlefieldExit, FullEvalClass::FormChange],
    );
}

#[test]
fn soulbond_pairing_is_classed_attach() {
    let mut counters = PerfCounters::new();
    let mut state = GameState::new_two_player(42);
    let first = make_creature(&mut state, "Soulbond Host", Zone::Battlefield);
    let second = make_creature(&mut state, "Soulbond Partner", Zone::Battlefield);
    settle(&mut state, &mut counters);

    pairing::pair_objects(&mut state, first, second, PlayerId(0));
    flush(&mut state, &mut counters);

    let attr = counters.layers_attribution_snapshot();
    assert_eq!(attr.full_windows, 1);
    assert_classes(&attr, &[FullEvalClass::Attach]);
    assert_eq!(state.objects.get(&first).unwrap().paired_with, Some(second));
    assert_eq!(state.objects.get(&second).unwrap().paired_with, Some(first));
}

#[test]
fn phasing_out_a_permanent_is_classed_phasing() {
    let mut counters = PerfCounters::new();
    let mut state = GameState::new_two_player(42);
    let creature = make_creature(&mut state, "Phasing Creature", Zone::Battlefield);
    settle(&mut state, &mut counters);

    let mut events: Vec<GameEvent> = Vec::new();
    let phased =
        phasing::phase_out_object(&mut state, creature, PhaseOutCause::Directly, &mut events);
    assert_eq!(phased, vec![creature], "the phase-out must have happened");
    flush(&mut state, &mut counters);

    let attr = counters.layers_attribution_snapshot();
    assert_eq!(attr.full_windows, 1);
    assert_classes(&attr, &[FullEvalClass::Phasing]);
}

#[test]
fn end_of_turn_effect_prune_is_classed_transient_effect() {
    let mut counters = PerfCounters::new();
    let mut state = GameState::new_two_player(42);
    let creature = make_creature(&mut state, "Pumped Creature", Zone::Battlefield);
    state.add_transient_continuous_effect(
        creature,
        PlayerId(0),
        Duration::UntilEndOfTurn,
        TargetFilter::SpecificObject { id: creature },
        vec![ContinuousModification::AddPower { value: 1 }],
    );
    settle(&mut state, &mut counters);
    assert_eq!(state.objects.get(&creature).unwrap().live.power, Some(3));

    prune_end_of_turn_effects(&mut state);
    flush(&mut state, &mut counters);

    let attr = counters.layers_attribution_snapshot();
    assert_eq!(attr.full_windows, 1);
    assert_classes(&attr, &[FullEvalClass::TransientEffect]);
    assert_eq!(state.objects.get(&creature).unwrap().live.power, Some(2));
}

/// Several marks between two flushes collapse into one window that credits every class, in
/// whichever order they came.
#[test]
fn multiple_classes_in_one_window_share_a_single_full_window() {
    for reverse in [false, true] {
        let mut counters = PerfCounters::new();
        let mut state = GameState::new_two_player(42);
        let first = make_creature(&mut state, "Soulbond Host", Zone::Battlefield);
        let second = make_creature(&mut state, "Soulbond Partner", Zone::Battlefield);
        state.add_transient_continuous_effect(
            first,
            PlayerId(0),
            Duration::UntilEndOfTurn,
            TargetFilter::SpecificObject { id: first },
            vec![ContinuousModification::AddPower { value: 1 }],
        );
        settle(&mut state, &mut counters);

        if reverse {
            prune_end_of_turn_effects(&mut state);
            pairing::pair_objects(&mut state, first, second, PlayerId(0));
        } else {
            pairing::pair_objects(&mut state, first, second, PlayerId(0));
            prune_end_of_turn_effects(&mut state);
        }
        flush(&mut state, &mut counters);

        let attr = counters.layers_attribution_snapshot();
        assert_eq!(attr.full_windows, 1, "reverse={reverse}");
        assert_classes(
            &attr,
            &[FullEvalClass::Attach, FullEvalClass::TransientEffect],
        );
    }
}

/// A full mark without a class lands in `unattributed_windows` rather than being credited to
/// some class.
#[test]
fn unclassed_mark_lands_in_the_unattributed_bucket() {
    let mut counters = PerfCounters::new();
    let mut state = GameState::new_two_player(42);
    make_creature(&mut state, "Bystander", Zone::Battlefield);
    settle(&mut state, &mut counters);

    state.layers_dirty.mark_full();
    flush(&mut state, &mut counters);

    let attr = counters.layers_attribution_snapshot();
    assert_eq!(attr.full_windows, 1);
    assert_eq!(attr.unattributed_windows, 1);
    assert_classes(&attr, &[]);
}

/// A class mark on a window that never becomes full cannot leak into the next full window.
#[test]
fn class_mark_on_a_non_full_window_does_not_leak_forward() {
    let mut counters = PerfCounters::new();
    let mut state = GameState::new_two_player(42);
    make_creature(&mut state, "Bystander", Zone::Battlefield);
    settle(&mut state, &mut counters);

    // A stray class mark on a clean board: nothing to flush, mark drained.
    state.layers_full_classes.insert(FullEvalClass::Combat);
    flush(&mut state, &mut counters);
    assert_eq!(counters.layers_attribution_snapshot().full_windows, 0);

    state.layers_dirty.mark_full();
    flush(&mut state, &mut counters);

    let attr = counters.layers_attribution_snapshot();
    assert_eq!(attr.full_windows, 1);
    assert_eq!(
        attr.unattributed_windows, 1,
        "the stray Combat mark must not have been carried into this window"
    );
    assert_classes(&attr, &[]);
}

#[test]
fn entered_object_that_already_left_is_classed_entered_missing() {
    let mut counters = PerfCounters::new();
    let mut state = GameState::new_two_player(42);
    settle(&mut state, &mut counters);

    mark_layers_entered(&mut state, ObjectId(9_999));
    flush(&mut state, &mut counters);

    let attr = counters.layers_attribution_snapshot();
    // An escalation is counted as an escalation, never as a classed full window.
    assert_eq!(attr.full_windows, 0);
    assert_eq!(attr.unattributed_windows, 0);
    assert_eq!(
        attr.escalation_windows[EscalationReason::EnteredMissing.index()],
        1
    );
    assert_eq!(counters.layers_escalated, 1);
}

#[test]
fn entered_object_with_counters_is_classed_entered_blocks_incremental() {
    let mut counters = PerfCounters::new();
    let mut state = GameState::new_two_player(42);
    let creature = make_creature(&mut state, "Countered Creature", Zone::Battlefield);
    state
        .objects
        .get_mut(&creature)
        .expect("creature exists")
        .counters
        .insert(CounterType::Plus1Plus1, 1);
    settle(&mut state, &mut counters);

    mark_layers_entered(&mut state, creature);
    flush(&mut state, &mut counters);

    let attr = counters.layers_attribution_snapshot();
    assert_eq!(attr.full_windows, 0);
    assert_eq!(
        attr.escalation_windows[EscalationReason::EnteredBlocksIncremental.index()],
        1
    );
    for reason in EscalationReason::ALL {
        if reason != EscalationReason::EnteredBlocksIncremental {
            assert_eq!(
                attr.escalation_windows[reason.index()],
                0,
                "unexpected {} escalation",
                reason.name()
            );
        }
    }
    assert_eq!(state.objects.get(&creature).unwrap().live.power, Some(3));
}

/// `ALL` must be duplicate-free and ordered by `index()`, or every per-class counter above
/// would address the wrong slot.
#[test]
fn class_and_reason_indices_are_dense_and_ordered() {
    for (i, class) in FullEvalClass::ALL.into_iter().enumerate() {
        assert_eq!(class.index(), i, "{} is out of order", class.name());
    }
    assert_eq!(FullEvalClass::ALL.len(), FullEvalClass::COUNT);
    for (i, reason) in EscalationReason::ALL.into_iter().enumerate() {
        assert_eq!(reason.index(), i, "{} is out of order", reason.name());
    }
    assert_eq!(EscalationReason::ALL.len(), EscalationReason::COUNT);
}

#[test]
fn an_entering_anthem_escalates() {
    let mut counters = PerfCounters::new();
    let mut state = GameState::new_two_player(42);
    let creature = make_creature(&mut state, "Bystander", Zone::Battlefield);
    let anthem = make_creature(&mut state, "Lord", Zone::Graveyard);
    state.objects.get_mut(&anthem).unwrap().live.static_definitions = vec![
        StaticDefinition::continuous()
            .affected(TargetFilter::Typed(TypedFilter::new(TypeFilter::Creature)))
            .modifications(vec![ContinuousModification::AddToughness { value: 2 }]),
    ];
    settle(&mut state, &mut counters);

    let mut events: Vec<GameEvent> = Vec::new();
    move_to_zone(&mut state, anthem, Zone::Battlefield, &mut events);
    assert_eq!(
        events,
        vec![GameEvent::ZoneChanged {
            object: anthem,
            from: Zone::Graveyard,
            to: Zone::Battlefield,
        }]
    );
    flush(&mut state, &mut counters);
    let attr = counters.layers_attribution_snapshot();
    assert_eq!(
        attr.escalation_windows[EscalationReason::EnteredBlocksIncremental.index()],
        1
    );
    assert_eq!(state.objects.get(&creature).unwrap().live.toughness, Some(4));
    assert_eq!(state.objects.get(&anthem).unwrap().live.toughness, Some(4));
}

#[test]
fn moves_of_no_class_leave_the_layers_alone() {
    let mut counters = PerfCounters::new();
    let mut state = GameState::new_two_player(42);
    let card = make_creature(&mut state, "Milled Card", Zone::Library);
    settle(&mut state, &mut counters);
    let mut events: Vec<GameEvent> = Vec::new();
    move_to_zone(&mut state, card, Zone::Graveyard, &mut events);
    move_to_zone(&mut state, card, Zone::Graveyard, &mut events);
    move_to_zone(&mut state, ObjectId(77), Zone::Hand, &mut events);
    assert_eq!(events.len(), 1);
    flush(&mut state, &mut counters);
    assert_eq!(counters.layers_attribution_snapshot().full_windows, 0);
    assert_eq!(counters.layers_incremental, 0);
    assert_eq!(counters.layers_escalated, 0);
}

#[test]
fn pairing_needs_two_free_permanents_of_one_player() {
    let mut state = GameState::new_two_player(42);
    let first = make_creature(&mut state, "First", Zone::Battlefield);
    let second = make_creature(&mut state, "Second", Zone::Battlefield);
    let third = make_creature(&mut state, "Third", Zone::Battlefield);
    pairing::pair_objects(&mut state, first, first, PlayerId(0));
    pairing::pair_objects(&mut state, first, second, PlayerId(1));
    assert_eq!(state.objects.get(&first).unwrap().paired_with, None);
    pairing::pair_objects(&mut state, first, second, PlayerId(0));
    pairing::pair_objects(&mut state, third, second, PlayerId(0));
    assert_eq!(state.objects.get(&second).unwrap().paired_with, Some(first));
    assert_eq!(state.objects.get(&third).unwrap().paired_with, None);
}

#[test]
fn phasing_out_twice_does_nothing_more() {
    let mut state = GameState::new_two_player(42);
    let creature = make_creature(&mut state, "Phasing Creature", Zone::Battlefield);
    let mut events: Vec<GameEvent> = Vec::new();
    phasing::phase_out_object(&mut state, creature, PhaseOutCause::Indirectly, &mut events);
    let again =
        phasing::phase_out_object(&mut state, creature, PhaseOutCause::Directly, &mut events);
    assert!(again.is_empty());
    assert_eq!(events.len(), 1);
    assert_eq!(
        state.objects.get(&creature).unwrap().phased_out,
        Some(PhaseOutCause::Indirectly)
    );
}

#[test]
fn lasting_effects_survive_the_turn() {
    let mut state = GameState::new_two_player(42);
    let creature = make_creature(&mut state, "Blessed Creature", Zone::Battlefield);
    state.add_transient_continuous_effect(
        creature,
        PlayerId(0),
        Duration::Permanent,
        TargetFilter::SpecificObject { id: creature },
        vec![ContinuousModification::AddPower { value: 2147483647 }],
    );
    let mut counters = PerfCounters::new();
    settle(&mut state, &mut counters);
    prune_end_of_turn_effects(&mut state);
    flush(&mut state, &mut counters);
    assert_eq!(counters.layers_attribution_snapshot().full_windows, 0);
    assert_eq!(state.transient_effects.len(), 1);
    // Power stops at the largest number it can hold.
    assert_eq!(
        state.objects.get(&creature).unwrap().live.power,
        Some(2147483647)
    );
}
