//! The comparator, and the flush it keeps watch over.

use layer_differential::differential::{
    compare_boards, compare_snapshots, comparison_counts, enabled, record_comparison,
    reset_comparison_counts, scratch_before_flush, set_enabled, verify, DifferentialSwitch,
    DivergenceClass, Harness, RecipientDerived, ALL_CLASSES, CLASS_COUNT,
};
use layer_differential::game_object::GameObject;
use layer_differential::game_state::{EscalationReason, GameState, LayersDirty};
use layer_differential::identifiers::{CardId, ObjectId, PlayerId, Zone};
use layer_differential::layers::{
    evaluate_layers, flush_layers, prepare_incremental_flush, reset_recipient_to_base,
};
use layer_differential::perf_counters::PerfCounters;
use layer_differential::vocabulary::{
    AbilityDefinition, AbilityKind, ContinuousModification, CoreType, DisplaySource, Effect, Keyword,
    ManaColor, ManaCost, ManaCostShard, PrintedCardRef, ReplacementDefinition, ReplacementEvent,
    StaticDefinition, StaticMode, TargetFilter, TokenImageRef, TypeFilter, TypedFilter,
};
use layer_differential::zones::create_object;

/// Two green bears under a plain "+1/+1 to creatures you control" anthem: a board whose
/// derived power and toughness come from a continuous effect.
fn anthem_board() -> GameState {
    let mut state = GameState::new_two_player(42);
    for i in 0..2 {
        let id = create_object(
            &mut state,
            CardId(400 + i),
            PlayerId(0),
            format!("Bear{i}"),
            Zone::Battlefield,
        );
        let ts = state.next_timestamp();
        let o = state.objects.get_mut(&id).unwrap();
        o.live.card_types.core_types.push(CoreType::Creature);
        o.base.card_types = o.live.card_types.clone();
        o.live.power = Some(2);
        o.live.toughness = Some(2);
        o.base.power = Some(2);
        o.base.toughness = Some(2);
        o.timestamp = ts;
    }
    let anthem = create_object(
        &mut state,
        CardId(410),
        PlayerId(0),
        "Plain Anthem".to_string(),
        Zone::Battlefield,
    );
    let ts = state.next_timestamp();
    let o = state.objects.get_mut(&anthem).unwrap();
    o.live.card_types.core_types.push(CoreType::Enchantment);
    o.base.card_types = o.live.card_types.clone();
    o.timestamp = ts;
    o.live.static_definitions.push(
        StaticDefinition::new(StaticMode::Continuous)
            .affected(TargetFilter::Typed(TypedFilter::new(TypeFilter::Creature)))
            .modifications(vec![
                ContinuousModification::AddPower { value: 1 },
                ContinuousModification::AddToughness { value: 1 },
            ]),
    );
    state.layers_dirty = LayersDirty::Full;
    state
}

/// A plain 1/1 entering the battlefield, marked as entered.
fn add_plain_bear(state: &mut GameState, card_id: u64) -> ObjectId {
    let id = create_object(
        state,
        CardId(card_id),
        PlayerId(0),
        "Entering Bear".to_string(),
        Zone::Battlefield,
    );
    let ts = state.next_timestamp();
    let o = state.objects.get_mut(&id).unwrap();
    o.live.card_types.core_types.push(CoreType::Creature);
    o.base.card_types = o.live.card_types.clone();
    o.live.power = Some(1);
    o.live.toughness = Some(1);
    o.base.power = Some(1);
    o.base.toughness = Some(1);
    o.timestamp = ts;
    state.layers_dirty.mark_entered(id);
    id
}

/// Flushes with a harness and counters of its own.
fn flush(state: &mut GameState) {
    flush_layers(state, &mut Harness::new(false), &mut PerfCounters::new()).unwrap();
}

/// A recipient of the anthem that was there before.
fn bear_id(state: &GameState) -> ObjectId {
    state
        .objects
        .ids()
        .into_iter()
        .filter(|id| state.objects.get(id).unwrap().live.name.starts_with("Bear"))
        .min()
        .expect("anthem_board puts two bears on the battlefield")
}

fn bear_snapshot(state: &GameState) -> RecipientDerived {
    RecipientDerived::of(state.objects.get(&bear_id(state)).unwrap())
}

/// Perturbs exactly one compared field.
fn perturb(s: &RecipientDerived, class: DivergenceClass) -> RecipientDerived {
    let mut s = s.clone();
    match class {
        // Presence is not a field of the snapshot; it is tested separately by removing an
        // object from one board.
        DivergenceClass::Presence => {}
        DivergenceClass::Name => s.name.push_str("-perturbed"),
        DivergenceClass::Power => s.power = Some(s.power.unwrap_or(0) + 1),
        DivergenceClass::Toughness => s.toughness = Some(s.toughness.unwrap_or(0) + 1),
        DivergenceClass::Loyalty => s.loyalty = Some(s.loyalty.unwrap_or(0) + 1),
        DivergenceClass::CardTypes => s.card_types.push('X'),
        DivergenceClass::ManaCost => s.mana_cost.push('X'),
        DivergenceClass::Keywords => s.keywords.push('X'),
        DivergenceClass::Abilities => s.abilities.push('X'),
        DivergenceClass::ReplacementDefinitions => s.replacement_definitions.push('X'),
        DivergenceClass::StaticDefinitions => s.static_definitions.push('X'),
        DivergenceClass::Color => s.color.push('X'),
        DivergenceClass::PrintedRef => s.printed_ref.push('X'),
        DivergenceClass::DisplaySource => s.display_source.push('X'),
        DivergenceClass::TokenImageRef => s.token_image_ref.push('X'),
        DivergenceClass::Controller => s.controller.push('X'),
        DivergenceClass::AssignsDamageFromToughness => {
            s.assigns_damage_from_toughness = !s.assigns_damage_from_toughness
        }
        DivergenceClass::AssignsDamageAsThoughUnblocked => {
            s.assigns_damage_as_though_unblocked = !s.assigns_damage_as_though_unblocked
        }
        DivergenceClass::AssignsNoCombatDamage => {
            s.assigns_no_combat_damage = !s.assigns_no_combat_damage
        }
    }
    s
}

#[test]
fn identical_boards_report_no_divergence() {
    let mut state = anthem_board();
    flush(&mut state);
    let mut harness = Harness::new(false);
    assert!(compare_boards(&mut harness, &state, &state.clone()).is_empty());
}

#[test]
fn every_field_class_is_reported_under_its_own_name() {
    let mut state = anthem_board();
    flush(&mut state);
    let mut harness = Harness::new(false);
    let base = bear_snapshot(&state);
    for class in ALL_CLASSES {
        if class == DivergenceClass::Presence {
            continue;
        }
        let found = compare_snapshots(&mut harness, ObjectId(1), &base, &perturb(&base, class));
        let classes: Vec<DivergenceClass> = found.iter().map(|d| d.class).collect();
        assert_eq!(
            classes,
            vec![class],
            "perturbing {} must report exactly that class",
            class.label()
        );
    }
}

#[test]
fn every_class_is_actually_compared_not_merely_clean() {
    // A comparator that never looks reports no divergences, exactly like a correct board
    // does. The per-class counters are what tell the two apart, so every class must be > 0
    // after a real comparison.
    let mut state = anthem_board();
    flush(&mut state);
    let mut harness = Harness::new(false);
    reset_comparison_counts(&mut harness);
    compare_boards(&mut harness, &state, &state.clone());
    let counts = comparison_counts(&harness);
    for class in ALL_CLASSES {
        assert!(
            counts[class.index()] > 0,
            "class {} was never compared",
            class.label()
        );
    }
}

#[test]
fn a_missing_object_is_a_presence_divergence() {
    let mut state = anthem_board();
    flush(&mut state);
    let mut short = state.clone();
    let victim = bear_id(&state);
    short.objects.remove(&victim);
    let found = compare_boards(&mut Harness::new(false), &short, &state);
    assert_eq!(found.len(), 1);
    assert_eq!(found[0].class, DivergenceClass::Presence);
    assert_eq!(found[0].object, victim);
}

/// One perturbation of a live field, named for the reset field it stands for.
type Perturbation = (&'static str, fn(&mut GameObject));

const RESET_FIELD_PERTURBATIONS: &[Perturbation] = &[
    ("name", |o| o.live.name.push_str("-perturbed")),
    ("power", |o| o.live.power = Some(o.live.power.unwrap_or(0) + 7)),
    ("toughness", |o| {
        o.live.toughness = Some(o.live.toughness.unwrap_or(0) + 7)
    }),
    ("loyalty", |o| {
        o.live.loyalty = Some(o.live.loyalty.unwrap_or(0) + 7)
    }),
    ("card_types", |o| {
        o.live.card_types.core_types.push(CoreType::Artifact)
    }),
    ("mana_cost", |o| {
        o.live.mana_cost = ManaCost::Cost {
            shards: vec![ManaCostShard::Green],
            generic: 3,
        }
    }),
    ("keywords", |o| o.live.keywords.push(Keyword::Flying)),
    ("abilities", |o| {
        o.live
            .abilities
            .push(AbilityDefinition::new(AbilityKind::Activated, Effect::NoOp))
    }),
    ("replacement_definitions", |o| {
        o.live.replacement_definitions = vec![ReplacementDefinition::new(ReplacementEvent::Draw)]
    }),
    ("static_definitions", |o| {
        o.live.static_definitions = vec![StaticDefinition::continuous()]
    }),
    ("color", |o| o.live.color.push(ManaColor::Blue)),
    ("printed_ref", |o| {
        o.live.printed_ref = Some(PrintedCardRef {
            oracle_id: "perturbed".to_string(),
            face_name: "perturbed".to_string(),
        })
    }),
    ("display_source", |o| {
        o.live.display_source = DisplaySource::Token
    }),
    ("token_image_ref", |o| {
        o.live.token_image_ref = Some(TokenImageRef {
            scryfall_id: "perturbed".to_string(),
            scryfall_oracle_id: None,
            face_name: None,
            preset_id: "perturbed".to_string(),
        })
    }),
    ("controller", |o| o.controller = PlayerId(1)),
    ("assigns_damage_from_toughness", |o| {
        o.assigns_damage_from_toughness = true
    }),
    ("assigns_damage_as_though_unblocked", |o| {
        o.assigns_damage_as_though_unblocked = true
    }),
    ("assigns_no_combat_damage", |o| {
        o.assigns_no_combat_damage = true
    }),
];

#[test]
fn every_reset_field_is_observed_by_the_comparator() {
    // For each field that the reset writes, two things must hold: perturbing the live value
    // moves the snapshot, and the reset erases the perturbation. The board is already fully
    // derived, so a recipient's power is 3 before the reset and 2 after.
    let mut state = anthem_board();
    flush(&mut state);
    let id = bear_id(&state);

    let mut clean = state.clone();
    reset_recipient_to_base(clean.objects.get_mut(&id).unwrap());
    let reset_clean = RecipientDerived::of(clean.objects.get(&id).unwrap());

    for (field, perturb_obj) in RESET_FIELD_PERTURBATIONS {
        let mut scratch = state.clone();
        let obj = scratch.objects.get_mut(&id).unwrap();
        let before = RecipientDerived::of(obj);
        perturb_obj(obj);
        assert_ne!(
            before,
            RecipientDerived::of(obj),
            "reset field `{field}` is invisible to the comparator's snapshot"
        );
        reset_recipient_to_base(obj);
        assert_eq!(
            RecipientDerived::of(obj),
            reset_clean,
            "reset did not erase the perturbation of `{field}`"
        );
    }
    assert_eq!(bear_snapshot(&state).power, Some(3));
    assert_eq!(reset_clean.power, Some(2));
}

#[test]
fn an_incremental_entry_matches_a_full_pass() {
    // With verification switched on, a plain creature entering under a plain anthem must
    // take the incremental arm and agree with a full evaluation of the same board.
    let mut harness = Harness::new(false);
    let mut counters = PerfCounters::new();
    let mut state = anthem_board();
    flush_layers(&mut state, &mut harness, &mut counters).unwrap();
    add_plain_bear(&mut state, 420);
    assert!(
        matches!(state.layers_dirty, LayersDirty::EnteredObjects(_)),
        "entry must mark the incremental dirty state, not Full"
    );

    let was = set_enabled(&mut harness, true);
    reset_comparison_counts(&mut harness);
    flush_layers(&mut state, &mut harness, &mut counters).unwrap();
    set_enabled(&mut harness, was);

    assert!(
        comparison_counts(&harness)[DivergenceClass::Power.index()] > 0,
        "verification never ran -- the harness would report clean on any board"
    );
    // The entered bear is 1/1 base and must have taken the anthem's +1/+1.
    let entered = state
        .objects
        .ids()
        .into_iter()
        .map(|id| state.objects.get(&id).unwrap())
        .find(|o| o.live.name == "Entering Bear")
        .map(|o| (o.live.power, o.live.toughness))
        .unwrap();
    assert_eq!(entered, (Some(2), Some(2)));
}

#[test]
#[should_panic(expected = "differential-flush divergence")]
fn a_corrupted_incremental_board_is_caught() {
    // The harness fails when it should: corrupt the incremental board after the pass, then
    // verify against the honest scratch.
    let mut state = anthem_board();
    flush(&mut state);
    let scratch = state.clone();
    let id = bear_id(&state);
    state.objects.get_mut(&id).unwrap().live.power = Some(99);
    let outcome = verify(
        &mut Harness::new(true),
        &mut PerfCounters::new(),
        &state,
        Some(scratch),
    );
    if let Err(message) = outcome {
        panic!("{message}");
    }
}

#[test]
fn the_shadow_pass_is_invisible_to_the_work_counters() {
    let mut harness = Harness::new(false);
    let mut counters = PerfCounters::new();
    let mut state = anthem_board();
    flush_layers(&mut state, &mut harness, &mut counters).unwrap();
    add_plain_bear(&mut state, 421);

    let was = set_enabled(&mut harness, true);
    reset_comparison_counts(&mut harness);
    counters.reset_active_effect_collection_count();
    flush_layers(&mut state, &mut harness, &mut counters).unwrap();
    let with_harness = counters.active_effect_collection_count();
    set_enabled(&mut harness, was);

    assert!(
        comparison_counts(&harness)[DivergenceClass::Power.index()] > 0,
        "the shadow pass must actually have run for this to mean anything"
    );
    assert_eq!(
        with_harness, 1,
        "the incremental flush gathers once; the shadow pass must not be counted"
    );
}

#[test]
fn disabled_verification_clones_nothing() {
    let mut harness = Harness::new(true);
    let mut state = anthem_board();
    flush_layers(&mut state, &mut harness, &mut PerfCounters::new()).unwrap();
    let was = set_enabled(&mut harness, false);
    let scratch = scratch_before_flush(&harness, &state);
    set_enabled(&mut harness, was);
    assert!(scratch.is_none());
}

#[test]
fn enabled_verification_copies_the_board() {
    let mut state = anthem_board();
    flush(&mut state);
    let scratch = scratch_before_flush(&Harness::new(true), &state).unwrap();
    assert_eq!(scratch.objects.ids(), state.objects.ids());
    assert!(compare_boards(&mut Harness::new(true), &scratch, &state).is_empty());
}

#[test]
fn a_divergence_is_reported_with_both_texts() {
    let mut state = anthem_board();
    flush(&mut state);
    let scratch = state.clone();
    let id = bear_id(&state);
    state.objects.get_mut(&id).unwrap().live.power = Some(99);
    state.objects.get_mut(&id).unwrap().live.keywords.push(Keyword::Trample);
    state.objects.get_mut(&id).unwrap().live.keywords.push(Keyword::Flying);
    let message = verify(
        &mut Harness::new(true),
        &mut PerfCounters::new(),
        &state,
        Some(scratch),
    )
    .unwrap_err();
    assert_eq!(
        message,
        "CR 613.1 differential-flush divergence: the entry-incremental pass produced a board \
         different from a full evaluation of the same post-entry state (2 field(s)):\n  \
         ObjectId(1) power: incremental=Some(99) full=Some(3)\n  \
         ObjectId(1) keywords: incremental=[Trample, Flying] full=[]"
    );
}

#[test]
fn verification_without_a_scratch_board_does_nothing() {
    let state = anthem_board();
    let mut harness = Harness::new(true);
    assert!(verify(&mut harness, &mut PerfCounters::new(), &state, None).is_ok());
    assert_eq!(comparison_counts(&harness), [0; CLASS_COUNT]);
}

#[test]
fn the_shadow_pass_leaves_the_observation_setting_as_it_was() {
    let mut state = anthem_board();
    flush(&mut state);
    for observing in [false, true] {
        let mut counters = PerfCounters::new();
        counters.set_observing(observing);
        verify(&mut Harness::new(true), &mut counters, &state, Some(state.clone())).unwrap();
        assert_eq!(counters.set_observing(true), observing);
        assert_eq!(counters.active_effect_collection_count(), 0);
    }
}

#[test]
fn counts_tell_presence_from_fields() {
    let mut state = anthem_board();
    flush(&mut state);
    let mut short = state.clone();
    short.objects.remove(&bear_id(&state));
    let mut harness = Harness::new(false);
    compare_boards(&mut harness, &short, &state);
    let counts = comparison_counts(&harness);
    assert_eq!(counts[DivergenceClass::Presence.index()], 3);
    for class in ALL_CLASSES {
        if class != DivergenceClass::Presence {
            assert_eq!(counts[class.index()], 2, "{}", class.label());
        }
    }
    reset_comparison_counts(&mut harness);
    record_comparison(&mut harness, DivergenceClass::Color);
    let counts = comparison_counts(&harness);
    assert_eq!(counts[DivergenceClass::Color.index()], 1);
    assert_eq!(counts.iter().sum::<u64>(), 1);
}

#[test]
fn an_object_that_left_one_battlefield_is_still_compared() {
    let mut state = anthem_board();
    flush(&mut state);
    let mut moved = state.clone();
    let id = bear_id(&state);
    moved.objects.get_mut(&id).unwrap().zone = Zone::Graveyard;
    moved.objects.get_mut(&id).unwrap().live.power = Some(7);
    let found = compare_boards(&mut Harness::new(false), &moved, &state);
    assert_eq!(found.len(), 1);
    assert_eq!(found[0].class, DivergenceClass::Power);
    assert_eq!(found[0].incremental, "Some(7)");
    assert_eq!(found[0].full, "Some(3)");
    // Off the battlefield of both boards, nothing is compared.
    let mut gone = state.clone();
    gone.objects.get_mut(&id).unwrap().zone = Zone::Exile;
    assert!(compare_boards(&mut Harness::new(false), &moved, &gone).is_empty());
}

#[test]
fn swapped_boards_swap_the_texts() {
    let mut state = anthem_board();
    flush(&mut state);
    let mut other = state.clone();
    let id = bear_id(&state);
    other.objects.get_mut(&id).unwrap().assigns_no_combat_damage = true;
    other.objects.get_mut(&id).unwrap().controller = PlayerId(1);
    let there = compare_boards(&mut Harness::new(false), &state, &other);
    let back = compare_boards(&mut Harness::new(false), &other, &state);
    assert_eq!(there.len(), 2);
    for (a, b) in there.iter().zip(back.iter()) {
        assert_eq!((a.object, a.class), (b.object, b.class));
        assert_eq!((&a.incremental, &a.full), (&b.full, &b.incremental));
    }
    assert_eq!(there[0].incremental, "PlayerId(0)");
    assert_eq!(there[0].full, "PlayerId(1)");
    assert_eq!(there[1].incremental, "false");
    assert_eq!(there[1].full, "true");
}

#[test]
fn presence_is_reported_from_either_side() {
    let mut state = anthem_board();
    flush(&mut state);
    let mut short = state.clone();
    short.objects.remove(&bear_id(&state));
    let found = compare_boards(&mut Harness::new(false), &state, &short);
    assert_eq!(found[0].incremental, "true");
    assert_eq!(found[0].full, "false");
}

#[test]
fn the_order_of_keywords_is_observed() {
    let mut state = anthem_board();
    flush(&mut state);
    let id = bear_id(&state);
    let mut other = state.clone();
    state.objects.get_mut(&id).unwrap().live.keywords = vec![Keyword::Flying, Keyword::Vigilance];
    other.objects.get_mut(&id).unwrap().live.keywords = vec![Keyword::Vigilance, Keyword::Flying];
    let found = compare_boards(&mut Harness::new(false), &state, &other);
    assert_eq!(found.len(), 1);
    assert_eq!(found[0].class, DivergenceClass::Keywords);
}

#[test]
fn snapshots_hold_the_debug_texts() {
    let mut state = anthem_board();
    flush(&mut state);
    let id = bear_id(&state);
    for (_, perturb_obj) in RESET_FIELD_PERTURBATIONS {
        perturb_obj(state.objects.get_mut(&id).unwrap());
    }
    let o = state.objects.get_mut(&id).unwrap();
    o.live.keywords.push(Keyword::Vigilance);
    o.live.printed_ref = Some(PrintedCardRef {
        oracle_id: "a \"quoted\" \\ name\n".to_string(),
        face_name: "J\u{f6}tun \u{301}".to_string(),
    });
    o.live.token_image_ref = Some(TokenImageRef {
        scryfall_id: "x".to_string(),
        scryfall_oracle_id: Some("\t".to_string()),
        face_name: None,
        preset_id: String::new(),
    });
    o.live.static_definitions = vec![
        StaticDefinition::continuous()
            .affected(TargetFilter::SpecificObject { id: ObjectId(907) })
            .modifications(vec![ContinuousModification::AddPower { value: -2147483648 }]),
        StaticDefinition::continuous()
            .affected(TargetFilter::Typed(TypedFilter::new(TypeFilter::Creature)))
            .modifications(vec![
                ContinuousModification::AddToughness { value: 2147483647 },
                ContinuousModification::AddPower { value: 0 },
            ]),
    ];
    let s = RecipientDerived::of(o);
    assert_eq!(s.name, o.live.name);
    assert_eq!(s.power, o.live.power);
    assert_eq!(s.toughness, o.live.toughness);
    assert_eq!(s.loyalty, o.live.loyalty);
    assert_eq!(s.card_types, format!("{:?}", o.live.card_types));
    assert_eq!(s.mana_cost, format!("{:?}", o.live.mana_cost));
    assert_eq!(s.keywords, format!("{:?}", o.live.keywords));
    assert_eq!(s.abilities, format!("{:?}", o.live.abilities));
    assert_eq!(
        s.replacement_definitions,
        format!("{:?}", o.live.replacement_definitions)
    );
    assert_eq!(s.static_definitions, format!("{:?}", o.live.static_definitions));
    assert_eq!(s.color, format!("{:?}", o.live.color));
    assert_eq!(s.printed_ref, format!("{:?}", o.live.printed_ref));
    assert_eq!(s.display_source, format!("{:?}", o.live.display_source));
    assert_eq!(s.token_image_ref, format!("{:?}", o.live.token_image_ref));
    assert_eq!(s.controller, format!("{:?}", o.controller));
    assert!(s.assigns_damage_from_toughness);
    assert!(s.assigns_damage_as_though_unblocked);
    assert!(s.assigns_no_combat_damage);
    assert_eq!(
        s.printed_ref,
        "Some(PrintedCardRef { oracle_id: \"a \\\"quoted\\\" \\\\ name\\n\", face_name: \"J\u{f6}tun \\u{301}\" })"
    );
}

#[test]
fn class_indices_are_dense_and_labels_distinct() {
    for (i, class) in ALL_CLASSES.into_iter().enumerate() {
        assert_eq!(class.index(), i);
        for other in ALL_CLASSES {
            assert_eq!(class.label() == other.label(), class == other);
        }
    }
    assert_eq!(ALL_CLASSES.len(), CLASS_COUNT);
    assert_eq!(DivergenceClass::TokenImageRef.label(), "token_image_ref");
    assert_eq!(DivergenceClass::Presence.label(), "presence");
}

#[test]
fn a_switch_restores_the_setting_it_found() {
    for before in [false, true] {
        let mut harness = Harness::new(before);
        let outer = DifferentialSwitch::on(&mut harness);
        assert!(enabled(&harness));
        let inner = DifferentialSwitch::on(&mut harness);
        inner.drop(&mut harness);
        assert!(enabled(&harness));
        outer.drop(&mut harness);
        assert_eq!(enabled(&harness), before);
    }
}

#[test]
fn a_full_evaluation_settles_the_board() {
    let mut state = anthem_board();
    flush(&mut state);
    let mut again = state.clone();
    evaluate_layers(&mut again, &mut PerfCounters::new());
    assert!(compare_boards(&mut Harness::new(false), &again, &state).is_empty());
}

#[test]
fn a_stale_board_is_caught_by_the_flush() {
    // A permanent that was changed behind the layers' back is not derived anew by an
    // incremental flush, and the harness says so.
    let mut harness = Harness::new(true);
    let mut counters = PerfCounters::new();
    let mut state = anthem_board();
    flush_layers(&mut state, &mut harness, &mut counters).unwrap();
    let id = bear_id(&state);
    state.objects.get_mut(&id).unwrap().live.toughness = Some(-12);
    add_plain_bear(&mut state, 422);
    let message = flush_layers(&mut state, &mut harness, &mut counters).unwrap_err();
    assert!(message.ends_with("ObjectId(1) toughness: incremental=Some(-12) full=Some(3)"));
    assert_eq!(counters.layers_incremental, 1);
}

#[test]
fn an_aura_that_enters_derives_its_host_too() {
    let mut harness = Harness::new(true);
    let mut counters = PerfCounters::new();
    let mut state = anthem_board();
    flush_layers(&mut state, &mut harness, &mut counters).unwrap();
    let host = bear_id(&state);
    let aura = create_object(
        &mut state,
        CardId(430),
        PlayerId(0),
        "Strength".to_string(),
        Zone::Battlefield,
    );
    let o = state.objects.get_mut(&aura).unwrap();
    o.attached_to = Some(host);
    o.live.static_definitions.push(
        StaticDefinition::continuous()
            .affected(TargetFilter::SpecificObject { id: host })
            .modifications(vec![ContinuousModification::AddPower { value: 4 }]),
    );
    state.layers_dirty.mark_entered(aura);
    flush_layers(&mut state, &mut harness, &mut counters).unwrap();
    assert_eq!(counters.layers_incremental, 1);
    assert_eq!(counters.layers_escalated, 0);
    assert_eq!(state.objects.get(&host).unwrap().live.power, Some(7));
}

#[test]
fn a_report_goes_by_object_and_then_by_class() {
    let mut state = anthem_board();
    flush(&mut state);
    let mut other = state.clone();
    for id in state.objects.ids() {
        let o = other.objects.get_mut(&id).unwrap();
        o.assigns_damage_from_toughness = true;
        o.live.loyalty = Some(5);
        o.live.name.push('!');
    }
    let found = compare_boards(&mut Harness::new(false), &state, &other);
    let places: Vec<(u64, usize)> = found.iter().map(|d| (d.object.0, d.class.index())).collect();
    let expected: Vec<(u64, usize)> = [1, 2, 3]
        .into_iter()
        .flat_map(|id| [(id, 1), (id, 4), (id, 16)])
        .collect();
    assert_eq!(places, expected);
}

#[test]
fn a_second_flush_changes_nothing() {
    let mut harness = Harness::new(true);
    let mut counters = PerfCounters::new();
    let mut state = anthem_board();
    flush_layers(&mut state, &mut harness, &mut counters).unwrap();
    let settled = state.clone();
    let counted = counters.active_effect_collection_count();
    flush_layers(&mut state, &mut harness, &mut counters).unwrap();
    assert_eq!(counters.active_effect_collection_count(), counted);
    assert_eq!(comparison_counts(&harness), [0; CLASS_COUNT]);
    assert!(compare_boards(&mut harness, &state, &settled).is_empty());
}

#[test]
fn power_stops_at_its_largest_value() {
    let mut state = anthem_board();
    let id = bear_id(&state);
    state.objects.get_mut(&id).unwrap().base.power = Some(i32::MAX);
    flush(&mut state);
    assert_eq!(state.objects.get(&id).unwrap().live.power, Some(i32::MAX));
    assert_eq!(state.objects.get(&id).unwrap().live.toughness, Some(3));
}

#[test]
fn recipients_are_reset_before_the_gate_is_held_to() {
    // Two entries, of which one is gone: the one that is there is stripped all the same, and
    // so is the host it is attached to.
    let mut state = anthem_board();
    flush(&mut state);
    let host = bear_id(&state);
    let entry = add_plain_bear(&mut state, 423);
    let o = state.objects.get_mut(&entry).unwrap();
    o.live.power = Some(50);
    o.attached_to = Some(host);
    let outcome = prepare_incremental_flush(&mut state, &vec![entry, ObjectId(9_999)]);
    assert_eq!(outcome, Err(EscalationReason::EnteredMissing));
    assert_eq!(state.objects.get(&entry).unwrap().live.power, Some(1));
    assert_eq!(state.objects.get(&host).unwrap().live.power, Some(2));
    // The other bear is no recipient and keeps what the anthem gave it.
    assert_eq!(state.objects.get(&ObjectId(2)).unwrap().live.power, Some(3));
}

#[test]
fn an_entry_that_is_gone_leaves_the_flush_a_full_evaluation() {
    let mut harness = Harness::new(true);
    let mut counters = PerfCounters::new();
    let mut state = anthem_board();
    flush_layers(&mut state, &mut harness, &mut counters).unwrap();
    let entry = add_plain_bear(&mut state, 424);
    state.layers_dirty.mark_entered(ObjectId(9_999));
    flush_layers(&mut state, &mut harness, &mut counters).unwrap();
    assert_eq!(counters.layers_escalated, 1);
    assert_eq!(counters.layers_incremental, 0);
    assert_eq!(state.objects.get(&entry).unwrap().live.power, Some(2));
    assert_eq!(state.objects.get(&bear_id(&state)).unwrap().live.power, Some(3));
}

#[test]
fn a_flush_that_compares_nothing_needs_no_room_in_the_counters() {
    let mut harness = Harness::new(true);
    harness.comparisons = [u64::MAX; CLASS_COUNT];
    let mut state = anthem_board();
    flush_layers(&mut state, &mut harness, &mut PerfCounters::new()).unwrap();
    assert_eq!(comparison_counts(&harness), [u64::MAX; CLASS_COUNT]);
}
