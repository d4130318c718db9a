//! The layers: what continuous effects make of the objects on the battlefield.
//!
//! CR 613.1: the characteristics of an object are found by starting from its base
//! characteristics and applying every continuous effect that applies to it. The effects
//! here add to power and toughness; sums do not depend on the order of their terms, so
//! neither does the result.

use vstd::prelude::*;

use crate::differential::{
    board_divergences, divergence_message, has_compared, has_room_for, lemma_compared_count,
    scratch_before_flush, verify, Harness,
};
use crate::differential_laws::identical_boards_do_not_diverge;
use crate::game_object::{is_active, reset, synced, CharacteristicsView, GameObject, GameObjectView};
use crate::game_state::{
    contains_object, entered_too, owing_full, well_formed, Duration, EscalationReason,
    FullEvalClass, FullEvalClasses, GameState, GameStateView, LayersDirty, LayersDirtyView,
    TransientEffect, TransientEffectView,
};
use crate::identifiers::ObjectId;
use crate::layer_laws::{
    coherent, evaluation_settles, incremental_flush_is_a_full_pass, preparation_is_harmless,
    settled_before, settled_board_is_fixed,
};
use crate::object_table::{ascending, contains_id, lemma_lookup, lookup, Board, ObjectTable};
use crate::perf_counters::{
    bumped, with_collection, with_escalation, with_full_window, PerfCounters, PerfCountersView,
};
use crate::text::views;
use crate::vocabulary::{
    ContinuousModification, CoreType, StaticDefinition, StaticDefinitionView, StaticMode,
    TargetFilter, TypeFilter,
};

verus! {

/// One modification of a continuous effect that is in force.
#[derive(Clone, Copy, Debug, PartialEq, Eq, Structural)]
pub struct ActiveEffect {
    pub affected: TargetFilter,
    pub modification: ContinuousModification,
}

/// The effects of one filter with these modifications.
pub open spec fn effects_on(
    affected: TargetFilter,
    modifications: Seq<ContinuousModification>,
) -> Seq<ActiveEffect> {
    modifications.map_values(
        |modification: ContinuousModification| ActiveEffect { affected, modification },
    )
}

/// The effects of a static ability. One without a filter has none.
pub open spec fn definition_effects(definition: StaticDefinitionView) -> Seq<ActiveEffect> {
    match (definition.mode, definition.affected) {
        (StaticMode::Continuous, Some(affected)) => effects_on(affected, definition.modifications),
        (StaticMode::Continuous, None) => Seq::empty(),
    }
}

/// The effects of a list of static abilities.
pub open spec fn definitions_effects(definitions: Seq<StaticDefinitionView>) -> Seq<ActiveEffect>
    decreases definitions.len(),
{
    if definitions.len() == 0 {
        Seq::empty()
    } else {
        definitions_effects(definitions.drop_last()) + definition_effects(definitions.last())
    }
}

/// The effects of the static abilities of an object, while it takes part in the layers.
pub open spec fn object_effects(object: GameObjectView) -> Seq<ActiveEffect> {
    if is_active(object) {
        definitions_effects(object.live.static_definitions)
    } else {
        Seq::empty()
    }
}

/// The effects of the static abilities of all objects.
pub open spec fn board_effects(board: Board) -> Seq<ActiveEffect>
    decreases board.len(),
{
    if board.len() == 0 {
        Seq::empty()
    } else {
        board_effects(board.drop_last()) + object_effects(board.last().1)
    }
}

/// The effects that resolved spells and abilities have left behind.
pub open spec fn transient_effects(transients: Seq<TransientEffectView>) -> Seq<ActiveEffect>
    decreases transients.len(),
{
    if transients.len() == 0 {
        Seq::empty()
    } else {
        transient_effects(transients.drop_last()) + effects_on(
            transients.last().affected,
            transients.last().modifications,
        )
    }
}

/// The effects in force.
pub open spec fn active_effects(
    board: Board,
    transients: Seq<TransientEffectView>,
) -> Seq<ActiveEffect> {
    board_effects(board) + transient_effects(transients)
}

/// Whether a filter picks an object.
pub open spec fn applies(affected: TargetFilter, id: ObjectId, object: GameObjectView) -> bool {
    match affected {
        TargetFilter::Typed(filter) => match filter.type_filter {
            TypeFilter::Creature => object.live.card_types.contains(CoreType::Creature),
        },
        TargetFilter::SpecificObject { id: target } => target == id,
    }
}

/// What a modification adds to power.
pub open spec fn added_power(modification: ContinuousModification) -> int {
    match modification {
        ContinuousModification::AddPower { value } => value as int,
        ContinuousModification::AddToughness { .. } => 0,
    }
}

/// What a modification adds to toughness.
pub open spec fn added_toughness(modification: ContinuousModification) -> int {
    match modification {
        ContinuousModification::AddPower { .. } => 0,
        ContinuousModification::AddToughness { value } => value as int,
    }
}

/// What effects add to the power of an object.
pub open spec fn power_bonus(effects: Seq<ActiveEffect>, id: ObjectId, object: GameObjectView) -> int
    decreases effects.len(),
{
    if effects.len() == 0 {
        0
    } else {
        power_bonus(effects.drop_last(), id, object) + (if applies(
            effects.last().affected,
            id,
            object,
        ) {
            added_power(effects.last().modification)
        } else {
            0
        })
    }
}

/// What effects add to the toughness of an object.
pub open spec fn toughness_bonus(
    effects: Seq<ActiveEffect>,
    id: ObjectId,
    object: GameObjectView,
) -> int
    decreases effects.len(),
{
    if effects.len() == 0 {
        0
    } else {
        toughness_bonus(effects.drop_last(), id, object) + (if applies(
            effects.last().affected,
            id,
            object,
        ) {
            added_toughness(effects.last().modification)
        } else {
            0
        })
    }
}

/// The nearest number that a power or toughness can hold.
pub open spec fn clamped(n: int) -> i32 {
    if n < i32::MIN {
        i32::MIN
    } else if n > i32::MAX {
        i32::MAX
    } else {
        n as i32
    }
}

/// A power or toughness with a bonus. An object without one gets none.
pub open spec fn raised(value: Option<i32>, bonus: int) -> Option<i32> {
    match value {
        None => None,
        Some(value) => Some(clamped(value + bonus)),
    }
}

/// An object with effects and its own counters applied to it.
pub open spec fn applied(
    id: ObjectId,
    object: GameObjectView,
    effects: Seq<ActiveEffect>,
) -> GameObjectView {
    GameObjectView {
        live: CharacteristicsView {
            power: raised(
                object.live.power,
                power_bonus(effects, id, object) + object.counters.plus1_plus1,
            ),
            toughness: raised(
                object.live.toughness,
                toughness_bonus(effects, id, object) + object.counters.plus1_plus1,
            ),
            ..object.live
        },
        ..object
    }
}

/// An object on its way into the layers: its base characteristics complete, and nothing
/// else about it.
pub open spec fn prepared(object: GameObjectView) -> GameObjectView {
    reset(synced(object))
}

/// The board with some of the objects that take part in the layers prepared for them.
pub open spec fn prepared_where(board: Board, chosen: spec_fn(ObjectId) -> bool) -> Board {
    board.map_values(
        |entry: (ObjectId, GameObjectView)|
            if chosen(entry.0) && is_active(entry.1) {
                (entry.0, prepared(entry.1))
            } else {
                entry
            },
    )
}

/// The board with effects applied to some of the objects that take part in the layers.
pub open spec fn applied_where(
    board: Board,
    chosen: spec_fn(ObjectId) -> bool,
    effects: Seq<ActiveEffect>,
) -> Board {
    board.map_values(
        |entry: (ObjectId, GameObjectView)|
            if chosen(entry.0) && is_active(entry.1) {
                (entry.0, applied(entry.0, entry.1, effects))
            } else {
                entry
            },
    )
}

/// The board with some objects derived anew from their base characteristics.
pub open spec fn derived_where(
    board: Board,
    transients: Seq<TransientEffectView>,
    chosen: spec_fn(ObjectId) -> bool,
) -> Board {
    let start = prepared_where(board, chosen);
    applied_where(start, chosen, active_effects(start, transients))
}

/// Every object.
pub open spec fn everything() -> spec_fn(ObjectId) -> bool {
    |id: ObjectId| true
}

/// The board after a full evaluation.
pub open spec fn evaluated(board: Board, transients: Seq<TransientEffectView>) -> Board {
    derived_where(board, transients, everything())
}

/// Strips an object of everything that continuous effects have done to it.
pub fn reset_recipient_to_base(object: &mut GameObject)
    ensures
        final(object)@ == reset(old(object)@),
{
    object.live = object.base.clone();
    object.controller = object.base_controller;
    object.assigns_damage_from_toughness = false;
    object.assigns_damage_as_though_unblocked = false;
    object.assigns_no_combat_damage = false;
}

/// Prepares an object for the layers.
fn prepare(object: &mut GameObject)
    ensures
        final(object)@ == prepared(old(object)@),
{
    object.sync_missing_base_characteristics();
    reset_recipient_to_base(object);
}

/// Adds the effects of one filter with these modifications to a list.
fn gather_modifications(
    effects: &mut Vec<ActiveEffect>,
    affected: TargetFilter,
    modifications: &Vec<ContinuousModification>,
)
    ensures
        final(effects)@ == old(effects)@ + effects_on(affected, modifications@),
{
    let ghost before = effects@;
    let mut i: usize = 0;
    proof {
        assert(effects@ =~= before + effects_on(affected, modifications@.take(0)));
    }
    while i < modifications.len()
        invariant
            i <= modifications.len(),
            effects@ == before + effects_on(affected, modifications@.take(i as int)),
        decreases modifications.len() - i,
    {
        effects.push(ActiveEffect { affected, modification: modifications[i] });
        proof {
            assert(effects@ =~= before + effects_on(affected, modifications@.take(i + 1)));
        }
        i = i + 1;
    }
    proof {
        assert(modifications@.take(modifications.len() as int) =~= modifications@);
    }
}

/// Adds the effects of static abilities to a list.
fn gather_definitions(effects: &mut Vec<ActiveEffect>, definitions: &Vec<StaticDefinition>)
    ensures
        final(effects)@ == old(effects)@ + definitions_effects(views(definitions@)),
{
    let ghost before = effects@;
    let ghost all = views(definitions@);
    let mut i: usize = 0;
    proof {
        assert(effects@ =~= before + definitions_effects(all.take(0)));
    }
    while i < definitions.len()
        invariant
            i <= definitions.len(),
            all == views(definitions@),
            effects@ == before + definitions_effects(all.take(i as int)),
        decreases definitions.len() - i,
    {
        proof {
            assert(all.take(i + 1).drop_last() =~= all.take(i as int));
            assert(all.take(i + 1).last() == definitions@[i as int]@);
        }
        let definition = &definitions[i];
        match (definition.mode, definition.affected) {
            (StaticMode::Continuous, Some(affected)) => {
                gather_modifications(effects, affected, &definition.modifications);
            },
            (StaticMode::Continuous, None) => {},
        }
        proof {
            assert(effects@ =~= before + definitions_effects(all.take(i + 1)));
        }
        i = i + 1;
    }
    proof {
        assert(all.take(definitions.len() as int) =~= all);
    }
}

/// Gathers the effects in force.
pub fn collect_active_effects(
    objects: &ObjectTable,
    transients: &Vec<TransientEffect>,
    counters: &mut PerfCounters,
) -> (effects: Vec<ActiveEffect>)
    ensures
        effects@ == active_effects(objects@, views(transients@)),
        final(counters)@ == with_collection(old(counters)@),
{
    counters.record_collection();
    let mut effects: Vec<ActiveEffect> = Vec::new();
    let mut i: usize = 0;
    while i < objects.len()
        invariant
            i <= objects@.len(),
            effects@ == board_effects(objects@.take(i as int)),
        decreases objects@.len() - i,
    {
        proof {
            assert(objects@.take(i + 1).drop_last() =~= objects@.take(i as int));
        }
        let object = objects.object_at(i);
        if object.active() {
            gather_definitions(&mut effects, &object.live.static_definitions);
        }
        i = i + 1;
    }
    let ghost of_objects = effects@;
    let ghost all = views(transients@);
    proof {
        assert(objects@.take(objects@.len() as int) =~= objects@);
        assert(effects@ =~= of_objects + transient_effects(all.take(0)));
    }
    let mut j: usize = 0;
    while j < transients.len()
        invariant
            j <= transients.len(),
            all == views(transients@),
            effects@ == of_objects + transient_effects(all.take(j as int)),
        decreases transients.len() - j,
    {
        proof {
            assert(all.take(j + 1).drop_last() =~= all.take(j as int));
            assert(all.take(j + 1).last() == transients@[j as int]@);
        }
        gather_modifications(&mut effects, transients[j].affected, &transients[j].modifications);
        proof {
            assert(effects@ =~= of_objects + transient_effects(all.take(j + 1)));
        }
        j = j + 1;
    }
    proof {
        assert(all.take(transients.len() as int) =~= all);
    }
    effects
}

/// Whether a list of card types holds `Creature`.
fn is_creature(core_types: &Vec<CoreType>) -> (creature: bool)
    ensures
        creature == core_types@.contains(CoreType::Creature),
{
    let mut i: usize = 0;
    while i < core_types.len()
        invariant
            i <= core_types.len(),
            forall|k: int| 0 <= k < i ==> #[trigger] core_types@[k] != CoreType::Creature,
        decreases core_types.len() - i,
    {
        if core_types[i] == CoreType::Creature {
            return true;
        }
        i = i + 1;
    }
    false
}

/// Whether a filter picks an object.
fn filter_applies(affected: TargetFilter, id: ObjectId, object: &GameObject) -> (picked: bool)
    ensures
        picked == applies(affected, id, object@),
{
    match affected {
        TargetFilter::Typed(filter) => match filter.type_filter {
            TypeFilter::Creature => is_creature(&object.live.card_types.core_types),
        },
        TargetFilter::SpecificObject { id: target } => target == id,
    }
}

/// A power or toughness with a bonus.
fn raise(value: Option<i32>, bonus: i128) -> (sum: Option<i32>)
    requires
        -0x1_0000_0000_0000_0000_0000_0000 <= bonus <= 0x1_0000_0000_0000_0000_0000_0000,
    ensures
        sum == raised(value, bonus as int),
{
    match value {
        None => None,
        Some(value) => {
            let sum: i128 = value as i128 + bonus;
            if sum < i32::MIN as i128 {
                Some(i32::MIN)
            } else if sum > i32::MAX as i128 {
                Some(i32::MAX)
            } else {
                Some(sum as i32)
            }
        },
    }
}

/// Applies effects, and its own counters, to an object.
fn apply(id: ObjectId, object: &mut GameObject, effects: &Vec<ActiveEffect>)
    ensures
        final(object)@ == applied(id, old(object)@, effects@),
{
    let ghost before = object@;
    let mut power: i128 = 0;
    let mut toughness: i128 = 0;
    let mut i: usize = 0;
    while i < effects.len()
        invariant
            i <= effects.len(),
            object@ == before,
            power == power_bonus(effects@.take(i as int), id, before),
            toughness == toughness_bonus(effects@.take(i as int), id, before),
            -0x8000_0000 * i <= power <= 0x8000_0000 * i,
            -0x8000_0000 * i <= toughness <= 0x8000_0000 * i,
        decreases effects.len() - i,
    {
        proof {
            assert(effects@.take(i + 1).drop_last() =~= effects@.take(i as int));
        }
        let effect = effects[i];
        if filter_applies(effect.affected, id, object) {
            match effect.modification {
                ContinuousModification::AddPower { value } => {
                    power = power + value as i128;
                },
                ContinuousModification::AddToughness { value } => {
                    toughness = toughness + value as i128;
                },
            }
        }
        i = i + 1;
    }
    proof {
        assert(effects@.take(effects.len() as int) =~= effects@);
    }
    let counters: i128 = object.counters.plus1_plus1 as i128;
    object.live.power = raise(object.live.power, power + counters);
    object.live.toughness = raise(object.live.toughness, toughness + counters);
}

/// Evaluates the layers over the whole board.
pub fn evaluate_layers(state: &mut GameState, counters: &mut PerfCounters)
    ensures
        final(state)@ == (GameStateView {
            objects: evaluated(old(state)@.objects, old(state)@.transient_effects),
            ..old(state)@
        }),
        well_formed(old(state)@) ==> well_formed(final(state)@),
        final(counters)@ == with_collection(old(counters)@),
{
    let ghost board = state.objects@;
    let ghost start = prepared_where(board, everything());
    let mut i: usize = 0;
    while i < state.objects.len()
        invariant
            i <= state.objects@.len(),
            state.objects@.len() == board.len(),
            start == prepared_where(board, everything()),
            state@ == (GameStateView { objects: state.objects@, ..old(state)@ }),
            forall|k: int| 0 <= k < i ==> #[trigger] state.objects@[k] == start[k],
            forall|k: int| i <= k < board.len() ==> #[trigger] state.objects@[k] == board[k],
        decreases board.len() - i,
    {
        if state.objects.object_at(i).active() {
            let object = state.objects.object_at_mut(i);
            prepare(object);
        }
        i = i + 1;
    }
    proof {
        assert(state.objects@ =~= start);
    }
    let effects = collect_active_effects(&state.objects, &state.transient_effects, counters);
    let ghost result = applied_where(start, everything(), effects@);
    let mut j: usize = 0;
    while j < state.objects.len()
        invariant
            j <= state.objects@.len(),
            state.objects@.len() == start.len(),
            result == applied_where(start, everything(), effects@),
            state@ == (GameStateView { objects: state.objects@, ..old(state)@ }),
            forall|k: int| 0 <= k < j ==> #[trigger] state.objects@[k] == result[k],
            forall|k: int| j <= k < start.len() ==> #[trigger] state.objects@[k] == start[k],
        decreases start.len() - j,
    {
        if state.objects.object_at(j).active() {
            let id = state.objects.id_at(j);
            let object = state.objects.object_at_mut(j);
            apply(id, object, &effects);
        }
        j = j + 1;
    }
    proof {
        assert(state.objects@ =~= result);
    }
}

/// Whether an object takes part in the layers.
pub open spec fn takes_part(board: Board, id: ObjectId) -> bool {
    match lookup(board, id) {
        Some(object) => is_active(object),
        None => false,
    }
}

/// Whether one of the objects that entered is attached to this one.
pub open spec fn is_host(board: Board, entered: Seq<ObjectId>, id: ObjectId) -> bool {
    exists|k: int|
        0 <= k < entered.len() && (match lookup(board, #[trigger] entered[k]) {
            Some(object) => object.attached_to == Some(id),
            None => false,
        })
}

/// The objects that an incremental flush derives anew: those that entered, and the hosts
/// they are attached to.
pub open spec fn recipients(board: Board, entered: Seq<ObjectId>) -> spec_fn(ObjectId) -> bool {
    |id: ObjectId| takes_part(board, id) && (entered.contains(id) || is_host(board, entered, id))
}

/// Whether a filter picks nothing but recipients, whatever the board.
pub open spec fn confined(
    affected: Option<TargetFilter>,
    chosen: spec_fn(ObjectId) -> bool,
) -> bool {
    match affected {
        None => true,
        Some(TargetFilter::Typed(_)) => false,
        Some(TargetFilter::SpecificObject { id }) => chosen(id),
    }
}

/// Whether an object that entered could change more than the recipients, or carries
/// counters.
pub open spec fn blocks_incremental(
    object: GameObjectView,
    chosen: spec_fn(ObjectId) -> bool,
) -> bool {
    ||| object.counters.plus1_plus1 > 0
    ||| exists|d: int|
        0 <= d < object.live.static_definitions.len() && !confined(
            (#[trigger] object.live.static_definitions[d]).affected,
            chosen,
        )
}

/// Whether an object that entered is one that blocks an incremental flush.
pub open spec fn entry_blocks(board: Board, entered: Seq<ObjectId>, id: ObjectId) -> bool {
    match lookup(board, id) {
        Some(object) => blocks_incremental(prepared(object), recipients(board, entered)),
        None => false,
    }
}

/// Whether an object marked as entered does not take part in the layers.
pub open spec fn some_entry_missing(board: Board, entered: Seq<ObjectId>) -> bool {
    exists|k: int| 0 <= k < entered.len() && !takes_part(board, #[trigger] entered[k])
}

/// Whether an object that entered blocks an incremental flush.
pub open spec fn some_entry_blocks(board: Board, entered: Seq<ObjectId>) -> bool {
    exists|k: int| 0 <= k < entered.len() && entry_blocks(board, entered, #[trigger] entered[k])
}

/// The escalation gate: why these entries cannot be flushed incrementally, if they
/// cannot.
pub open spec fn escalation(board: Board, entered: Seq<ObjectId>) -> Option<EscalationReason> {
    if some_entry_missing(board, entered) {
        Some(EscalationReason::EnteredMissing)
    } else if some_entry_blocks(board, entered) {
        Some(EscalationReason::EnteredBlocksIncremental)
    } else {
        None
    }
}

/// The board after an incremental flush of these entries.
pub open spec fn incremental(
    board: Board,
    transients: Seq<TransientEffectView>,
    entered: Seq<ObjectId>,
) -> Board {
    derived_where(board, transients, recipients(board, entered))
}

/// Whether an object takes part in the layers.
fn object_takes_part(objects: &ObjectTable, id: ObjectId) -> (part: bool)
    requires
        ascending(objects@),
    ensures
        part == takes_part(objects@, id),
{
    match objects.get(&id) {
        Some(object) => object.active(),
        None => false,
    }
}

/// Whether every entry takes part in the layers.
fn all_entries_present(objects: &ObjectTable, entered: &Vec<ObjectId>) -> (present: bool)
    requires
        ascending(objects@),
    ensures
        present == !some_entry_missing(objects@, entered@),
{
    let mut i: usize = 0;
    while i < entered.len()
        invariant
            i <= entered.len(),
            ascending(objects@),
            forall|k: int| 0 <= k < i ==> takes_part(objects@, #[trigger] entered@[k]),
        decreases entered.len() - i,
    {
        if !object_takes_part(objects, entered[i]) {
            assert(!takes_part(objects@, entered@[i as int]));
            return false;
        }
        i = i + 1;
    }
    true
}

/// Adds an object to a list, where it takes part in the layers.
fn list_participant(listed: &mut Vec<ObjectId>, objects: &ObjectTable, id: ObjectId)
    requires
        ascending(objects@),
    ensures
        forall|other: ObjectId| #[trigger]
            final(listed)@.contains(other) <==> old(listed)@.contains(other) || (other == id
                && takes_part(objects@, id)),
{
    if object_takes_part(objects, id) {
        let ghost before = listed@;
        listed.push(id);
        proof {
            assert forall|other: ObjectId| #[trigger] listed@.contains(other) <==> before.contains(
                other,
            ) || other == id by {
                lemma_push_contains(before, id, other);
            }
        }
    }
}

/// One more entry brings one more host at most.
proof fn lemma_one_more_host(board: Board, seen: Seq<ObjectId>, last: ObjectId, id: ObjectId)
    ensures
        is_host(board, seen.push(last), id) <==> is_host(board, seen, id) || (match lookup(
            board,
            last,
        ) {
            Some(object) => object.attached_to == Some(id),
            None => false,
        }),
{
    let more = seen.push(last);
    if is_host(board, seen, id) {
        let k = choose|k: int|
            0 <= k < seen.len() && (match lookup(board, #[trigger] seen[k]) {
                Some(object) => object.attached_to == Some(id),
                None => false,
            });
        assert(more[k] == seen[k]);
    }
    assert(more[seen.len() as int] == last);
    if is_host(board, more, id) {
        let k = choose|k: int|
            0 <= k < more.len() && (match lookup(board, #[trigger] more[k]) {
                Some(object) => object.attached_to == Some(id),
                None => false,
            });
        if k < seen.len() {
            assert(more[k] == seen[k]);
        }
    }
}

/// Lists the objects that an incremental flush derives anew.
fn list_recipients(objects: &ObjectTable, entered: &Vec<ObjectId>) -> (listed: Vec<ObjectId>)
    requires
        ascending(objects@),
    ensures
        forall|id: ObjectId| #[trigger]
            listed@.contains(id) <==> recipients(objects@, entered@)(id),
{
    let mut listed: Vec<ObjectId> = Vec::new();
    let mut i: usize = 0;
    while i < entered.len()
        invariant
            i <= entered.len(),
            ascending(objects@),
            forall|id: ObjectId| #[trigger]
                listed@.contains(id) <==> recipients(objects@, entered@.take(i as int))(id),
        decreases entered.len() - i,
    {
        let entry = entered[i];
        let host = match objects.get(&entry) {
            Some(object) => object.attached_to,
            None => None,
        };
        list_participant(&mut listed, objects, entry);
        match host {
            Some(host) => {
                list_participant(&mut listed, objects, host);
            },
            None => {},
        }
        proof {
            let seen = entered@.take(i as int);
            let more = entered@.take(i + 1);
            assert(more =~= seen.push(entry));
            assert forall|id: ObjectId| #[trigger] listed@.contains(id) <==> recipients(
                objects@,
                more,
            )(id) by {
                lemma_push_contains(seen, entry, id);
                lemma_one_more_host(objects@, seen, entry, id);
            }
        }
        i = i + 1;
    }
    proof {
        assert(entered@.take(entered.len() as int) =~= entered@);
    }
    listed
}

/// Adding an identifier to a list adds it and nothing else.
pub proof fn lemma_push_contains(ids: Seq<ObjectId>, last: ObjectId, id: ObjectId)
    ensures
        ids.push(last).contains(id) <==> ids.contains(id) || id == last,
{
    if ids.contains(id) {
        let k = choose|k: int| 0 <= k < ids.len() && ids[k] == id;
        assert(ids.push(last)[k] == id);
    }
    assert(ids.push(last)[ids.len() as int] == last);
    if ids.push(last).contains(id) && id != last {
        let k = choose|k: int| 0 <= k < ids.push(last).len() && ids.push(last)[k] == id;
        assert(ids[k] == id);
    }
}

/// Whether an object that entered blocks an incremental flush.
fn entry_is_blocking(
    object: &GameObject,
    listed: &Vec<ObjectId>,
    Ghost(chosen): Ghost<spec_fn(ObjectId) -> bool>,
) -> (blocking: bool)
    requires
        forall|id: ObjectId| #[trigger] listed@.contains(id) <==> chosen(id),
    ensures
        blocking == blocks_incremental(object@, chosen),
{
    if !object.counters.is_empty() {
        return true;
    }
    let definitions = &object.live.static_definitions;
    let mut i: usize = 0;
    while i < definitions.len()
        invariant
            i <= definitions.len(),
            object.live.static_definitions == *definitions,
            forall|id: ObjectId| #[trigger] listed@.contains(id) <==> chosen(id),
            forall|d: int|
                0 <= d < i ==> confined(
                    (#[trigger] object@.live.static_definitions[d]).affected,
                    chosen,
                ),
        decreases definitions.len() - i,
    {
        let inside = match definitions[i].affected {
            None => true,
            Some(TargetFilter::Typed(_)) => false,
            Some(TargetFilter::SpecificObject { id }) => contains_object(listed, id),
        };
        if !inside {
            assert(!confined(object@.live.static_definitions[i as int].affected, chosen));
            return true;
        }
        i = i + 1;
    }
    false
}

/// Preparing some objects leaves every identifier where it was.
proof fn lemma_prepared_where(board: Board, chosen: spec_fn(ObjectId) -> bool, id: ObjectId)
    requires
        ascending(board),
    ensures
        ascending(prepared_where(board, chosen)),
        lookup(prepared_where(board, chosen), id) == (match lookup(board, id) {
            None => None,
            Some(object) => Some(
                if chosen(id) && is_active(object) {
                    prepared(object)
                } else {
                    object
                },
            ),
        }),
{
    let result = prepared_where(board, chosen);
    assert forall|i: int, j: int| 0 <= i < j < result.len() implies (#[trigger] result[i]).0.0 < (
    #[trigger] result[j]).0.0 by {
        assert(board[i].0.0 < board[j].0.0);
    }
    if contains_id(board, id) {
        let i = choose|i: int| 0 <= i < board.len() && (#[trigger] board[i]).0 == id;
        lemma_lookup(board, i);
        lemma_lookup(result, i);
    } else if contains_id(result, id) {
        let i = choose|i: int| 0 <= i < result.len() && (#[trigger] result[i]).0 == id;
        assert(board[i].0 == id);
    }
}

/// The first half of an incremental flush: strips the recipients of everything that
/// continuous effects have done to them, and then holds the entries to the escalation gate.
pub fn prepare_incremental_flush(
    state: &mut GameState,
    entered: &Vec<ObjectId>,
) -> (outcome: Result<Vec<ObjectId>, EscalationReason>)
    requires
        ascending(old(state)@.objects),
    ensures
        final(state)@ == (GameStateView {
            objects: prepared_where(
                old(state)@.objects,
                recipients(old(state)@.objects, entered@),
            ),
            ..old(state)@
        }),
        well_formed(old(state)@) ==> well_formed(final(state)@),
        match outcome {
            Ok(listed) => {
                &&& escalation(old(state)@.objects, entered@) is None
                &&& forall|id: ObjectId| #[trigger]
                    listed@.contains(id) <==> recipients(old(state)@.objects, entered@)(id)
            },
            Err(reason) => escalation(old(state)@.objects, entered@) == Some(reason),
        },
{
    let ghost board = state.objects@;
    let ghost chosen = recipients(board, entered@);
    let listed = list_recipients(&state.objects, entered);
    let ghost start = prepared_where(board, chosen);
    let mut i: usize = 0;
    while i < state.objects.len()
        invariant
            i <= state.objects@.len(),
            state.objects@.len() == board.len(),
            ascending(board),
            chosen == recipients(board, entered@),
            start == prepared_where(board, chosen),
            forall|id: ObjectId| #[trigger] listed@.contains(id) <==> chosen(id),
            state@ == (GameStateView { objects: state.objects@, ..old(state)@ }),
            forall|k: int| 0 <= k < i ==> #[trigger] state.objects@[k] == start[k],
            forall|k: int| i <= k < board.len() ==> #[trigger] state.objects@[k] == board[k],
        decreases board.len() - i,
    {
        let id = state.objects.id_at(i);
        proof {
            lemma_lookup(board, i as int);
            assert(listed@.contains(id) <==> chosen(id));
        }
        if contains_object(&listed, id) {
            let object = state.objects.object_at_mut(i);
            prepare(object);
        }
        i = i + 1;
    }
    proof {
        assert(state.objects@ =~= start);
        lemma_prepared_where(board, chosen, ObjectId(0));
        assert forall|id: ObjectId| #[trigger] takes_part(start, id) == takes_part(board, id) by {
            lemma_prepared_where(board, chosen, id);
        }
        assert(some_entry_missing(start, entered@) == some_entry_missing(board, entered@));
    }
    if !all_entries_present(&state.objects, entered) {
        return Err(EscalationReason::EnteredMissing);
    }
    let mut j: usize = 0;
    while j < entered.len()
        invariant
            j <= entered.len(),
            ascending(board),
            ascending(start),
            chosen == recipients(board, entered@),
            start == prepared_where(board, chosen),
            state.objects@ == start,
            state@ == (GameStateView { objects: start, ..old(state)@ }),
            board == old(state)@.objects,
            !some_entry_missing(board, entered@),
            forall|id: ObjectId| #[trigger] listed@.contains(id) <==> chosen(id),
            forall|k: int| 0 <= k < j ==> !entry_blocks(board, entered@, #[trigger] entered@[k]),
        decreases entered.len() - j,
    {
        let id = entered[j];
        proof {
            assert(takes_part(board, entered@[j as int]));
            assert(entered@.contains(id));
            lemma_prepared_where(board, chosen, id);
        }
        let blocking = match state.objects.get(&id) {
            Some(object) => entry_is_blocking(object, &listed, Ghost(chosen)),
            None => false,
        };
        if blocking {
            assert(entry_blocks(board, entered@, entered@[j as int]));
            return Err(EscalationReason::EnteredBlocksIncremental);
        }
        j = j + 1;
    }
    Ok(listed)
}

/// The second half of an incremental flush: applies the effects in force to the
/// recipients.
fn derive_recipients(
    state: &mut GameState,
    listed: &Vec<ObjectId>,
    counters: &mut PerfCounters,
    Ghost(chosen): Ghost<spec_fn(ObjectId) -> bool>,
)
    requires
        forall|id: ObjectId| #[trigger] listed@.contains(id) <==> chosen(id),
    ensures
        final(state)@ == (GameStateView {
            objects: applied_where(
                old(state)@.objects,
                chosen,
                active_effects(old(state)@.objects, old(state)@.transient_effects),
            ),
            ..old(state)@
        }),
        final(counters)@ == with_collection(old(counters)@),
{
    let ghost start = state.objects@;
    let effects = collect_active_effects(&state.objects, &state.transient_effects, counters);
    let ghost result = applied_where(start, chosen, effects@);
    let mut j: usize = 0;
    while j < state.objects.len()
        invariant
            j <= state.objects@.len(),
            state.objects@.len() == start.len(),
            result == applied_where(start, chosen, effects@),
            forall|id: ObjectId| #[trigger] listed@.contains(id) <==> chosen(id),
            state@ == (GameStateView { objects: state.objects@, ..old(state)@ }),
            forall|k: int| 0 <= k < j ==> #[trigger] state.objects@[k] == result[k],
            forall|k: int| j <= k < start.len() ==> #[trigger] state.objects@[k] == start[k],
        decreases start.len() - j,
    {
        let id = state.objects.id_at(j);
        proof {
            assert(listed@.contains(id) <==> chosen(id));
        }
        if contains_object(listed, id) && state.objects.object_at(j).active() {
            let object = state.objects.object_at_mut(j);
            apply(id, object, &effects);
        }
        j = j + 1;
    }
    proof {
        assert(state.objects@ =~= result);
    }
}

/// Asks for an object that has just entered.
pub fn mark_layers_entered(state: &mut GameState, id: ObjectId)
    ensures
        final(state)@ == (GameStateView {
            layers_dirty: entered_too(old(state)@.layers_dirty, id),
            ..old(state)@
        }),
{
    state.layers_dirty.mark_entered(id);
}

/// Deriving objects leaves every identifier where it was, every object on or off the
/// battlefield as it was, and every object that was not chosen untouched.
pub proof fn lemma_derived_where(
    board: Board,
    transients: Seq<TransientEffectView>,
    chosen: spec_fn(ObjectId) -> bool,
)
    ensures
        derived_where(board, transients, chosen).len() == board.len(),
        forall|i: int|
            0 <= i < board.len() ==> {
                let entry = #[trigger] derived_where(board, transients, chosen)[i];
                &&& entry.0 == board[i].0
                &&& entry.1.zone == board[i].1.zone
                &&& entry.1.phased_out == board[i].1.phased_out
                &&& !(chosen(entry.0) && is_active(board[i].1)) ==> entry == board[i]
            },
        ascending(board) ==> ascending(derived_where(board, transients, chosen)),
{
    let result = derived_where(board, transients, chosen);
    if ascending(board) {
        assert forall|i: int, j: int| 0 <= i < j < result.len() implies (#[trigger] result[i]).0.0
            < (#[trigger] result[j]).0.0 by {
            assert(board[i].0.0 < board[j].0.0);
        }
    }
}

/// The effects that outlast the turn.
pub open spec fn outlasts_turn() -> spec_fn(TransientEffectView) -> bool {
    |effect: TransientEffectView| effect.duration != Duration::UntilEndOfTurn
}

/// A state at the end of a turn, with the continuous effects that do not outlast it gone.
pub open spec fn pruned(state: GameStateView) -> GameStateView {
    let kept = state.transient_effects.filter(outlasts_turn());
    if kept.len() < state.transient_effects.len() {
        owing_full(
            GameStateView { transient_effects: kept, ..state },
            FullEvalClass::TransientEffect,
        )
    } else {
        state
    }
}

/// Effects that a filter keeps are effects that it picks, and where it keeps as many as there
/// were, it keeps them all.
pub proof fn lemma_kept(effects: Seq<TransientEffectView>, keep: spec_fn(TransientEffectView) -> bool)
    ensures
        effects.filter(keep).len() <= effects.len(),
        forall|k: int|
            0 <= k < effects.filter(keep).len() ==> keep(#[trigger] effects.filter(keep)[k]),
        effects.filter(keep).len() == effects.len() <==> (forall|k: int|
            0 <= k < effects.len() ==> keep(#[trigger] effects[k])),
        effects.filter(keep).len() == effects.len() ==> effects.filter(keep) == effects,
    decreases effects.len(),
{
    reveal(Seq::filter);
    if effects.len() > 0 {
        let front = effects.drop_last();
        lemma_kept(front, keep);
        assert(front.push(effects.last()) =~= effects);
        if forall|k: int| 0 <= k < effects.len() ==> keep(#[trigger] effects[k]) {
            assert(keep(effects[effects.len() - 1]));
            assert forall|k: int| 0 <= k < front.len() implies keep(#[trigger] front[k]) by {
                assert(keep(effects[k]));
            }
        }
        if effects.filter(keep).len() == effects.len() {
            assert forall|k: int| 0 <= k < effects.len() implies keep(#[trigger] effects[k]) by {
                if k < front.len() {
                    assert(keep(front[k]));
                }
            }
        }
    }
}

/// Ends the continuous effects that last until end of turn.
pub fn prune_end_of_turn_effects(state: &mut GameState)
    ensures
        final(state)@ == pruned(old(state)@),
        forall|k: int|
            0 <= k < final(state)@.transient_effects.len()
                ==> (#[trigger] final(state)@.transient_effects[k]).duration
                != Duration::UntilEndOfTurn,
{
    let ghost all = state@.transient_effects;
    let mut kept: Vec<TransientEffect> = Vec::new();
    let mut i: usize = 0;
    proof {
        reveal(Seq::filter);
        assert(views(kept@) =~= all.take(0).filter(outlasts_turn()));
    }
    while i < state.transient_effects.len()
        invariant
            i <= state.transient_effects.len(),
            state@ == old(state)@,
            all == state@.transient_effects,
            views(kept@) == all.take(i as int).filter(outlasts_turn()),
        decreases state.transient_effects.len() - i,
    {
        let ghost before = kept@;
        proof {
            reveal(Seq::filter);
            assert(all.take(i + 1).drop_last() =~= all.take(i as int));
            assert(all.take(i + 1).last() == state.transient_effects@[i as int]@);
        }
        match state.transient_effects[i].duration {
            Duration::UntilEndOfTurn => {},
            Duration::Permanent => {
                let effect = state.transient_effects[i].clone();
                kept.push(effect);
                proof {
                    assert(views(kept@) =~= views(before).push(effect@));
                }
            },
        }
        i = i + 1;
    }
    proof {
        assert(all.take(state.transient_effects.len() as int) =~= all);
        lemma_kept(all, outlasts_turn());
    }
    if kept.len() < state.transient_effects.len() {
        state.transient_effects = kept;
        state.mark_layers_full_classed(FullEvalClass::TransientEffect);
    }
}

/// The objects after a flush.
pub open spec fn flushed_objects(state: GameStateView) -> Board {
    match state.layers_dirty {
        LayersDirtyView::Clean => state.objects,
        LayersDirtyView::EnteredObjects(entered) => match escalation(state.objects, entered) {
            None => incremental(state.objects, state.transient_effects, entered),
            Some(_) => evaluated(state.objects, state.transient_effects),
        },
        LayersDirtyView::Full => evaluated(state.objects, state.transient_effects),
    }
}

/// The state after a flush.
pub open spec fn flushed(state: GameStateView) -> GameStateView {
    GameStateView {
        objects: flushed_objects(state),
        layers_dirty: LayersDirtyView::Clean,
        layers_full_classes: Set::empty(),
        ..state
    }
}

/// The counters after a flush.
pub open spec fn flushed_counters(
    state: GameStateView,
    counters: PerfCountersView,
) -> PerfCountersView {
    match state.layers_dirty {
        LayersDirtyView::Clean => counters,
        LayersDirtyView::EnteredObjects(entered) => match escalation(state.objects, entered) {
            None => with_collection(
                PerfCountersView {
                    layers_incremental: bumped(counters.layers_incremental),
                    ..counters
                },
            ),
            Some(reason) => with_collection(
                PerfCountersView {
                    layers_escalated: bumped(counters.layers_escalated),
                    attribution: with_escalation(counters.attribution, reason),
                    ..counters
                },
            ),
        },
        LayersDirtyView::Full => with_collection(
            PerfCountersView {
                attribution: with_full_window(counters.attribution, state.layers_full_classes),
                ..counters
            },
        ),
    }
}

/// Whether a flush takes the incremental arm.
pub open spec fn flushes_incrementally(state: GameStateView) -> bool {
    match state.layers_dirty {
        LayersDirtyView::EnteredObjects(entered) => escalation(state.objects, entered) is None,
        _ => false,
    }
}

/// Brings the board up to date with what it owes to the layers.
///
/// An incremental flush is verified against a full pass where the harness is on; the
/// error says where they differ. They do not where everything but the entries was up to
/// date beforehand.
pub fn flush_layers(
    state: &mut GameState,
    harness: &mut Harness,
    counters: &mut PerfCounters,
) -> (outcome: Result<(), String>)
    requires
        ascending(old(state)@.objects),
        old(harness).enabled && flushes_incrementally(old(state)@) ==> has_room_for(
            *old(harness),
            flushed_objects(old(state)@),
            evaluated(old(state)@.objects, old(state)@.transient_effects),
        ),
    ensures
        final(state)@ == flushed(old(state)@),
        well_formed(old(state)@) ==> well_formed(final(state)@),
        final(counters)@ == flushed_counters(old(state)@, old(counters)@),
        if old(harness).enabled && flushes_incrementally(old(state)@) {
            let part = flushed_objects(old(state)@);
            let full = evaluated(old(state)@.objects, old(state)@.transient_effects);
            let divergences = board_divergences(part, full);
            &&& has_compared(*old(harness), *final(harness), part, full)
            &&& match outcome {
                Ok(()) => divergences.len() == 0,
                Err(message) => divergences.len() > 0 && message@ == divergence_message(divergences),
            }
        } else {
            outcome is Ok && *final(harness) == *old(harness)
        },
        coherent(old(state)@) ==> {
            &&& outcome is Ok
            &&& final(state)@.objects == evaluated(
                old(state)@.objects,
                old(state)@.transient_effects,
            )
            &&& coherent(final(state)@)
        },
{
    let ghost before = state@;
    let ghost board = state@.objects;
    let ghost transients = state@.transient_effects;
    let classes = state.layers_full_classes;
    state.layers_full_classes = FullEvalClasses::new();
    let dirty = state.layers_dirty.clone();
    state.layers_dirty = LayersDirty::Clean;
    proof {
        lemma_flush_law(before);
    }
    match dirty {
        LayersDirty::Clean => Ok(()),
        LayersDirty::Full => {
            counters.record_full_window(&classes);
            evaluate_layers(state, counters);
            Ok(())
        },
        LayersDirty::EnteredObjects(entered) => {
            let scratch = scratch_before_flush(harness, state);
            let ghost chosen = recipients(board, entered@);
            match prepare_incremental_flush(state, &entered) {
                Ok(listed) => {
                    counters.record_incremental();
                    derive_recipients(state, &listed, counters, Ghost(chosen));
                    proof {
                        lemma_derived_where(board, transients, chosen);
                    }
                    verify(harness, counters, state, scratch)
                },
                Err(reason) => {
                    counters.record_escalation(reason);
                    proof {
                        preparation_is_harmless(board, transients, chosen);
                    }
                    evaluate_layers(state, counters);
                    Ok(())
                },
            }
        },
    }
}

/// A harness has room for the comparison that a flush makes where it has room for a
/// comparison of every object.
pub proof fn flush_fits(harness: Harness, state: GameStateView)
    requires
        harness.has_room(state.objects.len(), state.objects.len()),
    ensures
        flushes_incrementally(state) ==> has_room_for(
            harness,
            flushed_objects(state),
            evaluated(state.objects, state.transient_effects),
        ),
{
    if flushes_incrementally(state) {
        let part = flushed_objects(state);
        let full = evaluated(state.objects, state.transient_effects);
        lemma_derived_where(
            state.objects,
            state.transient_effects,
            recipients(state.objects, state.layers_dirty->EnteredObjects_0),
        );
        lemma_derived_where(state.objects, state.transient_effects, everything());
        assert forall|id: ObjectId| #[trigger] contains_id(full, id) implies contains_id(
            part,
            id,
        ) by {
            let k = choose|k: int| 0 <= k < full.len() && (#[trigger] full[k]).0 == id;
            assert(part[k].0 == id);
        }
        lemma_compared_count(part, full);
    }
}

/// Where everything but what is owed is up to date, a flush does what a full evaluation
/// would do.
proof fn lemma_flush_law(state: GameStateView)
    requires
        ascending(state.objects),
    ensures
        coherent(state) ==> {
            &&& flushed_objects(state) == evaluated(state.objects, state.transient_effects)
            &&& board_divergences(
                flushed_objects(state),
                evaluated(state.objects, state.transient_effects),
            ).len() == 0
            &&& settled_before(flushed_objects(state), state.transient_effects, Seq::empty())
        },
{
    if coherent(state) {
        match state.layers_dirty {
            LayersDirtyView::Clean => {
                settled_board_is_fixed(state.objects, state.transient_effects);
            },
            LayersDirtyView::EnteredObjects(entered) => {
                if escalation(state.objects, entered) is None {
                    incremental_flush_is_a_full_pass(
                        state.objects,
                        state.transient_effects,
                        entered,
                    );
                }
            },
            LayersDirtyView::Full => {},
        }
        evaluation_settles(state.objects, state.transient_effects);
        identical_boards_do_not_diverge(evaluated(state.objects, state.transient_effects));
    }
}

} // verus!
