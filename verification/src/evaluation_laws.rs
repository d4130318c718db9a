//! What a derivation makes of an object, field by field and term by term.

use vstd::prelude::*;

use crate::game_object::{reset, synced, CharacteristicsView, GameObjectView};
use crate::game_state::TransientEffectView;
use crate::identifiers::{ObjectId, Zone};
use crate::layer_laws::{lemma_bonus_of_sum, lemma_same_effects};
use crate::layers::{
    active_effects, applied, board_effects, definition_effects, definitions_effects, derived_where,
    effects_on, evaluated, everything, incremental, object_effects, power_bonus, prepared,
    prepared_where, recipients, takes_part, toughness_bonus, transient_effects, ActiveEffect,
};
use crate::object_table::{lemma_lookup, lookup, Board};
use crate::vocabulary::{
    ContinuousModification, CoreType, DisplaySource, StaticDefinitionView, TargetFilter, TypeFilter,
};

verus! {

/// An object is on the battlefield, and phased in.
pub open spec fn is_in_play(object: GameObjectView) -> bool {
    object.zone == Zone::Battlefield && object.phased_out is None
}

/// A filter names an object, or a type that is somewhere among its types.
pub open spec fn picks(filter: TargetFilter, id: ObjectId, types: Seq<CoreType>) -> bool {
    ||| filter == TargetFilter::SpecificObject { id }
    ||| filter matches TargetFilter::Typed(typed) && typed.type_filter == TypeFilter::Creature
        && exists|k: int| 0 <= k < types.len() && #[trigger] types[k] == CoreType::Creature
}

/// A power and a toughness that are to be added.
pub open spec fn plus(a: (int, int), b: (int, int)) -> (int, int) {
    (a.0 + b.0, a.1 + b.1)
}

/// The sum of the values that modifications add to power, and to toughness.
pub open spec fn worth(modifications: Seq<ContinuousModification>) -> (int, int)
    decreases modifications.len(),
{
    if modifications.len() == 0 {
        (0, 0)
    } else {
        plus(
            worth(modifications.drop_last()),
            match modifications.last() {
                ContinuousModification::AddPower { value } => (value as int, 0),
                ContinuousModification::AddToughness { value } => (0, value as int),
            },
        )
    }
}

/// What static abilities add to an object that has an identifier and types.
pub open spec fn given_by_abilities(
    abilities: Seq<StaticDefinitionView>,
    id: ObjectId,
    types: Seq<CoreType>,
) -> (int, int)
    decreases abilities.len(),
{
    if abilities.len() == 0 {
        (0, 0)
    } else {
        plus(
            given_by_abilities(abilities.drop_last(), id, types),
            match abilities.last().affected {
                Some(filter) => if picks(filter, id, types) {
                    worth(abilities.last().modifications)
                } else {
                    (0, 0)
                },
                None => (0, 0),
            },
        )
    }
}

/// What transient effects add to an object that has an identifier and types.
pub open spec fn given_by_transients(
    transients: Seq<TransientEffectView>,
    id: ObjectId,
    types: Seq<CoreType>,
) -> (int, int)
    decreases transients.len(),
{
    if transients.len() == 0 {
        (0, 0)
    } else {
        plus(
            given_by_transients(transients.drop_last(), id, types),
            if picks(transients.last().affected, id, types) {
                worth(transients.last().modifications)
            } else {
                (0, 0)
            },
        )
    }
}

/// The characteristics from which an object is derived: those it was given as its base, and
/// until they have been completed once, what it shows wherever the base says nothing.
pub open spec fn starting_point(object: GameObjectView) -> CharacteristicsView {
    let base = object.base;
    let live = object.live;
    if object.base_initialized {
        base
    } else {
        CharacteristicsView {
            name: if base.name.len() == 0 { live.name } else { base.name },
            power: if base.power is None { live.power } else { base.power },
            toughness: if base.toughness is None { live.toughness } else { base.toughness },
            loyalty: if base.loyalty is None { live.loyalty } else { base.loyalty },
            card_types: if base.card_types.len() == 0 { live.card_types } else { base.card_types },
            mana_cost: if base.mana_cost is NoCost { live.mana_cost } else { base.mana_cost },
            keywords: if base.keywords.len() == 0 { live.keywords } else { base.keywords },
            abilities: if base.abilities.len() == 0 { live.abilities } else { base.abilities },
            replacement_definitions: if base.replacement_definitions.len() == 0 {
                live.replacement_definitions
            } else {
                base.replacement_definitions
            },
            static_definitions: if base.static_definitions.len() == 0 {
                live.static_definitions
            } else {
                base.static_definitions
            },
            color: if base.color.len() == 0 { live.color } else { base.color },
            printed_ref: if base.printed_ref is None { live.printed_ref } else { base.printed_ref },
            display_source: if base.display_source == DisplaySource::Card {
                live.display_source
            } else {
                base.display_source
            },
            token_image_ref: if base.token_image_ref is None {
                live.token_image_ref
            } else {
                base.token_image_ref
            },
        }
    }
}

/// What the objects of a board add to one that has an identifier and types, where those
/// that are chosen are derived anew and the others are left as they are.
pub open spec fn given_by_board(
    board: Board,
    chosen: spec_fn(ObjectId) -> bool,
    id: ObjectId,
    types: Seq<CoreType>,
) -> (int, int)
    decreases board.len(),
{
    if board.len() == 0 {
        (0, 0)
    } else {
        let (other, object) = board.last();
        plus(
            given_by_board(board.drop_last(), chosen, id, types),
            if is_in_play(object) {
                given_by_abilities(
                    if chosen(other) {
                        starting_point(object).static_definitions
                    } else {
                        object.live.static_definitions
                    },
                    id,
                    types,
                )
            } else {
                (0, 0)
            },
        )
    }
}

/// A value with something added to it, as near as 32 bits come to the sum. An absent value
/// stays absent.
pub open spec fn is_saturated_sum(sum: Option<i32>, value: Option<i32>, added: int) -> bool {
    match (sum, value) {
        (None, None) => true,
        (Some(sum), Some(value)) => {
            &&& i32::MIN <= value + added <= i32::MAX ==> sum == value + added
            &&& value + added < i32::MIN ==> sum == i32::MIN
            &&& value + added > i32::MAX ==> sum == i32::MAX
        },
        _ => false,
    }
}

/// After the reset, every live characteristic is the base characteristic of the same name,
/// the controller is the base controller, and no combat assignment is in force. Nothing else
/// about the object changes.
pub proof fn reset_restores_every_field(object: GameObjectView)
    ensures
        ({
            let after = reset(object);
            &&& after.live.name == object.base.name
            &&& after.live.power == object.base.power
            &&& after.live.toughness == object.base.toughness
            &&& after.live.loyalty == object.base.loyalty
            &&& after.live.card_types == object.base.card_types
            &&& after.live.mana_cost == object.base.mana_cost
            &&& after.live.keywords == object.base.keywords
            &&& after.live.abilities == object.base.abilities
            &&& after.live.replacement_definitions == object.base.replacement_definitions
            &&& after.live.static_definitions == object.base.static_definitions
            &&& after.live.color == object.base.color
            &&& after.live.printed_ref == object.base.printed_ref
            &&& after.live.display_source == object.base.display_source
            &&& after.live.token_image_ref == object.base.token_image_ref
            &&& after.controller == object.base_controller
            &&& !after.assigns_damage_from_toughness
            &&& !after.assigns_damage_as_though_unblocked
            &&& !after.assigns_no_combat_damage
            &&& after == (GameObjectView {
                live: after.live,
                controller: after.controller,
                assigns_damage_from_toughness: false,
                assigns_damage_as_though_unblocked: false,
                assigns_no_combat_damage: false,
                ..object
            })
        }),
{
}

/// What no derivation touches is as it was.
pub open spec fn is_otherwise_unchanged(before: GameObjectView, after: GameObjectView) -> bool {
    &&& after.card_id == before.card_id
    &&& after.owner == before.owner
    &&& after.zone == before.zone
    &&& after.timestamp == before.timestamp
    &&& after.base_controller == before.base_controller
    &&& after.counters == before.counters
    &&& after.attached_to == before.attached_to
    &&& after.paired_with == before.paired_with
    &&& after.phased_out == before.phased_out
    &&& after.bestow_form == before.bestow_form
}

/// Completing the base characteristics fills in what they leave blank with what the object
/// shows, once, and changes nothing that the object shows.
pub proof fn completion_fills_in_the_blanks(object: GameObjectView)
    ensures
        ({
            let after = synced(object);
            &&& after.base == starting_point(object)
            &&& after.base_initialized
            &&& after.live == object.live
            &&& after.controller == object.controller
            &&& after.assigns_damage_from_toughness == object.assigns_damage_from_toughness
            &&& after.assigns_damage_as_though_unblocked
                == object.assigns_damage_as_though_unblocked
            &&& after.assigns_no_combat_damage == object.assigns_no_combat_damage
            &&& is_otherwise_unchanged(object, after)
        }),
        object.base_initialized ==> synced(object) == object,
{
    assert(synced(object).base =~= starting_point(object));
}

/// An object that is derived without any effect: it is where it starts from.
pub proof fn preparation_goes_back_to_the_start(object: GameObjectView)
    ensures
        prepared(object).live == starting_point(object),
        prepared(object).base == starting_point(object),
        prepared(object).base_initialized,
        prepared(object).controller == object.base_controller,
        !prepared(object).assigns_damage_from_toughness,
        !prepared(object).assigns_damage_as_though_unblocked,
        !prepared(object).assigns_no_combat_damage,
        is_otherwise_unchanged(object, prepared(object)),
{
    completion_fills_in_the_blanks(object);
    reset_restores_every_field(synced(object));
}

proof fn lemma_worth(
    filter: TargetFilter,
    modifications: Seq<ContinuousModification>,
    id: ObjectId,
    object: GameObjectView,
)
    ensures
        (
            power_bonus(effects_on(filter, modifications), id, object),
            toughness_bonus(effects_on(filter, modifications), id, object),
        ) == (if picks(filter, id, object.live.card_types) {
            worth(modifications)
        } else {
            (0, 0)
        }),
    decreases modifications.len(),
{
    let effects = effects_on(filter, modifications);
    if modifications.len() > 0 {
        lemma_worth(filter, modifications.drop_last(), id, object);
        assert(effects.drop_last() =~= effects_on(filter, modifications.drop_last()));
        assert(effects.last().modification == modifications.last());
        assert(effects.last().affected == filter);
    }
}

proof fn lemma_abilities(
    abilities: Seq<StaticDefinitionView>,
    id: ObjectId,
    object: GameObjectView,
)
    ensures
        (
            power_bonus(definitions_effects(abilities), id, object),
            toughness_bonus(definitions_effects(abilities), id, object),
        ) == given_by_abilities(abilities, id, object.live.card_types),
    decreases abilities.len(),
{
    if abilities.len() > 0 {
        lemma_abilities(abilities.drop_last(), id, object);
        lemma_bonus_of_sum(
            definitions_effects(abilities.drop_last()),
            definition_effects(abilities.last()),
            id,
            object,
        );
        match abilities.last().affected {
            Some(filter) => {
                lemma_worth(filter, abilities.last().modifications, id, object);
            },
            None => {},
        }
    }
}

proof fn lemma_transients(
    transients: Seq<TransientEffectView>,
    id: ObjectId,
    object: GameObjectView,
)
    ensures
        (
            power_bonus(transient_effects(transients), id, object),
            toughness_bonus(transient_effects(transients), id, object),
        ) == given_by_transients(transients, id, object.live.card_types),
    decreases transients.len(),
{
    if transients.len() > 0 {
        let last = transients.last();
        lemma_transients(transients.drop_last(), id, object);
        lemma_bonus_of_sum(
            transient_effects(transients.drop_last()),
            effects_on(last.affected, last.modifications),
            id,
            object,
        );
        lemma_worth(last.affected, last.modifications, id, object);
    }
}

proof fn lemma_board(
    board: Board,
    chosen: spec_fn(ObjectId) -> bool,
    id: ObjectId,
    object: GameObjectView,
)
    ensures
        (
            power_bonus(board_effects(prepared_where(board, chosen)), id, object),
            toughness_bonus(board_effects(prepared_where(board, chosen)), id, object),
        ) == given_by_board(board, chosen, id, object.live.card_types),
    decreases board.len(),
{
    let start = prepared_where(board, chosen);
    if board.len() > 0 {
        let (other, there) = board.last();
        lemma_board(board.drop_last(), chosen, id, object);
        assert(start.drop_last() =~= prepared_where(board.drop_last(), chosen));
        preparation_goes_back_to_the_start(there);
        let abilities = if chosen(other) {
            starting_point(there).static_definitions
        } else {
            there.live.static_definitions
        };
        lemma_abilities(abilities, id, object);
        lemma_bonus_of_sum(
            board_effects(start.drop_last()),
            object_effects(start.last().1),
            id,
            object,
        );
    }
}

/// Whether an object was derived anew: it has the characteristics it starts from, but for
/// the power and the toughness that were added, which its own counters raise as well.
pub open spec fn is_derivation(
    before: GameObjectView,
    after: GameObjectView,
    added: (int, int),
) -> bool {
    let start = starting_point(before);
    &&& is_saturated_sum(
        after.live.power,
        start.power,
        added.0 + before.counters.plus1_plus1,
    )
    &&& is_saturated_sum(
        after.live.toughness,
        start.toughness,
        added.1 + before.counters.plus1_plus1,
    )
    &&& after.live.name == start.name
    &&& after.live.loyalty == start.loyalty
    &&& after.live.card_types == start.card_types
    &&& after.live.mana_cost == start.mana_cost
    &&& after.live.keywords == start.keywords
    &&& after.live.abilities == start.abilities
    &&& after.live.replacement_definitions == start.replacement_definitions
    &&& after.live.static_definitions == start.static_definitions
    &&& after.live.color == start.color
    &&& after.live.printed_ref == start.printed_ref
    &&& after.live.display_source == start.display_source
    &&& after.live.token_image_ref == start.token_image_ref
    &&& after.base == start
    &&& after.base_initialized
    &&& after.controller == before.base_controller
    &&& !after.assigns_damage_from_toughness
    &&& !after.assigns_damage_as_though_unblocked
    &&& !after.assigns_no_combat_damage
    &&& is_otherwise_unchanged(before, after)
}

proof fn lemma_derivation(
    board: Board,
    transients: Seq<TransientEffectView>,
    chosen: spec_fn(ObjectId) -> bool,
    i: int,
)
    requires
        0 <= i < board.len(),
    ensures
        derived_where(board, transients, chosen).len() == board.len(),
        derived_where(board, transients, chosen)[i].0 == board[i].0,
        if is_in_play(board[i].1) && chosen(board[i].0) {
            let types = starting_point(board[i].1).card_types;
            is_derivation(
                board[i].1,
                derived_where(board, transients, chosen)[i].1,
                plus(
                    given_by_board(board, chosen, board[i].0, types),
                    given_by_transients(transients, board[i].0, types),
                ),
            )
        } else {
            derived_where(board, transients, chosen)[i].1 == board[i].1
        },
{
    let (id, object) = board[i];
    let start = prepared_where(board, chosen);
    let effects = active_effects(start, transients);
    if is_in_play(object) && chosen(id) {
        preparation_goes_back_to_the_start(object);
        lemma_board(board, chosen, id, prepared(object));
        lemma_transients(transients, id, prepared(object));
        lemma_bonus_of_sum(
            board_effects(start),
            transient_effects(transients),
            id,
            prepared(object),
        );
        assert(derived_where(board, transients, chosen)[i].1 == applied(
            id,
            prepared(object),
            effects,
        ));
    }
}

/// The evaluation of a board: an object in play has the power and toughness it starts from,
/// its +1/+1 counters, and every value that the static abilities of objects in play and the
/// transient effects add under a filter that names it or a type among its types. Everything
/// else it has from where it starts. An object that is not in play stays as it is.
pub proof fn evaluation_adds_up(board: Board, transients: Seq<TransientEffectView>, i: int)
    requires
        0 <= i < board.len(),
    ensures
        evaluated(board, transients).len() == board.len(),
        evaluated(board, transients)[i].0 == board[i].0,
        if board[i].1.zone == Zone::Battlefield && board[i].1.phased_out is None {
            let types = starting_point(board[i].1).card_types;
            is_derivation(
                board[i].1,
                evaluated(board, transients)[i].1,
                plus(
                    given_by_board(board, |id: ObjectId| true, board[i].0, types),
                    given_by_transients(transients, board[i].0, types),
                ),
            )
        } else {
            evaluated(board, transients)[i].1 == board[i].1
        },
{
    assert(everything() =~= (|id: ObjectId| true));
    lemma_derivation(board, transients, everything(), i);
}

/// Which objects an incremental flush derives: those in play that entered, or to which one
/// that entered is attached.
pub open spec fn is_rederived(board: Board, entered: Seq<ObjectId>, id: ObjectId) -> bool {
    &&& exists|i: int| 0 <= i < board.len() && (#[trigger] board[i]).0 == id && is_in_play(board[i].1)
    &&& {
        ||| exists|k: int| 0 <= k < entered.len() && #[trigger] entered[k] == id
        ||| exists|k: int, m: int|
            0 <= k < entered.len() && 0 <= m < board.len() && (#[trigger] board[m]).0
                == #[trigger] entered[k] && board[m].1.attached_to == Some(id)
    }
}

/// Whether the identifiers of a board rise.
pub open spec fn rises(board: Board) -> bool {
    forall|i: int, j: int|
        0 <= i < j < board.len() ==> (#[trigger] board[i]).0.0 < (#[trigger] board[j]).0.0
}

/// The recipients of an incremental flush are the objects in play that entered, and the
/// objects in play to which one that entered is attached.
pub proof fn recipients_are_entries_and_hosts(board: Board, entered: Seq<ObjectId>, id: ObjectId)
    requires
        rises(board),
    ensures
        recipients(board, entered)(id) <==> is_rederived(board, entered, id),
{
    assert forall|i: int| 0 <= i < board.len() implies lookup(
        board,
        (#[trigger] board[i]).0,
    ) == Some(board[i].1) by {
        lemma_lookup(board, i);
    }
    let chosen = recipients(board, entered);
    if chosen(id) {
        let i = choose|i: int| 0 <= i < board.len() && (#[trigger] board[i]).0 == id;
        assert(is_in_play(board[i].1));
        if entered.contains(id) {
            let k = choose|k: int| 0 <= k < entered.len() && entered[k] == id;
            assert(entered[k] == id);
        } else {
            let k = choose|k: int|
                0 <= k < entered.len() && (match lookup(
                    board,
                    #[trigger] entered[k],
                ) {
                    Some(object) => object.attached_to == Some(id),
                    None => false,
                });
            let m = choose|m: int| 0 <= m < board.len() && (#[trigger] board[m]).0 == entered[k];
            assert(board[m].0 == entered[k]);
        }
    }
    if is_rederived(board, entered, id) {
        let i = choose|i: int|
            0 <= i < board.len() && (#[trigger] board[i]).0 == id && is_in_play(board[i].1);
        assert(takes_part(board, board[i].0));
        if !entered.contains(id) {
            let (k, m) = choose|k: int, m: int|
                0 <= k < entered.len() && 0 <= m < board.len() && (#[trigger] board[m]).0
                    == #[trigger] entered[k] && board[m].1.attached_to == Some(id);
            assert(lookup(board, entered[k]) == Some(board[m].1));
        }
    }
}

/// An incremental flush derives its recipients as an evaluation would, from the abilities
/// that the others show, and leaves the others as they are.
pub proof fn incremental_flush_adds_up(
    board: Board,
    transients: Seq<TransientEffectView>,
    entered: Seq<ObjectId>,
    i: int,
)
    requires
        rises(board),
        0 <= i < board.len(),
    ensures
        incremental(board, transients, entered).len() == board.len(),
        incremental(board, transients, entered)[i].0 == board[i].0,
        if is_rederived(board, entered, board[i].0) {
            let types = starting_point(board[i].1).card_types;
            is_derivation(
                board[i].1,
                incremental(board, transients, entered)[i].1,
                plus(
                    given_by_board(
                        board,
                        |id: ObjectId| is_rederived(board, entered, id),
                        board[i].0,
                        types,
                    ),
                    given_by_transients(transients, board[i].0, types),
                ),
            )
        } else {
            incremental(board, transients, entered)[i].1 == board[i].1
        },
{
    let chosen = |id: ObjectId| is_rederived(board, entered, id);
    assert forall|id: ObjectId| #[trigger] recipients(board, entered)(id) == chosen(id) by {
        recipients_are_entries_and_hosts(board, entered, id);
    }
    assert(recipients(board, entered) =~= chosen);
    lemma_derivation(board, transients, chosen, i);
    if is_rederived(board, entered, board[i].0) {
        let k = choose|k: int|
            0 <= k < board.len() && (#[trigger] board[k]).0 == board[i].0 && is_in_play(board[k].1);
        assert(k == i) by {
            if k < i {
                assert(board[k].0.0 < board[i].0.0);
            } else if i < k {
                assert(board[i].0.0 < board[k].0.0);
            }
        }
    } else if is_in_play(board[i].1) {
        assert(!chosen(board[i].0));
    }
}

/// The first half of an incremental flush puts the recipients where they start from, and
/// leaves the others as they are.
pub proof fn recipients_go_back_to_the_start(board: Board, entered: Seq<ObjectId>, i: int)
    requires
        rises(board),
        0 <= i < board.len(),
    ensures
        ({
            let after = prepared_where(board, recipients(board, entered));
            &&& after.len() == board.len()
            &&& after[i].0 == board[i].0
            &&& if is_rederived(board, entered, board[i].0) {
                &&& after[i].1.live == starting_point(board[i].1)
                &&& after[i].1.base == starting_point(board[i].1)
                &&& after[i].1.base_initialized
                &&& after[i].1.controller == board[i].1.base_controller
                &&& !after[i].1.assigns_damage_from_toughness
                &&& !after[i].1.assigns_damage_as_though_unblocked
                &&& !after[i].1.assigns_no_combat_damage
                &&& is_otherwise_unchanged(board[i].1, after[i].1)
            } else {
                after[i].1 == board[i].1
            }
        }),
{
    recipients_are_entries_and_hosts(board, entered, board[i].0);
    preparation_goes_back_to_the_start(board[i].1);
    if is_rederived(board, entered, board[i].0) {
        let k = choose|k: int|
            0 <= k < board.len() && (#[trigger] board[k]).0 == board[i].0 && is_in_play(board[k].1);
        assert(k == i) by {
            if k < i {
                assert(board[k].0.0 < board[i].0.0);
            } else if i < k {
                assert(board[i].0.0 < board[k].0.0);
            }
        }
    }
}

/// Completing the base characteristics of an object keeps each that says something, and takes
/// each that says nothing from what the object shows.
pub proof fn completion_goes_field_by_field(object: GameObjectView)
    requires
        !object.base_initialized,
    ensures
        ({
            let after = synced(object).base;
            &&& after.name == (if object.base.name.len() > 0 {
                object.base.name
            } else {
                object.live.name
            })
            &&& after.power == (if object.base.power is Some {
                object.base.power
            } else {
                object.live.power
            })
            &&& after.toughness == (if object.base.toughness is Some {
                object.base.toughness
            } else {
                object.live.toughness
            })
            &&& after.loyalty == (if object.base.loyalty is Some {
                object.base.loyalty
            } else {
                object.live.loyalty
            })
            &&& after.card_types == (if object.base.card_types.len() > 0 {
                object.base.card_types
            } else {
                object.live.card_types
            })
            &&& after.mana_cost == (if object.base.mana_cost is Cost {
                object.base.mana_cost
            } else {
                object.live.mana_cost
            })
            &&& after.keywords == (if object.base.keywords.len() > 0 {
                object.base.keywords
            } else {
                object.live.keywords
            })
            &&& after.abilities == (if object.base.abilities.len() > 0 {
                object.base.abilities
            } else {
                object.live.abilities
            })
            &&& after.replacement_definitions == (if object.base.replacement_definitions.len() > 0 {
                object.base.replacement_definitions
            } else {
                object.live.replacement_definitions
            })
            &&& after.static_definitions == (if object.base.static_definitions.len() > 0 {
                object.base.static_definitions
            } else {
                object.live.static_definitions
            })
            &&& after.color == (if object.base.color.len() > 0 {
                object.base.color
            } else {
                object.live.color
            })
            &&& after.printed_ref == (if object.base.printed_ref is Some {
                object.base.printed_ref
            } else {
                object.live.printed_ref
            })
            &&& after.display_source == (if object.base.display_source == DisplaySource::Token {
                object.base.display_source
            } else {
                object.live.display_source
            })
            &&& after.token_image_ref == (if object.base.token_image_ref is Some {
                object.base.token_image_ref
            } else {
                object.live.token_image_ref
            })
            &&& synced(object) == (GameObjectView { base: after, base_initialized: true, ..object })
        }),
{
}

/// It makes no difference to an evaluation whether the base characteristics of an object in
/// play were completed beforehand.
pub proof fn completion_beforehand_makes_no_difference(
    board: Board,
    transients: Seq<TransientEffectView>,
    j: int,
)
    requires
        0 <= j < board.len(),
        board[j].1.zone == Zone::Battlefield,
        board[j].1.phased_out is None,
    ensures
        evaluated(board.update(j, (board[j].0, synced(board[j].1))), transients) == evaluated(
            board,
            transients,
        ),
{
    let other = board.update(j, (board[j].0, synced(board[j].1)));
    assert(prepared_where(other, everything()) =~= prepared_where(board, everything()));
}

/// An object that is not in play is left as it is by an evaluation. One in play has, but for
/// power and toughness, its base characteristics, and is under the control of its base
/// controller; it has a power where its base has one, and a toughness where its base has one.
pub proof fn evaluation_restores_the_base(
    board: Board,
    transients: Seq<TransientEffectView>,
    i: int,
)
    requires
        0 <= i < board.len(),
        board[i].1.base_initialized,
    ensures
        evaluated(board, transients).len() == board.len(),
        ({
            let object = board[i].1;
            let (id, after) = evaluated(board, transients)[i];
            &&& id == board[i].0
            &&& if object.zone == Zone::Battlefield && object.phased_out is None {
                &&& after == (GameObjectView {
                    live: CharacteristicsView {
                        power: after.live.power,
                        toughness: after.live.toughness,
                        ..object.base
                    },
                    controller: object.base_controller,
                    assigns_damage_from_toughness: false,
                    assigns_damage_as_though_unblocked: false,
                    assigns_no_combat_damage: false,
                    ..object
                })
                &&& after.live.power is Some <==> object.base.power is Some
                &&& after.live.toughness is Some <==> object.base.toughness is Some
            } else {
                after == object
            }
        }),
{
    evaluation_adds_up(board, transients, i);
    let after = evaluated(board, transients)[i].1;
    let object = board[i].1;
    if is_in_play(object) {
        assert(after =~= GameObjectView {
            live: CharacteristicsView {
                power: after.live.power,
                toughness: after.live.toughness,
                ..object.base
            },
            controller: object.base_controller,
            assigns_damage_from_toughness: false,
            assigns_damage_as_though_unblocked: false,
            assigns_no_combat_damage: false,
            ..object
        });
    }
}

proof fn lemma_nothing_given(board: Board, id: ObjectId, types: Seq<CoreType>)
    requires
        forall|j: int|
            0 <= j < board.len() ==> (#[trigger] board[j]).1.base.static_definitions.len() == 0
                && board[j].1.live.static_definitions.len() == 0,
    ensures
        given_by_board(board, |id: ObjectId| true, id, types) == (0int, 0int),
    decreases board.len(),
{
    if board.len() > 0 {
        let front = board.drop_last();
        assert forall|j: int| 0 <= j < front.len() implies (
        #[trigger] front[j]).1.base.static_definitions.len() == 0
            && front[j].1.live.static_definitions.len() == 0 by {
            assert(board[j].1.base.static_definitions.len() == 0);
        }
        lemma_nothing_given(front, id, types);
        assert(board[board.len() - 1].1.base.static_definitions.len() == 0);
    }
}

/// Where nothing has static abilities and no effect is about, an object in play has the power
/// and the toughness of its base, and one more of each for every +1/+1 counter, as far as 32
/// bits go.
pub proof fn counters_alone_add_one_each(board: Board, i: int)
    requires
        0 <= i < board.len(),
        board[i].1.zone == Zone::Battlefield,
        board[i].1.phased_out is None,
        board[i].1.base_initialized,
        forall|j: int|
            0 <= j < board.len() ==> (#[trigger] board[j]).1.base.static_definitions.len() == 0
                && board[j].1.live.static_definitions.len() == 0,
    ensures
        ({
            let object = board[i].1;
            let after = evaluated(board, Seq::empty())[i].1;
            &&& object.base.power matches Some(power) ==> after.live.power == Some(
                if power + object.counters.plus1_plus1 > i32::MAX {
                    i32::MAX
                } else {
                    (power + object.counters.plus1_plus1) as i32
                },
            )
            &&& object.base.toughness matches Some(toughness) ==> after.live.toughness == Some(
                if toughness + object.counters.plus1_plus1 > i32::MAX {
                    i32::MAX
                } else {
                    (toughness + object.counters.plus1_plus1) as i32
                },
            )
        }),
{
    evaluation_adds_up(board, Seq::empty(), i);
    lemma_nothing_given(board, board[i].0, board[i].1.base.card_types);
}

proof fn lemma_worth_more(modifications: Seq<ContinuousModification>, more: ContinuousModification)
    ensures
        worth(modifications.push(more)) == plus(
            worth(modifications),
            match more {
                ContinuousModification::AddPower { value } => (value as int, 0),
                ContinuousModification::AddToughness { value } => (0, value as int),
            },
        ),
{
    assert(modifications.push(more).drop_last() =~= modifications);
}

/// A static ability with one more modification.
spec fn with_more(
    ability: StaticDefinitionView,
    more: ContinuousModification,
) -> StaticDefinitionView {
    StaticDefinitionView { modifications: ability.modifications.push(more), ..ability }
}

/// What one modification adds to an object, under a filter.
spec fn felt(
    affected: Option<TargetFilter>,
    more: ContinuousModification,
    id: ObjectId,
    types: Seq<CoreType>,
) -> (int, int) {
    match affected {
        Some(filter) => if picks(filter, id, types) {
            match more {
                ContinuousModification::AddPower { value } => (value as int, 0),
                ContinuousModification::AddToughness { value } => (0, value as int),
            }
        } else {
            (0, 0)
        },
        None => (0, 0),
    }
}

proof fn lemma_ability_felt(
    abilities: Seq<StaticDefinitionView>,
    d: int,
    more: ContinuousModification,
    id: ObjectId,
    types: Seq<CoreType>,
)
    requires
        0 <= d < abilities.len(),
    ensures
        given_by_abilities(abilities.update(d, with_more(abilities[d], more)), id, types) == plus(
            given_by_abilities(abilities, id, types),
            felt(abilities[d].affected, more, id, types),
        ),
    decreases abilities.len(),
{
    let after = abilities.update(d, with_more(abilities[d], more));
    if d == abilities.len() - 1 {
        assert(after.drop_last() =~= abilities.drop_last());
        lemma_worth_more(abilities[d].modifications, more);
    } else {
        lemma_ability_felt(abilities.drop_last(), d, more, id, types);
        assert(after.drop_last() =~= abilities.drop_last().update(
            d,
            with_more(abilities[d], more),
        ));
    }
}

proof fn lemma_transient_felt(
    transients: Seq<TransientEffectView>,
    d: int,
    more: ContinuousModification,
    id: ObjectId,
    types: Seq<CoreType>,
)
    requires
        0 <= d < transients.len(),
    ensures
        given_by_transients(
            transients.update(
                d,
                TransientEffectView {
                    modifications: transients[d].modifications.push(more),
                    ..transients[d]
                },
            ),
            id,
            types,
        ) == plus(
            given_by_transients(transients, id, types),
            felt(Some(transients[d].affected), more, id, types),
        ),
    decreases transients.len(),
{
    let changed = TransientEffectView {
        modifications: transients[d].modifications.push(more),
        ..transients[d]
    };
    let after = transients.update(d, changed);
    if d == transients.len() - 1 {
        assert(after.drop_last() =~= transients.drop_last());
        lemma_worth_more(transients[d].modifications, more);
    } else {
        lemma_transient_felt(transients.drop_last(), d, more, id, types);
        assert(after.drop_last() =~= transients.drop_last().update(d, changed));
    }
}

/// A board with the static abilities of one object replaced in its base.
pub open spec fn with_abilities(board: Board, j: int, abilities: Seq<StaticDefinitionView>) -> Board {
    board.update(
        j,
        (
            board[j].0,
            GameObjectView {
                base: CharacteristicsView { static_definitions: abilities, ..board[j].1.base },
                ..board[j].1
            },
        ),
    )
}

proof fn lemma_board_felt(
    board: Board,
    j: int,
    abilities: Seq<StaticDefinitionView>,
    id: ObjectId,
    types: Seq<CoreType>,
)
    requires
        0 <= j < board.len(),
        board[j].1.base_initialized,
        is_in_play(board[j].1),
    ensures
        ({
            let all = |id: ObjectId| true;
            let before = given_by_board(board, all, id, types);
            let after = given_by_board(with_abilities(board, j, abilities), all, id, types);
            let old_ones = given_by_abilities(board[j].1.base.static_definitions, id, types);
            let new_ones = given_by_abilities(abilities, id, types);
            plus(after, old_ones) == plus(before, new_ones)
        }),
    decreases board.len(),
{
    let after = with_abilities(board, j, abilities);
    if j == board.len() - 1 {
        assert(after.drop_last() =~= board.drop_last());
    } else {
        lemma_board_felt(board.drop_last(), j, abilities, id, types);
        assert(after.drop_last() =~= with_abilities(board.drop_last(), j, abilities));
    }
}

/// One more modification in a static ability of an object in play is felt by exactly the
/// objects in play that its filter names: by one, where it names that one, and by every
/// creature, wherever `Creature` stands among its types, where it names creatures. It adds
/// its value to what it says it adds to, as far as 32 bits go. It does not matter which
/// object has the ability, and who owns or controls it.
pub proof fn a_modification_of_an_ability_is_felt(
    board: Board,
    transients: Seq<TransientEffectView>,
    i: int,
    j: int,
    d: int,
    more: ContinuousModification,
)
    requires
        0 <= i < board.len(),
        0 <= j < board.len(),
        board[i].1.zone == Zone::Battlefield && board[i].1.phased_out is None,
        board[j].1.zone == Zone::Battlefield && board[j].1.phased_out is None,
        board[i].1.base_initialized,
        board[j].1.base_initialized,
        0 <= d < board[j].1.base.static_definitions.len(),
    ensures
        ({
            let abilities = board[j].1.base.static_definitions;
            let ability = abilities[d];
            let changed = StaticDefinitionView {
                modifications: ability.modifications.push(more),
                ..ability
            };
            let before = evaluated(board, transients)[i].1.live;
            let after = evaluated(
                with_abilities(board, j, abilities.update(d, changed)),
                transients,
            )[i].1.live;
            let named = match ability.affected {
                None => false,
                Some(TargetFilter::SpecificObject { id }) => id == board[i].0,
                Some(TargetFilter::Typed(_)) => exists|k: int|
                    0 <= k < board[i].1.base.card_types.len()
                        && #[trigger] board[i].1.base.card_types[k] == CoreType::Creature,
            };
            let (power, toughness): (int, int) = match more {
                ContinuousModification::AddPower { value } => if named {
                    (value as int, 0)
                } else {
                    (0, 0)
                },
                ContinuousModification::AddToughness { value } => if named {
                    (0, value as int)
                } else {
                    (0, 0)
                },
            };
            &&& before.power matches Some(p) ==> (p > i32::MIN && p < i32::MAX) ==> after.power == Some(
                if p + power > i32::MAX {
                    i32::MAX
                } else if p + power < i32::MIN {
                    i32::MIN
                } else {
                    (p + power) as i32
                },
            )
            &&& before.toughness matches Some(t) ==> (t > i32::MIN && t < i32::MAX) ==> after.toughness == Some(
                if t + toughness > i32::MAX {
                    i32::MAX
                } else if t + toughness < i32::MIN {
                    i32::MIN
                } else {
                    (t + toughness) as i32
                },
            )
        }),
{
    let abilities = board[j].1.base.static_definitions;
    let changed = with_more(abilities[d], more);
    let other = with_abilities(board, j, abilities.update(d, changed));
    let types = board[i].1.base.card_types;
    evaluation_adds_up(board, transients, i);
    evaluation_adds_up(other, transients, i);
    lemma_ability_felt(abilities, d, more, board[i].0, types);
    lemma_board_felt(board, j, abilities.update(d, changed), board[i].0, types);
}

/// One more modification in a transient effect is felt by exactly the objects in play that
/// its filter names, in the same way.
pub proof fn a_modification_of_a_transient_effect_is_felt(
    board: Board,
    transients: Seq<TransientEffectView>,
    i: int,
    d: int,
    more: ContinuousModification,
)
    requires
        0 <= i < board.len(),
        board[i].1.zone == Zone::Battlefield && board[i].1.phased_out is None,
        board[i].1.base_initialized,
        0 <= d < transients.len(),
    ensures
        ({
            let effect = transients[d];
            let changed = TransientEffectView {
                modifications: effect.modifications.push(more),
                ..effect
            };
            let before = evaluated(board, transients)[i].1.live;
            let after = evaluated(board, transients.update(d, changed))[i].1.live;
            let named = match effect.affected {
                TargetFilter::SpecificObject { id } => id == board[i].0,
                TargetFilter::Typed(_) => exists|k: int|
                    0 <= k < board[i].1.base.card_types.len()
                        && #[trigger] board[i].1.base.card_types[k] == CoreType::Creature,
            };
            let (power, toughness): (int, int) = match more {
                ContinuousModification::AddPower { value } => if named {
                    (value as int, 0)
                } else {
                    (0, 0)
                },
                ContinuousModification::AddToughness { value } => if named {
                    (0, value as int)
                } else {
                    (0, 0)
                },
            };
            &&& before.power matches Some(p) ==> (p > i32::MIN && p < i32::MAX) ==> after.power == Some(
                if p + power > i32::MAX {
                    i32::MAX
                } else if p + power < i32::MIN {
                    i32::MIN
                } else {
                    (p + power) as i32
                },
            )
            &&& before.toughness matches Some(t) ==> (t > i32::MIN && t < i32::MAX) ==> after.toughness == Some(
                if t + toughness > i32::MAX {
                    i32::MAX
                } else if t + toughness < i32::MIN {
                    i32::MIN
                } else {
                    (t + toughness) as i32
                },
            )
        }),
{
    let changed = TransientEffectView {
        modifications: transients[d].modifications.push(more),
        ..transients[d]
    };
    evaluation_adds_up(board, transients, i);
    evaluation_adds_up(board, transients.update(d, changed), i);
    lemma_transient_felt(transients, d, more, board[i].0, board[i].1.base.card_types);
}

/// A static ability without modifications is felt by nothing, on whichever object in play it
/// stands.
pub proof fn an_empty_ability_is_not_felt(
    board: Board,
    transients: Seq<TransientEffectView>,
    i: int,
    j: int,
    ability: StaticDefinitionView,
)
    requires
        0 <= i < board.len(),
        0 <= j < board.len(),
        i != j,
        board[j].1.zone == Zone::Battlefield && board[j].1.phased_out is None,
        board[j].1.base_initialized,
        ability.modifications.len() == 0,
    ensures
        ({
            let abilities = board[j].1.base.static_definitions.push(ability);
            let before = evaluated(board, transients)[i].1;
            let after = evaluated(with_abilities(board, j, abilities), transients)[i].1;
            after == before
        }),
{
    let abilities = board[j].1.base.static_definitions;
    let more = abilities.push(ability);
    let other = with_abilities(board, j, more);
    let types = starting_point(board[i].1).card_types;
    evaluation_adds_up(board, transients, i);
    evaluation_adds_up(other, transients, i);
    assert(more.drop_last() =~= abilities);
    lemma_board_felt(board, j, more, board[i].0, types);
    let before = evaluated(board, transients)[i].1;
    let after = evaluated(other, transients)[i].1;
    if is_in_play(board[i].1) {
        assert(after =~= before);
    }
}

/// An effect without modifications is felt by nothing.
pub proof fn an_empty_effect_is_not_felt(
    board: Board,
    transients: Seq<TransientEffectView>,
    effect: TransientEffectView,
)
    requires
        effect.modifications.len() == 0,
    ensures
        evaluated(board, transients.push(effect)) == evaluated(board, transients),
{
    assert(transients.push(effect).drop_last() =~= transients);
    assert(transient_effects(transients.push(effect)) =~= transient_effects(transients));
}

/// An object that is not in play is felt by no other.
pub proof fn what_is_not_in_play_is_not_felt(
    board: Board,
    transients: Seq<TransientEffectView>,
    j: int,
    other: GameObjectView,
    i: int,
)
    requires
        0 <= i < board.len(),
        0 <= j < board.len(),
        i != j,
        board[j].1.zone != Zone::Battlefield || board[j].1.phased_out is Some,
        other.zone != Zone::Battlefield || other.phased_out is Some,
    ensures
        evaluated(board.update(j, (board[j].0, other)), transients)[i] == evaluated(
            board,
            transients,
        )[i],
{
    let changed = board.update(j, (board[j].0, other));
    let a = prepared_where(board, everything());
    let b = prepared_where(changed, everything());
    lemma_same_effects(a, b);
}

/// The effects in force are gathered from one object after the other, then from one transient
/// effect after the other, each modification once.
pub proof fn effects_are_gathered_in_order(
    board: Board,
    entry: (ObjectId, GameObjectView),
    transients: Seq<TransientEffectView>,
    effect: TransientEffectView,
)
    ensures
        active_effects(Seq::empty(), Seq::empty()).len() == 0,
        active_effects(board.push(entry), Seq::empty()) == active_effects(board, Seq::empty())
            + active_effects(seq![entry], Seq::empty()),
        active_effects(board, transients.push(effect)) == active_effects(board, transients)
            + Seq::new(
            effect.modifications.len(),
            |k: int|
                ActiveEffect {
                    affected: effect.affected,
                    modification: effect.modifications[k],
                },
        ),
{
    let none = Seq::<TransientEffectView>::empty();
    assert(transients.push(effect).drop_last() =~= transients);
    assert(board.push(entry).drop_last() =~= board);
    assert(seq![entry].drop_last() =~= Board::empty());
    assert(effects_on(effect.affected, effect.modifications) =~= Seq::new(
        effect.modifications.len(),
        |k: int|
            ActiveEffect { affected: effect.affected, modification: effect.modifications[k] },
    ));
    assert(board.push(entry).last() == entry);
    assert(seq![entry].last() == entry);
    assert(board_effects(Board::empty()).len() == 0);
    assert(transient_effects(none).len() == 0);
    assert(active_effects(seq![entry], none) =~= object_effects(entry.1));
    assert(active_effects(board, none) =~= board_effects(board));
    assert(active_effects(board.push(entry), none) =~= board_effects(board) + object_effects(
        entry.1,
    ));
    assert(active_effects(board.push(entry), none) =~= active_effects(board, none)
        + active_effects(seq![entry], none));
    assert(active_effects(board, transients.push(effect)) =~= active_effects(board, transients)
        + effects_on(effect.affected, effect.modifications));
}

/// An object gives its effects while it is in play, from one static ability after the other,
/// and none from an ability without a filter.
pub proof fn an_object_gives_its_abilities(
    entry: (ObjectId, GameObjectView),
    ability: StaticDefinitionView,
)
    ensures
        ({
            let (id, object) = entry;
            let abilities = object.live.static_definitions;
            let more = GameObjectView {
                live: CharacteristicsView {
                    static_definitions: abilities.push(ability),
                    ..object.live
                },
                ..object
            };
            let before = active_effects(seq![entry], Seq::empty());
            let after = active_effects(seq![(id, more)], Seq::empty());
            if object.zone == Zone::Battlefield && object.phased_out is None {
                &&& abilities.len() == 0 ==> before.len() == 0
                &&& after == before + (match ability.affected {
                    None => Seq::empty(),
                    Some(filter) => Seq::new(
                        ability.modifications.len(),
                        |k: int|
                            ActiveEffect {
                                affected: filter,
                                modification: ability.modifications[k],
                            },
                    ),
                })
            } else {
                before.len() == 0 && after.len() == 0
            }
        }),
{
    let (id, object) = entry;
    let abilities = object.live.static_definitions;
    let more = GameObjectView {
        live: CharacteristicsView { static_definitions: abilities.push(ability), ..object.live },
        ..object
    };
    let none = Seq::<TransientEffectView>::empty();
    assert(seq![entry].drop_last() =~= Board::empty());
    assert(seq![(id, more)].drop_last() =~= Board::empty());
    assert(seq![entry].last() == entry);
    assert(seq![(id, more)].last() == (id, more));
    assert(abilities.push(ability).drop_last() =~= abilities);
    let before = active_effects(seq![entry], none);
    let after = active_effects(seq![(id, more)], none);
    assert(board_effects(Board::empty()).len() == 0);
    assert(transient_effects(none).len() == 0);
    assert(before =~= object_effects(object));
    assert(after =~= object_effects(more));
    if is_in_play(object) {
        assert(after =~= before + definition_effects(ability));
        if let Some(filter) = ability.affected {
            assert(definition_effects(ability) =~= Seq::new(
                ability.modifications.len(),
                |k: int|
                    ActiveEffect { affected: filter, modification: ability.modifications[k] },
            ));
        }
    }
}

} // verus!
