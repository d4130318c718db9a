//! What changes of a game do to its objects, and what they leave owed to the layers.

use vstd::prelude::*;

use crate::game_object::{newborn, GameObjectView, PhaseOutCause};
use crate::game_state::{
    entered_too, opening, owing_full, well_formed, Duration, FullEvalClass, GameStateView,
    LayersDirtyView, TransientEffectView,
};
use crate::evaluation_laws::{is_in_play, rises};
use crate::identifiers::{CardId, ObjectId, PlayerId, Zone};
use crate::layers::{lemma_kept, lemma_push_contains, outlasts_turn, pruned, takes_part};
use crate::object_table::{
    ascending, contains_id, lemma_lookup, lemma_replaced, lookup, replaced, without, Board,
};
use crate::pairing::{is_free, paired, partnered};
use crate::phasing::with_phased_out;
use crate::vocabulary::DisplaySource;
use crate::zones::{move_classes, moved, moved_object};

verus! {

/// A board is in order exactly where its identifiers rise, and a state is well formed exactly
/// where that is so and all of them have been given out.
pub proof fn order_is_all_that_is_asked(state: GameStateView)
    ensures
        ascending(state.objects) <==> rises(state.objects),
        well_formed(state) <==> rises(state.objects) && forall|i: int|
            0 <= i < state.objects.len() ==> (#[trigger] state.objects[i]).0.0
                < state.next_object_id,
{
}

/// An identifier leads to the object that stands under it.
pub proof fn identifiers_lead_to_their_objects(board: Board, id: ObjectId)
    requires
        rises(board),
    ensures
        contains_id(board, id) <==> exists|i: int| 0 <= i < board.len() && (#[trigger] board[i]).0 == id,
        forall|i: int|
            0 <= i < board.len() && (#[trigger] board[i]).0 == id ==> lookup(board, id) == Some(
                board[i].1,
            ),
        (forall|i: int| 0 <= i < board.len() ==> (#[trigger] board[i]).0 != id) ==> lookup(
            board,
            id,
        ) is None,
{
    assert forall|i: int| 0 <= i < board.len() && (#[trigger] board[i]).0 == id implies lookup(
        board,
        id,
    ) == Some(board[i].1) by {
        lemma_lookup(board, i);
    }
}

/// Replacing an object changes what stands under its identifier, and nothing else.
pub proof fn replacing_changes_one_object(
    board: Board,
    id: ObjectId,
    object: GameObjectView,
    i: int,
)
    requires
        0 <= i < board.len(),
    ensures
        replaced(board, id, object).len() == board.len(),
        replaced(board, id, object)[i] == (if board[i].0 == id {
            (id, object)
        } else {
            board[i]
        }),
{
}

/// Taking an object away leaves every other one, in order, and not that one.
pub proof fn removing_takes_one_object_away(board: Board, id: ObjectId)
    requires
        rises(board),
    ensures
        forall|k: int| 0 <= k < without(board, id).len() ==> (#[trigger] without(board, id)[k]).0 != id,
        forall|i: int|
            0 <= i < board.len() && (#[trigger] board[i]).0 != id ==> without(board, id).contains(board[i]),
        forall|k: int|
            0 <= k < without(board, id).len() ==> board.contains(#[trigger] without(board, id)[k]),
        rises(without(board, id)),
    decreases board.len(),
{
    reveal(Seq::filter);
    if board.len() > 0 {
        let front = board.drop_last();
        let last = board.last();
        let rest = without(front, id);
        removing_takes_one_object_away(front, id);
        let after = without(board, id);
        assert(after == if last.0 != id {
            rest.push(last)
        } else {
            rest
        });
        assert forall|i: int| 0 <= i < board.len() && (#[trigger] board[i]).0 != id implies after.contains(
            board[i],
        ) by {
            if i < front.len() {
                assert(rest.contains(front[i]));
                let k = choose|k: int| 0 <= k < rest.len() && rest[k] == front[i];
                assert(after[k] == board[i]);
            } else {
                assert(after[rest.len() as int] == last);
            }
        }
        assert forall|k: int| 0 <= k < after.len() implies board.contains(#[trigger] after[k]) by {
            if k < rest.len() {
                assert(front.contains(rest[k]));
                let i = choose|i: int| 0 <= i < front.len() && front[i] == rest[k];
                assert(board[i] == after[k]);
            } else {
                assert(board[board.len() - 1] == after[k]);
            }
        }
        assert forall|i: int, j: int| 0 <= i < j < after.len() implies (#[trigger] after[i]).0.0 < (
        #[trigger] after[j]).0.0 by {
            if j < rest.len() {
                assert(rest[i].0.0 < rest[j].0.0);
            } else {
                assert(front.contains(rest[i]));
                let k = choose|k: int| 0 <= k < front.len() && front[k] == rest[i];
                assert(board[k].0.0 < board[board.len() - 1].0.0);
            }
        }
    }
}

/// A game starts without objects and effects, and owes a full evaluation to no class.
pub proof fn a_game_starts_empty(seed: u64)
    ensures
        opening(seed).seed == seed,
        opening(seed).objects.len() == 0,
        opening(seed).transient_effects.len() == 0,
        opening(seed).layers_dirty is Full,
        forall|class: FullEvalClass| !(#[trigger] opening(seed).layers_full_classes.contains(class)),
{
}

/// An object comes into being with a name and nothing else, under its owner's control.
pub proof fn an_object_starts_with_its_name(
    card_id: CardId,
    owner: PlayerId,
    name: Seq<char>,
    zone: Zone,
)
    ensures
        ({
            let object = newborn(card_id, owner, name, zone);
            &&& object.card_id == card_id
            &&& object.owner == owner
            &&& object.zone == zone
            &&& object.controller == owner
            &&& object.base_controller == owner
            &&& object.base == object.live
            &&& !object.base_initialized
            &&& object.live.name == name
            &&& object.live.power is None
            &&& object.live.toughness is None
            &&& object.live.loyalty is None
            &&& object.live.card_types.len() == 0
            &&& object.live.mana_cost is NoCost
            &&& object.live.keywords.len() == 0
            &&& object.live.abilities.len() == 0
            &&& object.live.replacement_definitions.len() == 0
            &&& object.live.static_definitions.len() == 0
            &&& object.live.color.len() == 0
            &&& object.live.printed_ref is None
            &&& object.live.display_source == DisplaySource::Card
            &&& object.live.token_image_ref is None
            &&& object.counters.plus1_plus1 == 0
            &&& object.attached_to is None
            &&& object.paired_with is None
            &&& object.phased_out is None
            &&& object.bestow_form is None
            &&& !object.assigns_damage_from_toughness
            &&& !object.assigns_damage_as_though_unblocked
            &&& !object.assigns_no_combat_damage
        }),
{
}

/// Marking a change leaves a full evaluation owed to its class and to every class that was
/// marked before, and touches nothing else.
pub proof fn a_mark_adds_its_class(state: GameStateView, class: FullEvalClass, other: FullEvalClass)
    ensures
        ({
            let after = owing_full(state, class);
            &&& after.layers_dirty is Full
            &&& after.layers_full_classes.contains(other) <==> other == class
                || state.layers_full_classes.contains(other)
            &&& after.seed == state.seed
            &&& after.objects == state.objects
            &&& after.transient_effects == state.transient_effects
            &&& after.next_object_id == state.next_object_id
            &&& after.next_timestamp == state.next_timestamp
        }),
{
}

/// Marking an entry adds it, once, to the entries that are owed. It does not take back a full
/// evaluation, and forgets no entry.
pub proof fn an_entry_is_owed_once(dirty: LayersDirtyView, id: ObjectId, other: ObjectId)
    ensures
        match (dirty, entered_too(dirty, id)) {
            (LayersDirtyView::Full, after) => after is Full,
            (LayersDirtyView::Clean, LayersDirtyView::EnteredObjects(after)) => after.len() == 1
                && after[0] == id,
            (LayersDirtyView::EnteredObjects(before), LayersDirtyView::EnteredObjects(after)) => {
                &&& after.contains(other) <==> before.contains(other) || other == id
                &&& before.no_duplicates() ==> after.no_duplicates()
                &&& before.is_prefix_of(after)
            },
            _ => false,
        },
{
    if let LayersDirtyView::EnteredObjects(before) = dirty {
        lemma_push_contains(before, id, other);
        if !before.contains(id) {
            assert(before.is_prefix_of(before.push(id)));
        }
    }
}

/// A move puts the object into the other zone. One that leaves the battlefield is bestowed no
/// longer; nothing else about it, or about any other object, changes.
pub proof fn a_move_changes_the_zone(state: GameStateView, i: int, to: Zone, k: int)
    requires
        rises(state.objects),
        0 <= i < state.objects.len(),
        0 <= k < state.objects.len(),
    ensures
        ({
            let (id, object) = state.objects[i];
            let after = moved(state, id, object, to);
            &&& after.objects.len() == state.objects.len()
            &&& after.objects[k].0 == state.objects[k].0
            &&& k != i ==> after.objects[k] == state.objects[k]
            &&& after.objects[i].1 == (GameObjectView {
                zone: to,
                bestow_form: after.objects[i].1.bestow_form,
                ..object
            })
            &&& after.objects[i].1.bestow_form == (if object.zone == Zone::Battlefield {
                None
            } else {
                object.bestow_form
            })
            &&& after.seed == state.seed
            &&& after.transient_effects == state.transient_effects
            &&& after.next_object_id == state.next_object_id
            &&& after.next_timestamp == state.next_timestamp
        }),
{
    let (id, object) = state.objects[i];
    lemma_replaced(state.objects, i, moved_object(object, to));
}

/// What a move leaves owed. It is credited to an entry where it goes to the battlefield from
/// a hand or from exile, to an exit where it leaves the battlefield, to hand churn where it
/// starts or ends in a hand, and to a change of form where a bestowed object leaves the
/// battlefield; classes marked before stay marked. Without any of these, a move to the
/// battlefield owes the entry, and any other move owes nothing more.
pub proof fn a_move_is_classed(
    state: GameStateView,
    id: ObjectId,
    object: GameObjectView,
    to: Zone,
    class: FullEvalClass,
)
    ensures
        ({
            let from = object.zone;
            let after = moved(state, id, object, to);
            let entry = to == Zone::Battlefield && (from == Zone::Hand || from == Zone::Exile);
            let exit = from == Zone::Battlefield;
            let churn = from == Zone::Hand || to == Zone::Hand;
            &&& after.layers_full_classes.contains(class) <==> {
                ||| state.layers_full_classes.contains(class)
                ||| class == FullEvalClass::EntryHandExile && entry
                ||| class == FullEvalClass::BattlefieldExit && exit
                ||| class == FullEvalClass::HandChurn && churn
                ||| class == FullEvalClass::FormChange && exit && object.bestow_form is Some
            }
            &&& after.layers_dirty == (if entry || exit || churn {
                LayersDirtyView::Full
            } else if to == Zone::Battlefield {
                entered_too(state.layers_dirty, id)
            } else {
                state.layers_dirty
            })
        }),
{
    let from = object.zone;
    let classes = move_classes(from, to, object.bestow_form is Some);
    if to == Zone::Battlefield && (from == Zone::Hand || from == Zone::Exile) {
        assert(classes.contains(FullEvalClass::EntryHandExile));
    } else if from == Zone::Battlefield {
        assert(classes.contains(FullEvalClass::BattlefieldExit));
    } else if from == Zone::Hand || to == Zone::Hand {
        assert(classes.contains(FullEvalClass::HandChurn));
    } else {
        assert(classes =~= Set::<FullEvalClass>::empty());
    }
}

/// Whether an object of a board is in play, under a player's control, and without a partner.
pub open spec fn can_be_paired(board: Board, id: ObjectId, controller: PlayerId) -> bool {
    exists|i: int|
        0 <= i < board.len() && (#[trigger] board[i]).0 == id && is_in_play(board[i].1)
            && board[i].1.controller == controller && board[i].1.paired_with is None
}

proof fn lemma_can_be_paired(board: Board, id: ObjectId, controller: PlayerId)
    requires
        rises(board),
    ensures
        is_free(board, id, controller) <==> can_be_paired(board, id, controller),
{
    identifiers_lead_to_their_objects(board, id);
    if is_free(board, id, controller) {
        let i = choose|i: int| 0 <= i < board.len() && (#[trigger] board[i]).0 == id;
        assert(board[i].0 == id);
    }
}

proof fn lemma_paired(
    state: GameStateView,
    first: ObjectId,
    second: ObjectId,
    controller: PlayerId,
)
    requires
        rises(state.objects),
    ensures
        ({
            let after = paired(state, first, second, controller);
            if first != second && can_be_paired(state.objects, first, controller) && can_be_paired(
                state.objects,
                second,
                controller,
            ) {
                &&& after.objects.len() == state.objects.len()
                &&& forall|k: int|
                    0 <= k < state.objects.len() ==> #[trigger] after.objects[k] == (
                    if state.objects[k].0 == first {
                        (first, GameObjectView { paired_with: Some(second), ..state.objects[k].1 })
                    } else if state.objects[k].0 == second {
                        (second, GameObjectView { paired_with: Some(first), ..state.objects[k].1 })
                    } else {
                        state.objects[k]
                    })
                &&& after == owing_full(
                    GameStateView { objects: after.objects, ..state },
                    FullEvalClass::Attach,
                )
            } else {
                after == state
            }
        }),
{
    lemma_can_be_paired(state.objects, first, controller);
    lemma_can_be_paired(state.objects, second, controller);
    if first != second && is_free(state.objects, first, controller) && is_free(
        state.objects,
        second,
        controller,
    ) {
        let board = state.objects;
        let i = choose|i: int| 0 <= i < board.len() && (#[trigger] board[i]).0 == first;
        let j = choose|j: int| 0 <= j < board.len() && (#[trigger] board[j]).0 == second;
        lemma_lookup(board, i);
        lemma_lookup(board, j);
        lemma_replaced(board, i, GameObjectView { paired_with: Some(second), ..board[i].1 });
        let middle = partnered(board, first, second);
        lemma_lookup(middle, j);
        lemma_replaced(middle, j, GameObjectView { paired_with: Some(first), ..middle[j].1 });
        assert forall|k: int| 0 <= k < board.len() && k != i implies (#[trigger] board[k]).0 != first by {
            if k < i {
                assert(board[k].0.0 < board[i].0.0);
            } else {
                assert(board[i].0.0 < board[k].0.0);
            }
        }
        assert forall|k: int| 0 <= k < board.len() && k != j implies (#[trigger] board[k]).0 != second by {
            if k < j {
                assert(board[k].0.0 < board[j].0.0);
            } else {
                assert(board[j].0.0 < board[k].0.0);
            }
        }
    }
}

/// Two different objects that are on the battlefield and phased in, that a player controls,
/// and that have no partners, are each other's partners once they are paired; a full
/// evaluation is then owed to the attachment. Where any of this fails, nothing happens. No
/// other object changes.
pub proof fn pairing_makes_partners(state: GameStateView, i: int, j: int, controller: PlayerId)
    requires
        rises(state.objects),
        0 <= i < state.objects.len(),
        0 <= j < state.objects.len(),
    ensures
        ({
            let (first, x) = state.objects[i];
            let (second, y) = state.objects[j];
            let after = paired(state, first, second, controller);
            if i != j && x.zone == Zone::Battlefield && y.zone == Zone::Battlefield
                && x.phased_out is None && y.phased_out is None && x.controller == controller
                && y.controller == controller && x.paired_with is None && y.paired_with is None {
                &&& after.objects == state.objects.update(
                    i,
                    (first, GameObjectView { paired_with: Some(second), ..x }),
                ).update(j, (second, GameObjectView { paired_with: Some(first), ..y }))
                &&& after.layers_dirty is Full
                &&& after.layers_full_classes == state.layers_full_classes.insert(
                    FullEvalClass::Attach,
                )
                &&& after == (GameStateView {
                    objects: after.objects,
                    layers_dirty: after.layers_dirty,
                    layers_full_classes: after.layers_full_classes,
                    ..state
                })
            } else {
                after == state
            }
        }),
{
    let board = state.objects;
    let (first, x) = board[i];
    let (second, y) = board[j];
    lemma_paired(state, first, second, controller);
    lemma_same_place(board, i, controller);
    lemma_same_place(board, j, controller);
    if i < j {
        assert(board[i].0.0 < board[j].0.0);
    } else if j < i {
        assert(board[j].0.0 < board[i].0.0);
    }
    let after = paired(state, first, second, controller);
    if i != j && can_be_paired(board, first, controller) && can_be_paired(board, second, controller) {
        assert forall|k: int| 0 <= k < board.len() implies after.objects[k] == board.update(
            i,
            (first, GameObjectView { paired_with: Some(second), ..x }),
        ).update(j, (second, GameObjectView { paired_with: Some(first), ..y }))[k] by {
            if k < i {
                assert(board[k].0.0 < board[i].0.0);
            } else if i < k {
                assert(board[i].0.0 < board[k].0.0);
            }
            if k < j {
                assert(board[k].0.0 < board[j].0.0);
            } else if j < k {
                assert(board[j].0.0 < board[k].0.0);
            }
        }
        assert(after.objects =~= board.update(
            i,
            (first, GameObjectView { paired_with: Some(second), ..x }),
        ).update(j, (second, GameObjectView { paired_with: Some(first), ..y })));
    }
}

proof fn lemma_same_place(board: Board, i: int, controller: PlayerId)
    requires
        rises(board),
        0 <= i < board.len(),
    ensures
        can_be_paired(board, board[i].0, controller) <==> is_in_play(board[i].1)
            && board[i].1.controller == controller && board[i].1.paired_with is None,
{
    if can_be_paired(board, board[i].0, controller) {
        let k = choose|k: int|
            0 <= k < board.len() && (#[trigger] board[k]).0 == board[i].0 && is_in_play(board[k].1)
                && board[k].1.controller == controller && board[k].1.paired_with is None;
        if k < i {
            assert(board[k].0.0 < board[i].0.0);
        } else if i < k {
            assert(board[i].0.0 < board[k].0.0);
        }
    }
}

/// An object that is not there is paired with nothing.
pub proof fn nothing_is_paired_with_nothing(
    state: GameStateView,
    first: ObjectId,
    second: ObjectId,
    controller: PlayerId,
)
    requires
        rises(state.objects),
        (forall|i: int| 0 <= i < state.objects.len() ==> (#[trigger] state.objects[i]).0 != first)
            || (forall|i: int|
            0 <= i < state.objects.len() ==> (#[trigger] state.objects[i]).0 != second),
    ensures
        paired(state, first, second, controller) == state,
{
    lemma_paired(state, first, second, controller);
}

/// An object takes part in the layers exactly where it is on the battlefield and phased in.
pub proof fn what_is_in_play_takes_part(board: Board, id: ObjectId)
    requires
        rises(board),
    ensures
        takes_part(board, id) <==> exists|i: int|
            0 <= i < board.len() && (#[trigger] board[i]).0 == id && board[i].1.zone
                == Zone::Battlefield && board[i].1.phased_out is None,
{
    identifiers_lead_to_their_objects(board, id);
    if takes_part(board, id) {
        let i = choose|i: int| 0 <= i < board.len() && (#[trigger] board[i]).0 == id;
        assert(board[i].0 == id);
    }
}

/// Phasing out marks the object with the cause, and leaves a full evaluation owed to phasing.
/// No other object changes, and nothing else about that one.
pub proof fn phasing_out_marks_the_object(
    state: GameStateView,
    i: int,
    cause: PhaseOutCause,
    k: int,
)
    requires
        rises(state.objects),
        0 <= i < state.objects.len(),
        0 <= k < state.objects.len(),
    ensures
        ({
            let after = with_phased_out(state, state.objects[i].0, cause);
            &&& after.objects.len() == state.objects.len()
            &&& after.objects[k] == (if k == i {
                (
                    state.objects[i].0,
                    GameObjectView { phased_out: Some(cause), ..state.objects[i].1 },
                )
            } else {
                state.objects[k]
            })
            &&& after.layers_dirty is Full
            &&& after.layers_full_classes == state.layers_full_classes.insert(FullEvalClass::Phasing)
            &&& after == (GameStateView {
                objects: after.objects,
                layers_dirty: after.layers_dirty,
                layers_full_classes: after.layers_full_classes,
                ..state
            })
        }),
{
    lemma_lookup(state.objects, i);
    lemma_replaced(
        state.objects,
        i,
        GameObjectView { phased_out: Some(cause), ..state.objects[i].1 },
    );
}

/// At the end of a turn no effect is left that lasts until then, whatever it affects. Every
/// other effect stays, in order. Where one ended, a full evaluation is owed to the end of a
/// transient effect; where none did, nothing happened.
pub proof fn prune_ends_every_end_of_turn_effect(state: GameStateView)
    ensures
        ({
            let after = pruned(state);
            &&& forall|k: int|
                0 <= k < after.transient_effects.len() ==> (
                #[trigger] after.transient_effects[k]).duration != Duration::UntilEndOfTurn
            &&& forall|k: int|
                0 <= k < state.transient_effects.len() && (
                #[trigger] state.transient_effects[k]).duration != Duration::UntilEndOfTurn
                    ==> after.transient_effects.contains(state.transient_effects[k])
            &&& after.transient_effects == state.transient_effects.filter(
                |effect: TransientEffectView| effect.duration != Duration::UntilEndOfTurn,
            )
            &&& if exists|k: int|
                0 <= k < state.transient_effects.len() && (
                #[trigger] state.transient_effects[k]).duration == Duration::UntilEndOfTurn {
                &&& after.layers_dirty is Full
                &&& after.layers_full_classes == state.layers_full_classes.insert(
                    FullEvalClass::TransientEffect,
                )
                &&& after == (GameStateView {
                    transient_effects: after.transient_effects,
                    layers_dirty: after.layers_dirty,
                    layers_full_classes: after.layers_full_classes,
                    ..state
                })
            } else {
                after == state
            }
        }),
{
    let effects = state.transient_effects;
    let keep = |effect: TransientEffectView| effect.duration != Duration::UntilEndOfTurn;
    assert(outlasts_turn() =~= keep);
    lemma_kept(effects, keep);
    let kept = effects.filter(keep);
    assert(pruned(state).transient_effects == kept);
    assert forall|k: int|
        0 <= k < effects.len() && (#[trigger] effects[k]).duration
            != Duration::UntilEndOfTurn implies kept.contains(effects[k]) by {
        effects.lemma_filter_contains(keep, k);
    }
    if kept.len() == effects.len() {
        assert forall|k: int| 0 <= k < effects.len() implies (#[trigger] effects[k]).duration
            != Duration::UntilEndOfTurn by {
            assert(keep(effects[k]));
        }
    } else {
        let k = choose|k: int| 0 <= k < effects.len() && !keep(#[trigger] effects[k]);
        assert(effects[k].duration == Duration::UntilEndOfTurn);
    }
}

} // verus!
