//! Objects coming into being, and moving between zones.

use vstd::prelude::*;

use crate::events::GameEvent;
use crate::game_object::{is_active, newborn, GameObject, GameObjectView};
use crate::game_state::{
    entered_too, well_formed, FullEvalClass, GameState, GameStateView, LayersDirtyView,
};
use crate::identifiers::{CardId, ObjectId, PlayerId, Zone};
use crate::layer_laws::{before_entry, coherent, settled_before};
use crate::layers::{
    active_effects, board_effects, lemma_push_contains, mark_layers_entered, object_effects,
};
use crate::object_table::{lemma_lookup, lemma_replaced, lookup, replaced, Board};

verus! {

/// Brings an object into being. This is bare scaffolding: it leaves what is owed to the
/// layers alone.
pub fn create_object(
    state: &mut GameState,
    card_id: CardId,
    owner: PlayerId,
    name: String,
    zone: Zone,
) -> (id: ObjectId)
    requires
        well_formed(old(state)@),
        old(state).next_object_id < u64::MAX,
    ensures
        id == ObjectId(old(state).next_object_id),
        final(state)@ == (GameStateView {
            objects: old(state)@.objects.push((id, newborn(card_id, owner, name@, zone))),
            next_object_id: (old(state).next_object_id + 1) as u64,
            ..old(state)@
        }),
        well_formed(final(state)@),
        coherent(old(state)@) && zone != Zone::Battlefield ==> coherent(final(state)@),
{
    let ghost before = state@;
    let id = ObjectId(state.next_object_id);
    state.objects.append(id, GameObject::new(card_id, owner, name, zone));
    state.next_object_id = state.next_object_id + 1;
    proof {
        if coherent(before) && zone != Zone::Battlefield {
            match state.layers_dirty@ {
                LayersDirtyView::Clean => lemma_idle_object(
                    before,
                    id,
                    newborn(card_id, owner, name@, zone),
                    Seq::empty(),
                ),
                LayersDirtyView::EnteredObjects(entered) => lemma_idle_object(
                    before,
                    id,
                    newborn(card_id, owner, name@, zone),
                    entered,
                ),
                LayersDirtyView::Full => {},
            }
        }
    }
    id
}

/// An object that takes no part in the layers changes nothing for the others.
proof fn lemma_idle_object(
    state: GameStateView,
    id: ObjectId,
    object: GameObjectView,
    entered: Seq<ObjectId>,
)
    requires
        !is_active(object),
        settled_before(state.objects, state.transient_effects, entered),
    ensures
        settled_before(state.objects.push((id, object)), state.transient_effects, entered),
{
    let board = state.objects;
    let more = board.push((id, object));
    reveal(Seq::filter);
    assert(more.drop_last() =~= board);
    let kept = before_entry(board, entered);
    assert(board_effects(before_entry(more, entered)) =~= board_effects(kept)) by {
        assert(kept.push((id, object)).drop_last() =~= kept);
    }
    assert forall|i: int|
        0 <= i < more.len() && is_active((#[trigger] more[i]).1) && !entered.contains(
            more[i].0,
        ) implies i < board.len() && more[i] == board[i] by {}
}

/// The kinds of change that a move between zones is, as far as the layers are concerned.
/// One move can be of several.
pub open spec fn move_classes(from: Zone, to: Zone, bestowed: bool) -> Set<FullEvalClass> {
    Set::new(
        |class: FullEvalClass|
            match class {
                FullEvalClass::EntryHandExile => to == Zone::Battlefield && (from == Zone::Hand
                    || from == Zone::Exile),
                FullEvalClass::BattlefieldExit => from == Zone::Battlefield,
                FullEvalClass::HandChurn => from == Zone::Hand || to == Zone::Hand,
                FullEvalClass::FormChange => from == Zone::Battlefield && bestowed,
                _ => false,
            },
    )
}

/// An object after a move. One that leaves the battlefield is no longer bestowed.
pub open spec fn moved_object(object: GameObjectView, to: Zone) -> GameObjectView {
    GameObjectView {
        zone: to,
        bestow_form: if object.zone == Zone::Battlefield {
            None
        } else {
            object.bestow_form
        },
        ..object
    }
}

/// What is owed to the layers after a move: everything, where the move is a change of
/// some class; the object that entered, where it is a plain entry; nothing more,
/// otherwise.
pub open spec fn moved(
    state: GameStateView,
    id: ObjectId,
    object: GameObjectView,
    to: Zone,
) -> GameStateView {
    let objects = replaced(state.objects, id, moved_object(object, to));
    let classes = move_classes(object.zone, to, object.bestow_form is Some);
    if classes != Set::<FullEvalClass>::empty() {
        GameStateView {
            objects,
            layers_dirty: LayersDirtyView::Full,
            layers_full_classes: state.layers_full_classes.union(classes),
            ..state
        }
    } else if to == Zone::Battlefield {
        GameStateView { objects, layers_dirty: entered_too(state.layers_dirty, id), ..state }
    } else {
        GameStateView { objects, ..state }
    }
}

/// Moves an object to another zone.
pub fn move_to_zone(state: &mut GameState, id: ObjectId, to: Zone, events: &mut Vec<GameEvent>)
    requires
        well_formed(old(state)@),
    ensures
        match lookup(old(state)@.objects, id) {
            Some(object) => if object.zone == to {
                final(state)@ == old(state)@ && final(events)@ == old(events)@
            } else {
                &&& final(state)@ == moved(old(state)@, id, object, to)
                &&& final(events)@ == old(events)@.push(
                    GameEvent::ZoneChanged { object: id, from: object.zone, to },
                )
            },
            None => final(state)@ == old(state)@ && final(events)@ == old(events)@,
        },
        well_formed(final(state)@),
        coherent(old(state)@) ==> coherent(final(state)@),
{
    let ghost before = state@;
    let index: usize = match state.objects.find(id) {
        Some(index) => index,
        None => {
            return;
        },
    };
    proof {
        lemma_lookup(state.objects@, index as int);
    }
    let ghost there = state.objects@[index as int].1;
    let from = state.objects.object_at(index).zone;
    if from == to {
        return;
    }
    let bestowed = state.objects.object_at(index).bestow_form.is_some();
    let object = state.objects.object_at_mut(index);
    object.zone = to;
    if from == Zone::Battlefield {
        object.bestow_form = None;
    }
    proof {
        lemma_replaced(before.objects, index as int, moved_object(there, to));
        assert(state.objects@ == replaced(before.objects, id, moved_object(there, to)));
        assert(well_formed(state@));
    }
    events.push(GameEvent::ZoneChanged { object: id, from, to });
    let entry = to == Zone::Battlefield && (from == Zone::Hand || from == Zone::Exile);
    let exit = from == Zone::Battlefield;
    let churn = from == Zone::Hand || to == Zone::Hand;
    let ghost classes = move_classes(from, to, bestowed);
    if entry {
        state.layers_full_classes.insert(FullEvalClass::EntryHandExile);
    }
    if exit {
        state.layers_full_classes.insert(FullEvalClass::BattlefieldExit);
    }
    if churn {
        state.layers_full_classes.insert(FullEvalClass::HandChurn);
    }
    if exit && bestowed {
        state.layers_full_classes.insert(FullEvalClass::FormChange);
    }
    proof {
        assert(state.layers_full_classes@ =~= before.layers_full_classes.union(classes));
        if entry {
            assert(classes.contains(FullEvalClass::EntryHandExile));
        }
        if exit {
            assert(classes.contains(FullEvalClass::BattlefieldExit));
        }
        if churn {
            assert(classes.contains(FullEvalClass::HandChurn));
        }
        if !entry && !exit && !churn {
            assert(classes =~= Set::<FullEvalClass>::empty());
        }
    }
    if entry || exit || churn {
        state.layers_dirty.mark_full();
    } else {
        proof {
            assert(before.layers_full_classes.union(classes) =~= before.layers_full_classes);
            if coherent(before) && !(before.layers_dirty is Full) {
                lemma_move_is_coherent(before, index as int, to);
            }
        }
        if to == Zone::Battlefield {
            mark_layers_entered(state, id);
        }
    }
}

/// Moving an object that was not on the battlefield leaves the others as they were.
proof fn lemma_move_is_coherent(state: GameStateView, index: int, to: Zone)
    requires
        well_formed(state),
        coherent(state),
        0 <= index < state.objects.len(),
        state.objects[index].1.zone != Zone::Battlefield,
        state.layers_dirty !is Full,
    ensures
        ({
            let (id, object) = state.objects[index];
            let objects = replaced(state.objects, id, moved_object(object, to));
            coherent(
                GameStateView {
                    objects,
                    layers_dirty: if to == Zone::Battlefield {
                        entered_too(state.layers_dirty, id)
                    } else {
                        state.layers_dirty
                    },
                    ..state
                },
            )
        }),
{
    let board = state.objects;
    let (id, object) = board[index];
    let after = replaced(board, id, moved_object(object, to));
    lemma_replaced(board, index, moved_object(object, to));
    let entered = match state.layers_dirty {
        LayersDirtyView::EnteredObjects(entered) => entered,
        _ => Seq::empty(),
    };
    let owed = if to == Zone::Battlefield {
        entered_too(state.layers_dirty, id)
    } else {
        state.layers_dirty
    };
    let more = match owed {
        LayersDirtyView::EnteredObjects(more) => more,
        _ => Seq::empty(),
    };
    assert forall|other: ObjectId| #[trigger] more.contains(other) <==> entered.contains(other) || (
    to == Zone::Battlefield && other == id) by {
        if to == Zone::Battlefield {
            lemma_push_contains(entered, id, other);
            assert(Seq::<ObjectId>::empty().push(id) =~= seq![id]);
        }
    }
    lemma_effects_before(board, after, entered, more);
    let earlier = active_effects(before_entry(board, entered), state.transient_effects);
    assert(earlier == active_effects(before_entry(after, more), state.transient_effects));
    assert forall|i: int|
        0 <= i < after.len() && is_active((#[trigger] after[i]).1) && !more.contains(
            after[i].0,
        ) implies after[i] == board[i] && is_active(board[i].1) && !entered.contains(board[i].0) by {
        if i == index {
            assert(after[i].0 == id);
        }
    }
    assert(settled_before(after, state.transient_effects, more));
}

/// Objects without effects can come and go among those that entered.
proof fn lemma_effects_before(
    board: Board,
    after: Board,
    entered: Seq<ObjectId>,
    more: Seq<ObjectId>,
)
    requires
        board.len() == after.len(),
        forall|i: int|
            0 <= i < board.len() ==> {
                &&& (#[trigger] board[i]).0 == after[i].0
                &&& entered.contains(board[i].0) ==> more.contains(board[i].0)
                &&& !more.contains(board[i].0) ==> object_effects(board[i].1) == object_effects(
                    after[i].1,
                )
                &&& more.contains(board[i].0) && !entered.contains(board[i].0) ==> object_effects(
                    board[i].1,
                ).len() == 0
            },
    ensures
        board_effects(before_entry(board, entered)) == board_effects(before_entry(after, more)),
    decreases board.len(),
{
    reveal(Seq::filter);
    if board.len() > 0 {
        let front = board.drop_last();
        let after_front = after.drop_last();
        assert forall|i: int| 0 <= i < front.len() implies {
            &&& (#[trigger] front[i]).0 == after_front[i].0
            &&& entered.contains(front[i].0) ==> more.contains(front[i].0)
            &&& !more.contains(front[i].0) ==> object_effects(front[i].1) == object_effects(
                after_front[i].1,
            )
            &&& more.contains(front[i].0) && !entered.contains(front[i].0) ==> object_effects(
                front[i].1,
            ).len() == 0
        } by {
            assert(board[i].0 == after[i].0);
        }
        lemma_effects_before(front, after_front, entered, more);
        let last = board[board.len() - 1];
        assert(last.0 == after[after.len() - 1].0);
        let kept = before_entry(front, entered);
        let kept_after = before_entry(after_front, more);
        assert(kept.push(last).drop_last() =~= kept);
        assert(kept_after.push(after.last()).drop_last() =~= kept_after);
        if entered.contains(last.0) {
            assert(before_entry(board, entered) =~= kept);
            assert(before_entry(after, more) =~= kept_after);
        } else if more.contains(last.0) {
            assert(before_entry(board, entered) =~= kept.push(last));
            assert(before_entry(after, more) =~= kept_after);
            assert(board_effects(kept.push(last)) =~= board_effects(kept));
        } else {
            assert(before_entry(board, entered) =~= kept.push(last));
            assert(before_entry(after, more) =~= kept_after.push(after.last()));
        }
    }
}

} // verus!
