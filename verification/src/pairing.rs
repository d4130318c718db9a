//! Soulbond pairs.

use vstd::prelude::*;

use crate::game_object::{is_active, GameObjectView};
use crate::game_state::{owing_full, well_formed, FullEvalClass, GameState, GameStateView};
use crate::identifiers::{ObjectId, PlayerId};
use crate::object_table::{ascending, lemma_lookup, lemma_replaced, lookup, replaced, Board};

verus! {

/// Whether an object can be paired by this player: it is on the battlefield under that
/// player's control, and has no partner.
pub open spec fn is_free(board: Board, id: ObjectId, controller: PlayerId) -> bool {
    match lookup(board, id) {
        Some(object) => is_active(object) && object.controller == controller
            && object.paired_with is None,
        None => false,
    }
}

/// The board with an object given a partner.
pub open spec fn partnered(board: Board, id: ObjectId, partner: ObjectId) -> Board {
    replaced(
        board,
        id,
        GameObjectView { paired_with: Some(partner), ..lookup(board, id)->0 },
    )
}

/// A state in which two objects have been paired, where both are free to be paired.
pub open spec fn paired(
    state: GameStateView,
    first: ObjectId,
    second: ObjectId,
    controller: PlayerId,
) -> GameStateView {
    if first != second && is_free(state.objects, first, controller) && is_free(
        state.objects,
        second,
        controller,
    ) {
        owing_full(
            GameStateView {
                objects: partnered(partnered(state.objects, first, second), second, first),
                ..state
            },
            FullEvalClass::Attach,
        )
    } else {
        state
    }
}

fn free_index(state: &GameState, id: ObjectId, controller: PlayerId) -> (index: Option<usize>)
    requires
        ascending(state@.objects),
    ensures
        match index {
            Some(i) => i < state@.objects.len() && state@.objects[i as int].0 == id && is_free(
                state@.objects,
                id,
                controller,
            ),
            None => !is_free(state@.objects, id, controller),
        },
{
    match state.objects.find(id) {
        Some(i) => {
            proof {
                lemma_lookup(state.objects@, i as int);
            }
            let object = state.objects.object_at(i);
            if object.active() && object.controller == controller && object.paired_with.is_none() {
                Some(i)
            } else {
                None
            }
        },
        None => None,
    }
}

/// Pairs two objects that a player controls, where both are free to be paired.
pub fn pair_objects(
    state: &mut GameState,
    first: ObjectId,
    second: ObjectId,
    controller: PlayerId,
)
    requires
        well_formed(old(state)@),
    ensures
        final(state)@ == paired(old(state)@, first, second, controller),
        well_formed(final(state)@),
{
    if first == second {
        return;
    }
    let i: usize = match free_index(state, first, controller) {
        Some(i) => i,
        None => {
            return;
        },
    };
    let j: usize = match free_index(state, second, controller) {
        Some(j) => j,
        None => {
            return;
        },
    };
    let ghost board = state.objects@;
    proof {
        lemma_lookup(board, i as int);
        lemma_lookup(board, j as int);
        lemma_replaced(
            board,
            i as int,
            GameObjectView { paired_with: Some(second), ..board[i as int].1 },
        );
    }
    let object = state.objects.object_at_mut(i);
    object.paired_with = Some(second);
    let ghost middle = state.objects@;
    proof {
        assert(middle =~= partnered(board, first, second));
        lemma_lookup(middle, j as int);
        lemma_replaced(
            middle,
            j as int,
            GameObjectView { paired_with: Some(first), ..middle[j as int].1 },
        );
    }
    let object = state.objects.object_at_mut(j);
    object.paired_with = Some(first);
    proof {
        assert(state.objects@ =~= partnered(middle, second, first));
    }
    state.mark_layers_full_classed(FullEvalClass::Attach);
}

} // verus!
