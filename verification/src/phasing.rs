//! Phasing.

use vstd::prelude::*;

use crate::events::GameEvent;
use crate::game_object::{GameObjectView, PhaseOutCause};
use crate::game_state::{owing_full, well_formed, FullEvalClass, GameState, GameStateView};
use crate::identifiers::ObjectId;
use crate::layers::takes_part;
use crate::object_table::{lemma_lookup, lemma_replaced, lookup, replaced};

verus! {

/// A state in which an object has phased out.
pub open spec fn with_phased_out(
    state: GameStateView,
    id: ObjectId,
    cause: PhaseOutCause,
) -> GameStateView {
    owing_full(
        GameStateView {
            objects: replaced(
                state.objects,
                id,
                GameObjectView { phased_out: Some(cause), ..lookup(state.objects, id)->0 },
            ),
            ..state
        },
        FullEvalClass::Phasing,
    )
}

/// Phases an object out, where it is on the battlefield and phased in, and lists what
/// phased out.
pub fn phase_out_object(
    state: &mut GameState,
    id: ObjectId,
    cause: PhaseOutCause,
    events: &mut Vec<GameEvent>,
) -> (phased: Vec<ObjectId>)
    requires
        well_formed(old(state)@),
    ensures
        if takes_part(old(state)@.objects, id) {
            &&& phased@ == seq![id]
            &&& final(state)@ == with_phased_out(old(state)@, id, cause)
            &&& final(events)@ == old(events)@.push(GameEvent::PhasedOut { object: id, cause })
        } else {
            &&& phased@.len() == 0
            &&& final(state)@ == old(state)@
            &&& final(events)@ == old(events)@
        },
        well_formed(final(state)@),
{
    let mut phased: Vec<ObjectId> = Vec::new();
    let i: usize = match state.objects.find(id) {
        Some(i) => i,
        None => {
            return phased;
        },
    };
    let ghost board = state.objects@;
    proof {
        lemma_lookup(board, i as int);
    }
    if !state.objects.object_at(i).active() {
        return phased;
    }
    proof {
        lemma_replaced(
            board,
            i as int,
            GameObjectView { phased_out: Some(cause), ..board[i as int].1 },
        );
    }
    let object = state.objects.object_at_mut(i);
    object.phased_out = Some(cause);
    state.mark_layers_full_classed(FullEvalClass::Phasing);
    events.push(GameEvent::PhasedOut { object: id, cause });
    phased.push(id);
    proof {
        assert(phased@ =~= seq![id]);
    }
    phased
}

} // verus!
