//! What holds of the layers as a whole.

use vstd::prelude::*;

use crate::game_object::{is_active, GameObjectView};
use crate::game_state::{
    entered_too, owing_full, FullEvalClass, GameStateView, LayersDirtyView, TransientEffectView,
};
use crate::identifiers::ObjectId;
use crate::layers::{
    active_effects, applied, applies, blocks_incremental, board_effects, confined,
    definition_effects, definitions_effects, entry_blocks, escalation, evaluated, everything,
    incremental, lemma_derived_where, lemma_push_contains, object_effects, power_bonus, prepared,
    prepared_where, recipients, some_entry_blocks, some_entry_missing, takes_part, toughness_bonus,
    transient_effects, ActiveEffect,
};
use crate::object_table::{ascending, contains_id, lemma_lookup, Board};
use crate::vocabulary::StaticDefinitionView;

verus! {

/// The objects that are not among these.
pub open spec fn not_among(entered: Seq<ObjectId>) -> spec_fn((ObjectId, GameObjectView)) -> bool {
    |entry: (ObjectId, GameObjectView)| !entered.contains(entry.0)
}

/// The board as it would be had these objects not entered.
pub open spec fn before_entry(board: Board, entered: Seq<ObjectId>) -> Board {
    board.filter(not_among(entered))
}

/// Whether an object is what the layers make of it under these effects.
pub open spec fn is_settled(
    id: ObjectId,
    object: GameObjectView,
    effects: Seq<ActiveEffect>,
) -> bool {
    object == applied(id, prepared(object), effects)
}

/// Whether the board was what the layers make of it before these objects entered.
pub open spec fn settled_before(
    board: Board,
    transients: Seq<TransientEffectView>,
    entered: Seq<ObjectId>,
) -> bool {
    forall|i: int|
        0 <= i < board.len() && is_active((#[trigger] board[i]).1) && !entered.contains(board[i].0)
            ==> is_settled(
            board[i].0,
            board[i].1,
            active_effects(before_entry(board, entered), transients),
        )
}

/// Whether what a state owes to the layers is all that it owes: everything else is what
/// the layers make of it.
pub open spec fn coherent(state: GameStateView) -> bool {
    match state.layers_dirty {
        LayersDirtyView::Clean => settled_before(
            state.objects,
            state.transient_effects,
            Seq::empty(),
        ),
        LayersDirtyView::EnteredObjects(entered) => settled_before(
            state.objects,
            state.transient_effects,
            entered,
        ),
        LayersDirtyView::Full => true,
    }
}

/// Preparing an object takes back whatever effects were applied to it.
pub proof fn prepared_again(id: ObjectId, object: GameObjectView, effects: Seq<ActiveEffect>)
    ensures
        prepared(prepared(object)) == prepared(object),
        prepared(applied(id, prepared(object), effects)) == prepared(object),
{
}

/// Effects of two lists together add what they add apart.
pub proof fn lemma_bonus_of_sum(
    a: Seq<ActiveEffect>,
    b: Seq<ActiveEffect>,
    id: ObjectId,
    object: GameObjectView,
)
    ensures
        power_bonus(a + b, id, object) == power_bonus(a, id, object) + power_bonus(b, id, object),
        toughness_bonus(a + b, id, object) == toughness_bonus(a, id, object) + toughness_bonus(
            b,
            id,
            object,
        ),
    decreases b.len(),
{
    if b.len() == 0 {
        assert(a + b =~= a);
    } else {
        lemma_bonus_of_sum(a, b.drop_last(), id, object);
        assert((a + b).drop_last() =~= a + b.drop_last());
    }
}

proof fn lemma_no_bonus(effects: Seq<ActiveEffect>, id: ObjectId, object: GameObjectView)
    requires
        forall|k: int| 0 <= k < effects.len() ==> !applies((#[trigger] effects[k]).affected, id, object),
    ensures
        power_bonus(effects, id, object) == 0,
        toughness_bonus(effects, id, object) == 0,
    decreases effects.len(),
{
    if effects.len() > 0 {
        assert(!applies(effects[effects.len() - 1].affected, id, object));
        lemma_no_bonus(effects.drop_last(), id, object);
    }
}

/// Static abilities that are confined to some objects do not apply to any other.
proof fn lemma_confined(
    definitions: Seq<StaticDefinitionView>,
    chosen: spec_fn(ObjectId) -> bool,
    id: ObjectId,
    object: GameObjectView,
)
    requires
        !chosen(id),
        forall|d: int|
            0 <= d < definitions.len() ==> confined((#[trigger] definitions[d]).affected, chosen),
    ensures
        forall|k: int|
            0 <= k < definitions_effects(definitions).len() ==> !applies(
                (#[trigger] definitions_effects(definitions)[k]).affected,
                id,
                object,
            ),
    decreases definitions.len(),
{
    if definitions.len() > 0 {
        let last = definitions.last();
        let rest = definitions_effects(definitions.drop_last());
        let effects = definitions_effects(definitions);
        assert(confined(definitions[definitions.len() - 1].affected, chosen));
        lemma_confined(definitions.drop_last(), chosen, id, object);
        assert forall|k: int| 0 <= k < effects.len() implies !applies(
            (#[trigger] effects[k]).affected,
            id,
            object,
        ) by {
            if k < rest.len() {
                assert(effects[k] == rest[k]);
            } else {
                assert(effects[k] == definition_effects(last)[k - rest.len()]);
            }
        }
    }
}

/// Two boards whose objects have the same effects have the same effects.
pub proof fn lemma_same_effects(a: Board, b: Board)
    requires
        a.len() == b.len(),
        forall|i: int|
            0 <= i < a.len() ==> object_effects((#[trigger] a[i]).1) == object_effects(b[i].1),
    ensures
        board_effects(a) == board_effects(b),
    decreases a.len(),
{
    if a.len() > 0 {
        assert(object_effects(a[a.len() - 1].1) == object_effects(b[b.len() - 1].1));
        assert forall|i: int| 0 <= i < a.drop_last().len() implies object_effects(
            (#[trigger] a.drop_last()[i]).1,
        ) == object_effects(b.drop_last()[i].1) by {
            assert(object_effects(a[i].1) == object_effects(b[i].1));
        }
        lemma_same_effects(a.drop_last(), b.drop_last());
    }
}

/// Objects whose effects do not apply to an object can be left out of account for it.
proof fn lemma_bonus_without(
    board: Board,
    other: Board,
    entered: Seq<ObjectId>,
    id: ObjectId,
    object: GameObjectView,
)
    requires
        board.len() == other.len(),
        forall|i: int|
            0 <= i < board.len() ==> {
                &&& (#[trigger] board[i]).0 == other[i].0
                &&& !entered.contains(board[i].0) ==> object_effects(board[i].1) == object_effects(
                    other[i].1,
                )
                &&& entered.contains(board[i].0) ==> power_bonus(
                    object_effects(board[i].1),
                    id,
                    object,
                ) == 0 && toughness_bonus(object_effects(board[i].1), id, object) == 0
            },
    ensures
        power_bonus(board_effects(board), id, object) == power_bonus(
            board_effects(before_entry(other, entered)),
            id,
            object,
        ),
        toughness_bonus(board_effects(board), id, object) == toughness_bonus(
            board_effects(before_entry(other, entered)),
            id,
            object,
        ),
    decreases board.len(),
{
    reveal(Seq::filter);
    if board.len() > 0 {
        let front = board.drop_last();
        let other_front = other.drop_last();
        assert forall|i: int| 0 <= i < front.len() implies {
            &&& (#[trigger] front[i]).0 == other_front[i].0
            &&& !entered.contains(front[i].0) ==> object_effects(front[i].1) == object_effects(
                other_front[i].1,
            )
            &&& entered.contains(front[i].0) ==> power_bonus(
                object_effects(front[i].1),
                id,
                object,
            ) == 0 && toughness_bonus(object_effects(front[i].1), id, object) == 0
        } by {
            assert(board[i].0 == other[i].0);
        }
        lemma_bonus_without(front, other_front, entered, id, object);
        let last = board[board.len() - 1];
        assert(last.0 == other[other.len() - 1].0);
        lemma_bonus_of_sum(board_effects(front), object_effects(last.1), id, object);
        let kept = before_entry(other_front, entered);
        if !entered.contains(last.0) {
            assert(before_entry(other, entered) =~= kept.push(other.last()));
            assert(kept.push(other.last()).drop_last() =~= kept);
            lemma_bonus_of_sum(
                board_effects(kept),
                object_effects(other.last().1),
                id,
                object,
            );
        } else {
            assert(before_entry(other, entered) =~= kept);
        }
    }
}

/// The premise of the incremental flush: where the board was what the layers make of it
/// before some objects entered, and the escalation gate lets their entry pass, deriving
/// the entered objects and their hosts alone gives the very board that a full evaluation
/// gives.
pub proof fn incremental_flush_is_a_full_pass(
    board: Board,
    transients: Seq<TransientEffectView>,
    entered: Seq<ObjectId>,
)
    requires
        ascending(board),
        settled_before(board, transients, entered),
        escalation(board, entered) is None,
    ensures
        incremental(board, transients, entered) == evaluated(board, transients),
{
    let chosen = recipients(board, entered);
    let all = prepared_where(board, everything());
    let some = prepared_where(board, chosen);
    let earlier = active_effects(before_entry(board, entered), transients);
    assert forall|i: int| 0 <= i < all.len() implies object_effects((#[trigger] all[i]).1)
        == object_effects(some[i].1) by {
        lemma_lookup(board, i);
        let (id, object) = board[i];
        if is_active(object) && !chosen(id) {
            assert(is_settled(id, object, earlier));
        }
    }
    lemma_same_effects(all, some);
    let effects = active_effects(all, transients);
    assert(effects == active_effects(some, transients));
    let full = evaluated(board, transients);
    let part = incremental(board, transients, entered);
    assert forall|i: int| 0 <= i < board.len() implies full[i] == part[i] by {
        let (id, object) = board[i];
        lemma_lookup(board, i);
        if is_active(object) && !chosen(id) {
            assert(is_settled(id, object, earlier));
            let start = prepared(object);
            assert forall|k: int| 0 <= k < some.len() implies {
                &&& (#[trigger] some[k]).0 == board[k].0
                &&& !entered.contains(some[k].0) ==> object_effects(some[k].1) == object_effects(
                    board[k].1,
                )
                &&& entered.contains(some[k].0) ==> power_bonus(
                    object_effects(some[k].1),
                    id,
                    start,
                ) == 0 && toughness_bonus(object_effects(some[k].1), id, start) == 0
            } by {
                lemma_entry(board, transients, entered, k, id, start);
            }
            lemma_bonus_without(some, board, entered, id, start);
            lemma_bonus_of_sum(
                board_effects(some),
                transient_effects(transients),
                id,
                start,
            );
            lemma_bonus_of_sum(
                board_effects(before_entry(board, entered)),
                transient_effects(transients),
                id,
                start,
            );
        }
    }
    assert(full =~= part);
}

/// What one object of the board contributes to another that is not derived anew.
proof fn lemma_entry(
    board: Board,
    transients: Seq<TransientEffectView>,
    entered: Seq<ObjectId>,
    k: int,
    id: ObjectId,
    object: GameObjectView,
)
    requires
        ascending(board),
        settled_before(board, transients, entered),
        escalation(board, entered) is None,
        0 <= k < board.len(),
        !recipients(board, entered)(id),
    ensures
        ({
            let entry = prepared_where(board, recipients(board, entered))[k];
            &&& entry.0 == board[k].0
            &&& !entered.contains(entry.0) ==> object_effects(entry.1) == object_effects(board[k].1)
            &&& entered.contains(entry.0) ==> power_bonus(object_effects(entry.1), id, object) == 0
                && toughness_bonus(object_effects(entry.1), id, object) == 0
        }),
{
    let chosen = recipients(board, entered);
    let entry = prepared_where(board, chosen)[k];
    lemma_lookup(board, k);
    let (other, there) = board[k];
    if entered.contains(other) {
        let j = choose|j: int| 0 <= j < entered.len() && entered[j] == other;
        assert(takes_part(board, entered[j]));
        assert(chosen(other));
        assert(!entry_blocks(board, entered, entered[j]));
        assert(!blocks_incremental(prepared(there), chosen));
        lemma_confined(prepared(there).live.static_definitions, chosen, id, object);
        lemma_no_bonus(object_effects(entry.1), id, object);
    } else if is_active(there) {
        assert(is_settled(
            other,
            there,
            active_effects(before_entry(board, entered), transients),
        ));
    }
}

/// A full evaluation leaves a board that is what the layers make of it.
pub proof fn evaluation_settles(board: Board, transients: Seq<TransientEffectView>)
    ensures
        settled_before(evaluated(board, transients), transients, Seq::empty()),
{
    let start = prepared_where(board, everything());
    let result = evaluated(board, transients);
    let none = Seq::<ObjectId>::empty();
    assert forall|i: int| 0 <= i < result.len() implies object_effects((#[trigger] result[i]).1)
        == object_effects(start[i].1) by {}
    lemma_same_effects(result, start);
    lemma_nothing_entered(result);
    assert forall|i: int|
        0 <= i < result.len() && is_active((#[trigger] result[i]).1) && !none.contains(
            result[i].0,
        ) implies is_settled(
        result[i].0,
        result[i].1,
        active_effects(before_entry(result, none), transients),
    ) by {
        prepared_again(board[i].0, board[i].1, active_effects(start, transients));
    }
}

proof fn lemma_nothing_entered(board: Board)
    ensures
        before_entry(board, Seq::empty()) == board,
    decreases board.len(),
{
    reveal(Seq::filter);
    if board.len() > 0 {
        lemma_nothing_entered(board.drop_last());
        assert(board.drop_last().push(board.last()) =~= board);
    }
}

/// A board that is what the layers make of it is left as it is by a full evaluation.
pub proof fn settled_board_is_fixed(board: Board, transients: Seq<TransientEffectView>)
    requires
        ascending(board),
        settled_before(board, transients, Seq::empty()),
    ensures
        evaluated(board, transients) == board,
{
    let none = Seq::<ObjectId>::empty();
    assert(!some_entry_missing(board, none));
    assert(!some_entry_blocks(board, none));
    incremental_flush_is_a_full_pass(board, transients, none);
    assert(incremental(board, transients, none) =~= board);
}

/// A full evaluation changes nothing that a full evaluation has just settled.
pub proof fn evaluation_is_idempotent(board: Board, transients: Seq<TransientEffectView>)
    requires
        ascending(board),
    ensures
        evaluated(evaluated(board, transients), transients) == evaluated(board, transients),
{
    evaluation_settles(board, transients);
    lemma_derived_where(board, transients, everything());
    settled_board_is_fixed(evaluated(board, transients), transients);
}

/// Stripping some objects beforehand makes no difference to a full evaluation.
pub proof fn preparation_is_harmless(
    board: Board,
    transients: Seq<TransientEffectView>,
    chosen: spec_fn(ObjectId) -> bool,
)
    ensures
        evaluated(prepared_where(board, chosen), transients) == evaluated(board, transients),
{
    assert(prepared_where(prepared_where(board, chosen), everything()) =~= prepared_where(
        board,
        everything(),
    ));
}

/// Leaving out an identifier that a board does not have leaves out nothing.
proof fn lemma_newcomer(board: Board, entered: Seq<ObjectId>, more: Seq<ObjectId>, id: ObjectId)
    requires
        !contains_id(board, id),
        forall|other: ObjectId| #[trigger]
            more.contains(other) <==> entered.contains(other) || other == id,
    ensures
        before_entry(board, more) == before_entry(board, entered),
    decreases board.len(),
{
    reveal(Seq::filter);
    if board.len() > 0 {
        let front = board.drop_last();
        assert(board[board.len() - 1].0 != id);
        assert(!contains_id(front, id)) by {
            assert forall|i: int| 0 <= i < front.len() implies (#[trigger] front[i]).0 != id by {
                assert(board[i].0 != id);
            }
        }
        lemma_newcomer(front, entered, more, id);
        assert(more.contains(board.last().0) <==> entered.contains(board.last().0));
    }
}

/// An object that comes into being, and is marked as entered, is all that a state then owes
/// in addition to what it owed before.
pub proof fn entry_is_coherent(state: GameStateView, id: ObjectId, object: GameObjectView)
    requires
        coherent(state),
        !contains_id(state.objects, id),
    ensures
        coherent(
            GameStateView {
                objects: state.objects.push((id, object)),
                layers_dirty: entered_too(state.layers_dirty, id),
                ..state
            },
        ),
{
    let board = state.objects;
    let after = board.push((id, object));
    if !(state.layers_dirty is Full) {
        let entered = match state.layers_dirty {
            LayersDirtyView::EnteredObjects(entered) => entered,
            _ => Seq::empty(),
        };
        let more = entered_too(state.layers_dirty, id)->EnteredObjects_0;
        assert forall|other: ObjectId| #[trigger] more.contains(other) <==> entered.contains(other)
            || other == id by {
            lemma_push_contains(entered, id, other);
            assert(Seq::<ObjectId>::empty().push(id) =~= seq![id]);
        }
        assert(before_entry(after, more) == before_entry(board, entered)) by {
            lemma_newcomer(board, entered, more, id);
            reveal(Seq::filter);
            assert(after.drop_last() =~= board);
            assert(more.contains(id));
        }
        assert forall|i: int|
            0 <= i < after.len() && is_active((#[trigger] after[i]).1) && !more.contains(
                after[i].0,
            ) implies is_settled(
            after[i].0,
            after[i].1,
            active_effects(before_entry(after, more), state.transient_effects),
        ) by {
            assert(i < board.len());
            assert(after[i] == board[i]);
            assert(!entered.contains(board[i].0));
        }
    }
}

/// A change that is marked as owing a full evaluation leaves no other debt.
pub proof fn owing_everything_is_coherent(state: GameStateView, class: FullEvalClass)
    ensures
        coherent(owing_full(state, class)),
{
}

} // verus!
