//! What a comparison of two boards finds, and how much of them it looks at, in terms of the
//! objects on them.

use vstd::prelude::*;

use crate::differential::{
    board_divergences, compared_ids, derived, divergences_over, has_compared, has_room_for,
    is_compared, lemma_compared_ids, object_divergences, on_both, printed_ref_text, shown,
    snapshot_divergences, switched, token_image_ref_text, ALL_CLASSES, CLASS_COUNT, DivergenceClass,
    DivergenceView, Harness,
};
use crate::differential_laws::{
    agree_on, boards_agree_where_snapshots_do, every_reset_field_is_observed,
    snapshots_diverge_class_by_class,
};
use crate::evaluation_laws::rises;
use crate::game_object::GameObjectView;
use crate::identifiers::{ObjectId, PlayerId, Zone};
use crate::mutation_laws::identifiers_lead_to_their_objects;
use crate::object_table::{lookup, Board};
use crate::text::{list, optional_integer, optional_natural, texts, Rendered};
use crate::text_laws::{
    booleans_differ, lemma_read_optional, lists_differ, optional_integers_differ,
    optional_naturals_differ, prefix_related,
};
use crate::vocabulary::{
    AbilityDefinition, CardTypes, DisplaySource, Keyword, ManaColor, ManaCost, PrintedCardRef,
    ReplacementDefinition, StaticDefinition, TokenImageRef,
};
use crate::vocabulary_laws::{
    abilities_part, card_types_differ, colors_part, display_sources_part, keywords_part,
    mana_costs_differ, players_differ, replacements_part, static_definitions_part,
};

verus! {

/// Whether a board has an object.
pub open spec fn has_object(board: Board, id: ObjectId) -> bool {
    exists|i: int| 0 <= i < board.len() && (#[trigger] board[i]).0 == id
}

/// Whether a board has an object in the battlefield zone, whatever else is true of it.
pub open spec fn has_permanent(board: Board, id: ObjectId) -> bool {
    exists|i: int|
        0 <= i < board.len() && (#[trigger] board[i]).0 == id && board[i].1.zone == Zone::Battlefield
}

/// Whether two objects agree on everything that a derivation writes. References to printed
/// cards and token images are held to their texts.
pub open spec fn same_fields(x: GameObjectView, y: GameObjectView) -> bool {
    &&& x.live.name == y.live.name
    &&& x.live.power == y.live.power
    &&& x.live.toughness == y.live.toughness
    &&& x.live.loyalty == y.live.loyalty
    &&& x.live.card_types == y.live.card_types
    &&& x.live.mana_cost == y.live.mana_cost
    &&& x.live.keywords == y.live.keywords
    &&& x.live.abilities == y.live.abilities
    &&& x.live.replacement_definitions == y.live.replacement_definitions
    &&& x.live.static_definitions == y.live.static_definitions
    &&& x.live.color == y.live.color
    &&& x.live.printed_ref is Some == y.live.printed_ref is Some
    &&& printed_ref_text(x.live.printed_ref) == printed_ref_text(y.live.printed_ref)
    &&& x.live.display_source == y.live.display_source
    &&& x.live.token_image_ref is Some == y.live.token_image_ref is Some
    &&& token_image_ref_text(x.live.token_image_ref) == token_image_ref_text(y.live.token_image_ref)
    &&& x.controller == y.controller
    &&& x.assigns_damage_from_toughness == y.assigns_damage_from_toughness
    &&& x.assigns_damage_as_though_unblocked == y.assigns_damage_as_though_unblocked
    &&& x.assigns_no_combat_damage == y.assigns_no_combat_damage
}

proof fn lemma_compared(a: Board, b: Board, id: ObjectId)
    requires
        rises(a),
        rises(b),
    ensures
        is_compared(a, b, id) <==> has_permanent(a, id) || has_permanent(b, id),
        lookup(a, id) is Some <==> has_object(a, id),
        lookup(b, id) is Some <==> has_object(b, id),
{
    identifiers_lead_to_their_objects(a, id);
    identifiers_lead_to_their_objects(b, id);
}

/// Where no divergence is reported, every object in the battlefield zone of one board is on
/// the other board too, and agrees with it on everything that a derivation writes.
pub proof fn a_clean_comparison_has_looked_at_every_permanent(a: Board, b: Board)
    requires
        rises(a),
        rises(b),
        board_divergences(a, b).len() == 0,
    ensures
        forall|i: int|
            0 <= i < a.len() && (#[trigger] a[i]).1.zone == Zone::Battlefield ==> exists|j: int|
                0 <= j < b.len() && (#[trigger] b[j]).0 == a[i].0 && same_fields(a[i].1, b[j].1),
        forall|j: int|
            0 <= j < b.len() && (#[trigger] b[j]).1.zone == Zone::Battlefield ==> exists|i: int|
                0 <= i < a.len() && (#[trigger] a[i]).0 == b[j].0 && same_fields(a[i].1, b[j].1),
{
    boards_agree_where_snapshots_do(a, b);
    assert forall|i: int| 0 <= i < a.len() && (#[trigger] a[i]).1.zone == Zone::Battlefield implies exists|
        j: int,
    |
        0 <= j < b.len() && (#[trigger] b[j]).0 == a[i].0 && same_fields(a[i].1, b[j].1) by {
        let id = a[i].0;
        lemma_compared(a, b, id);
        identifiers_lead_to_their_objects(a, id);
        identifiers_lead_to_their_objects(b, id);
        assert(agree_on(a, b, id));
        let j = choose|j: int| 0 <= j < b.len() && (#[trigger] b[j]).0 == id;
        every_reset_field_is_observed(a[i].1, b[j].1);
    }
    assert forall|j: int| 0 <= j < b.len() && (#[trigger] b[j]).1.zone == Zone::Battlefield implies exists|
        i: int,
    |
        0 <= i < a.len() && (#[trigger] a[i]).0 == b[j].0 && same_fields(a[i].1, b[j].1) by {
        let id = b[j].0;
        lemma_compared(a, b, id);
        identifiers_lead_to_their_objects(a, id);
        identifiers_lead_to_their_objects(b, id);
        assert(agree_on(a, b, id));
        let i = choose|i: int| 0 <= i < a.len() && (#[trigger] a[i]).0 == id;
        every_reset_field_is_observed(a[i].1, b[j].1);
    }
}

/// Where every object in the battlefield zone of one board is on the other board too, and
/// agrees with it on everything that a derivation writes, no divergence is reported.
pub proof fn agreeing_boards_compare_clean(a: Board, b: Board)
    requires
        rises(a),
        rises(b),
        forall|i: int|
            0 <= i < a.len() && (#[trigger] a[i]).1.zone == Zone::Battlefield ==> exists|j: int|
                0 <= j < b.len() && (#[trigger] b[j]).0 == a[i].0 && same_fields(a[i].1, b[j].1),
        forall|j: int|
            0 <= j < b.len() && (#[trigger] b[j]).1.zone == Zone::Battlefield ==> exists|i: int|
                0 <= i < a.len() && (#[trigger] a[i]).0 == b[j].0 && same_fields(a[i].1, b[j].1),
    ensures
        board_divergences(a, b).len() == 0,
{
    boards_agree_where_snapshots_do(a, b);
    assert forall|id: ObjectId| #[trigger] is_compared(a, b, id) implies agree_on(a, b, id) by {
        lemma_compared(a, b, id);
        identifiers_lead_to_their_objects(a, id);
        identifiers_lead_to_their_objects(b, id);
        let (i, j) = if has_permanent(a, id) {
            let i = choose|i: int|
                0 <= i < a.len() && (#[trigger] a[i]).0 == id && a[i].1.zone == Zone::Battlefield;
            (
                i,
                choose|j: int|
                    0 <= j < b.len() && (#[trigger] b[j]).0 == a[i].0 && same_fields(a[i].1, b[j].1),
            )
        } else {
            let j = choose|j: int|
                0 <= j < b.len() && (#[trigger] b[j]).0 == id && b[j].1.zone == Zone::Battlefield;
            (
                choose|i: int|
                    0 <= i < a.len() && (#[trigger] a[i]).0 == b[j].0 && same_fields(a[i].1, b[j].1),
                j,
            )
        };
        assert(a[i].0 == id && b[j].0 == id);
        assert(derived(a[i].1) =~= derived(b[j].1));
    }
}

/// The text of a field of an object.
pub open spec fn field_text(object: GameObjectView, class: DivergenceClass) -> Seq<char> {
    match class {
        DivergenceClass::Presence => Seq::empty(),
        DivergenceClass::Name => object.live.name,
        DivergenceClass::Power => optional_integer(object.live.power),
        DivergenceClass::Toughness => optional_integer(object.live.toughness),
        DivergenceClass::Loyalty => optional_natural(object.live.loyalty),
        DivergenceClass::CardTypes => CardTypes::text_of(object.live.card_types),
        DivergenceClass::ManaCost => ManaCost::text_of(object.live.mana_cost),
        DivergenceClass::Keywords => list(texts::<Keyword>(object.live.keywords)),
        DivergenceClass::Abilities => list(texts::<AbilityDefinition>(object.live.abilities)),
        DivergenceClass::ReplacementDefinitions => list(
            texts::<ReplacementDefinition>(object.live.replacement_definitions),
        ),
        DivergenceClass::StaticDefinitions => list(
            texts::<StaticDefinition>(object.live.static_definitions),
        ),
        DivergenceClass::Color => list(texts::<ManaColor>(object.live.color)),
        DivergenceClass::PrintedRef => printed_ref_text(object.live.printed_ref),
        DivergenceClass::DisplaySource => DisplaySource::text_of(object.live.display_source),
        DivergenceClass::TokenImageRef => token_image_ref_text(object.live.token_image_ref),
        DivergenceClass::Controller => PlayerId::text_of(object.controller),
        DivergenceClass::AssignsDamageFromToughness => truth(object.assigns_damage_from_toughness),
        DivergenceClass::AssignsDamageAsThoughUnblocked => truth(
            object.assigns_damage_as_though_unblocked,
        ),
        DivergenceClass::AssignsNoCombatDamage => truth(object.assigns_no_combat_damage),
    }
}

/// A truth value, written out.
pub open spec fn truth(b: bool) -> Seq<char> {
    if b {
        "true"@
    } else {
        "false"@
    }
}

/// Whether a disagreement is one that two boards have: over an object in the battlefield zone
/// of either, that one of them lacks, or that both have with different texts in a class.
pub open spec fn is_true_of(a: Board, b: Board, d: DivergenceView) -> bool {
    &&& has_permanent(a, d.object) || has_permanent(b, d.object)
    &&& if d.class == DivergenceClass::Presence {
        &&& has_object(a, d.object) != has_object(b, d.object)
        &&& d.incremental == truth(has_object(a, d.object))
        &&& d.full == truth(has_object(b, d.object))
    } else {
        exists|i: int, j: int|
            0 <= i < a.len() && 0 <= j < b.len() && (#[trigger] a[i]).0 == d.object && (
            #[trigger] b[j]).0 == d.object && d.incremental == field_text(a[i].1, d.class) && d.full
                == field_text(b[j].1, d.class) && d.incremental != d.full
    }
}

proof fn lemma_over_contains(a: Board, b: Board, ids: Seq<ObjectId>, d: DivergenceView)
    ensures
        divergences_over(a, b, ids).contains(d) <==> exists|k: int|
            0 <= k < ids.len() && object_divergences(a, b, #[trigger] ids[k]).contains(d),
    decreases ids.len(),
{
    if ids.len() > 0 {
        let front = ids.drop_last();
        let before = divergences_over(a, b, front);
        let added = object_divergences(a, b, ids.last());
        let all = divergences_over(a, b, ids);
        lemma_over_contains(a, b, front, d);
        if before.contains(d) {
            let m = choose|m: int| 0 <= m < before.len() && before[m] == d;
            assert(all[m] == d);
            let k = choose|k: int|
                0 <= k < front.len() && object_divergences(a, b, #[trigger] front[k]).contains(d);
            assert(object_divergences(a, b, ids[k]).contains(d));
        }
        if added.contains(d) {
            let m = choose|m: int| 0 <= m < added.len() && added[m] == d;
            assert(all[before.len() + m] == d);
            assert(object_divergences(a, b, ids[ids.len() - 1]).contains(d));
        }
        if all.contains(d) {
            let m = choose|m: int| 0 <= m < all.len() && all[m] == d;
            if m < before.len() {
                assert(before[m] == d);
            } else {
                assert(added[m - before.len()] == d);
            }
        }
        if exists|k: int|
            0 <= k < ids.len() && object_divergences(a, b, #[trigger] ids[k]).contains(d) {
            let k = choose|k: int|
                0 <= k < ids.len() && object_divergences(a, b, #[trigger] ids[k]).contains(d);
            if k < front.len() {
                assert(object_divergences(a, b, front[k]).contains(d));
            }
        }
    }
}

proof fn lemma_field_text(object: GameObjectView, class: DivergenceClass)
    ensures
        shown(derived(object), class) == field_text(object, class),
{
}

proof fn lemma_snapshot_contains(
    id: ObjectId,
    x: GameObjectView,
    y: GameObjectView,
    d: DivergenceView,
)
    ensures
        snapshot_divergences(id, derived(x), derived(y)).contains(d) <==> {
            &&& d.object == id
            &&& d.class != DivergenceClass::Presence
            &&& d.incremental == field_text(x, d.class)
            &&& d.full == field_text(y, d.class)
            &&& d.incremental != d.full
        },
{
    let found = snapshot_divergences(id, derived(x), derived(y));
    snapshots_diverge_class_by_class(id, derived(x), derived(y));
    lemma_field_text(x, d.class);
    lemma_field_text(y, d.class);
    if found.contains(d) {
        let k = choose|k: int| 0 <= k < found.len() && found[k] == d;
        assert(found[k].class == d.class);
    }
    if d.object == id && d.class != DivergenceClass::Presence && d.incremental == field_text(
        x,
        d.class,
    ) && d.full == field_text(y, d.class) && d.incremental != d.full {
        assert(shown(derived(x), d.class) != shown(derived(y), d.class));
        let k = choose|k: int| 0 <= k < found.len() && (#[trigger] found[k]).class == d.class;
        assert(found[k] == d);
    }
}

/// What is reported is what is true: a disagreement is in the report of two boards exactly
/// where they have it.
pub proof fn reports_tell_the_truth(a: Board, b: Board, d: DivergenceView)
    requires
        rises(a),
        rises(b),
    ensures
        board_divergences(a, b).contains(d) <==> is_true_of(a, b, d),
{
    let ids = compared_ids(a, b);
    let id = d.object;
    lemma_compared_ids(a, b);
    lemma_over_contains(a, b, ids, d);
    assert forall|other: ObjectId| #[trigger] object_divergences(a, b, other).contains(d) implies other
        == id by {
        if let (Some(x), Some(y)) = (lookup(a, other), lookup(b, other)) {
            lemma_snapshot_contains(other, x, y, d);
        }
    }
    assert(board_divergences(a, b).contains(d) <==> is_compared(a, b, id) && object_divergences(
        a,
        b,
        id,
    ).contains(d)) by {
        if board_divergences(a, b).contains(d) {
            let k = choose|k: int|
                0 <= k < ids.len() && object_divergences(a, b, #[trigger] ids[k]).contains(d);
            assert(ids.contains(ids[k]));
        }
        if is_compared(a, b, id) && object_divergences(a, b, id).contains(d) {
            assert(ids.contains(id));
            let k = choose|k: int| 0 <= k < ids.len() && ids[k] == id;
            assert(object_divergences(a, b, ids[k]).contains(d));
        }
    }
    lemma_compared(a, b, id);
    identifiers_lead_to_their_objects(a, id);
    identifiers_lead_to_their_objects(b, id);
    if let (Some(x), Some(y)) = (lookup(a, id), lookup(b, id)) {
        let i = choose|i: int| 0 <= i < a.len() && (#[trigger] a[i]).0 == id;
        let j = choose|j: int| 0 <= j < b.len() && (#[trigger] b[j]).0 == id;
        assert(a[i].1 == x && b[j].1 == y);
        lemma_snapshot_contains(id, x, y, d);
    } else {
        let found = object_divergences(a, b, id);
        assert(found.len() == 1);
        if is_compared(a, b, id) {
            assert(found.contains(found[0]));
            assert(found.contains(d) <==> d == found[0]);
            if is_true_of(a, b, d) {
                assert(d =~= found[0]);
            }
        }
    }
}

/// The objects in the battlefield zone of either board.
pub open spec fn permanents(a: Board, b: Board) -> Set<ObjectId> {
    Set::new(|id: ObjectId| has_permanent(a, id) || has_permanent(b, id))
}

/// Those of them that both boards have.
pub open spec fn shared_permanents(a: Board, b: Board) -> Set<ObjectId> {
    Set::new(
        |id: ObjectId|
            (has_permanent(a, id) || has_permanent(b, id)) && has_object(a, id) && has_object(b, id),
    )
}

proof fn lemma_counts(a: Board, b: Board)
    requires
        rises(a),
        rises(b),
    ensures
        compared_ids(a, b).len() == permanents(a, b).len(),
        compared_ids(a, b).filter(on_both(a, b)).len() == shared_permanents(a, b).len(),
{
    broadcast use vstd::set::group_set_axioms;

    let ids = compared_ids(a, b);
    let shared = ids.filter(on_both(a, b));
    lemma_compared_ids(a, b);
    assert(ids.no_duplicates());
    ids.unique_seq_to_set();
    assert(ids.to_set() =~= permanents(a, b)) by {
        assert forall|id: ObjectId| ids.to_set().contains(id) <==> permanents(a, b).contains(id) by {
            lemma_compared(a, b, id);
            assert(ids.contains(id) <==> is_compared(a, b, id));
        }
    }
    lemma_filter_distinct(ids, on_both(a, b));
    shared.unique_seq_to_set();
    assert(shared.to_set() =~= shared_permanents(a, b)) by {
        assert forall|id: ObjectId| shared.to_set().contains(id) <==> shared_permanents(
            a,
            b,
        ).contains(id) by {
            lemma_compared(a, b, id);
            assert(ids.contains(id) <==> is_compared(a, b, id));
            if ids.contains(id) && on_both(a, b)(id) {
                let k = choose|k: int| 0 <= k < ids.len() && ids[k] == id;
                ids.lemma_filter_contains(on_both(a, b), k);
            }
            if shared.contains(id) {
                lemma_filter_from(ids, on_both(a, b), id);
            }
        }
    }
}

proof fn lemma_filter_from(ids: Seq<ObjectId>, keep: spec_fn(ObjectId) -> bool, id: ObjectId)
    requires
        ids.filter(keep).contains(id),
    ensures
        ids.contains(id),
        keep(id),
    decreases ids.len(),
{
    reveal(Seq::filter);
    if ids.len() > 0 {
        let front = ids.drop_last();
        let kept = front.filter(keep);
        if kept.contains(id) {
            lemma_filter_from(front, keep, id);
            let k = choose|k: int| 0 <= k < front.len() && front[k] == id;
            assert(ids[k] == id);
        } else {
            let k = choose|k: int| 0 <= k < ids.filter(keep).len() && ids.filter(keep)[k] == id;
            if k < kept.len() {
                assert(kept[k] == id);
            }
            assert(ids[ids.len() - 1] == id);
        }
    }
}

proof fn lemma_filter_distinct(ids: Seq<ObjectId>, keep: spec_fn(ObjectId) -> bool)
    requires
        ids.no_duplicates(),
    ensures
        ids.filter(keep).no_duplicates(),
    decreases ids.len(),
{
    reveal(Seq::filter);
    if ids.len() > 0 {
        let front = ids.drop_last();
        let kept = front.filter(keep);
        assert(front.no_duplicates());
        lemma_filter_distinct(front, keep);
        if kept.contains(ids.last()) {
            lemma_filter_from(front, keep, ids.last());
            let k = choose|k: int| 0 <= k < front.len() && front[k] == ids.last();
            assert(ids[k] == ids[ids.len() - 1]);
        }
    }
}

/// How much a comparison looks at: once at the presence of every object in the battlefield
/// zone of either board, and once at every field of each of them that both boards have.
pub proof fn every_permanent_is_counted(
    before: Harness,
    after: Harness,
    a: Board,
    b: Board,
    class: DivergenceClass,
)
    requires
        rises(a),
        rises(b),
        has_compared(before, after, a, b),
    ensures
        after.enabled == before.enabled,
        after.comparisons@[class.place()] == before.comparisons@[class.place()] + (if class
            == DivergenceClass::Presence {
            permanents(a, b).len()
        } else {
            shared_permanents(a, b).len()
        }),
{
    lemma_counts(a, b);
    assert(0 <= class.place() < CLASS_COUNT);
}

/// A comparison asks for no more room in the counters than it takes.
pub proof fn room_is_asked_for_what_is_counted(harness: Harness, a: Board, b: Board)
    requires
        rises(a),
        rises(b),
    ensures
        has_room_for(harness, a, b) <==> forall|class: DivergenceClass|
            harness.comparisons@[#[trigger] class.place()] + (if class == DivergenceClass::Presence {
                permanents(a, b).len()
            } else {
                shared_permanents(a, b).len()
            }) <= u64::MAX,
{
    lemma_counts(a, b);
    if forall|class: DivergenceClass|
        harness.comparisons@[#[trigger] class.place()] + (if class == DivergenceClass::Presence {
            permanents(a, b).len()
        } else {
            shared_permanents(a, b).len()
        }) <= u64::MAX {
        assert forall|i: int| 0 <= i < CLASS_COUNT implies (#[trigger] harness.comparisons@[i]) + (
        if i == DivergenceClass::Presence.place() {
            compared_ids(a, b).len()
        } else {
            compared_ids(a, b).filter(on_both(a, b)).len()
        }) <= u64::MAX by {
            let class = ALL_CLASSES@[i];
            assert(class.place() == i);
        }
    } else {
        let class = choose|class: DivergenceClass|
            harness.comparisons@[#[trigger] class.place()] + (if class == DivergenceClass::Presence {
                permanents(a, b).len()
            } else {
                shared_permanents(a, b).len()
            }) > u64::MAX;
        assert(0 <= class.place() < CLASS_COUNT);
    }
}

/// A comparison of two snapshots looks once at every field, and at the presence of nothing.
pub proof fn every_field_is_counted(before: Harness, after: Harness, class: DivergenceClass)
    requires
        before.compared(after, 0, 1),
    ensures
        after.enabled == before.enabled,
        after.comparisons@[class.place()] == before.comparisons@[class.place()] + (if class
            == DivergenceClass::Presence {
            0int
        } else {
            1int
        }),
{
    assert(0 <= class.place() < CLASS_COUNT);
}

/// Turning a harness on or off does that, and forgets no comparison.
pub proof fn a_switch_sets_the_setting(harness: Harness, on: bool)
    ensures
        switched(harness, on).enabled == on,
        switched(harness, on).comparisons == harness.comparisons,
{
}

/// Where no divergence is reported, an object that is in the battlefield zone of either board
/// is on both, with the same value in every field. Nothing but the zone decides whether it is
/// looked at.
pub proof fn no_divergence_means_agreement(a: Board, b: Board, id: ObjectId)
    requires
        rises(a),
        rises(b),
        board_divergences(a, b).len() == 0,
        (exists|i: int|
            0 <= i < a.len() && (#[trigger] a[i]).0 == id && a[i].1.zone == Zone::Battlefield)
            || (exists|j: int|
            0 <= j < b.len() && (#[trigger] b[j]).0 == id && b[j].1.zone == Zone::Battlefield),
    ensures
        exists|i: int, j: int|
            0 <= i < a.len() && 0 <= j < b.len() && (#[trigger] a[i]).0 == id && (
            #[trigger] b[j]).0 == id && {
                &&& a[i].1.live.name == b[j].1.live.name
                &&& a[i].1.live.power == b[j].1.live.power
                &&& a[i].1.live.toughness == b[j].1.live.toughness
                &&& a[i].1.live.loyalty == b[j].1.live.loyalty
                &&& a[i].1.live.card_types == b[j].1.live.card_types
                &&& a[i].1.live.mana_cost == b[j].1.live.mana_cost
                &&& a[i].1.live.keywords == b[j].1.live.keywords
                &&& a[i].1.live.abilities == b[j].1.live.abilities
                &&& a[i].1.live.replacement_definitions == b[j].1.live.replacement_definitions
                &&& a[i].1.live.static_definitions == b[j].1.live.static_definitions
                &&& a[i].1.live.color == b[j].1.live.color
                &&& a[i].1.live.display_source == b[j].1.live.display_source
                &&& a[i].1.live.printed_ref is Some == b[j].1.live.printed_ref is Some
                &&& a[i].1.live.token_image_ref is Some == b[j].1.live.token_image_ref is Some
                &&& a[i].1.controller == b[j].1.controller
                &&& a[i].1.assigns_damage_from_toughness == b[j].1.assigns_damage_from_toughness
                &&& a[i].1.assigns_damage_as_though_unblocked == b[j].1.assigns_damage_as_though_unblocked
                &&& a[i].1.assigns_no_combat_damage == b[j].1.assigns_no_combat_damage
            },
{
    a_clean_comparison_has_looked_at_every_permanent(a, b);
    if has_permanent(a, id) {
        let i = choose|i: int|
            0 <= i < a.len() && (#[trigger] a[i]).0 == id && a[i].1.zone == Zone::Battlefield;
        let j = choose|j: int|
            0 <= j < b.len() && (#[trigger] b[j]).0 == a[i].0 && same_fields(a[i].1, b[j].1);
        assert(a[i].0 == id && b[j].0 == id);
    } else {
        let j = choose|j: int|
            0 <= j < b.len() && (#[trigger] b[j]).0 == id && b[j].1.zone == Zone::Battlefield;
        let i = choose|i: int|
            0 <= i < a.len() && (#[trigger] a[i]).0 == b[j].0 && same_fields(a[i].1, b[j].1);
        assert(a[i].0 == id && b[j].0 == id);
    }
}

/// A field in which an object in the battlefield zone of either board differs between them is
/// reported under the class of that field.
pub proof fn a_difference_is_reported(a: Board, b: Board, i: int, j: int, class: DivergenceClass)
    requires
        rises(a),
        rises(b),
        0 <= i < a.len(),
        0 <= j < b.len(),
        a[i].0 == b[j].0,
        a[i].1.zone == Zone::Battlefield || b[j].1.zone == Zone::Battlefield,
        match class {
            DivergenceClass::Presence => false,
            DivergenceClass::Name => a[i].1.live.name != b[j].1.live.name,
            DivergenceClass::Power => a[i].1.live.power != b[j].1.live.power,
            DivergenceClass::Toughness => a[i].1.live.toughness != b[j].1.live.toughness,
            DivergenceClass::Loyalty => a[i].1.live.loyalty != b[j].1.live.loyalty,
            DivergenceClass::CardTypes => a[i].1.live.card_types != b[j].1.live.card_types,
            DivergenceClass::ManaCost => a[i].1.live.mana_cost != b[j].1.live.mana_cost,
            DivergenceClass::Keywords => a[i].1.live.keywords != b[j].1.live.keywords,
            DivergenceClass::Abilities => a[i].1.live.abilities != b[j].1.live.abilities,
            DivergenceClass::ReplacementDefinitions => a[i].1.live.replacement_definitions
                != b[j].1.live.replacement_definitions,
            DivergenceClass::StaticDefinitions => a[i].1.live.static_definitions
                != b[j].1.live.static_definitions,
            DivergenceClass::Color => a[i].1.live.color != b[j].1.live.color,
            DivergenceClass::PrintedRef => a[i].1.live.printed_ref is Some
                != b[j].1.live.printed_ref is Some,
            DivergenceClass::DisplaySource => a[i].1.live.display_source
                != b[j].1.live.display_source,
            DivergenceClass::TokenImageRef => a[i].1.live.token_image_ref is Some
                != b[j].1.live.token_image_ref is Some,
            DivergenceClass::Controller => a[i].1.controller != b[j].1.controller,
            DivergenceClass::AssignsDamageFromToughness => a[i].1.assigns_damage_from_toughness
                != b[j].1.assigns_damage_from_toughness,
            DivergenceClass::AssignsDamageAsThoughUnblocked =>
                a[i].1.assigns_damage_as_though_unblocked
                != b[j].1.assigns_damage_as_though_unblocked,
            DivergenceClass::AssignsNoCombatDamage => a[i].1.assigns_no_combat_damage
                != b[j].1.assigns_no_combat_damage,
        },
    ensures
        exists|k: int|
            0 <= k < board_divergences(a, b).len() && (
            #[trigger] board_divergences(a, b)[k]).object == a[i].0 && board_divergences(
                a,
                b,
            )[k].class == class,
{
    let x = a[i].1;
    let y = b[j].1;
    assert(field_text(x, class) != field_text(y, class)) by {
        if field_text(x, class) == field_text(y, class) {
            lemma_one_field(x, y, class);
        }
    }
    let d = DivergenceView {
        object: a[i].0,
        class,
        incremental: field_text(x, class),
        full: field_text(y, class),
    };
    assert(a[i].0 == d.object && b[j].0 == d.object);
    reports_tell_the_truth(a, b, d);
    let found = board_divergences(a, b);
    let k = choose|k: int| 0 <= k < found.len() && found[k] == d;
    assert(found[k].class == class);
}

proof fn lemma_one_field(x: GameObjectView, y: GameObjectView, class: DivergenceClass)
    requires
        field_text(x, class) == field_text(y, class),
    ensures
        match class {
            DivergenceClass::Presence => true,
            DivergenceClass::Name => x.live.name == y.live.name,
            DivergenceClass::Power => x.live.power == y.live.power,
            DivergenceClass::Toughness => x.live.toughness == y.live.toughness,
            DivergenceClass::Loyalty => x.live.loyalty == y.live.loyalty,
            DivergenceClass::CardTypes => x.live.card_types == y.live.card_types,
            DivergenceClass::ManaCost => x.live.mana_cost == y.live.mana_cost,
            DivergenceClass::Keywords => x.live.keywords == y.live.keywords,
            DivergenceClass::Abilities => x.live.abilities == y.live.abilities,
            DivergenceClass::ReplacementDefinitions => x.live.replacement_definitions
                == y.live.replacement_definitions,
            DivergenceClass::StaticDefinitions => x.live.static_definitions
                == y.live.static_definitions,
            DivergenceClass::Color => x.live.color == y.live.color,
            DivergenceClass::PrintedRef => x.live.printed_ref is Some == y.live.printed_ref is Some,
            DivergenceClass::DisplaySource => x.live.display_source == y.live.display_source,
            DivergenceClass::TokenImageRef => x.live.token_image_ref is Some
                == y.live.token_image_ref is Some,
            DivergenceClass::Controller => x.controller == y.controller,
            DivergenceClass::AssignsDamageFromToughness => x.assigns_damage_from_toughness
                == y.assigns_damage_from_toughness,
            DivergenceClass::AssignsDamageAsThoughUnblocked => x.assigns_damage_as_though_unblocked
                == y.assigns_damage_as_though_unblocked,
            DivergenceClass::AssignsNoCombatDamage => x.assigns_no_combat_damage
                == y.assigns_no_combat_damage,
        },
{
    let none = Seq::<char>::empty();
    match class {
        DivergenceClass::Power => {
            optional_integers_differ(x.live.power, y.live.power);
        },
        DivergenceClass::Toughness => {
            optional_integers_differ(x.live.toughness, y.live.toughness);
        },
        DivergenceClass::Loyalty => {
            optional_naturals_differ(x.live.loyalty, y.live.loyalty);
        },
        DivergenceClass::CardTypes => {
            card_types_differ(x.live.card_types, y.live.card_types);
        },
        DivergenceClass::ManaCost => {
            mana_costs_differ(x.live.mana_cost, y.live.mana_cost);
        },
        DivergenceClass::Keywords => {
            keywords_part();
            lists_differ::<Keyword>(x.live.keywords, y.live.keywords);
        },
        DivergenceClass::Abilities => {
            abilities_part();
            lists_differ::<AbilityDefinition>(x.live.abilities, y.live.abilities);
        },
        DivergenceClass::ReplacementDefinitions => {
            replacements_part();
            lists_differ::<ReplacementDefinition>(
                x.live.replacement_definitions,
                y.live.replacement_definitions,
            );
        },
        DivergenceClass::StaticDefinitions => {
            static_definitions_part();
            lists_differ::<StaticDefinition>(x.live.static_definitions, y.live.static_definitions);
        },
        DivergenceClass::Color => {
            colors_part();
            lists_differ::<ManaColor>(x.live.color, y.live.color);
        },
        DivergenceClass::PrintedRef => {
            let p = match x.live.printed_ref {
                None => None,
                Some(value) => Some(PrintedCardRef::text_of(value)),
            };
            let q = match y.live.printed_ref {
                None => None,
                Some(value) => Some(PrintedCardRef::text_of(value)),
            };
            lemma_read_optional(p, none, q, none);
        },
        DivergenceClass::DisplaySource => {
            display_sources_part();
            assert(prefix_related(
                DisplaySource::text_of(x.live.display_source),
                DisplaySource::text_of(y.live.display_source),
            ));
        },
        DivergenceClass::TokenImageRef => {
            let p = match x.live.token_image_ref {
                None => None,
                Some(value) => Some(TokenImageRef::text_of(value)),
            };
            let q = match y.live.token_image_ref {
                None => None,
                Some(value) => Some(TokenImageRef::text_of(value)),
            };
            lemma_read_optional(p, none, q, none);
        },
        DivergenceClass::Controller => {
            players_differ(x.controller, y.controller);
        },
        DivergenceClass::AssignsDamageFromToughness => {
            booleans_differ(x.assigns_damage_from_toughness, y.assigns_damage_from_toughness);
        },
        DivergenceClass::AssignsDamageAsThoughUnblocked => {
            booleans_differ(
                x.assigns_damage_as_though_unblocked,
                y.assigns_damage_as_though_unblocked,
            );
        },
        DivergenceClass::AssignsNoCombatDamage => {
            booleans_differ(x.assigns_no_combat_damage, y.assigns_no_combat_damage);
        },
        _ => {},
    }
}

/// An object that is in the battlefield zone of one board, and not on the other at all, is
/// reported as such.
pub proof fn an_absence_is_reported(a: Board, b: Board, i: int, j: int)
    requires
        rises(a),
        rises(b),
    ensures
        0 <= i < a.len() && a[i].1.zone == Zone::Battlefield && (forall|m: int|
            0 <= m < b.len() ==> (#[trigger] b[m]).0 != a[i].0) ==> board_divergences(a, b).contains(
            DivergenceView {
                object: a[i].0,
                class: DivergenceClass::Presence,
                incremental: "true"@,
                full: "false"@,
            },
        ),
        0 <= j < b.len() && b[j].1.zone == Zone::Battlefield && (forall|m: int|
            0 <= m < a.len() ==> (#[trigger] a[m]).0 != b[j].0) ==> board_divergences(a, b).contains(
            DivergenceView {
                object: b[j].0,
                class: DivergenceClass::Presence,
                incremental: "false"@,
                full: "true"@,
            },
        ),
{
    if 0 <= i < a.len() {
        assert(has_object(a, a[i].0));
        reports_tell_the_truth(
            a,
            b,
            DivergenceView {
                object: a[i].0,
                class: DivergenceClass::Presence,
                incremental: "true"@,
                full: "false"@,
            },
        );
    }
    if 0 <= j < b.len() {
        assert(has_object(b, b[j].0));
        reports_tell_the_truth(
            a,
            b,
            DivergenceView {
                object: b[j].0,
                class: DivergenceClass::Presence,
                incremental: "false"@,
                full: "true"@,
            },
        );
    }
}

/// The presence of as many objects is compared as there are identifiers under which either
/// board has an object in the battlefield zone.
pub proof fn presence_is_compared_by_zone_alone(before: Harness, after: Harness, a: Board, b: Board)
    requires
        rises(a),
        rises(b),
        has_compared(before, after, a, b),
    ensures
        after.comparisons@[0] == before.comparisons@[0] + Set::new(
            |id: ObjectId|
                (exists|i: int|
                    0 <= i < a.len() && (#[trigger] a[i]).0 == id && a[i].1.zone
                        == Zone::Battlefield) || (exists|j: int|
                    0 <= j < b.len() && (#[trigger] b[j]).0 == id && b[j].1.zone
                        == Zone::Battlefield),
        ).len(),
{
    every_permanent_is_counted(before, after, a, b, DivergenceClass::Presence);
    assert(Set::new(
        |id: ObjectId|
            (exists|i: int|
                0 <= i < a.len() && (#[trigger] a[i]).0 == id && a[i].1.zone == Zone::Battlefield)
                || (exists|j: int|
                0 <= j < b.len() && (#[trigger] b[j]).0 == id && b[j].1.zone == Zone::Battlefield),
    ) =~= permanents(a, b));
}

/// A harness has room where no counter would go beyond what it can hold.
pub proof fn room_is_counted_class_by_class(harness: Harness, presence: nat, fields: nat)
    ensures
        harness.has_room(presence, fields) <==> {
            &&& harness.comparisons@[0] + presence <= u64::MAX
            &&& forall|i: int|
                1 <= i < CLASS_COUNT ==> (#[trigger] harness.comparisons@[i]) + fields <= u64::MAX
        },
{
}

} // verus!
