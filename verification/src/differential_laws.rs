//! What holds of the comparison of boards as a whole.

use vstd::prelude::*;

use crate::differential::{
    ascending_ids, board_divergences, compared_below, compared_ids, derived, differs,
    divergence_message, divergences_among, divergences_over, has_compared, is_compared,
    lemma_compared_ids, lemma_one_more_class, object_divergences, on_battlefield, on_both,
    printed_ref_text, report_line, report_lines, reported, shown, snapshot_divergences, switched,
    token_image_ref_text, ALL_CLASSES, CLASS_COUNT, DivergenceClass, DivergenceView, Harness,
    RecipientDerivedView,
};
use crate::game_object::{reset, GameObjectView};
use crate::identifiers::{ObjectId, PlayerId};
use crate::object_table::{lookup, Board};
use crate::text::{boolean, decimal, joined, list, texts, Rendered};
use crate::text_laws::{
    booleans_differ, lemma_read_optional, lists_differ, optional_integers_differ,
    optional_naturals_differ, prefix_related,
};
use crate::vocabulary::{
    AbilityDefinition, CardTypes, DisplaySource, Keyword, ManaColor, ManaCost, PrintedCardRef,
    ReplacementDefinition, StaticDefinition, TokenImageRef,
};
use crate::vocabulary_laws::{
    abilities_part, card_types_differ, colors_part, display_sources_part, keywords_part,
    mana_costs_differ, players_differ, replacements_part, static_definitions_part,
};

verus! {

/// A snapshot does not diverge from itself.
pub proof fn identical_snapshots_do_not_diverge(object: ObjectId, snapshot: RecipientDerivedView)
    ensures
        snapshot_divergences(object, snapshot, snapshot).len() == 0,
{
    ALL_CLASSES@.lemma_all_neg_filter_empty(differs(snapshot, snapshot));
}

proof fn lemma_no_divergence_over(board: Board, ids: Seq<ObjectId>)
    requires
        forall|i: int| 0 <= i < ids.len() ==> lookup(board, #[trigger] ids[i]) is Some,
    ensures
        divergences_over(board, board, ids).len() == 0,
    decreases ids.len(),
{
    if ids.len() > 0 {
        let id = ids[ids.len() - 1];
        assert(lookup(board, id) is Some);
        assert forall|i: int| 0 <= i < ids.drop_last().len() implies lookup(
            board,
            #[trigger] ids.drop_last()[i],
        ) is Some by {
            assert(lookup(board, ids[i]) is Some);
        }
        lemma_no_divergence_over(board, ids.drop_last());
        identical_snapshots_do_not_diverge(id, derived(lookup(board, id)->0));
    }
}

/// A board does not diverge from itself.
pub proof fn identical_boards_do_not_diverge(board: Board)
    ensures
        board_divergences(board, board).len() == 0,
{
    let ids = compared_ids(board, board);
    lemma_compared_ids(board, board);
    assert forall|i: int| 0 <= i < ids.len() implies lookup(board, #[trigger] ids[i]) is Some by {
        assert(ids.contains(ids[i]));
        assert(on_battlefield(board, ids[i]));
    }
    lemma_no_divergence_over(board, ids);
}

/// The classes stand at their indices, without gaps and without repetition.
pub proof fn indices_are_dense()
    ensures
        ALL_CLASSES@.len() == CLASS_COUNT,
        forall|i: int| 0 <= i < CLASS_COUNT ==> (#[trigger] ALL_CLASSES@[i]).place() == i,
        forall|class: DivergenceClass|
            0 <= (#[trigger] class.place()) < CLASS_COUNT && ALL_CLASSES@[class.place()] == class,
{
}

/// Switching a harness on, and later giving it back the setting that was remembered, leaves
/// no trace but the comparisons that it has counted meanwhile.
pub proof fn a_switch_restores_the_setting(before: Harness, meanwhile: Harness)
    ensures
        switched(before, true).enabled,
        switched(before, true).comparisons == before.comparisons,
        switched(meanwhile, before.enabled).enabled == before.enabled,
        switched(meanwhile, before.enabled).comparisons == meanwhile.comparisons,
{
}

/// The length of the label of a class, and its first two characters.
spec fn outline(class: DivergenceClass) -> (int, char, char) {
    match class {
        DivergenceClass::Presence => (8, 'p', 'r'),
        DivergenceClass::Name => (4, 'n', 'a'),
        DivergenceClass::Power => (5, 'p', 'o'),
        DivergenceClass::Toughness => (9, 't', 'o'),
        DivergenceClass::Loyalty => (7, 'l', 'o'),
        DivergenceClass::CardTypes => (10, 'c', 'a'),
        DivergenceClass::ManaCost => (9, 'm', 'a'),
        DivergenceClass::Keywords => (8, 'k', 'e'),
        DivergenceClass::Abilities => (9, 'a', 'b'),
        DivergenceClass::ReplacementDefinitions => (23, 'r', 'e'),
        DivergenceClass::StaticDefinitions => (18, 's', 't'),
        DivergenceClass::Color => (5, 'c', 'o'),
        DivergenceClass::PrintedRef => (11, 'p', 'r'),
        DivergenceClass::DisplaySource => (14, 'd', 'i'),
        DivergenceClass::TokenImageRef => (15, 't', 'o'),
        DivergenceClass::Controller => (10, 'c', 'o'),
        DivergenceClass::AssignsDamageFromToughness => (29, 'a', 's'),
        DivergenceClass::AssignsDamageAsThoughUnblocked => (34, 'a', 's'),
        DivergenceClass::AssignsNoCombatDamage => (24, 'a', 's'),
    }
}

proof fn lemma_outline(class: DivergenceClass)
    ensures
        outline(class) == (class.title().len() as int, class.title()[0], class.title()[1]),
{
    match class {
        DivergenceClass::Presence => {
            reveal_strlit("presence");
        },
        DivergenceClass::Name => {
            reveal_strlit("name");
        },
        DivergenceClass::Power => {
            reveal_strlit("power");
        },
        DivergenceClass::Toughness => {
            reveal_strlit("toughness");
        },
        DivergenceClass::Loyalty => {
            reveal_strlit("loyalty");
        },
        DivergenceClass::CardTypes => {
            reveal_strlit("card_types");
        },
        DivergenceClass::ManaCost => {
            reveal_strlit("mana_cost");
        },
        DivergenceClass::Keywords => {
            reveal_strlit("keywords");
        },
        DivergenceClass::Abilities => {
            reveal_strlit("abilities");
        },
        DivergenceClass::ReplacementDefinitions => {
            reveal_strlit("replacement_definitions");
        },
        DivergenceClass::StaticDefinitions => {
            reveal_strlit("static_definitions");
        },
        DivergenceClass::Color => {
            reveal_strlit("color");
        },
        DivergenceClass::PrintedRef => {
            reveal_strlit("printed_ref");
        },
        DivergenceClass::DisplaySource => {
            reveal_strlit("display_source");
        },
        DivergenceClass::TokenImageRef => {
            reveal_strlit("token_image_ref");
        },
        DivergenceClass::Controller => {
            reveal_strlit("controller");
        },
        DivergenceClass::AssignsDamageFromToughness => {
            reveal_strlit("assigns_damage_from_toughness");
        },
        DivergenceClass::AssignsDamageAsThoughUnblocked => {
            reveal_strlit("assigns_damage_as_though_unblocked");
        },
        DivergenceClass::AssignsNoCombatDamage => {
            reveal_strlit("assigns_no_combat_damage");
        },
    }
}

/// No two classes are reported under the same label.
pub proof fn labels_are_distinct(a: DivergenceClass, b: DivergenceClass)
    requires
        a.title() == b.title(),
    ensures
        a == b,
{
    lemma_outline(a);
    lemma_outline(b);
}

proof fn lemma_among(n: int, object: ObjectId, a: RecipientDerivedView, b: RecipientDerivedView)
    requires
        0 <= n <= CLASS_COUNT,
    ensures
        ({
            let found = divergences_among(ALL_CLASSES@.take(n), object, a, b);
            &&& forall|k: int|
                0 <= k < found.len() ==> {
                    let class = (#[trigger] found[k]).class;
                    &&& class.place() < n
                    &&& shown(a, class) != shown(b, class)
                    &&& found[k] == reported(object, a, b)(class)
                }
            &&& forall|i: int, j: int|
                0 <= i < j < found.len() ==> (#[trigger] found[i]).class.place() < (
                #[trigger] found[j]).class.place()
            &&& forall|class: DivergenceClass|
                class.place() < n && #[trigger] shown(a, class) != shown(b, class) ==> exists|k: int|
                    0 <= k < found.len() && (#[trigger] found[k]).class == class
        }),
    decreases n,
{
    if n == 0 {
        assert(ALL_CLASSES@.take(0) =~= Seq::empty());
        reveal(Seq::filter);
    } else {
        lemma_among(n - 1, object, a, b);
        lemma_one_more_class(n - 1, object, a, b);
        let before = divergences_among(ALL_CLASSES@.take(n - 1), object, a, b);
        let found = divergences_among(ALL_CLASSES@.take(n), object, a, b);
        let last = ALL_CLASSES@[n - 1];
        assert(last.place() == n - 1);
        assert forall|class: DivergenceClass|
            class.place() < n && #[trigger] shown(a, class) != shown(b, class) implies exists|k: int|
            0 <= k < found.len() && (#[trigger] found[k]).class == class by {
            if class.place() == n - 1 {
                assert(class == last);
                assert(found[before.len() as int].class == class);
            } else {
                let k = choose|k: int| 0 <= k < before.len() && (#[trigger] before[k]).class == class;
                assert(found[k] == before[k]);
            }
        }
    }
}

/// Two snapshots diverge in exactly the classes whose texts differ. Each is reported once,
/// with both texts, in the order of the classes.
pub proof fn snapshots_diverge_class_by_class(
    object: ObjectId,
    a: RecipientDerivedView,
    b: RecipientDerivedView,
)
    ensures
        forall|k: int|
            0 <= k < snapshot_divergences(object, a, b).len() ==> {
                let class = (#[trigger] snapshot_divergences(object, a, b)[k]).class;
                &&& shown(a, class) != shown(b, class)
                &&& snapshot_divergences(object, a, b)[k] == (DivergenceView {
                    object,
                    class,
                    incremental: shown(a, class),
                    full: shown(b, class),
                })
            },
        forall|i: int, j: int|
            0 <= i < j < snapshot_divergences(object, a, b).len() ==> (
            #[trigger] snapshot_divergences(object, a, b)[i]).class.place() < (
            #[trigger] snapshot_divergences(object, a, b)[j]).class.place(),
        forall|class: DivergenceClass| #[trigger]
            shown(a, class) != shown(b, class) ==> exists|k: int|
                0 <= k < snapshot_divergences(object, a, b).len() && (
                #[trigger] snapshot_divergences(object, a, b)[k]).class == class,
{
    assert(ALL_CLASSES@.take(CLASS_COUNT as int) =~= ALL_CLASSES@);
    lemma_among(CLASS_COUNT as int, object, a, b);
}

/// What [`snapshots_diverge_class_by_class`] says of the disagreements of two snapshots.
#[verifier::opaque]
spec fn class_by_class(
    found: Seq<DivergenceView>,
    object: ObjectId,
    a: RecipientDerivedView,
    b: RecipientDerivedView,
) -> bool {
    &&& forall|k: int|
        0 <= k < found.len() ==> {
            let class = (#[trigger] found[k]).class;
            &&& shown(a, class) != shown(b, class)
            &&& found[k] == reported(object, a, b)(class)
        }
    &&& forall|i: int, j: int|
        0 <= i < j < found.len() ==> (#[trigger] found[i]).class.place() < (
        #[trigger] found[j]).class.place()
    &&& forall|class: DivergenceClass| #[trigger]
        shown(a, class) != shown(b, class) ==> exists|k: int|
            0 <= k < found.len() && (#[trigger] found[k]).class == class
}

proof fn lemma_alone(
    found: Seq<DivergenceView>,
    object: ObjectId,
    a: RecipientDerivedView,
    b: RecipientDerivedView,
    class: DivergenceClass,
)
    requires
        class_by_class(found, object, a, b),
        shown(a, class) != shown(b, class),
        forall|other: DivergenceClass| other != class ==> #[trigger] shown(a, other) == shown(b, other),
    ensures
        found == seq![reported(object, a, b)(class)],
{
    reveal(class_by_class);
    assert(found.len() > 0);
    assert(found[0].class == class);
    if found.len() > 1 {
        assert(found[1].class == class);
        assert(found[0].class.place() < found[1].class.place());
    }
    assert(found[0] == reported(object, a, b)(class));
    assert(found =~= seq![found[0]]);
}

/// Snapshots that differ in one class only are reported under that class only.
pub proof fn one_field_is_reported_alone(
    object: ObjectId,
    a: RecipientDerivedView,
    b: RecipientDerivedView,
    class: DivergenceClass,
)
    requires
        shown(a, class) != shown(b, class),
        forall|other: DivergenceClass| other != class ==> #[trigger] shown(a, other) == shown(b, other),
    ensures
        snapshot_divergences(object, a, b) == seq![
            DivergenceView {
                object,
                class,
                incremental: shown(a, class),
                full: shown(b, class),
            },
        ],
{
    let found = snapshot_divergences(object, a, b);
    assert(class_by_class(found, object, a, b)) by {
        snapshots_diverge_class_by_class(object, a, b);
        reveal(class_by_class);
    }
    lemma_alone(found, object, a, b, class);
}

/// Two snapshots that show the same texts in every class are equal.
proof fn lemma_shown_alike(a: RecipientDerivedView, b: RecipientDerivedView)
    requires
        forall|class: DivergenceClass| #[trigger] shown(a, class) == shown(b, class),
    ensures
        a == b,
{
    assert(a.name == b.name && a.power == b.power && a.toughness == b.toughness && a.loyalty
        == b.loyalty && a.card_types == b.card_types && a.mana_cost == b.mana_cost) by {
        assert(shown(a, DivergenceClass::Name) == shown(b, DivergenceClass::Name));
        assert(shown(a, DivergenceClass::Power) == shown(b, DivergenceClass::Power));
        assert(shown(a, DivergenceClass::Toughness) == shown(b, DivergenceClass::Toughness));
        assert(shown(a, DivergenceClass::Loyalty) == shown(b, DivergenceClass::Loyalty));
        assert(shown(a, DivergenceClass::CardTypes) == shown(b, DivergenceClass::CardTypes));
        assert(shown(a, DivergenceClass::ManaCost) == shown(b, DivergenceClass::ManaCost));
        optional_integers_differ(a.power, b.power);
        optional_integers_differ(a.toughness, b.toughness);
        optional_naturals_differ(a.loyalty, b.loyalty);
    }
    assert(a.keywords == b.keywords && a.abilities == b.abilities && a.replacement_definitions
        == b.replacement_definitions && a.static_definitions == b.static_definitions && a.color
        == b.color && a.printed_ref == b.printed_ref) by {
        assert(shown(a, DivergenceClass::Keywords) == shown(b, DivergenceClass::Keywords));
        assert(shown(a, DivergenceClass::Abilities) == shown(b, DivergenceClass::Abilities));
        assert(shown(a, DivergenceClass::ReplacementDefinitions) == shown(
            b,
            DivergenceClass::ReplacementDefinitions,
        ));
        assert(shown(a, DivergenceClass::StaticDefinitions) == shown(
            b,
            DivergenceClass::StaticDefinitions,
        ));
        assert(shown(a, DivergenceClass::Color) == shown(b, DivergenceClass::Color));
        assert(shown(a, DivergenceClass::PrintedRef) == shown(b, DivergenceClass::PrintedRef));
    }
    assert(a.display_source == b.display_source && a.token_image_ref == b.token_image_ref
        && a.controller == b.controller && a.assigns_damage_from_toughness
        == b.assigns_damage_from_toughness && a.assigns_damage_as_though_unblocked
        == b.assigns_damage_as_though_unblocked && a.assigns_no_combat_damage
        == b.assigns_no_combat_damage) by {
        assert(shown(a, DivergenceClass::DisplaySource) == shown(
            b,
            DivergenceClass::DisplaySource,
        ));
        assert(shown(a, DivergenceClass::TokenImageRef) == shown(
            b,
            DivergenceClass::TokenImageRef,
        ));
        assert(shown(a, DivergenceClass::Controller) == shown(b, DivergenceClass::Controller));
        assert(shown(a, DivergenceClass::AssignsDamageFromToughness) == shown(
            b,
            DivergenceClass::AssignsDamageFromToughness,
        ));
        assert(shown(a, DivergenceClass::AssignsDamageAsThoughUnblocked) == shown(
            b,
            DivergenceClass::AssignsDamageAsThoughUnblocked,
        ));
        assert(shown(a, DivergenceClass::AssignsNoCombatDamage) == shown(
            b,
            DivergenceClass::AssignsNoCombatDamage,
        ));
        booleans_differ(a.assigns_damage_from_toughness, b.assigns_damage_from_toughness);
        booleans_differ(
            a.assigns_damage_as_though_unblocked,
            b.assigns_damage_as_though_unblocked,
        );
        booleans_differ(a.assigns_no_combat_damage, b.assigns_no_combat_damage);
    }
}

/// Two snapshots do not diverge exactly where they are equal: every field is compared, and
/// no two values of a field look alike.
pub proof fn snapshots_agree_where_equal(
    object: ObjectId,
    a: RecipientDerivedView,
    b: RecipientDerivedView,
)
    ensures
        snapshot_divergences(object, a, b).len() == 0 <==> a == b,
{
    if a == b {
        identical_snapshots_do_not_diverge(object, a);
    }
    if snapshot_divergences(object, a, b).len() == 0 {
        snapshots_diverge_class_by_class(object, a, b);
        lemma_shown_alike(a, b);
    }
}

/// An object that exists on one board only is one disagreement, over its presence.
pub proof fn a_missing_object_is_a_presence_divergence(a: Board, b: Board, id: ObjectId)
    requires
        lookup(a, id) is Some != lookup(b, id) is Some,
    ensures
        object_divergences(a, b, id) == seq![
            DivergenceView {
                object: id,
                class: DivergenceClass::Presence,
                incremental: boolean(lookup(a, id) is Some),
                full: boolean(lookup(b, id) is Some),
            },
        ],
{
}

/// Whether two boards have the same object under an identifier, as far as the layers
/// derive it.
pub open spec fn agree_on(a: Board, b: Board, id: ObjectId) -> bool {
    match (lookup(a, id), lookup(b, id)) {
        (Some(x), Some(y)) => derived(x) == derived(y),
        _ => false,
    }
}

proof fn lemma_object_agrees(a: Board, b: Board, id: ObjectId)
    ensures
        object_divergences(a, b, id).len() == 0 <==> agree_on(a, b, id),
{
    if let (Some(x), Some(y)) = (lookup(a, id), lookup(b, id)) {
        snapshots_agree_where_equal(id, derived(x), derived(y));
    }
}

proof fn lemma_boards_agree_over(a: Board, b: Board, ids: Seq<ObjectId>)
    ensures
        divergences_over(a, b, ids).len() == 0 <==> forall|i: int|
            0 <= i < ids.len() ==> agree_on(a, b, #[trigger] ids[i]),
    decreases ids.len(),
{
    if ids.len() > 0 {
        let front = ids.drop_last();
        lemma_boards_agree_over(a, b, front);
        lemma_object_agrees(a, b, ids.last());
        if divergences_over(a, b, ids).len() == 0 {
            assert forall|i: int| 0 <= i < ids.len() implies agree_on(a, b, #[trigger] ids[i]) by {
                if i < front.len() {
                    assert(agree_on(a, b, front[i]));
                }
            }
        }
        if forall|i: int| 0 <= i < ids.len() ==> agree_on(a, b, #[trigger] ids[i]) {
            assert forall|i: int| 0 <= i < front.len() implies agree_on(a, b, #[trigger] front[i]) by {
                assert(agree_on(a, b, ids[i]));
            }
            assert(agree_on(a, b, ids[ids.len() - 1]));
        }
    }
}

/// Two boards do not diverge exactly where every object that is on the battlefield of
/// either is on both boards, with equal snapshots. What is on no battlefield does not
/// matter.
pub proof fn boards_agree_where_snapshots_do(a: Board, b: Board)
    ensures
        board_divergences(a, b).len() == 0 <==> forall|id: ObjectId| #[trigger]
            is_compared(a, b, id) ==> agree_on(a, b, id),
{
    let ids = compared_ids(a, b);
    lemma_compared_ids(a, b);
    lemma_boards_agree_over(a, b, ids);
    if board_divergences(a, b).len() == 0 {
        assert forall|id: ObjectId| #[trigger] is_compared(a, b, id) implies agree_on(a, b, id) by {
            assert(ids.contains(id));
            let k = choose|k: int| 0 <= k < ids.len() && ids[k] == id;
            assert(agree_on(a, b, ids[k]));
        }
    }
    if forall|id: ObjectId| #[trigger] is_compared(a, b, id) ==> agree_on(a, b, id) {
        assert forall|i: int| 0 <= i < ids.len() implies agree_on(a, b, #[trigger] ids[i]) by {
            assert(ids.contains(ids[i]));
            assert(is_compared(a, b, ids[i]));
        }
    }
}

/// A disagreement with its sides exchanged.
pub open spec fn swapped(divergence: DivergenceView) -> DivergenceView {
    DivergenceView {
        incremental: divergence.full,
        full: divergence.incremental,
        ..divergence
    }
}

/// Disagreements with their sides exchanged.
pub open spec fn all_swapped(divergences: Seq<DivergenceView>) -> Seq<DivergenceView> {
    divergences.map_values(|divergence: DivergenceView| swapped(divergence))
}

proof fn lemma_among_swapped(
    n: int,
    object: ObjectId,
    a: RecipientDerivedView,
    b: RecipientDerivedView,
)
    requires
        0 <= n <= CLASS_COUNT,
    ensures
        divergences_among(ALL_CLASSES@.take(n), object, b, a) == all_swapped(
            divergences_among(ALL_CLASSES@.take(n), object, a, b),
        ),
    decreases n,
{
    let there = divergences_among(ALL_CLASSES@.take(n), object, a, b);
    let back = divergences_among(ALL_CLASSES@.take(n), object, b, a);
    if n == 0 {
        assert(ALL_CLASSES@.take(0) =~= Seq::empty());
        reveal(Seq::filter);
    } else {
        lemma_among_swapped(n - 1, object, a, b);
        lemma_one_more_class(n - 1, object, a, b);
        lemma_one_more_class(n - 1, object, b, a);
    }
    assert(back =~= all_swapped(there));
}

proof fn lemma_compared_swapped(a: Board, b: Board, bound: nat)
    ensures
        compared_below(a, b, bound) == compared_below(b, a, bound),
    decreases bound,
{
    if bound > 0 {
        lemma_compared_swapped(a, b, (bound - 1) as nat);
    }
}

proof fn lemma_over_swapped(a: Board, b: Board, ids: Seq<ObjectId>)
    ensures
        divergences_over(b, a, ids) == all_swapped(divergences_over(a, b, ids)),
    decreases ids.len(),
{
    if ids.len() > 0 {
        let id = ids.last();
        lemma_over_swapped(a, b, ids.drop_last());
        assert(ALL_CLASSES@.take(CLASS_COUNT as int) =~= ALL_CLASSES@);
        if let (Some(x), Some(y)) = (lookup(a, id), lookup(b, id)) {
            lemma_among_swapped(CLASS_COUNT as int, id, derived(x), derived(y));
        } else {
            assert(object_divergences(b, a, id) =~= all_swapped(object_divergences(a, b, id)));
        }
    }
    assert(divergences_over(b, a, ids) =~= all_swapped(divergences_over(a, b, ids)));
}

/// Comparing two boards the other way round exchanges the sides of every disagreement, and
/// changes nothing else.
pub proof fn comparison_is_symmetric(a: Board, b: Board)
    ensures
        board_divergences(b, a) == all_swapped(board_divergences(a, b)),
{
    lemma_compared_swapped(a, b, (u64::MAX + 1) as nat);
    lemma_over_swapped(a, b, compared_ids(a, b));
}

/// Whether one disagreement comes before another in a report.
pub open spec fn reported_before(x: DivergenceView, y: DivergenceView) -> bool {
    x.object.0 < y.object.0 || (x.object == y.object && x.class.place() < y.class.place())
}

/// Whether disagreements stand in the order of a report.
pub open spec fn in_order(divergences: Seq<DivergenceView>) -> bool {
    forall|i: int, j: int|
        0 <= i < j < divergences.len() ==> #[trigger] reported_before(divergences[i], divergences[j])
}

proof fn lemma_in_order(before: Seq<DivergenceView>, added: Seq<DivergenceView>)
    requires
        in_order(before),
        in_order(added),
        forall|i: int, j: int|
            0 <= i < before.len() && 0 <= j < added.len() ==> (#[trigger] before[i]).object.0 < (
            #[trigger] added[j]).object.0,
    ensures
        in_order(before + added),
{
    let all = before + added;
    assert forall|i: int, j: int| 0 <= i < j < all.len() implies #[trigger] reported_before(
        all[i],
        all[j],
    ) by {
        if j < before.len() {
            assert(reported_before(before[i], before[j]));
        } else if i < before.len() {
            assert(before[i].object.0 < added[j - before.len()].object.0);
        } else {
            assert(reported_before(added[i - before.len()], added[j - before.len()]));
        }
    }
}

proof fn lemma_object_in_order(a: Board, b: Board, id: ObjectId)
    ensures
        in_order(object_divergences(a, b, id)),
        forall|k: int|
            0 <= k < object_divergences(a, b, id).len() ==> (#[trigger] object_divergences(
                a,
                b,
                id,
            )[k]).object == id,
{
    let found = object_divergences(a, b, id);
    if let (Some(x), Some(y)) = (lookup(a, id), lookup(b, id)) {
        snapshots_diverge_class_by_class(id, derived(x), derived(y));
        assert(found == snapshot_divergences(id, derived(x), derived(y)));
        assert forall|i: int, j: int| 0 <= i < j < found.len() implies #[trigger] reported_before(
            found[i],
            found[j],
        ) by {
            assert(found[i].class.place() < found[j].class.place());
        }
    }
}

proof fn lemma_over_in_order(a: Board, b: Board, ids: Seq<ObjectId>)
    requires
        ascending_ids(ids),
    ensures
        forall|k: int|
            0 <= k < divergences_over(a, b, ids).len() ==> ids.contains(
                (#[trigger] divergences_over(a, b, ids)[k]).object,
            ),
        in_order(divergences_over(a, b, ids)),
    decreases ids.len(),
{
    if ids.len() > 0 {
        let front = ids.drop_last();
        let id = ids[ids.len() - 1];
        let before = divergences_over(a, b, front);
        let added = object_divergences(a, b, id);
        let found = divergences_over(a, b, ids);
        lemma_over_in_order(a, b, front);
        lemma_object_in_order(a, b, id);
        assert forall|k: int| 0 <= k < before.len() implies {
            &&& (#[trigger] before[k]).object.0 < id.0
            &&& ids.contains(before[k].object)
        } by {
            let m = choose|m: int| 0 <= m < front.len() && front[m] == before[k].object;
            assert(ids[m] == before[k].object);
        }
        lemma_in_order(before, added);
        assert forall|k: int| 0 <= k < found.len() implies ids.contains(
            (#[trigger] found[k]).object,
        ) by {
            if k < before.len() {
                assert(found[k] == before[k]);
            } else {
                assert(found[k] == added[k - before.len()]);
                assert(ids[ids.len() - 1] == id);
            }
        }
    }
}

/// A report goes through the objects in the order of their identifiers and, within an
/// object, through the classes in theirs. So nothing is reported twice, and only objects on
/// the battlefield of either board are reported.
pub proof fn reports_are_ordered(a: Board, b: Board)
    ensures
        forall|k: int|
            0 <= k < board_divergences(a, b).len() ==> is_compared(
                a,
                b,
                (#[trigger] board_divergences(a, b)[k]).object,
            ),
        in_order(board_divergences(a, b)),
{
    lemma_compared_ids(a, b);
    lemma_over_in_order(a, b, compared_ids(a, b));
}

/// A comparison that has a shared object to look at looks at every class: no counter is left
/// where it was.
pub proof fn every_class_is_compared(
    before: Harness,
    after: Harness,
    a: Board,
    b: Board,
    id: ObjectId,
    class: DivergenceClass,
)
    requires
        has_compared(before, after, a, b),
        is_compared(a, b, id),
        lookup(a, id) is Some,
        lookup(b, id) is Some,
    ensures
        after.comparisons@[class.place()] > before.comparisons@[class.place()],
{
    let ids = compared_ids(a, b);
    lemma_compared_ids(a, b);
    assert(ids.contains(id));
    let k = choose|k: int| 0 <= k < ids.len() && ids[k] == id;
    ids.lemma_filter_contains(on_both(a, b), k);
    let shared = ids.filter(on_both(a, b));
    assert(shared.contains(id));
    assert(shared.len() > 0);
    assert(0 <= class.place() < CLASS_COUNT);
}

/// What the reset of an object makes of it is decided by its base characteristics and its
/// base controller: whatever was done to the rest is gone from the snapshot.
pub proof fn reset_erases_every_change(a: GameObjectView, b: GameObjectView)
    requires
        a.base == b.base,
        a.base_controller == b.base_controller,
    ensures
        derived(reset(a)) == derived(reset(b)),
{
}

/// Equal snapshots are taken of equal fields: a change of any field that the reset writes
/// moves the snapshot. The strings inside references to printed cards and token images are
/// as distinct as their quoted texts are.
pub proof fn every_reset_field_is_observed(a: GameObjectView, b: GameObjectView)
    requires
        derived(a) == derived(b),
    ensures
        a.live.name == b.live.name,
        a.live.power == b.live.power,
        a.live.toughness == b.live.toughness,
        a.live.loyalty == b.live.loyalty,
        a.live.card_types == b.live.card_types,
        a.live.mana_cost == b.live.mana_cost,
        a.live.keywords == b.live.keywords,
        a.live.abilities == b.live.abilities,
        a.live.replacement_definitions == b.live.replacement_definitions,
        a.live.static_definitions == b.live.static_definitions,
        a.live.color == b.live.color,
        a.live.printed_ref is Some == b.live.printed_ref is Some,
        printed_ref_text(a.live.printed_ref) == printed_ref_text(b.live.printed_ref),
        a.live.display_source == b.live.display_source,
        a.live.token_image_ref is Some == b.live.token_image_ref is Some,
        token_image_ref_text(a.live.token_image_ref) == token_image_ref_text(
            b.live.token_image_ref,
        ),
        a.controller == b.controller,
        a.assigns_damage_from_toughness == b.assigns_damage_from_toughness,
        a.assigns_damage_as_though_unblocked == b.assigns_damage_as_though_unblocked,
        a.assigns_no_combat_damage == b.assigns_no_combat_damage,
{
    let none = Seq::<char>::empty();
    let x = derived(a);
    let y = derived(b);
    assert(x.card_types == y.card_types);
    card_types_differ(a.live.card_types, b.live.card_types);
    assert(x.mana_cost == y.mana_cost);
    mana_costs_differ(a.live.mana_cost, b.live.mana_cost);
    assert(x.keywords == y.keywords);
    keywords_part();
    lists_differ::<Keyword>(a.live.keywords, b.live.keywords);
    assert(x.abilities == y.abilities);
    abilities_part();
    lists_differ::<AbilityDefinition>(a.live.abilities, b.live.abilities);
    assert(x.replacement_definitions == y.replacement_definitions);
    replacements_part();
    lists_differ::<ReplacementDefinition>(
        a.live.replacement_definitions,
        b.live.replacement_definitions,
    );
    assert(x.static_definitions == y.static_definitions);
    static_definitions_part();
    lists_differ::<StaticDefinition>(a.live.static_definitions, b.live.static_definitions);
    assert(x.color == y.color);
    colors_part();
    lists_differ::<ManaColor>(a.live.color, b.live.color);
    assert(x.printed_ref == y.printed_ref);
    let p = match a.live.printed_ref {
        None => None,
        Some(value) => Some(PrintedCardRef::text_of(value)),
    };
    let q = match b.live.printed_ref {
        None => None,
        Some(value) => Some(PrintedCardRef::text_of(value)),
    };
    lemma_read_optional(p, none, q, none);
    assert(x.display_source == y.display_source);
    display_sources_part();
    assert(a.live.display_source == b.live.display_source) by {
        assert(prefix_related(
            DisplaySource::text_of(a.live.display_source),
            DisplaySource::text_of(b.live.display_source),
        ));
    }
    assert(x.token_image_ref == y.token_image_ref);
    let p = match a.live.token_image_ref {
        None => None,
        Some(value) => Some(TokenImageRef::text_of(value)),
    };
    let q = match b.live.token_image_ref {
        None => None,
        Some(value) => Some(TokenImageRef::text_of(value)),
    };
    lemma_read_optional(p, none, q, none);
    assert(x.controller == y.controller);
    players_differ(a.controller, b.controller);
}

/// Every class is called by the name of the field it stands for, and has the place that it is
/// declared at.
pub proof fn classes_are_called_by_their_fields(class: DivergenceClass)
    ensures
        (class.place(), class.title()) == (match class {
            DivergenceClass::Presence => (0int, "presence"@),
            DivergenceClass::Name => (1int, "name"@),
            DivergenceClass::Power => (2int, "power"@),
            DivergenceClass::Toughness => (3int, "toughness"@),
            DivergenceClass::Loyalty => (4int, "loyalty"@),
            DivergenceClass::CardTypes => (5int, "card_types"@),
            DivergenceClass::ManaCost => (6int, "mana_cost"@),
            DivergenceClass::Keywords => (7int, "keywords"@),
            DivergenceClass::Abilities => (8int, "abilities"@),
            DivergenceClass::ReplacementDefinitions => (9int, "replacement_definitions"@),
            DivergenceClass::StaticDefinitions => (10int, "static_definitions"@),
            DivergenceClass::Color => (11int, "color"@),
            DivergenceClass::PrintedRef => (12int, "printed_ref"@),
            DivergenceClass::DisplaySource => (13int, "display_source"@),
            DivergenceClass::TokenImageRef => (14int, "token_image_ref"@),
            DivergenceClass::Controller => (15int, "controller"@),
            DivergenceClass::AssignsDamageFromToughness => (16int, "assigns_damage_from_toughness"@),
            DivergenceClass::AssignsDamageAsThoughUnblocked => (17int, "assigns_damage_as_though_unblocked"@),
            DivergenceClass::AssignsNoCombatDamage => (18int, "assigns_no_combat_damage"@),
        }),
{
}

/// The snapshot of an object holds its name, its numbers and its settings as they are, and of
/// everything else the text.
pub proof fn snapshots_hold_every_field(object: GameObjectView)
    ensures
        ({
            let snapshot = derived(object);
            &&& snapshot.name == object.live.name
            &&& snapshot.power == object.live.power
            &&& snapshot.toughness == object.live.toughness
            &&& snapshot.loyalty == object.live.loyalty
            &&& snapshot.card_types == CardTypes::text_of(object.live.card_types)
            &&& snapshot.mana_cost == ManaCost::text_of(object.live.mana_cost)
            &&& snapshot.keywords == list(texts::<Keyword>(object.live.keywords))
            &&& snapshot.abilities == list(texts::<AbilityDefinition>(object.live.abilities))
            &&& snapshot.replacement_definitions == list(
                texts::<ReplacementDefinition>(object.live.replacement_definitions),
            )
            &&& snapshot.static_definitions == list(
                texts::<StaticDefinition>(object.live.static_definitions),
            )
            &&& snapshot.color == list(texts::<ManaColor>(object.live.color))
            &&& snapshot.printed_ref == (match object.live.printed_ref {
                None => "None"@,
                Some(value) => "Some("@ + PrintedCardRef::text_of(value) + ")"@,
            })
            &&& snapshot.display_source == DisplaySource::text_of(object.live.display_source)
            &&& snapshot.token_image_ref == (match object.live.token_image_ref {
                None => "None"@,
                Some(value) => "Some("@ + TokenImageRef::text_of(value) + ")"@,
            })
            &&& snapshot.controller == PlayerId::text_of(object.controller)
            &&& snapshot.assigns_damage_from_toughness == object.assigns_damage_from_toughness
            &&& snapshot.assigns_damage_as_though_unblocked
                == object.assigns_damage_as_though_unblocked
            &&& snapshot.assigns_no_combat_damage == object.assigns_no_combat_damage
        }),
{
}

/// The message of a report says how many disagreements there are, and has a line for each of
/// them, in their order, with the object, the class and both texts.
pub proof fn a_message_has_a_line_for_each(divergences: Seq<DivergenceView>)
    ensures
        divergence_message(divergences) == "CR 613.1 differential-flush divergence: the entry-incremental pass produced a board different from a full evaluation of the same post-entry state ("@
            + decimal(divergences.len()) + " field(s)):\n"@ + joined(
            Seq::new(
                divergences.len(),
                |k: int|
                    "  ObjectId("@ + decimal(divergences[k].object.0 as nat) + ") "@
                        + divergences[k].class.title() + ": incremental="@
                        + divergences[k].incremental + " full="@ + divergences[k].full,
            ),
            "\n"@,
        ),
{
    let lines = Seq::new(
        divergences.len(),
        |k: int|
            "  ObjectId("@ + decimal(divergences[k].object.0 as nat) + ") "@
                + divergences[k].class.title() + ": incremental="@ + divergences[k].incremental
                + " full="@ + divergences[k].full,
    );
    reveal_strlit("  ObjectId(");
    reveal_strlit("  ");
    reveal_strlit("ObjectId(");
    reveal_strlit(") ");
    reveal_strlit(")");
    reveal_strlit(" ");
    assert forall|k: int| 0 <= k < lines.len() implies lines[k] == report_lines(divergences)[k] by {
        let d = divergences[k];
        assert("  ObjectId("@ =~= "  "@ + "ObjectId("@);
        assert(") "@ =~= ")"@ + " "@);
        assert(lines[k] =~= report_line(d));
    }
    assert(lines =~= report_lines(divergences));
}

} // verus!
