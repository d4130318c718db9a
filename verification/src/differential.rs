//! Differential verification of the entry-incremental layer flush.
//!
//! CR 613.1: continuous effects are evaluated in layer order over the whole board.
//! The entry-incremental arm of a flush re-derives only the objects that have just
//! entered, and any host they are attached to, and leaves every other permanent as it
//! is. That is sound only while the escalation gate admits nothing on which the
//! shortcut and a full pass would differ.
//!
//! The harness keeps watch over that: when it is on, the board is copied before the
//! incremental pass changes it, the copy is put through a full evaluation, and the two
//! boards are compared field by field over every object on the battlefield. Objects
//! that did not enter are compared too, since the failure to look for is an object
//! that the full pass updates and the incremental pass does not.
//!
//! A harness belongs to one thread of the engine. Whoever runs the engine keeps it,
//! says whether it is on, and hands it in.

use std::collections::BTreeSet;
use vstd::prelude::*;
use vstd::laws_cmp::{
    obeys_cmp, obeys_cmp_ord, obeys_cmp_partial_ord, obeys_partial_cmp_spec_properties,
};
use vstd::laws_eq::obeys_eq_spec_properties;
use vstd::std_specs::btree::{group_btree_axioms, increasing_seq};
use vstd::std_specs::cmp::OrdSpec;
use vstd::std_specs::iter::IteratorSpec;
use vstd::string::*;

use crate::game_object::{GameObject, GameObjectView};
use crate::game_state::GameState;
use crate::identifiers::{ObjectId, PlayerId, Zone};
use crate::layers::{evaluate_layers, evaluated, everything, lemma_derived_where};
use crate::object_table::{ascending, contains_id, lemma_lookup, lookup, Board, ObjectTable};
use crate::perf_counters::PerfCounters;
use crate::text::{
    boolean, decimal, joined, list, optional, optional_integer, optional_natural, render_boolean,
    render_decimal, render_list, render_none, render_optional_integer, render_optional_natural,
    render_some, texts, views, Rendered,
};
use crate::vocabulary::{
    AbilityDefinition, CardTypes, DisplaySource, Keyword, ManaColor, ManaCost, PrintedCardRef,
    PrintedCardRefView, ReplacementDefinition, StaticDefinition, TokenImageRef, TokenImageRefView,
};

verus! {

/// The comparison classes: one for each field of [`RecipientDerived`], and
/// [`DivergenceClass::Presence`] for an object that exists on one board and not on the
/// other.
#[derive(Clone, Copy, Debug, PartialEq, Eq, PartialOrd, Ord, Structural)]
pub enum DivergenceClass {
    Presence,
    Name,
    Power,
    Toughness,
    Loyalty,
    CardTypes,
    ManaCost,
    Keywords,
    Abilities,
    ReplacementDefinitions,
    StaticDefinitions,
    Color,
    PrintedRef,
    DisplaySource,
    TokenImageRef,
    Controller,
    AssignsDamageFromToughness,
    AssignsDamageAsThoughUnblocked,
    AssignsNoCombatDamage,
}

pub const CLASS_COUNT: usize = 19;

/// Every class, each at its index.
pub const ALL_CLASSES: [DivergenceClass; CLASS_COUNT] = [
    DivergenceClass::Presence,
    DivergenceClass::Name,
    DivergenceClass::Power,
    DivergenceClass::Toughness,
    DivergenceClass::Loyalty,
    DivergenceClass::CardTypes,
    DivergenceClass::ManaCost,
    DivergenceClass::Keywords,
    DivergenceClass::Abilities,
    DivergenceClass::ReplacementDefinitions,
    DivergenceClass::StaticDefinitions,
    DivergenceClass::Color,
    DivergenceClass::PrintedRef,
    DivergenceClass::DisplaySource,
    DivergenceClass::TokenImageRef,
    DivergenceClass::Controller,
    DivergenceClass::AssignsDamageFromToughness,
    DivergenceClass::AssignsDamageAsThoughUnblocked,
    DivergenceClass::AssignsNoCombatDamage,
];

impl DivergenceClass {
    /// The place of a class in [`ALL_CLASSES`].
    pub open spec fn place(self) -> int {
        match self {
            DivergenceClass::Presence => 0,
            DivergenceClass::Name => 1,
            DivergenceClass::Power => 2,
            DivergenceClass::Toughness => 3,
            DivergenceClass::Loyalty => 4,
            DivergenceClass::CardTypes => 5,
            DivergenceClass::ManaCost => 6,
            DivergenceClass::Keywords => 7,
            DivergenceClass::Abilities => 8,
            DivergenceClass::ReplacementDefinitions => 9,
            DivergenceClass::StaticDefinitions => 10,
            DivergenceClass::Color => 11,
            DivergenceClass::PrintedRef => 12,
            DivergenceClass::DisplaySource => 13,
            DivergenceClass::TokenImageRef => 14,
            DivergenceClass::Controller => 15,
            DivergenceClass::AssignsDamageFromToughness => 16,
            DivergenceClass::AssignsDamageAsThoughUnblocked => 17,
            DivergenceClass::AssignsNoCombatDamage => 18,
        }
    }

    /// The place of this class in [`ALL_CLASSES`].
    pub fn index(self) -> (index: usize)
        ensures
            index == self.place(),
            index < CLASS_COUNT,
            ALL_CLASSES@[index as int] == self,
    {
        match self {
            DivergenceClass::Presence => 0,
            DivergenceClass::Name => 1,
            DivergenceClass::Power => 2,
            DivergenceClass::Toughness => 3,
            DivergenceClass::Loyalty => 4,
            DivergenceClass::CardTypes => 5,
            DivergenceClass::ManaCost => 6,
            DivergenceClass::Keywords => 7,
            DivergenceClass::Abilities => 8,
            DivergenceClass::ReplacementDefinitions => 9,
            DivergenceClass::StaticDefinitions => 10,
            DivergenceClass::Color => 11,
            DivergenceClass::PrintedRef => 12,
            DivergenceClass::DisplaySource => 13,
            DivergenceClass::TokenImageRef => 14,
            DivergenceClass::Controller => 15,
            DivergenceClass::AssignsDamageFromToughness => 16,
            DivergenceClass::AssignsDamageAsThoughUnblocked => 17,
            DivergenceClass::AssignsNoCombatDamage => 18,
        }
    }

    /// What a report calls a class.
    pub open spec fn title(self) -> Seq<char> {
        match self {
            DivergenceClass::Presence => "presence"@,
            DivergenceClass::Name => "name"@,
            DivergenceClass::Power => "power"@,
            DivergenceClass::Toughness => "toughness"@,
            DivergenceClass::Loyalty => "loyalty"@,
            DivergenceClass::CardTypes => "card_types"@,
            DivergenceClass::ManaCost => "mana_cost"@,
            DivergenceClass::Keywords => "keywords"@,
            DivergenceClass::Abilities => "abilities"@,
            DivergenceClass::ReplacementDefinitions => "replacement_definitions"@,
            DivergenceClass::StaticDefinitions => "static_definitions"@,
            DivergenceClass::Color => "color"@,
            DivergenceClass::PrintedRef => "printed_ref"@,
            DivergenceClass::DisplaySource => "display_source"@,
            DivergenceClass::TokenImageRef => "token_image_ref"@,
            DivergenceClass::Controller => "controller"@,
            DivergenceClass::AssignsDamageFromToughness => "assigns_damage_from_toughness"@,
            DivergenceClass::AssignsDamageAsThoughUnblocked => "assigns_damage_as_though_unblocked"@,
            DivergenceClass::AssignsNoCombatDamage => "assigns_no_combat_damage"@,
        }
    }

    /// What a report calls this class.
    pub fn label(self) -> (label: &'static str)
        ensures
            label@ == self.title(),
    {
        match self {
            DivergenceClass::Presence => "presence",
            DivergenceClass::Name => "name",
            DivergenceClass::Power => "power",
            DivergenceClass::Toughness => "toughness",
            DivergenceClass::Loyalty => "loyalty",
            DivergenceClass::CardTypes => "card_types",
            DivergenceClass::ManaCost => "mana_cost",
            DivergenceClass::Keywords => "keywords",
            DivergenceClass::Abilities => "abilities",
            DivergenceClass::ReplacementDefinitions => "replacement_definitions",
            DivergenceClass::StaticDefinitions => "static_definitions",
            DivergenceClass::Color => "color",
            DivergenceClass::PrintedRef => "printed_ref",
            DivergenceClass::DisplaySource => "display_source",
            DivergenceClass::TokenImageRef => "token_image_ref",
            DivergenceClass::Controller => "controller",
            DivergenceClass::AssignsDamageFromToughness => "assigns_damage_from_toughness",
            DivergenceClass::AssignsDamageAsThoughUnblocked => "assigns_damage_as_though_unblocked",
            DivergenceClass::AssignsNoCombatDamage => "assigns_no_combat_damage",
        }
    }
}

/// Every derived field that the reset of a recipient restores from its base
/// counterpart, as a comparable snapshot.
///
/// Composite characteristics are kept as the text that `Debug` gives them, which shows
/// the order of their parts as well as the parts.
#[derive(Debug, PartialEq, Eq)]
pub struct RecipientDerived {
    pub name: String,
    pub power: Option<i32>,
    pub toughness: Option<i32>,
    pub loyalty: Option<u32>,
    pub card_types: String,
    pub mana_cost: String,
    pub keywords: String,
    pub abilities: String,
    pub replacement_definitions: String,
    pub static_definitions: String,
    pub color: String,
    pub printed_ref: String,
    pub display_source: String,
    pub token_image_ref: String,
    pub controller: String,
    pub assigns_damage_from_toughness: bool,
    pub assigns_damage_as_though_unblocked: bool,
    pub assigns_no_combat_damage: bool,
}

/// What a snapshot holds.
#[verifier::ext_equal]
pub struct RecipientDerivedView {
    pub name: Seq<char>,
    pub power: Option<i32>,
    pub toughness: Option<i32>,
    pub loyalty: Option<u32>,
    pub card_types: Seq<char>,
    pub mana_cost: Seq<char>,
    pub keywords: Seq<char>,
    pub abilities: Seq<char>,
    pub replacement_definitions: Seq<char>,
    pub static_definitions: Seq<char>,
    pub color: Seq<char>,
    pub printed_ref: Seq<char>,
    pub display_source: Seq<char>,
    pub token_image_ref: Seq<char>,
    pub controller: Seq<char>,
    pub assigns_damage_from_toughness: bool,
    pub assigns_damage_as_though_unblocked: bool,
    pub assigns_no_combat_damage: bool,
}

impl View for RecipientDerived {
    type V = RecipientDerivedView;

    open spec fn view(&self) -> RecipientDerivedView {
        RecipientDerivedView {
            name: self.name@,
            power: self.power,
            toughness: self.toughness,
            loyalty: self.loyalty,
            card_types: self.card_types@,
            mana_cost: self.mana_cost@,
            keywords: self.keywords@,
            abilities: self.abilities@,
            replacement_definitions: self.replacement_definitions@,
            static_definitions: self.static_definitions@,
            color: self.color@,
            printed_ref: self.printed_ref@,
            display_source: self.display_source@,
            token_image_ref: self.token_image_ref@,
            controller: self.controller@,
            assigns_damage_from_toughness: self.assigns_damage_from_toughness,
            assigns_damage_as_though_unblocked: self.assigns_damage_as_though_unblocked,
            assigns_no_combat_damage: self.assigns_no_combat_damage,
        }
    }
}

impl Clone for RecipientDerived {
    fn clone(&self) -> (copy: Self)
        ensures
            copy@ == self@,
    {
        RecipientDerived {
            name: self.name.clone(),
            power: self.power,
            toughness: self.toughness,
            loyalty: self.loyalty,
            card_types: self.card_types.clone(),
            mana_cost: self.mana_cost.clone(),
            keywords: self.keywords.clone(),
            abilities: self.abilities.clone(),
            replacement_definitions: self.replacement_definitions.clone(),
            static_definitions: self.static_definitions.clone(),
            color: self.color.clone(),
            printed_ref: self.printed_ref.clone(),
            display_source: self.display_source.clone(),
            token_image_ref: self.token_image_ref.clone(),
            controller: self.controller.clone(),
            assigns_damage_from_toughness: self.assigns_damage_from_toughness,
            assigns_damage_as_though_unblocked: self.assigns_damage_as_though_unblocked,
            assigns_no_combat_damage: self.assigns_no_combat_damage,
        }
    }
}

/// The text of an optional printed card reference.
pub open spec fn printed_ref_text(value: Option<PrintedCardRefView>) -> Seq<char> {
    match value {
        None => optional(None),
        Some(value) => optional(Some(PrintedCardRef::text_of(value))),
    }
}

/// The text of an optional token image reference.
pub open spec fn token_image_ref_text(value: Option<TokenImageRefView>) -> Seq<char> {
    match value {
        None => optional(None),
        Some(value) => optional(Some(TokenImageRef::text_of(value))),
    }
}

/// The snapshot of an object.
pub open spec fn derived(object: GameObjectView) -> RecipientDerivedView {
    RecipientDerivedView {
        name: object.live.name,
        power: object.live.power,
        toughness: object.live.toughness,
        loyalty: object.live.loyalty,
        card_types: CardTypes::text_of(object.live.card_types),
        mana_cost: ManaCost::text_of(object.live.mana_cost),
        keywords: list(texts::<Keyword>(object.live.keywords)),
        abilities: list(texts::<AbilityDefinition>(object.live.abilities)),
        replacement_definitions: list(
            texts::<ReplacementDefinition>(object.live.replacement_definitions),
        ),
        static_definitions: list(texts::<StaticDefinition>(object.live.static_definitions)),
        color: list(texts::<ManaColor>(object.live.color)),
        printed_ref: printed_ref_text(object.live.printed_ref),
        display_source: DisplaySource::text_of(object.live.display_source),
        token_image_ref: token_image_ref_text(object.live.token_image_ref),
        controller: PlayerId::text_of(object.controller),
        assigns_damage_from_toughness: object.assigns_damage_from_toughness,
        assigns_damage_as_though_unblocked: object.assigns_damage_as_though_unblocked,
        assigns_no_combat_damage: object.assigns_no_combat_damage,
    }
}

impl RecipientDerived {
    /// Takes the snapshot of an object.
    pub fn of(obj: &GameObject) -> (snapshot: Self)
        ensures
            snapshot@ == derived(obj@),
    {
        proof {
            assert(views(obj.live.keywords@) =~= obj.live.keywords@);
            assert(views(obj.live.abilities@) =~= obj.live.abilities@);
            assert(views(obj.live.replacement_definitions@)
                =~= obj.live.replacement_definitions@);
            assert(views(obj.live.color@) =~= obj.live.color@);
        }
        RecipientDerived {
            name: obj.live.name.clone(),
            power: obj.live.power,
            toughness: obj.live.toughness,
            loyalty: obj.live.loyalty,
            card_types: obj.live.card_types.render(),
            mana_cost: obj.live.mana_cost.render(),
            keywords: render_list(&obj.live.keywords),
            abilities: render_list(&obj.live.abilities),
            replacement_definitions: render_list(&obj.live.replacement_definitions),
            static_definitions: render_list(&obj.live.static_definitions),
            color: render_list(&obj.live.color),
            printed_ref: match &obj.live.printed_ref {
                None => render_none(),
                Some(printed_ref) => render_some(printed_ref.render()),
            },
            display_source: obj.live.display_source.render(),
            token_image_ref: match &obj.live.token_image_ref {
                None => render_none(),
                Some(token_image_ref) => render_some(token_image_ref.render()),
            },
            controller: obj.controller.render(),
            assigns_damage_from_toughness: obj.assigns_damage_from_toughness,
            assigns_damage_as_though_unblocked: obj.assigns_damage_as_though_unblocked,
            assigns_no_combat_damage: obj.assigns_no_combat_damage,
        }
    }
}

/// One field on which the incremental board and the fully evaluated reference board
/// disagree.
#[derive(Debug)]
pub struct Divergence {
    pub object: ObjectId,
    pub class: DivergenceClass,
    pub incremental: String,
    pub full: String,
}

/// A disagreement between two boards.
#[verifier::ext_equal]
pub struct DivergenceView {
    pub object: ObjectId,
    pub class: DivergenceClass,
    pub incremental: Seq<char>,
    pub full: Seq<char>,
}

impl View for Divergence {
    type V = DivergenceView;

    open spec fn view(&self) -> DivergenceView {
        DivergenceView {
            object: self.object,
            class: self.class,
            incremental: self.incremental@,
            full: self.full@,
        }
    }
}

impl Clone for Divergence {
    fn clone(&self) -> (copy: Self)
        ensures
            copy@ == self@,
    {
        Divergence {
            object: self.object,
            class: self.class,
            incremental: self.incremental.clone(),
            full: self.full.clone(),
        }
    }
}

/// The state of the harness on one thread: whether it is on, and how many comparisons
/// of each class it has performed, whatever they found.
#[derive(Clone, Copy, Debug)]
pub struct Harness {
    pub enabled: bool,
    pub comparisons: [u64; CLASS_COUNT],
}

impl Harness {
    /// A harness that has compared nothing yet.
    pub fn new(enabled: bool) -> (harness: Self)
        ensures
            harness.enabled == enabled,
            forall|i: int| 0 <= i < CLASS_COUNT ==> #[trigger] harness.comparisons@[i] == 0,
    {
        Harness { enabled, comparisons: [0; CLASS_COUNT] }
    }

    /// Whether the counters have room for `presence` more comparisons of the presence
    /// of objects, and `fields` more of every field.
    pub open spec fn has_room(self, presence: nat, fields: nat) -> bool {
        forall|i: int|
            0 <= i < CLASS_COUNT ==> (#[trigger] self.comparisons@[i]) + (if i
                == DivergenceClass::Presence.place() {
                presence
            } else {
                fields
            }) <= u64::MAX
    }

    /// Whether `after` differs from this harness by `presence` more comparisons of the
    /// presence of objects, and `fields` more of every field.
    pub open spec fn compared(self, after: Harness, presence: nat, fields: nat) -> bool {
        &&& after.enabled == self.enabled
        &&& forall|i: int|
            0 <= i < CLASS_COUNT ==> (#[trigger] after.comparisons@[i]) == self.comparisons@[i] + (
            if i == DivergenceClass::Presence.place() {
                presence
            } else {
                fields
            })
    }
}

/// A harness turned on or off.
pub open spec fn switched(harness: Harness, on: bool) -> Harness {
    Harness { enabled: on, ..harness }
}

/// Whether the harness is on.
pub fn enabled(harness: &Harness) -> (on: bool)
    ensures
        on == harness.enabled,
{
    harness.enabled
}

/// Turns the harness of one thread on or off, and says what it was before.
pub fn set_enabled(harness: &mut Harness, on: bool) -> (before: bool)
    ensures
        before == old(harness).enabled,
        *final(harness) == switched(*old(harness), on),
{
    let before = harness.enabled;
    harness.enabled = on;
    before
}

/// The setting that a harness had before it was switched on for a while.
///
/// There is no switch that turns the harness off: every entry flush runs enforced.
#[derive(Debug)]
pub struct DifferentialSwitch(bool);

impl DifferentialSwitch {
    /// The setting that is remembered.
    pub closed spec fn remembered(self) -> bool {
        self.0
    }

    /// Switches the harness on, and remembers its setting.
    pub fn on(harness: &mut Harness) -> (switch: Self)
        ensures
            switch.remembered() == old(harness).enabled,
            *final(harness) == switched(*old(harness), true),
    {
        DifferentialSwitch(set_enabled(harness, true))
    }

    /// Gives the harness its remembered setting back.
    pub fn drop(self, harness: &mut Harness)
        ensures
            *final(harness) == switched(*old(harness), self.remembered()),
    {
        set_enabled(harness, self.0);
    }
}

/// How many comparisons of each class were performed, each count at the index of its
/// class.
pub fn comparison_counts(harness: &Harness) -> (counts: [u64; CLASS_COUNT])
    ensures
        counts@ == harness.comparisons@,
{
    harness.comparisons
}

/// Forgets all comparisons.
pub fn reset_comparison_counts(harness: &mut Harness)
    ensures
        final(harness).enabled == old(harness).enabled,
        forall|i: int| 0 <= i < CLASS_COUNT ==> #[trigger] final(harness).comparisons@[i] == 0,
{
    harness.comparisons = [0; CLASS_COUNT];
}

/// Counts one comparison.
pub fn record_comparison(harness: &mut Harness, class: DivergenceClass)
    requires
        old(harness).comparisons@[class.place()] < u64::MAX,
    ensures
        final(harness).enabled == old(harness).enabled,
        final(harness).comparisons@ == old(harness).comparisons@.update(
            class.place(),
            (old(harness).comparisons@[class.place()] + 1) as u64,
        ),
{
    let i: usize = class.index();
    let count: u64 = harness.comparisons[i];
    harness.comparisons[i] = count + 1;
}

/// Copies the board before an incremental pass changes it, where the harness is on.
pub fn scratch_before_flush(harness: &Harness, state: &GameState) -> (scratch: Option<GameState>)
    ensures
        match scratch {
            Some(scratch) => harness.enabled && scratch@ == state@,
            None => !harness.enabled,
        },
{
    if enabled(harness) {
        Some(state.clone())
    } else {
        None
    }
}

/// The text under which a snapshot shows the field of a class. Presence is no field.
pub open spec fn shown(snapshot: RecipientDerivedView, class: DivergenceClass) -> Seq<char> {
    match class {
        DivergenceClass::Presence => Seq::empty(),
        DivergenceClass::Name => snapshot.name,
        DivergenceClass::Power => optional_integer(snapshot.power),
        DivergenceClass::Toughness => optional_integer(snapshot.toughness),
        DivergenceClass::Loyalty => optional_natural(snapshot.loyalty),
        DivergenceClass::CardTypes => snapshot.card_types,
        DivergenceClass::ManaCost => snapshot.mana_cost,
        DivergenceClass::Keywords => snapshot.keywords,
        DivergenceClass::Abilities => snapshot.abilities,
        DivergenceClass::ReplacementDefinitions => snapshot.replacement_definitions,
        DivergenceClass::StaticDefinitions => snapshot.static_definitions,
        DivergenceClass::Color => snapshot.color,
        DivergenceClass::PrintedRef => snapshot.printed_ref,
        DivergenceClass::DisplaySource => snapshot.display_source,
        DivergenceClass::TokenImageRef => snapshot.token_image_ref,
        DivergenceClass::Controller => snapshot.controller,
        DivergenceClass::AssignsDamageFromToughness => boolean(snapshot.assigns_damage_from_toughness),
        DivergenceClass::AssignsDamageAsThoughUnblocked => boolean(snapshot.assigns_damage_as_though_unblocked),
        DivergenceClass::AssignsNoCombatDamage => boolean(snapshot.assigns_no_combat_damage),
    }
}

/// The classes on which two snapshots differ.
pub open spec fn differs(
    incremental: RecipientDerivedView,
    full: RecipientDerivedView,
) -> spec_fn(DivergenceClass) -> bool {
    |class: DivergenceClass| shown(incremental, class) != shown(full, class)
}

/// How the disagreement of two snapshots of an object in one class is reported.
pub open spec fn reported(
    object: ObjectId,
    incremental: RecipientDerivedView,
    full: RecipientDerivedView,
) -> spec_fn(DivergenceClass) -> DivergenceView {
    |class: DivergenceClass|
        DivergenceView {
            object,
            class,
            incremental: shown(incremental, class),
            full: shown(full, class),
        }
}

/// The disagreements of two snapshots of an object among some classes.
pub open spec fn divergences_among(
    classes: Seq<DivergenceClass>,
    object: ObjectId,
    incremental: RecipientDerivedView,
    full: RecipientDerivedView,
) -> Seq<DivergenceView> {
    classes.filter(differs(incremental, full)).map_values(reported(object, incremental, full))
}

/// The disagreements of two snapshots of an object, in the order of the classes.
pub open spec fn snapshot_divergences(
    object: ObjectId,
    incremental: RecipientDerivedView,
    full: RecipientDerivedView,
) -> Seq<DivergenceView> {
    divergences_among(ALL_CLASSES@, object, incremental, full)
}

/// One more class adds at most the one disagreement it stands for.
pub proof fn lemma_one_more_class(
    i: int,
    object: ObjectId,
    incremental: RecipientDerivedView,
    full: RecipientDerivedView,
)
    requires
        0 <= i < CLASS_COUNT,
    ensures
        divergences_among(ALL_CLASSES@.take(i + 1), object, incremental, full) == ({
            let found = divergences_among(ALL_CLASSES@.take(i), object, incremental, full);
            let class = ALL_CLASSES@[i];
            if shown(incremental, class) != shown(full, class) {
                found.push(reported(object, incremental, full)(class))
            } else {
                found
            }
        }),
{
    let classes = ALL_CLASSES@.take(i + 1);
    assert(classes.drop_last() =~= ALL_CLASSES@.take(i));
    assert(classes.last() == ALL_CLASSES@[i]);
    reveal(Seq::filter);
    let rest = ALL_CLASSES@.take(i).filter(differs(incremental, full));
    assert(rest.push(ALL_CLASSES@[i]).map_values(reported(object, incremental, full))
        =~= rest.map_values(reported(object, incremental, full)).push(
        reported(object, incremental, full)(ALL_CLASSES@[i]),
    ));
}

/// What is known of a comparison of two snapshots that has reached a class: the
/// disagreements found so far, and the comparisons counted so far.
#[verifier::opaque]
spec fn reached(
    place: int,
    start: Harness,
    harness: Harness,
    out: Seq<Divergence>,
    object: ObjectId,
    incremental: RecipientDerivedView,
    full: RecipientDerivedView,
) -> bool {
    &&& 1 <= place <= CLASS_COUNT
    &&& views(out) == divergences_among(ALL_CLASSES@.take(place), object, incremental, full)
    &&& start.has_room(0, 1)
    &&& harness.enabled == start.enabled
    &&& forall|i: int|
        0 <= i < CLASS_COUNT ==> (#[trigger] harness.comparisons@[i]) == start.comparisons@[i] + (
        if 1 <= i < place {
            1int
        } else {
            0int
        })
}

/// Compares the texts of one class, and keeps the disagreement where they differ.
fn check(
    harness: &mut Harness,
    out: &mut Vec<Divergence>,
    object: ObjectId,
    class: DivergenceClass,
    a: String,
    b: String,
    Ghost(start): Ghost<Harness>,
    Ghost(incremental): Ghost<RecipientDerivedView>,
    Ghost(full): Ghost<RecipientDerivedView>,
)
    requires
        reached(class.place(), start, *old(harness), old(out)@, object, incremental, full),
        a@ == shown(incremental, class),
        b@ == shown(full, class),
    ensures
        reached(class.place() + 1, start, *final(harness), final(out)@, object, incremental, full),
{
    proof {
        reveal(reached);
        lemma_one_more_class(class.place(), object, incremental, full);
        assert(ALL_CLASSES@[class.place()] == class);
    }
    record_comparison(harness, class);
    if a != b {
        let ghost before = out@;
        let divergence = Divergence { object, class, incremental: a, full: b };
        out.push(divergence);
        proof {
            assert(views(out@) =~= views(before).push(divergence@));
        }
    }
}

/// Compares two snapshots of an object. Both are taken apart field by field, so that a
/// field of [`RecipientDerived`] cannot go unnamed here.
pub fn compare_snapshots(
    harness: &mut Harness,
    object: ObjectId,
    incremental: &RecipientDerived,
    full: &RecipientDerived,
) -> (divergences: Vec<Divergence>)
    requires
        old(harness).has_room(0, 1),
    ensures
        views(divergences@) == snapshot_divergences(object, incremental@, full@),
        old(harness).compared(*final(harness), 0, 1),
{
    let RecipientDerived {
        name: a_name,
        power: a_power,
        toughness: a_toughness,
        loyalty: a_loyalty,
        card_types: a_card_types,
        mana_cost: a_mana_cost,
        keywords: a_keywords,
        abilities: a_abilities,
        replacement_definitions: a_replacement_definitions,
        static_definitions: a_static_definitions,
        color: a_color,
        printed_ref: a_printed_ref,
        display_source: a_display_source,
        token_image_ref: a_token_image_ref,
        controller: a_controller,
        assigns_damage_from_toughness: a_assigns_damage_from_toughness,
        assigns_damage_as_though_unblocked: a_assigns_damage_as_though_unblocked,
        assigns_no_combat_damage: a_assigns_no_combat_damage,
    } = incremental;
    let RecipientDerived {
        name: b_name,
        power: b_power,
        toughness: b_toughness,
        loyalty: b_loyalty,
        card_types: b_card_types,
        mana_cost: b_mana_cost,
        keywords: b_keywords,
        abilities: b_abilities,
        replacement_definitions: b_replacement_definitions,
        static_definitions: b_static_definitions,
        color: b_color,
        printed_ref: b_printed_ref,
        display_source: b_display_source,
        token_image_ref: b_token_image_ref,
        controller: b_controller,
        assigns_damage_from_toughness: b_assigns_damage_from_toughness,
        assigns_damage_as_though_unblocked: b_assigns_damage_as_though_unblocked,
        assigns_no_combat_damage: b_assigns_no_combat_damage,
    } = full;
    let mut out: Vec<Divergence> = Vec::new();
    let ghost start = *harness;
    let ghost a = incremental@;
    let ghost b = full@;
    proof {
        assert(views(out@) =~= divergences_among(ALL_CLASSES@.take(0), object, a, b)) by {
            reveal(Seq::filter);
        }
        lemma_one_more_class(0, object, a, b);
        reveal(reached);
    }
    check(
        harness,
        &mut out,
        object,
        DivergenceClass::Name,
        a_name.clone(),
        b_name.clone(),
        Ghost(start),
        Ghost(a),
        Ghost(b),
    );
    check(
        harness,
        &mut out,
        object,
        DivergenceClass::Power,
        render_optional_integer(*a_power),
        render_optional_integer(*b_power),
        Ghost(start),
        Ghost(a),
        Ghost(b),
    );
    check(
        harness,
        &mut out,
        object,
        DivergenceClass::Toughness,
        render_optional_integer(*a_toughness),
        render_optional_integer(*b_toughness),
        Ghost(start),
        Ghost(a),
        Ghost(b),
    );
    check(
        harness,
        &mut out,
        object,
        DivergenceClass::Loyalty,
        render_optional_natural(*a_loyalty),
        render_optional_natural(*b_loyalty),
        Ghost(start),
        Ghost(a),
        Ghost(b),
    );
    check(
        harness,
        &mut out,
        object,
        DivergenceClass::CardTypes,
        a_card_types.clone(),
        b_card_types.clone(),
        Ghost(start),
        Ghost(a),
        Ghost(b),
    );
    check(
        harness,
        &mut out,
        object,
        DivergenceClass::ManaCost,
        a_mana_cost.clone(),
        b_mana_cost.clone(),
        Ghost(start),
        Ghost(a),
        Ghost(b),
    );
    check(
        harness,
        &mut out,
        object,
        DivergenceClass::Keywords,
        a_keywords.clone(),
        b_keywords.clone(),
        Ghost(start),
        Ghost(a),
        Ghost(b),
    );
    check(
        harness,
        &mut out,
        object,
        DivergenceClass::Abilities,
        a_abilities.clone(),
        b_abilities.clone(),
        Ghost(start),
        Ghost(a),
        Ghost(b),
    );
    check(
        harness,
        &mut out,
        object,
        DivergenceClass::ReplacementDefinitions,
        a_replacement_definitions.clone(),
        b_replacement_definitions.clone(),
        Ghost(start),
        Ghost(a),
        Ghost(b),
    );
    check(
        harness,
        &mut out,
        object,
        DivergenceClass::StaticDefinitions,
        a_static_definitions.clone(),
        b_static_definitions.clone(),
        Ghost(start),
        Ghost(a),
        Ghost(b),
    );
    check(
        harness,
        &mut out,
        object,
        DivergenceClass::Color,
        a_color.clone(),
        b_color.clone(),
        Ghost(start),
        Ghost(a),
        Ghost(b),
    );
    check(
        harness,
        &mut out,
        object,
        DivergenceClass::PrintedRef,
        a_printed_ref.clone(),
        b_printed_ref.clone(),
        Ghost(start),
        Ghost(a),
        Ghost(b),
    );
    check(
        harness,
        &mut out,
        object,
        DivergenceClass::DisplaySource,
        a_display_source.clone(),
        b_display_source.clone(),
        Ghost(start),
        Ghost(a),
        Ghost(b),
    );
    check(
        harness,
        &mut out,
        object,
        DivergenceClass::TokenImageRef,
        a_token_image_ref.clone(),
        b_token_image_ref.clone(),
        Ghost(start),
        Ghost(a),
        Ghost(b),
    );
    check(
        harness,
        &mut out,
        object,
        DivergenceClass::Controller,
        a_controller.clone(),
        b_controller.clone(),
        Ghost(start),
        Ghost(a),
        Ghost(b),
    );
    check(
        harness,
        &mut out,
        object,
        DivergenceClass::AssignsDamageFromToughness,
        render_boolean(*a_assigns_damage_from_toughness),
        render_boolean(*b_assigns_damage_from_toughness),
        Ghost(start),
        Ghost(a),
        Ghost(b),
    );
    check(
        harness,
        &mut out,
        object,
        DivergenceClass::AssignsDamageAsThoughUnblocked,
        render_boolean(*a_assigns_damage_as_though_unblocked),
        render_boolean(*b_assigns_damage_as_though_unblocked),
        Ghost(start),
        Ghost(a),
        Ghost(b),
    );
    check(
        harness,
        &mut out,
        object,
        DivergenceClass::AssignsNoCombatDamage,
        render_boolean(*a_assigns_no_combat_damage),
        render_boolean(*b_assigns_no_combat_damage),
        Ghost(start),
        Ghost(a),
        Ghost(b),
    );
    proof {
        reveal(reached);
        assert(ALL_CLASSES@.take(CLASS_COUNT as int) =~= ALL_CLASSES@);
    }
    out
}

/// Whether `board` has an object with this identifier on the battlefield.
pub open spec fn on_battlefield(board: Board, id: ObjectId) -> bool {
    match lookup(board, id) {
        Some(object) => object.zone == Zone::Battlefield,
        None => false,
    }
}

/// Whether an object is compared: it is on the battlefield of either board.
pub open spec fn is_compared(incremental: Board, full: Board, id: ObjectId) -> bool {
    on_battlefield(incremental, id) || on_battlefield(full, id)
}

/// The identifiers below `bound` of the objects that are compared, in ascending order.
pub open spec fn compared_below(incremental: Board, full: Board, bound: nat) -> Seq<ObjectId>
    decreases bound,
{
    if bound == 0 {
        Seq::empty()
    } else {
        let rest = compared_below(incremental, full, (bound - 1) as nat);
        let id = ObjectId((bound - 1) as u64);
        if is_compared(incremental, full, id) {
            rest.push(id)
        } else {
            rest
        }
    }
}

/// The identifiers of the objects that are compared, in ascending order.
pub open spec fn compared_ids(incremental: Board, full: Board) -> Seq<ObjectId> {
    compared_below(incremental, full, (u64::MAX + 1) as nat)
}

/// Whether identifiers rise from each to the next.
pub open spec fn ascending_ids(ids: Seq<ObjectId>) -> bool {
    forall|i: int, j: int| 0 <= i < j < ids.len() ==> (#[trigger] ids[i]).0 < (#[trigger] ids[j]).0
}

proof fn lemma_compared_below(incremental: Board, full: Board, bound: nat)
    requires
        bound <= u64::MAX + 1,
    ensures
        ascending_ids(compared_below(incremental, full, bound)),
        forall|id: ObjectId| #[trigger]
            compared_below(incremental, full, bound).contains(id) <==> is_compared(
                incremental,
                full,
                id,
            ) && id.0 < bound,
    decreases bound,
{
    let ids = compared_below(incremental, full, bound);
    if bound > 0 {
        let rest = compared_below(incremental, full, (bound - 1) as nat);
        let last = ObjectId((bound - 1) as u64);
        lemma_compared_below(incremental, full, (bound - 1) as nat);
        assert forall|i: int| 0 <= i < rest.len() implies (#[trigger] rest[i]).0 < bound - 1 by {
            assert(rest.contains(rest[i]));
        }
        assert forall|id: ObjectId| #[trigger] ids.contains(id) <==> is_compared(
            incremental,
            full,
            id,
        ) && id.0 < bound by {
            if is_compared(incremental, full, last) {
                if rest.contains(id) {
                    let k = choose|k: int| 0 <= k < rest.len() && rest[k] == id;
                    assert(ids[k] == id);
                }
                assert(ids[rest.len() as int] == last);
                if ids.contains(id) {
                    let k = choose|k: int| 0 <= k < ids.len() && ids[k] == id;
                    if k < rest.len() {
                        assert(rest[k] == id);
                    }
                }
            }
            assert(rest.contains(id) <==> is_compared(incremental, full, id) && id.0 < bound - 1);
        }
    }
}

/// The compared identifiers are listed in ascending order, each once, and they are all
/// the identifiers of an object on the battlefield of either board.
pub proof fn lemma_compared_ids(incremental: Board, full: Board)
    ensures
        ascending_ids(compared_ids(incremental, full)),
        forall|id: ObjectId| #[trigger]
            compared_ids(incremental, full).contains(id) <==> is_compared(incremental, full, id),
{
    lemma_compared_below(incremental, full, (u64::MAX + 1) as nat);
}

/// Two ascending lists of the same identifiers are equal.
proof fn lemma_same_ids(a: Seq<ObjectId>, b: Seq<ObjectId>)
    requires
        ascending_ids(a),
        ascending_ids(b),
        forall|id: ObjectId| #[trigger] a.contains(id) <==> b.contains(id),
    ensures
        a == b,
    decreases a.len(),
{
    if a.len() == 0 {
        if b.len() > 0 {
            assert(b.contains(b[0]));
            assert(a.contains(b[0]));
        }
        assert(a =~= b);
    } else {
        let x = a.last();
        assert(a.contains(x));
        assert(b.contains(x));
        let y = b.last();
        assert(b.contains(y));
        assert(a.contains(y));
        let i = choose|i: int| 0 <= i < a.len() && a[i] == y;
        let j = choose|j: int| 0 <= j < b.len() && b[j] == x;
        assert(x == y) by {
            if i < a.len() - 1 {
                assert(a[i].0 < a[a.len() - 1].0);
            }
            if j < b.len() - 1 {
                assert(b[j].0 < b[b.len() - 1].0);
            }
        }
        assert forall|id: ObjectId| #[trigger] a.drop_last().contains(id) <==> b.drop_last().contains(
            id,
        ) by {
            lemma_drop_last_ids(a, id);
            lemma_drop_last_ids(b, id);
            assert(a.contains(id) <==> b.contains(id));
        }
        lemma_same_ids(a.drop_last(), b.drop_last());
        assert(a =~= a.drop_last().push(x));
        assert(b =~= b.drop_last().push(x));
    }
}

proof fn lemma_drop_last_ids(ids: Seq<ObjectId>, id: ObjectId)
    requires
        ids.len() > 0,
        ascending_ids(ids),
    ensures
        ids.drop_last().contains(id) <==> ids.contains(id) && id != ids.last(),
{
    if ids.drop_last().contains(id) {
        let k = choose|k: int| 0 <= k < ids.drop_last().len() && ids.drop_last()[k] == id;
        assert(ids[k] == id);
        assert(ids[k].0 < ids[ids.len() - 1].0);
    }
    if ids.contains(id) && id != ids.last() {
        let k = choose|k: int| 0 <= k < ids.len() && ids[k] == id;
        assert(ids.drop_last()[k] == id);
    }
}

/// Adds the identifiers of the objects on the battlefield to a set.
fn collect_battlefield(objects: &ObjectTable, ids: &mut BTreeSet<u64>)
    requires
        ascending(objects@),
    ensures
        forall|id: u64| #[trigger]
            final(ids)@.contains(id) <==> old(ids)@.contains(id) || on_battlefield(
                objects@,
                ObjectId(id),
            ),
{
    broadcast use group_btree_axioms;

    let ghost before = ids@;
    let mut i: usize = 0;
    while i < objects.len()
        invariant
            i <= objects@.len(),
            ascending(objects@),
            forall|id: u64| #[trigger]
                ids@.contains(id) <==> before.contains(id) || exists|k: int|
                    0 <= k < i && (#[trigger] objects@[k]).0 == ObjectId(id) && objects@[k].1.zone
                        == Zone::Battlefield,
        decreases objects@.len() - i,
    {
        if objects.object_at(i).zone == Zone::Battlefield {
            ids.insert(objects.id_at(i).0);
        }
        i = i + 1;
    }
    proof {
        assert forall|id: u64| #[trigger] ids@.contains(id) <==> before.contains(id)
            || on_battlefield(objects@, ObjectId(id)) by {
            if on_battlefield(objects@, ObjectId(id)) {
                let k = choose|k: int|
                    0 <= k < objects@.len() && (#[trigger] objects@[k]).0 == ObjectId(id);
                assert(objects@[k].1.zone == Zone::Battlefield);
            }
            if exists|k: int|
                0 <= k < objects@.len() && (#[trigger] objects@[k]).0 == ObjectId(id)
                    && objects@[k].1.zone == Zone::Battlefield {
                let k = choose|k: int|
                    0 <= k < objects@.len() && (#[trigger] objects@[k]).0 == ObjectId(id)
                        && objects@[k].1.zone == Zone::Battlefield;
                lemma_lookup(objects@, k);
            }
        }
    }
}

/// References to numbers are ordered as the numbers are.
proof fn lemma_references_ordered()
    ensures
        obeys_cmp::<&u64>(),
{
    broadcast use vstd::laws_eq::group_laws_eq;
    broadcast use vstd::laws_cmp::group_laws_cmp;

    assert(obeys_cmp::<u64>());
    reveal(obeys_eq_spec_properties);
    reveal(obeys_partial_cmp_spec_properties);
    reveal(obeys_cmp_partial_ord);
    reveal(obeys_cmp_ord);
}

/// Lists the identifiers of the objects on the battlefield of either board.
fn battlefield_ids(incremental: &ObjectTable, full: &ObjectTable) -> (ids: Vec<ObjectId>)
    requires
        ascending(incremental@),
        ascending(full@),
    ensures
        ids@ == compared_ids(incremental@, full@),
{
    broadcast use group_btree_axioms;

    let mut set: BTreeSet<u64> = BTreeSet::new();
    collect_battlefield(incremental, &mut set);
    collect_battlefield(full, &mut set);
    let mut ids: Vec<ObjectId> = Vec::new();
    let ghost listed = set.iter().remaining();
    for id in it: set.iter()
        invariant
            it.seq() == listed,
            ids@.len() == it.index(),
            forall|k: int| 0 <= k < ids@.len() ==> (#[trigger] ids@[k]).0 == *listed[k],
    {
        ids.push(ObjectId(*id));
    }
    proof {
        lemma_references_ordered();
        assert(increasing_seq(listed));
        assert(ids@.len() == listed.len());
        assert forall|i: int, j: int| 0 <= i < j < ids@.len() implies (#[trigger] ids@[i]).0 < (
        #[trigger] ids@[j]).0 by {
            assert(OrdSpec::cmp_spec(&listed[i], &listed[j]) is Less);
        }
        assert forall|id: ObjectId| #[trigger] ids@.contains(id) <==> is_compared(
            incremental@,
            full@,
            id,
        ) by {
            assert(set@.contains(id.0) <==> is_compared(incremental@, full@, ObjectId(id.0)));
            assert(listed.unref().to_set().contains(id.0) <==> set@.contains(id.0));
            if ids@.contains(id) {
                let k = choose|k: int| 0 <= k < ids@.len() && ids@[k] == id;
                assert(listed.unref()[k] == id.0);
            }
            if set@.contains(id.0) {
                let k = choose|k: int|
                    0 <= k < listed.unref().len() && listed.unref()[k] == id.0;
                assert(ids@[k] == id);
            }
        }
        lemma_compared_ids(incremental@, full@);
        lemma_same_ids(ids@, compared_ids(incremental@, full@));
    }
    ids
}

/// The disagreements of two boards over one object.
pub open spec fn object_divergences(incremental: Board, full: Board, id: ObjectId) -> Seq<
    DivergenceView,
> {
    match (lookup(incremental, id), lookup(full, id)) {
        (Some(a), Some(b)) => snapshot_divergences(id, derived(a), derived(b)),
        (a, b) => seq![
            DivergenceView {
                object: id,
                class: DivergenceClass::Presence,
                incremental: boolean(a is Some),
                full: boolean(b is Some),
            },
        ],
    }
}

/// The disagreements of two boards over some objects, one object after the other.
pub open spec fn divergences_over(incremental: Board, full: Board, ids: Seq<ObjectId>) -> Seq<
    DivergenceView,
>
    decreases ids.len(),
{
    if ids.len() == 0 {
        Seq::empty()
    } else {
        divergences_over(incremental, full, ids.drop_last()) + object_divergences(
            incremental,
            full,
            ids.last(),
        )
    }
}

/// The disagreements of two boards over every object on the battlefield of either, in
/// the order of the objects' identifiers.
pub open spec fn board_divergences(incremental: Board, full: Board) -> Seq<DivergenceView> {
    divergences_over(incremental, full, compared_ids(incremental, full))
}

/// The objects that exist on both boards.
pub open spec fn on_both(incremental: Board, full: Board) -> spec_fn(ObjectId) -> bool {
    |id: ObjectId| lookup(incremental, id) is Some && lookup(full, id) is Some
}

/// Whether the counters of a harness have room for a comparison of two boards.
pub open spec fn has_room_for(harness: Harness, incremental: Board, full: Board) -> bool {
    harness.has_room(
        compared_ids(incremental, full).len(),
        compared_ids(incremental, full).filter(on_both(incremental, full)).len(),
    )
}

/// Whether `after` is a harness that has compared two boards since it was `before`.
pub open spec fn has_compared(
    before: Harness,
    after: Harness,
    incremental: Board,
    full: Board,
) -> bool {
    before.compared(
        after,
        compared_ids(incremental, full).len(),
        compared_ids(incremental, full).filter(on_both(incremental, full)).len(),
    )
}

/// Compares two boards, field by field, over every object on the battlefield of either.
pub fn compare_boards(
    harness: &mut Harness,
    incremental: &GameState,
    full: &GameState,
) -> (divergences: Vec<Divergence>)
    requires
        ascending(incremental@.objects),
        ascending(full@.objects),
        has_room_for(*old(harness), incremental@.objects, full@.objects),
    ensures
        views(divergences@) == board_divergences(incremental@.objects, full@.objects),
        has_compared(*old(harness), *final(harness), incremental@.objects, full@.objects),
{
    let ghost a_board = incremental@.objects;
    let ghost b_board = full@.objects;
    let ghost start = *harness;
    let ids = battlefield_ids(&incremental.objects, &full.objects);
    let mut divergences: Vec<Divergence> = Vec::new();
    let mut i: usize = 0;
    proof {
        reveal(Seq::filter);
        assert(ids@.take(0).filter(on_both(a_board, b_board)).len() == 0);
        assert(views(divergences@) =~= divergences_over(a_board, b_board, ids@.take(0)));
    }
    while i < ids.len()
        invariant
            i <= ids.len(),
            ids@ == compared_ids(a_board, b_board),
            a_board == incremental.objects@,
            b_board == full.objects@,
            ascending(a_board),
            ascending(b_board),
            start.has_room(ids@.len(), ids@.filter(on_both(a_board, b_board)).len()),
            views(divergences@) == divergences_over(a_board, b_board, ids@.take(i as int)),
            start.compared(
                *harness,
                i as nat,
                ids@.take(i as int).filter(on_both(a_board, b_board)).len(),
            ),
        decreases ids.len() - i,
    {
        let id = ids[i];
        let ghost so_far = ids@.take(i as int);
        proof {
            assert(ids@.take(i + 1).drop_last() =~= so_far);
            assert(ids@.take(i + 1).last() == id);
            assert(ids@ =~= ids@.take(i + 1) + ids@.skip(i + 1));
            Seq::filter_distributes_over_add(
                ids@.take(i + 1),
                ids@.skip(i + 1),
                on_both(a_board, b_board),
            );
            reveal(Seq::filter);
        }
        let a = incremental.objects.get(&id);
        let b = full.objects.get(&id);
        record_comparison(harness, DivergenceClass::Presence);
        let ghost before = divergences@;
        match (a, b) {
            (Some(a), Some(b)) => {
                let mut found = compare_snapshots(
                    harness,
                    id,
                    &RecipientDerived::of(a),
                    &RecipientDerived::of(b),
                );
                let ghost added = found@;
                divergences.append(&mut found);
                proof {
                    assert(views(divergences@) =~= views(before) + views(added));
                }
            },
            (a, b) => {
                let divergence = Divergence {
                    object: id,
                    class: DivergenceClass::Presence,
                    incremental: render_boolean(a.is_some()),
                    full: render_boolean(b.is_some()),
                };
                divergences.push(divergence);
                proof {
                    assert(views(divergences@) =~= views(before) + seq![divergence@]);
                    assert(object_divergences(a_board, b_board, id) =~= seq![divergence@]);
                }
            },
        }
        i = i + 1;
    }
    proof {
        assert(ids@.take(ids.len() as int) =~= ids@);
    }
    divergences
}

/// The line of a report for one disagreement.
pub open spec fn report_line(divergence: DivergenceView) -> Seq<char> {
    "  "@ + ObjectId::text_of(divergence.object) + " "@ + divergence.class.title()
        + ": incremental="@ + divergence.incremental + " full="@ + divergence.full
}

/// The lines of a report.
pub open spec fn report_lines(divergences: Seq<DivergenceView>) -> Seq<Seq<char>> {
    divergences.map_values(|divergence: DivergenceView| report_line(divergence))
}

/// What is said of an incremental board that is not what a full evaluation would have
/// made of it.
pub open spec fn divergence_message(divergences: Seq<DivergenceView>) -> Seq<char> {
    "CR 613.1 differential-flush divergence: the entry-incremental pass produced a board different from a full evaluation of the same post-entry state ("@
        + decimal(divergences.len()) + " field(s)):\n"@ + joined(report_lines(divergences), "\n"@)
}

/// Writes the line of a report for one disagreement.
fn write_line(divergence: &Divergence) -> (line: String)
    ensures
        line@ == report_line(divergence@),
{
    let mut line = String::from_str("  ");
    line.append(divergence.object.render().as_str());
    line.append(" ");
    line.append(divergence.class.label());
    line.append(": incremental=");
    line.append(divergence.incremental.as_str());
    line.append(" full=");
    line.append(divergence.full.as_str());
    line
}

/// Writes what is to be said of a board that diverges.
pub fn write_divergence_message(divergences: &Vec<Divergence>) -> (message: String)
    ensures
        message@ == divergence_message(views(divergences@)),
{
    let ghost lines = report_lines(views(divergences@));
    let mut report = String::new();
    let mut i: usize = 0;
    while i < divergences.len()
        invariant
            i <= divergences.len(),
            lines == report_lines(views(divergences@)),
            report@ == joined(lines.take(i as int), "\n"@),
        decreases divergences.len() - i,
    {
        proof {
            assert(lines.take(i + 1).drop_last() =~= lines.take(i as int));
            assert(lines.take(i + 1).last() == report_line(divergences@[i as int]@));
        }
        if i > 0 {
            report.append("\n");
        }
        report.append(write_line(&divergences[i]).as_str());
        i = i + 1;
    }
    proof {
        assert(lines.take(divergences.len() as int) =~= lines);
    }
    let mut message = String::from_str(
        "CR 613.1 differential-flush divergence: the entry-incremental pass produced a board different from a full evaluation of the same post-entry state (",
    );
    message.append(render_decimal(divergences.len() as u64).as_str());
    message.append(" field(s)):\n");
    message.append(report.as_str());
    message
}

/// Puts the copy of a board that was taken before an incremental pass through a full
/// evaluation, and compares the board that the pass has made with it. An incremental
/// board that disagrees with a full pass is a wrong board: the error says where.
///
/// The evaluation of the copy is a diagnosis, not work that the engine did, so it is not
/// counted.
pub fn verify(
    harness: &mut Harness,
    counters: &mut PerfCounters,
    state: &GameState,
    scratch: Option<GameState>,
) -> (outcome: Result<(), String>)
    requires
        match scratch {
            Some(scratch) => {
                &&& ascending(state@.objects)
                &&& ascending(scratch@.objects)
                &&& has_room_for(
                    *old(harness),
                    state@.objects,
                    evaluated(scratch@.objects, scratch@.transient_effects),
                )
            },
            None => true,
        },
    ensures
        final(counters)@ == old(counters)@,
        match scratch {
            Some(scratch) => {
                let full = evaluated(scratch@.objects, scratch@.transient_effects);
                let divergences = board_divergences(state@.objects, full);
                &&& has_compared(*old(harness), *final(harness), state@.objects, full)
                &&& match outcome {
                    Ok(()) => divergences.len() == 0,
                    Err(message) => divergences.len() > 0 && message@ == divergence_message(
                        divergences,
                    ),
                }
            },
            None => *final(harness) == *old(harness) && outcome is Ok,
        },
{
    let mut reference = match scratch {
        Some(scratch) => scratch,
        None => {
            return Ok(());
        },
    };
    let ghost taken = reference@;
    let observing = counters.set_observing(false);
    evaluate_layers(&mut reference, counters);
    counters.set_observing(observing);
    proof {
        lemma_derived_where(taken.objects, taken.transient_effects, everything());
    }
    let divergences = compare_boards(harness, state, &reference);
    if divergences.is_empty() {
        return Ok(());
    }
    Err(write_divergence_message(&divergences))
}

/// No more objects are compared than there are in a list that has them all.
proof fn lemma_compared_within(incremental: Board, full: Board, all: Seq<ObjectId>)
    requires
        forall|id: ObjectId| #[trigger] is_compared(incremental, full, id) ==> all.contains(id),
    ensures
        compared_ids(incremental, full).len() <= all.len(),
        compared_ids(incremental, full).filter(on_both(incremental, full)).len() <= all.len(),
{
    broadcast use vstd::set::group_set_axioms;

    let ids = compared_ids(incremental, full);
    lemma_compared_ids(incremental, full);
    assert(ids.no_duplicates());
    ids.unique_seq_to_set();
    all.lemma_cardinality_of_set();
    assert(ids.to_set().subset_of(all.to_set())) by {
        assert forall|id: ObjectId| ids.to_set().contains(id) implies all.to_set().contains(id) by {
            assert(ids.contains(id));
            assert(is_compared(incremental, full, id));
        }
    }
    vstd::set_lib::lemma_len_subset(ids.to_set(), all.to_set());
    ids.lemma_filter_len(on_both(incremental, full));
}

/// The identifiers of a board.
spec fn ids_of(board: Board) -> Seq<ObjectId> {
    board.map_values(|entry: (ObjectId, GameObjectView)| entry.0)
}

proof fn lemma_ids_of(board: Board, id: ObjectId)
    requires
        contains_id(board, id),
    ensures
        ids_of(board).contains(id),
{
    let k = choose|k: int| 0 <= k < board.len() && (#[trigger] board[k]).0 == id;
    assert(ids_of(board)[k] == id);
}

/// A board has no more objects to compare than it has objects, where the other board has
/// none that it lacks.
pub proof fn lemma_compared_count(incremental: Board, full: Board)
    requires
        forall|id: ObjectId| #[trigger] contains_id(full, id) ==> contains_id(incremental, id),
    ensures
        compared_ids(incremental, full).len() <= incremental.len(),
        compared_ids(incremental, full).filter(on_both(incremental, full)).len() <= incremental.len(),
{
    assert forall|id: ObjectId| #[trigger] is_compared(incremental, full, id) implies ids_of(
        incremental,
    ).contains(id) by {
        assert(contains_id(incremental, id));
        lemma_ids_of(incremental, id);
    }
    lemma_compared_within(incremental, full, ids_of(incremental));
}

/// A harness has room for a comparison of two boards where it has room for a comparison of
/// every object of either.
pub proof fn comparison_fits(harness: Harness, incremental: Board, full: Board)
    requires
        harness.has_room(incremental.len() + full.len(), incremental.len() + full.len()),
    ensures
        has_room_for(harness, incremental, full),
{
    let all = ids_of(incremental) + ids_of(full);
    assert forall|id: ObjectId| #[trigger] is_compared(incremental, full, id) implies all.contains(
        id,
    ) by {
        if contains_id(incremental, id) {
            lemma_ids_of(incremental, id);
            let k = choose|k: int|
                0 <= k < ids_of(incremental).len() && ids_of(incremental)[k] == id;
            assert(all[k] == id);
        } else {
            assert(contains_id(full, id));
            lemma_ids_of(full, id);
            let k = choose|k: int| 0 <= k < ids_of(full).len() && ids_of(full)[k] == id;
            assert(all[incremental.len() + k] == id);
        }
    }
    lemma_compared_within(incremental, full, all);
}

} // verus!
