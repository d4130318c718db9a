//! Objects of the game: what they are printed as, and what continuous effects have
//! made of them.

use vstd::prelude::*;
use vstd::string::*;

use crate::identifiers::{CardId, ObjectId, PlayerId, Zone};
use crate::text::views;
use crate::vocabulary::{
    clone_static_definitions, option_view, AbilityDefinition, CardTypes, CoreType, DisplaySource,
    Keyword, ManaColor, ManaCost, ManaCostView, PrintedCardRef, PrintedCardRefView,
    ReplacementDefinition, StaticDefinition, StaticDefinitionView, TokenImageRef, TokenImageRefView,
};

verus! {

/// The characteristics that continuous effects start from, or that they have led to.
#[derive(Debug)]
pub struct Characteristics {
    pub name: String,
    pub power: Option<i32>,
    pub toughness: Option<i32>,
    pub loyalty: Option<u32>,
    pub card_types: CardTypes,
    pub mana_cost: ManaCost,
    pub keywords: Vec<Keyword>,
    pub abilities: Vec<AbilityDefinition>,
    pub replacement_definitions: Vec<ReplacementDefinition>,
    pub static_definitions: Vec<StaticDefinition>,
    pub color: Vec<ManaColor>,
    pub printed_ref: Option<PrintedCardRef>,
    pub display_source: DisplaySource,
    pub token_image_ref: Option<TokenImageRef>,
}

/// The values of a set of characteristics.
#[verifier::ext_equal]
pub struct CharacteristicsView {
    pub name: Seq<char>,
    pub power: Option<i32>,
    pub toughness: Option<i32>,
    pub loyalty: Option<u32>,
    pub card_types: Seq<CoreType>,
    pub mana_cost: ManaCostView,
    pub keywords: Seq<Keyword>,
    pub abilities: Seq<AbilityDefinition>,
    pub replacement_definitions: Seq<ReplacementDefinition>,
    pub static_definitions: Seq<StaticDefinitionView>,
    pub color: Seq<ManaColor>,
    pub printed_ref: Option<PrintedCardRefView>,
    pub display_source: DisplaySource,
    pub token_image_ref: Option<TokenImageRefView>,
}

impl View for Characteristics {
    type V = CharacteristicsView;

    open spec fn view(&self) -> CharacteristicsView {
        CharacteristicsView {
            name: self.name@,
            power: self.power,
            toughness: self.toughness,
            loyalty: self.loyalty,
            card_types: self.card_types@,
            mana_cost: self.mana_cost@,
            keywords: self.keywords@,
            abilities: self.abilities@,
            replacement_definitions: self.replacement_definitions@,
            static_definitions: views(self.static_definitions@),
            color: self.color@,
            printed_ref: option_view(self.printed_ref),
            display_source: self.display_source,
            token_image_ref: option_view(self.token_image_ref),
        }
    }
}

fn clone_printed_ref(value: &Option<PrintedCardRef>) -> (copy: Option<PrintedCardRef>)
    ensures
        option_view(copy) == option_view(*value),
{
    match value {
        None => None,
        Some(value) => Some(value.clone()),
    }
}

fn clone_token_image_ref(value: &Option<TokenImageRef>) -> (copy: Option<TokenImageRef>)
    ensures
        option_view(copy) == option_view(*value),
{
    match value {
        None => None,
        Some(value) => Some(value.clone()),
    }
}

impl Clone for Characteristics {
    fn clone(&self) -> (copy: Self)
        ensures
            copy@ == self@,
    {
        Characteristics {
            name: self.name.clone(),
            power: self.power,
            toughness: self.toughness,
            loyalty: self.loyalty,
            card_types: self.card_types.clone(),
            mana_cost: self.mana_cost.clone(),
            keywords: self.keywords.clone(),
            abilities: self.abilities.clone(),
            replacement_definitions: self.replacement_definitions.clone(),
            static_definitions: clone_static_definitions(&self.static_definitions),
            color: self.color.clone(),
            printed_ref: clone_printed_ref(&self.printed_ref),
            display_source: self.display_source,
            token_image_ref: clone_token_image_ref(&self.token_image_ref),
        }
    }
}

/// The characteristics of an object that has a name and nothing else.
pub open spec fn blank(name: Seq<char>) -> CharacteristicsView {
    CharacteristicsView {
        name,
        power: None,
        toughness: None,
        loyalty: None,
        card_types: Seq::empty(),
        mana_cost: ManaCostView::NoCost,
        keywords: Seq::empty(),
        abilities: Seq::empty(),
        replacement_definitions: Seq::empty(),
        static_definitions: Seq::empty(),
        color: Seq::empty(),
        printed_ref: None,
        display_source: DisplaySource::Card,
        token_image_ref: None,
    }
}

/// `first` where it is there, `second` otherwise.
pub open spec fn either<T>(first: Option<T>, second: Option<T>) -> Option<T> {
    if first is Some {
        first
    } else {
        second
    }
}

/// `first` where it holds anything, `second` otherwise.
pub open spec fn either_seq<T>(first: Seq<T>, second: Seq<T>) -> Seq<T> {
    if first.len() > 0 {
        first
    } else {
        second
    }
}

/// `base`, with every characteristic that it leaves blank taken from `live`.
pub open spec fn completed(base: CharacteristicsView, live: CharacteristicsView) -> CharacteristicsView {
    CharacteristicsView {
        name: either_seq(base.name, live.name),
        power: either(base.power, live.power),
        toughness: either(base.toughness, live.toughness),
        loyalty: either(base.loyalty, live.loyalty),
        card_types: either_seq(base.card_types, live.card_types),
        mana_cost: if base.mana_cost is Cost {
            base.mana_cost
        } else {
            live.mana_cost
        },
        keywords: either_seq(base.keywords, live.keywords),
        abilities: either_seq(base.abilities, live.abilities),
        replacement_definitions: either_seq(
            base.replacement_definitions,
            live.replacement_definitions,
        ),
        static_definitions: either_seq(base.static_definitions, live.static_definitions),
        color: either_seq(base.color, live.color),
        printed_ref: either(base.printed_ref, live.printed_ref),
        display_source: if base.display_source == DisplaySource::Token {
            base.display_source
        } else {
            live.display_source
        },
        token_image_ref: either(base.token_image_ref, live.token_image_ref),
    }
}

fn either_name(first: &String, second: &String) -> (name: String)
    ensures
        name@ == either_seq(first@, second@),
{
    if first.as_str().is_empty() {
        second.clone()
    } else {
        first.clone()
    }
}

fn either_value<T: Copy>(first: Option<T>, second: Option<T>) -> (value: Option<T>)
    ensures
        value == either(first, second),
{
    if first.is_some() {
        first
    } else {
        second
    }
}

fn copy_vec<T: Copy>(items: &Vec<T>) -> (copy: Vec<T>)
    ensures
        copy@ == items@,
{
    let mut copy: Vec<T> = Vec::new();
    let mut i: usize = 0;
    while i < items.len()
        invariant
            i <= items.len(),
            copy@ == items@.take(i as int),
        decreases items.len() - i,
    {
        copy.push(items[i]);
        proof {
            assert(items@.take(i + 1) =~= items@.take(i as int).push(items@[i as int]));
        }
        i = i + 1;
    }
    proof {
        assert(items@.take(items.len() as int) =~= items@);
    }
    copy
}

fn either_vec<T: Copy>(first: &Vec<T>, second: &Vec<T>) -> (items: Vec<T>)
    ensures
        items@ == either_seq(first@, second@),
{
    if first.is_empty() {
        copy_vec(second)
    } else {
        copy_vec(first)
    }
}

fn either_cost(first: &ManaCost, second: &ManaCost) -> (cost: ManaCost)
    ensures
        cost@ == (if first@ is Cost {
            first@
        } else {
            second@
        }),
{
    match first {
        ManaCost::NoCost => second.clone(),
        ManaCost::Cost { .. } => first.clone(),
    }
}

fn either_static_definitions(
    first: &Vec<StaticDefinition>,
    second: &Vec<StaticDefinition>,
) -> (definitions: Vec<StaticDefinition>)
    ensures
        views(definitions@) == either_seq(views(first@), views(second@)),
{
    if first.is_empty() {
        clone_static_definitions(second)
    } else {
        clone_static_definitions(first)
    }
}

fn either_printed_ref(
    first: &Option<PrintedCardRef>,
    second: &Option<PrintedCardRef>,
) -> (value: Option<PrintedCardRef>)
    ensures
        option_view(value) == either(option_view(*first), option_view(*second)),
{
    if first.is_some() {
        clone_printed_ref(first)
    } else {
        clone_printed_ref(second)
    }
}

fn either_token_image_ref(
    first: &Option<TokenImageRef>,
    second: &Option<TokenImageRef>,
) -> (value: Option<TokenImageRef>)
    ensures
        option_view(value) == either(option_view(*first), option_view(*second)),
{
    if first.is_some() {
        clone_token_image_ref(first)
    } else {
        clone_token_image_ref(second)
    }
}

impl Characteristics {
    /// The characteristics of an object that has a name and nothing else.
    pub fn blank(name: String) -> (characteristics: Self)
        ensures
            characteristics@ == blank(name@),
    {
        let characteristics = Characteristics {
            name,
            power: None,
            toughness: None,
            loyalty: None,
            card_types: CardTypes { core_types: Vec::new() },
            mana_cost: ManaCost::NoCost,
            keywords: Vec::new(),
            abilities: Vec::new(),
            replacement_definitions: Vec::new(),
            static_definitions: Vec::new(),
            color: Vec::new(),
            printed_ref: None,
            display_source: DisplaySource::Card,
            token_image_ref: None,
        };
        proof {
            assert(characteristics@.static_definitions =~= Seq::empty());
        }
        characteristics
    }

    /// These characteristics, with every one that is blank here taken from `live`.
    pub fn completed_from(&self, live: &Characteristics) -> (characteristics: Characteristics)
        ensures
            characteristics@ == completed(self@, live@),
    {
        Characteristics {
            name: either_name(&self.name, &live.name),
            power: either_value(self.power, live.power),
            toughness: either_value(self.toughness, live.toughness),
            loyalty: either_value(self.loyalty, live.loyalty),
            card_types: CardTypes {
                core_types: either_vec(&self.card_types.core_types, &live.card_types.core_types),
            },
            mana_cost: either_cost(&self.mana_cost, &live.mana_cost),
            keywords: either_vec(&self.keywords, &live.keywords),
            abilities: either_vec(&self.abilities, &live.abilities),
            replacement_definitions: either_vec(
                &self.replacement_definitions,
                &live.replacement_definitions,
            ),
            static_definitions: either_static_definitions(
                &self.static_definitions,
                &live.static_definitions,
            ),
            color: either_vec(&self.color, &live.color),
            printed_ref: either_printed_ref(&self.printed_ref, &live.printed_ref),
            display_source: match self.display_source {
                DisplaySource::Card => live.display_source,
                DisplaySource::Token => DisplaySource::Token,
            },
            token_image_ref: either_token_image_ref(&self.token_image_ref, &live.token_image_ref),
        }
    }
}

/// A kind of counter.
#[derive(Clone, Copy, Debug, PartialEq, Eq, Structural)]
pub enum CounterType {
    Plus1Plus1,
}

/// The counters on an object.
#[derive(Clone, Copy, Debug, PartialEq, Eq, Structural)]
pub struct Counters {
    pub plus1_plus1: u32,
}

impl Counters {
    /// No counters.
    pub fn new() -> (counters: Self)
        ensures
            counters == (Counters { plus1_plus1: 0 }),
    {
        Counters { plus1_plus1: 0 }
    }

    /// Sets how many counters of a kind there are.
    pub fn insert(&mut self, kind: CounterType, count: u32)
        ensures
            match kind {
                CounterType::Plus1Plus1 => *final(self) == (Counters { plus1_plus1: count }),
            },
    {
        match kind {
            CounterType::Plus1Plus1 => {
                self.plus1_plus1 = count;
            },
        }
    }

    /// Whether there are no counters.
    pub fn is_empty(&self) -> (empty: bool)
        ensures
            empty == (self.plus1_plus1 == 0),
    {
        self.plus1_plus1 == 0
    }
}

/// Why an object phased out.
#[derive(Clone, Copy, Debug, PartialEq, Eq, Structural)]
pub enum PhaseOutCause {
    Directly,
    Indirectly,
}

/// The mark of an object that is an Aura only because it was cast for its bestow
/// cost.
#[derive(Clone, Copy, Debug, PartialEq, Eq, Structural)]
pub struct BestowFormState;

/// An object of the game.
///
/// `base` is what the object is before any continuous effect; `live` is what the
/// layers have made of it. `base_initialized` says that `base` is complete: until
/// then, what it leaves blank is taken from `live` at the first derivation.
#[derive(Debug)]
pub struct GameObject {
    pub card_id: CardId,
    pub owner: PlayerId,
    pub zone: Zone,
    pub timestamp: u64,
    pub live: Characteristics,
    pub base: Characteristics,
    pub base_initialized: bool,
    pub controller: PlayerId,
    pub base_controller: PlayerId,
    pub assigns_damage_from_toughness: bool,
    pub assigns_damage_as_though_unblocked: bool,
    pub assigns_no_combat_damage: bool,
    pub counters: Counters,
    pub attached_to: Option<ObjectId>,
    pub paired_with: Option<ObjectId>,
    pub phased_out: Option<PhaseOutCause>,
    pub bestow_form: Option<BestowFormState>,
}

/// The state of an object.
#[verifier::ext_equal]
pub struct GameObjectView {
    pub card_id: CardId,
    pub owner: PlayerId,
    pub zone: Zone,
    pub timestamp: u64,
    pub live: CharacteristicsView,
    pub base: CharacteristicsView,
    pub base_initialized: bool,
    pub controller: PlayerId,
    pub base_controller: PlayerId,
    pub assigns_damage_from_toughness: bool,
    pub assigns_damage_as_though_unblocked: bool,
    pub assigns_no_combat_damage: bool,
    pub counters: Counters,
    pub attached_to: Option<ObjectId>,
    pub paired_with: Option<ObjectId>,
    pub phased_out: Option<PhaseOutCause>,
    pub bestow_form: Option<BestowFormState>,
}

impl View for GameObject {
    type V = GameObjectView;

    open spec fn view(&self) -> GameObjectView {
        GameObjectView {
            card_id: self.card_id,
            owner: self.owner,
            zone: self.zone,
            timestamp: self.timestamp,
            live: self.live@,
            base: self.base@,
            base_initialized: self.base_initialized,
            controller: self.controller,
            base_controller: self.base_controller,
            assigns_damage_from_toughness: self.assigns_damage_from_toughness,
            assigns_damage_as_though_unblocked: self.assigns_damage_as_though_unblocked,
            assigns_no_combat_damage: self.assigns_no_combat_damage,
            counters: self.counters,
            attached_to: self.attached_to,
            paired_with: self.paired_with,
            phased_out: self.phased_out,
            bestow_form: self.bestow_form,
        }
    }
}

impl Clone for GameObject {
    fn clone(&self) -> (copy: Self)
        ensures
            copy@ == self@,
    {
        GameObject {
            card_id: self.card_id,
            owner: self.owner,
            zone: self.zone,
            timestamp: self.timestamp,
            live: self.live.clone(),
            base: self.base.clone(),
            base_initialized: self.base_initialized,
            controller: self.controller,
            base_controller: self.base_controller,
            assigns_damage_from_toughness: self.assigns_damage_from_toughness,
            assigns_damage_as_though_unblocked: self.assigns_damage_as_though_unblocked,
            assigns_no_combat_damage: self.assigns_no_combat_damage,
            counters: self.counters,
            attached_to: self.attached_to,
            paired_with: self.paired_with,
            phased_out: self.phased_out,
            bestow_form: self.bestow_form,
        }
    }
}

/// Whether an object takes part in the layers: it is on the battlefield, and phased
/// in.
pub open spec fn is_active(object: GameObjectView) -> bool {
    object.zone == Zone::Battlefield && object.phased_out is None
}

/// An object as it comes into being, before anything has been said of it but its
/// name.
pub open spec fn newborn(card_id: CardId, owner: PlayerId, name: Seq<char>, zone: Zone) -> GameObjectView {
    GameObjectView {
        card_id,
        owner,
        zone,
        timestamp: 0,
        live: blank(name),
        base: blank(name),
        base_initialized: false,
        controller: owner,
        base_controller: owner,
        assigns_damage_from_toughness: false,
        assigns_damage_as_though_unblocked: false,
        assigns_no_combat_damage: false,
        counters: Counters { plus1_plus1: 0 },
        attached_to: None,
        paired_with: None,
        phased_out: None,
        bestow_form: None,
    }
}

/// An object whose base characteristics are complete.
pub open spec fn synced(object: GameObjectView) -> GameObjectView {
    if object.base_initialized {
        object
    } else {
        GameObjectView {
            base: completed(object.base, object.live),
            base_initialized: true,
            ..object
        }
    }
}

/// An object stripped of everything that continuous effects have done to it.
pub open spec fn reset(object: GameObjectView) -> GameObjectView {
    GameObjectView {
        live: object.base,
        controller: object.base_controller,
        assigns_damage_from_toughness: false,
        assigns_damage_as_though_unblocked: false,
        assigns_no_combat_damage: false,
        ..object
    }
}

impl GameObject {
    /// A new object.
    pub fn new(card_id: CardId, owner: PlayerId, name: String, zone: Zone) -> (object: Self)
        ensures
            object@ == newborn(card_id, owner, name@, zone),
    {
        let base_name = name.clone();
        GameObject {
            card_id,
            owner,
            zone,
            timestamp: 0,
            live: Characteristics::blank(name),
            base: Characteristics::blank(base_name),
            base_initialized: false,
            controller: owner,
            base_controller: owner,
            assigns_damage_from_toughness: false,
            assigns_damage_as_though_unblocked: false,
            assigns_no_combat_damage: false,
            counters: Counters::new(),
            attached_to: None,
            paired_with: None,
            phased_out: None,
            bestow_form: None,
        }
    }

    /// Whether the object takes part in the layers.
    pub fn active(&self) -> (active: bool)
        ensures
            active == is_active(self@),
    {
        self.zone == Zone::Battlefield && self.phased_out.is_none()
    }

    /// Completes the base characteristics, once.
    pub fn sync_missing_base_characteristics(&mut self)
        ensures
            final(self)@ == synced(old(self)@),
    {
        if !self.base_initialized {
            self.base = self.base.completed_from(&self.live);
            self.base_initialized = true;
        }
    }
}

} // verus!
