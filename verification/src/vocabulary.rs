//! The words that an object's characteristics are written in.

use vstd::prelude::*;
use vstd::string::*;

use crate::identifiers::ObjectId;
use crate::text::{
    decimal, integer, list, optional, quoted, render_decimal, render_integer, render_list,
    render_none, render_quoted, render_some, texts, views, Rendered,
};

verus! {

/// A card type.
#[derive(Clone, Copy, Debug, PartialEq, Eq, Structural)]
pub enum CoreType {
    Artifact,
    Creature,
    Enchantment,
}

impl View for CoreType {
    type V = CoreType;

    open spec fn view(&self) -> CoreType {
        *self
    }
}

impl Rendered for CoreType {
    open spec fn text_of(value: CoreType) -> Seq<char> {
        match value {
            CoreType::Artifact => "Artifact"@,
            CoreType::Creature => "Creature"@,
            CoreType::Enchantment => "Enchantment"@,
        }
    }

    fn render(&self) -> (text: String) {
        match self {
            CoreType::Artifact => String::from_str("Artifact"),
            CoreType::Creature => String::from_str("Creature"),
            CoreType::Enchantment => String::from_str("Enchantment"),
        }
    }
}

/// A coloured symbol of a mana cost.
#[derive(Clone, Copy, Debug, PartialEq, Eq, Structural)]
pub enum ManaCostShard {
    White,
    Blue,
    Black,
    Red,
    Green,
}

impl View for ManaCostShard {
    type V = ManaCostShard;

    open spec fn view(&self) -> ManaCostShard {
        *self
    }
}

impl Rendered for ManaCostShard {
    open spec fn text_of(value: ManaCostShard) -> Seq<char> {
        match value {
            ManaCostShard::White => "White"@,
            ManaCostShard::Blue => "Blue"@,
            ManaCostShard::Black => "Black"@,
            ManaCostShard::Red => "Red"@,
            ManaCostShard::Green => "Green"@,
        }
    }

    fn render(&self) -> (text: String) {
        match self {
            ManaCostShard::White => String::from_str("White"),
            ManaCostShard::Blue => String::from_str("Blue"),
            ManaCostShard::Black => String::from_str("Black"),
            ManaCostShard::Red => String::from_str("Red"),
            ManaCostShard::Green => String::from_str("Green"),
        }
    }
}

/// A colour.
#[derive(Clone, Copy, Debug, PartialEq, Eq, Structural)]
pub enum ManaColor {
    White,
    Blue,
    Black,
    Red,
    Green,
}

impl View for ManaColor {
    type V = ManaColor;

    open spec fn view(&self) -> ManaColor {
        *self
    }
}

impl Rendered for ManaColor {
    open spec fn text_of(value: ManaColor) -> Seq<char> {
        match value {
            ManaColor::White => "White"@,
            ManaColor::Blue => "Blue"@,
            ManaColor::Black => "Black"@,
            ManaColor::Red => "Red"@,
            ManaColor::Green => "Green"@,
        }
    }

    fn render(&self) -> (text: String) {
        match self {
            ManaColor::White => String::from_str("White"),
            ManaColor::Blue => String::from_str("Blue"),
            ManaColor::Black => String::from_str("Black"),
            ManaColor::Red => String::from_str("Red"),
            ManaColor::Green => String::from_str("Green"),
        }
    }
}

/// A keyword ability.
#[derive(Clone, Copy, Debug, PartialEq, Eq, Structural)]
pub enum Keyword {
    Flying,
    Trample,
    Vigilance,
}

impl View for Keyword {
    type V = Keyword;

    open spec fn view(&self) -> Keyword {
        *self
    }
}

impl Rendered for Keyword {
    open spec fn text_of(value: Keyword) -> Seq<char> {
        match value {
            Keyword::Flying => "Flying"@,
            Keyword::Trample => "Trample"@,
            Keyword::Vigilance => "Vigilance"@,
        }
    }

    fn render(&self) -> (text: String) {
        match self {
            Keyword::Flying => String::from_str("Flying"),
            Keyword::Trample => String::from_str("Trample"),
            Keyword::Vigilance => String::from_str("Vigilance"),
        }
    }
}

/// How an ability comes to be used.
#[derive(Clone, Copy, Debug, PartialEq, Eq, Structural)]
pub enum AbilityKind {
    Activated,
    Spell,
}

impl View for AbilityKind {
    type V = AbilityKind;

    open spec fn view(&self) -> AbilityKind {
        *self
    }
}

impl Rendered for AbilityKind {
    open spec fn text_of(value: AbilityKind) -> Seq<char> {
        match value {
            AbilityKind::Activated => "Activated"@,
            AbilityKind::Spell => "Spell"@,
        }
    }

    fn render(&self) -> (text: String) {
        match self {
            AbilityKind::Activated => String::from_str("Activated"),
            AbilityKind::Spell => String::from_str("Spell"),
        }
    }
}

/// What an ability does.
#[derive(Clone, Copy, Debug, PartialEq, Eq, Structural)]
pub enum Effect {
    NoOp,
}

impl View for Effect {
    type V = Effect;

    open spec fn view(&self) -> Effect {
        *self
    }
}

impl Rendered for Effect {
    open spec fn text_of(value: Effect) -> Seq<char> {
        match value {
            Effect::NoOp => "NoOp"@,
        }
    }

    fn render(&self) -> (text: String) {
        match self {
            Effect::NoOp => String::from_str("NoOp"),
        }
    }
}

/// The event that a replacement effect looks for.
#[derive(Clone, Copy, Debug, PartialEq, Eq, Structural)]
pub enum ReplacementEvent {
    Draw,
}

impl View for ReplacementEvent {
    type V = ReplacementEvent;

    open spec fn view(&self) -> ReplacementEvent {
        *self
    }
}

impl Rendered for ReplacementEvent {
    open spec fn text_of(value: ReplacementEvent) -> Seq<char> {
        match value {
            ReplacementEvent::Draw => "Draw"@,
        }
    }

    fn render(&self) -> (text: String) {
        match self {
            ReplacementEvent::Draw => String::from_str("Draw"),
        }
    }
}

/// How a static ability applies.
#[derive(Clone, Copy, Debug, PartialEq, Eq, Structural)]
pub enum StaticMode {
    Continuous,
}

impl View for StaticMode {
    type V = StaticMode;

    open spec fn view(&self) -> StaticMode {
        *self
    }
}

impl Rendered for StaticMode {
    open spec fn text_of(value: StaticMode) -> Seq<char> {
        match value {
            StaticMode::Continuous => "Continuous"@,
        }
    }

    fn render(&self) -> (text: String) {
        match self {
            StaticMode::Continuous => String::from_str("Continuous"),
        }
    }
}

/// The card type that a filter asks for.
#[derive(Clone, Copy, Debug, PartialEq, Eq, Structural)]
pub enum TypeFilter {
    Creature,
}

impl View for TypeFilter {
    type V = TypeFilter;

    open spec fn view(&self) -> TypeFilter {
        *self
    }
}

impl Rendered for TypeFilter {
    open spec fn text_of(value: TypeFilter) -> Seq<char> {
        match value {
            TypeFilter::Creature => "Creature"@,
        }
    }

    fn render(&self) -> (text: String) {
        match self {
            TypeFilter::Creature => String::from_str("Creature"),
        }
    }
}

/// Where an object's picture comes from.
#[derive(Clone, Copy, Debug, PartialEq, Eq, Structural)]
pub enum DisplaySource {
    Card,
    Token,
}

impl View for DisplaySource {
    type V = DisplaySource;

    open spec fn view(&self) -> DisplaySource {
        *self
    }
}

impl Rendered for DisplaySource {
    open spec fn text_of(value: DisplaySource) -> Seq<char> {
        match value {
            DisplaySource::Card => "Card"@,
            DisplaySource::Token => "Token"@,
        }
    }

    fn render(&self) -> (text: String) {
        match self {
            DisplaySource::Card => String::from_str("Card"),
            DisplaySource::Token => String::from_str("Token"),
        }
    }
}

/// The types of a card.
#[derive(Debug)]
pub struct CardTypes {
    pub core_types: Vec<CoreType>,
}

impl View for CardTypes {
    type V = Seq<CoreType>;

    open spec fn view(&self) -> Seq<CoreType> {
        self.core_types@
    }
}

impl Clone for CardTypes {
    fn clone(&self) -> (copy: Self)
        ensures
            copy@ == self@,
    {
        CardTypes { core_types: self.core_types.clone() }
    }
}

impl Rendered for CardTypes {
    open spec fn text_of(value: Seq<CoreType>) -> Seq<char> {
        "CardTypes { core_types: "@ + list(texts::<CoreType>(value)) + " }"@
    }

    fn render(&self) -> (text: String) {
        proof {
            assert(views(self.core_types@) =~= self.core_types@);
        }
        let mut text = String::from_str("CardTypes { core_types: ");
        text.append(render_list(&self.core_types).as_str());
        text.append(" }");
        text
    }
}

/// A mana cost.
#[derive(Debug)]
pub enum ManaCost {
    NoCost,
    Cost { shards: Vec<ManaCostShard>, generic: u32 },
}

/// What a mana cost asks for.
#[verifier::ext_equal]
pub enum ManaCostView {
    NoCost,
    Cost { shards: Seq<ManaCostShard>, generic: u32 },
}

impl View for ManaCost {
    type V = ManaCostView;

    open spec fn view(&self) -> ManaCostView {
        match self {
            ManaCost::NoCost => ManaCostView::NoCost,
            ManaCost::Cost { shards, generic } => ManaCostView::Cost {
                shards: shards@,
                generic: *generic,
            },
        }
    }
}

impl Clone for ManaCost {
    fn clone(&self) -> (copy: Self)
        ensures
            copy@ == self@,
    {
        match self {
            ManaCost::NoCost => ManaCost::NoCost,
            ManaCost::Cost { shards, generic } => ManaCost::Cost {
                shards: shards.clone(),
                generic: *generic,
            },
        }
    }
}

impl Rendered for ManaCost {
    open spec fn text_of(value: ManaCostView) -> Seq<char> {
        match value {
            ManaCostView::NoCost => "NoCost"@,
            ManaCostView::Cost { shards, generic } => "Cost { shards: "@ + list(
                texts::<ManaCostShard>(shards),
            ) + ", generic: "@ + decimal(generic as nat) + " }"@,
        }
    }

    fn render(&self) -> (text: String) {
        match self {
            ManaCost::NoCost => String::from_str("NoCost"),
            ManaCost::Cost { shards, generic } => {
                proof {
                    assert(views(shards@) =~= shards@);
                }
                let mut text = String::from_str("Cost { shards: ");
                text.append(render_list(shards).as_str());
                text.append(", generic: ");
                text.append(render_decimal(*generic as u64).as_str());
                text.append(" }");
                text
            },
        }
    }
}

/// An ability of an object.
#[derive(Clone, Copy, Debug, PartialEq, Eq, Structural)]
pub struct AbilityDefinition {
    pub kind: AbilityKind,
    pub effect: Effect,
}

impl AbilityDefinition {
    pub fn new(kind: AbilityKind, effect: Effect) -> (ability: Self)
        ensures
            ability.kind == kind,
            ability.effect == effect,
    {
        AbilityDefinition { kind, effect }
    }
}

impl View for AbilityDefinition {
    type V = AbilityDefinition;

    open spec fn view(&self) -> AbilityDefinition {
        *self
    }
}

impl Rendered for AbilityDefinition {
    open spec fn text_of(value: AbilityDefinition) -> Seq<char> {
        "AbilityDefinition { kind: "@ + AbilityKind::text_of(value.kind) + ", effect: "@
            + Effect::text_of(value.effect) + " }"@
    }

    fn render(&self) -> (text: String) {
        let mut text = String::from_str("AbilityDefinition { kind: ");
        text.append(self.kind.render().as_str());
        text.append(", effect: ");
        text.append(self.effect.render().as_str());
        text.append(" }");
        text
    }
}

/// A replacement effect of an object.
#[derive(Clone, Copy, Debug, PartialEq, Eq, Structural)]
pub struct ReplacementDefinition {
    pub event: ReplacementEvent,
}

impl ReplacementDefinition {
    pub fn new(event: ReplacementEvent) -> (replacement: Self)
        ensures
            replacement.event == event,
    {
        ReplacementDefinition { event }
    }
}

impl View for ReplacementDefinition {
    type V = ReplacementDefinition;

    open spec fn view(&self) -> ReplacementDefinition {
        *self
    }
}

impl Rendered for ReplacementDefinition {
    open spec fn text_of(value: ReplacementDefinition) -> Seq<char> {
        "ReplacementDefinition { event: "@ + ReplacementEvent::text_of(value.event) + " }"@
    }

    fn render(&self) -> (text: String) {
        let mut text = String::from_str("ReplacementDefinition { event: ");
        text.append(self.event.render().as_str());
        text.append(" }");
        text
    }
}

/// A filter on characteristics.
#[derive(Clone, Copy, Debug, PartialEq, Eq, Structural)]
pub struct TypedFilter {
    pub type_filter: TypeFilter,
}

impl TypedFilter {
    pub fn new(type_filter: TypeFilter) -> (filter: Self)
        ensures
            filter.type_filter == type_filter,
    {
        TypedFilter { type_filter }
    }
}

/// The objects that a continuous effect applies to.
#[derive(Clone, Copy, Debug, PartialEq, Eq, Structural)]
pub enum TargetFilter {
    Typed(TypedFilter),
    SpecificObject { id: ObjectId },
}

impl View for TargetFilter {
    type V = TargetFilter;

    open spec fn view(&self) -> TargetFilter {
        *self
    }
}

impl Rendered for TargetFilter {
    open spec fn text_of(value: TargetFilter) -> Seq<char> {
        match value {
            TargetFilter::Typed(filter) => "Typed(TypedFilter { type_filter: "@
                + TypeFilter::text_of(filter.type_filter) + " })"@,
            TargetFilter::SpecificObject { id } => "SpecificObject { id: "@ + ObjectId::text_of(id)
                + " }"@,
        }
    }

    fn render(&self) -> (text: String) {
        match self {
            TargetFilter::Typed(filter) => {
                let mut text = String::from_str("Typed(TypedFilter { type_filter: ");
                text.append(filter.type_filter.render().as_str());
                text.append(" })");
                text
            },
            TargetFilter::SpecificObject { id } => {
                let mut text = String::from_str("SpecificObject { id: ");
                text.append(id.render().as_str());
                text.append(" }");
                text
            },
        }
    }
}

/// What a continuous effect does to an object it applies to.
#[derive(Clone, Copy, Debug, PartialEq, Eq, Structural)]
pub enum ContinuousModification {
    AddPower { value: i32 },
    AddToughness { value: i32 },
}

impl View for ContinuousModification {
    type V = ContinuousModification;

    open spec fn view(&self) -> ContinuousModification {
        *self
    }
}

impl Rendered for ContinuousModification {
    open spec fn text_of(value: ContinuousModification) -> Seq<char> {
        match value {
            ContinuousModification::AddPower { value } => "AddPower { value: "@ + integer(
                value as int,
            ) + " }"@,
            ContinuousModification::AddToughness { value } => "AddToughness { value: "@ + integer(
                value as int,
            ) + " }"@,
        }
    }

    fn render(&self) -> (text: String) {
        match self {
            ContinuousModification::AddPower { value } => {
                let mut text = String::from_str("AddPower { value: ");
                text.append(render_integer(*value).as_str());
                text.append(" }");
                text
            },
            ContinuousModification::AddToughness { value } => {
                let mut text = String::from_str("AddToughness { value: ");
                text.append(render_integer(*value).as_str());
                text.append(" }");
                text
            },
        }
    }
}

/// A static ability of an object.
#[derive(Debug)]
pub struct StaticDefinition {
    pub mode: StaticMode,
    pub affected: Option<TargetFilter>,
    pub modifications: Vec<ContinuousModification>,
}

/// What a static ability says.
#[verifier::ext_equal]
pub struct StaticDefinitionView {
    pub mode: StaticMode,
    pub affected: Option<TargetFilter>,
    pub modifications: Seq<ContinuousModification>,
}

impl View for StaticDefinition {
    type V = StaticDefinitionView;

    open spec fn view(&self) -> StaticDefinitionView {
        StaticDefinitionView {
            mode: self.mode,
            affected: self.affected,
            modifications: self.modifications@,
        }
    }
}

impl Clone for StaticDefinition {
    fn clone(&self) -> (copy: Self)
        ensures
            copy@ == self@,
    {
        StaticDefinition {
            mode: self.mode,
            affected: self.affected,
            modifications: self.modifications.clone(),
        }
    }
}

impl StaticDefinition {
    /// A static ability that applies to nothing yet.
    pub fn new(mode: StaticMode) -> (definition: Self)
        ensures
            definition@ == (StaticDefinitionView { mode, affected: None, modifications: Seq::empty() }),
    {
        StaticDefinition { mode, affected: None, modifications: Vec::new() }
    }

    /// A continuous static ability that applies to nothing yet.
    pub fn continuous() -> (definition: Self)
        ensures
            definition@ == (StaticDefinitionView {
                mode: StaticMode::Continuous,
                affected: None,
                modifications: Seq::empty(),
            }),
    {
        StaticDefinition::new(StaticMode::Continuous)
    }

    pub fn affected(self, filter: TargetFilter) -> (definition: Self)
        ensures
            definition@ == (StaticDefinitionView { affected: Some(filter), ..self@ }),
    {
        StaticDefinition {
            mode: self.mode,
            affected: Some(filter),
            modifications: self.modifications,
        }
    }

    pub fn modifications(self, modifications: Vec<ContinuousModification>) -> (definition: Self)
        ensures
            definition@ == (StaticDefinitionView { modifications: modifications@, ..self@ }),
    {
        StaticDefinition { mode: self.mode, affected: self.affected, modifications }
    }
}

/// The text of the filter of a static ability.
pub open spec fn affected_text(affected: Option<TargetFilter>) -> Seq<char> {
    match affected {
        None => optional(None),
        Some(filter) => optional(Some(TargetFilter::text_of(filter))),
    }
}

impl Rendered for StaticDefinition {
    open spec fn text_of(value: StaticDefinitionView) -> Seq<char> {
        "StaticDefinition { mode: "@ + StaticMode::text_of(value.mode) + ", affected: "@
            + affected_text(value.affected) + ", modifications: "@ + list(
            texts::<ContinuousModification>(value.modifications),
        ) + " }"@
    }

    fn render(&self) -> (text: String) {
        proof {
            assert(views(self.modifications@) =~= self.modifications@);
        }
        let mut text = String::from_str("StaticDefinition { mode: ");
        text.append(self.mode.render().as_str());
        text.append(", affected: ");
        let affected = match self.affected {
            None => render_none(),
            Some(filter) => render_some(filter.render()),
        };
        text.append(affected.as_str());
        text.append(", modifications: ");
        text.append(render_list(&self.modifications).as_str());
        text.append(" }");
        text
    }
}

/// Copies a list of static abilities.
pub fn clone_static_definitions(definitions: &Vec<StaticDefinition>) -> (copy: Vec<StaticDefinition>)
    ensures
        views(copy@) == views(definitions@),
{
    let mut copy: Vec<StaticDefinition> = Vec::new();
    let mut i: usize = 0;
    while i < definitions.len()
        invariant
            i <= definitions.len(),
            views(copy@) == views(definitions@).take(i as int),
        decreases definitions.len() - i,
    {
        let ghost before = copy@;
        copy.push(definitions[i].clone());
        proof {
            assert(views(copy@) =~= views(before).push(definitions@[i as int]@));
            assert(views(definitions@).take(i + 1) =~= views(definitions@).take(i as int).push(
                views(definitions@)[i as int],
            ));
        }
        i = i + 1;
    }
    proof {
        assert(views(definitions@).take(definitions.len() as int) =~= views(definitions@));
    }
    copy
}

/// The printed card face that an object shows.
#[derive(Debug)]
pub struct PrintedCardRef {
    pub oracle_id: String,
    pub face_name: String,
}

/// What a printed card reference names.
#[verifier::ext_equal]
pub struct PrintedCardRefView {
    pub oracle_id: Seq<char>,
    pub face_name: Seq<char>,
}

impl View for PrintedCardRef {
    type V = PrintedCardRefView;

    open spec fn view(&self) -> PrintedCardRefView {
        PrintedCardRefView { oracle_id: self.oracle_id@, face_name: self.face_name@ }
    }
}

impl Clone for PrintedCardRef {
    fn clone(&self) -> (copy: Self)
        ensures
            copy@ == self@,
    {
        PrintedCardRef { oracle_id: self.oracle_id.clone(), face_name: self.face_name.clone() }
    }
}

impl Rendered for PrintedCardRef {
    open spec fn text_of(value: PrintedCardRefView) -> Seq<char> {
        "PrintedCardRef { oracle_id: "@ + quoted(value.oracle_id) + ", face_name: "@ + quoted(
            value.face_name,
        ) + " }"@
    }

    fn render(&self) -> (text: String) {
        let mut text = String::from_str("PrintedCardRef { oracle_id: ");
        text.append(render_quoted(self.oracle_id.as_str()).as_str());
        text.append(", face_name: ");
        text.append(render_quoted(self.face_name.as_str()).as_str());
        text.append(" }");
        text
    }
}

/// The picture of a token.
#[derive(Debug)]
pub struct TokenImageRef {
    pub scryfall_id: String,
    pub scryfall_oracle_id: Option<String>,
    pub face_name: Option<String>,
    pub preset_id: String,
}

/// What a token image reference names.
#[verifier::ext_equal]
pub struct TokenImageRefView {
    pub scryfall_id: Seq<char>,
    pub scryfall_oracle_id: Option<Seq<char>>,
    pub face_name: Option<Seq<char>>,
    pub preset_id: Seq<char>,
}

/// What an optional value holds.
pub open spec fn option_view<T: View>(value: Option<T>) -> Option<T::V> {
    match value {
        None => None,
        Some(value) => Some(value@),
    }
}

impl View for TokenImageRef {
    type V = TokenImageRefView;

    open spec fn view(&self) -> TokenImageRefView {
        TokenImageRefView {
            scryfall_id: self.scryfall_id@,
            scryfall_oracle_id: option_view(self.scryfall_oracle_id),
            face_name: option_view(self.face_name),
            preset_id: self.preset_id@,
        }
    }
}

fn clone_optional_string(value: &Option<String>) -> (copy: Option<String>)
    ensures
        option_view(copy) == option_view(*value),
{
    match value {
        None => None,
        Some(value) => Some(value.clone()),
    }
}

impl Clone for TokenImageRef {
    fn clone(&self) -> (copy: Self)
        ensures
            copy@ == self@,
    {
        TokenImageRef {
            scryfall_id: self.scryfall_id.clone(),
            scryfall_oracle_id: clone_optional_string(&self.scryfall_oracle_id),
            face_name: clone_optional_string(&self.face_name),
            preset_id: self.preset_id.clone(),
        }
    }
}

/// The text of an optional string.
pub open spec fn optional_quoted(value: Option<Seq<char>>) -> Seq<char> {
    match value {
        None => optional(None),
        Some(value) => optional(Some(quoted(value))),
    }
}

fn render_optional_quoted(value: &Option<String>) -> (text: String)
    ensures
        text@ == optional_quoted(option_view(*value)),
{
    match value {
        None => render_none(),
        Some(value) => render_some(render_quoted(value.as_str())),
    }
}

impl Rendered for TokenImageRef {
    open spec fn text_of(value: TokenImageRefView) -> Seq<char> {
        "TokenImageRef { scryfall_id: "@ + quoted(value.scryfall_id) + ", scryfall_oracle_id: "@
            + optional_quoted(value.scryfall_oracle_id) + ", face_name: "@ + optional_quoted(
            value.face_name,
        ) + ", preset_id: "@ + quoted(value.preset_id) + " }"@
    }

    fn render(&self) -> (text: String) {
        let mut text = String::from_str("TokenImageRef { scryfall_id: ");
        text.append(render_quoted(self.scryfall_id.as_str()).as_str());
        text.append(", scryfall_oracle_id: ");
        text.append(render_optional_quoted(&self.scryfall_oracle_id).as_str());
        text.append(", face_name: ");
        text.append(render_optional_quoted(&self.face_name).as_str());
        text.append(", preset_id: ");
        text.append(render_quoted(self.preset_id.as_str()).as_str());
        text.append(" }");
        text
    }
}

} // verus!
