//! The texts of characteristics can be told apart.

use vstd::prelude::*;

use crate::identifiers::{ObjectId, PlayerId};
use crate::text::{decimal, integer, list, quoted, texts, Rendered};
use crate::text_laws::{
    lemma_backs, lemma_read_decimal, lemma_read_integer, lemma_read_list, lemma_read_off,
    lemma_read_optional, prefix_free, prefix_related, starts_an_item,
};
use crate::vocabulary::{
    affected_text, AbilityDefinition, AbilityKind, CardTypes, ContinuousModification, CoreType,
    DisplaySource, Effect, Keyword, ManaColor, ManaCost, ManaCostShard, ManaCostView,
    PrintedCardRef, PrintedCardRefView, ReplacementDefinition, StaticDefinition,
    StaticDefinitionView, StaticMode, TargetFilter, TokenImageRef, TokenImageRefView,
};

verus! {

/// Different card types part in the text.
pub proof fn core_types_part()
    ensures
        prefix_free::<CoreType>(),
        starts_an_item::<CoreType>(),
{
    reveal_strlit("Artifact");
    reveal_strlit("Creature");
    reveal_strlit("Enchantment");
    assert forall|x: CoreType, y: CoreType| #[trigger]
        prefix_related(CoreType::text_of(x), CoreType::text_of(y)) implies x == y by {
        assert(CoreType::text_of(x)[0] == CoreType::text_of(y)[0]);
    }
}

/// Different mana symbols part in the text.
pub proof fn shards_part()
    ensures
        prefix_free::<ManaCostShard>(),
        starts_an_item::<ManaCostShard>(),
{
    reveal_strlit("White");
    reveal_strlit("Blue");
    reveal_strlit("Black");
    reveal_strlit("Red");
    reveal_strlit("Green");
    assert forall|x: ManaCostShard, y: ManaCostShard| #[trigger]
        prefix_related(ManaCostShard::text_of(x), ManaCostShard::text_of(y)) implies x == y by {
        assert(ManaCostShard::text_of(x)[0] == ManaCostShard::text_of(y)[0]);
        assert(ManaCostShard::text_of(x)[2] == ManaCostShard::text_of(y)[2]);
    }
}

/// Different colours part in the text.
pub proof fn colors_part()
    ensures
        prefix_free::<ManaColor>(),
        starts_an_item::<ManaColor>(),
{
    reveal_strlit("White");
    reveal_strlit("Blue");
    reveal_strlit("Black");
    reveal_strlit("Red");
    reveal_strlit("Green");
    assert forall|x: ManaColor, y: ManaColor| #[trigger]
        prefix_related(ManaColor::text_of(x), ManaColor::text_of(y)) implies x == y by {
        assert(ManaColor::text_of(x)[0] == ManaColor::text_of(y)[0]);
        assert(ManaColor::text_of(x)[2] == ManaColor::text_of(y)[2]);
    }
}

/// Different keywords part in the text.
pub proof fn keywords_part()
    ensures
        prefix_free::<Keyword>(),
        starts_an_item::<Keyword>(),
{
    reveal_strlit("Flying");
    reveal_strlit("Trample");
    reveal_strlit("Vigilance");
    assert forall|x: Keyword, y: Keyword| #[trigger]
        prefix_related(Keyword::text_of(x), Keyword::text_of(y)) implies x == y by {
        assert(Keyword::text_of(x)[0] == Keyword::text_of(y)[0]);
    }
}

/// Different sources of a picture part in the text.
pub proof fn display_sources_part()
    ensures
        prefix_free::<DisplaySource>(),
{
    reveal_strlit("Card");
    reveal_strlit("Token");
    assert forall|x: DisplaySource, y: DisplaySource| #[trigger]
        prefix_related(DisplaySource::text_of(x), DisplaySource::text_of(y)) implies x == y by {
        assert(DisplaySource::text_of(x)[0] == DisplaySource::text_of(y)[0]);
    }
}

proof fn lemma_ability_kinds_part()
    ensures
        prefix_free::<AbilityKind>(),
{
    reveal_strlit("Activated");
    reveal_strlit("Spell");
    assert forall|x: AbilityKind, y: AbilityKind| #[trigger]
        prefix_related(AbilityKind::text_of(x), AbilityKind::text_of(y)) implies x == y by {
        assert(AbilityKind::text_of(x)[0] == AbilityKind::text_of(y)[0]);
    }
}

/// Different abilities part in the text.
pub proof fn abilities_part()
    ensures
        prefix_free::<AbilityDefinition>(),
        starts_an_item::<AbilityDefinition>(),
{
    let opening = "AbilityDefinition { kind: "@;
    assert forall|x: AbilityDefinition, y: AbilityDefinition| #[trigger]
        prefix_related(AbilityDefinition::text_of(x), AbilityDefinition::text_of(y)) implies x
        == y by {
        let x_rest = ", effect: "@ + Effect::text_of(x.effect) + " }"@;
        let y_rest = ", effect: "@ + Effect::text_of(y.effect) + " }"@;
        assert(AbilityDefinition::text_of(x) =~= opening + (AbilityKind::text_of(x.kind) + x_rest));
        assert(AbilityDefinition::text_of(y) =~= opening + (AbilityKind::text_of(y.kind) + y_rest));
        lemma_backs(
            opening,
            AbilityKind::text_of(x.kind) + x_rest,
            AbilityKind::text_of(y.kind) + y_rest,
        );
        lemma_ability_kinds_part();
        lemma_read_off::<AbilityKind>(x.kind, x_rest, y.kind, y_rest);
        assert(x.effect == y.effect);
    }
    reveal_strlit("AbilityDefinition { kind: ");
    assert forall|x: AbilityDefinition| (#[trigger] AbilityDefinition::text_of(x)).len() > 0
        && AbilityDefinition::text_of(x)[0] != ']' by {
        assert(AbilityDefinition::text_of(x)[0] == opening[0]);
    }
}

/// Different replacement effects part in the text.
pub proof fn replacements_part()
    ensures
        prefix_free::<ReplacementDefinition>(),
        starts_an_item::<ReplacementDefinition>(),
{
    let opening = "ReplacementDefinition { event: "@;
    reveal_strlit("ReplacementDefinition { event: ");
    assert forall|x: ReplacementDefinition, y: ReplacementDefinition| #[trigger]
        prefix_related(
            ReplacementDefinition::text_of(x),
            ReplacementDefinition::text_of(y),
        ) implies x == y by {
        assert(x.event == y.event);
    }
    assert forall|x: ReplacementDefinition| (#[trigger] ReplacementDefinition::text_of(x)).len() > 0
        && ReplacementDefinition::text_of(x)[0] != ']' by {
        assert(ReplacementDefinition::text_of(x)[0] == opening[0]);
    }
}

/// Different modifications part in the text.
pub proof fn modifications_part()
    ensures
        prefix_free::<ContinuousModification>(),
        starts_an_item::<ContinuousModification>(),
{
    reveal_strlit("AddPower { value: ");
    reveal_strlit("AddToughness { value: ");
    reveal_strlit(" }");
    assert forall|x: ContinuousModification, y: ContinuousModification| #[trigger]
        prefix_related(
            ContinuousModification::text_of(x),
            ContinuousModification::text_of(y),
        ) implies x == y by {
        let x_text = ContinuousModification::text_of(x);
        let y_text = ContinuousModification::text_of(y);
        assert(x_text[3] == y_text[3]);
        match (x, y) {
            (
                ContinuousModification::AddPower { value: a },
                ContinuousModification::AddPower { value: b },
            ) => {
                let opening = "AddPower { value: "@;
                assert(x_text =~= opening + (integer(a as int) + " }"@));
                assert(y_text =~= opening + (integer(b as int) + " }"@));
                lemma_backs(opening, integer(a as int) + " }"@, integer(b as int) + " }"@);
                lemma_read_integer(a as int, " }"@, b as int, " }"@);
            },
            (
                ContinuousModification::AddToughness { value: a },
                ContinuousModification::AddToughness { value: b },
            ) => {
                let opening = "AddToughness { value: "@;
                assert(x_text =~= opening + (integer(a as int) + " }"@));
                assert(y_text =~= opening + (integer(b as int) + " }"@));
                lemma_backs(opening, integer(a as int) + " }"@, integer(b as int) + " }"@);
                lemma_read_integer(a as int, " }"@, b as int, " }"@);
            },
            (ContinuousModification::AddPower { .. }, _) => {
                assert(x_text[3] == 'P');
                assert(y_text[3] == 'T');
            },
            (ContinuousModification::AddToughness { .. }, _) => {
                assert(x_text[3] == 'T');
                assert(y_text[3] == 'P');
            },
        }
    }
    assert forall|x: ContinuousModification|
        (#[trigger] ContinuousModification::text_of(x)).len() > 0
            && ContinuousModification::text_of(x)[0] != ']' by {
        assert(ContinuousModification::text_of(x)[0] == 'A');
    }
}

proof fn lemma_read_object_id(a: ObjectId, s: Seq<char>, b: ObjectId, t: Seq<char>)
    requires
        prefix_related(ObjectId::text_of(a) + s, ObjectId::text_of(b) + t),
    ensures
        a == b,
        prefix_related(s, t),
{
    reveal_strlit(")");
    let opening = "ObjectId("@;
    let x = decimal(a.0 as nat) + (")"@ + s);
    let y = decimal(b.0 as nat) + (")"@ + t);
    assert(ObjectId::text_of(a) + s =~= opening + x);
    assert(ObjectId::text_of(b) + t =~= opening + y);
    lemma_backs(opening, x, y);
    lemma_read_decimal(a.0 as nat, ")"@ + s, b.0 as nat, ")"@ + t);
    lemma_backs(")"@, s, t);
}

/// Different players have different texts.
pub proof fn players_differ(a: PlayerId, b: PlayerId)
    requires
        PlayerId::text_of(a) == PlayerId::text_of(b),
    ensures
        a == b,
{
    reveal_strlit(")");
    let opening = "PlayerId("@;
    assert(PlayerId::text_of(a) =~= opening + (decimal(a.0 as nat) + ")"@));
    assert(PlayerId::text_of(b) =~= opening + (decimal(b.0 as nat) + ")"@));
    lemma_backs(opening, decimal(a.0 as nat) + ")"@, decimal(b.0 as nat) + ")"@);
    lemma_read_decimal(a.0 as nat, ")"@, b.0 as nat, ")"@);
}

/// Different filters part in the text.
pub proof fn filters_part()
    ensures
        prefix_free::<TargetFilter>(),
{
    reveal_strlit("Typed(TypedFilter { type_filter: ");
    reveal_strlit("SpecificObject { id: ");
    assert forall|x: TargetFilter, y: TargetFilter| #[trigger]
        prefix_related(TargetFilter::text_of(x), TargetFilter::text_of(y)) implies x == y by {
        let x_text = TargetFilter::text_of(x);
        let y_text = TargetFilter::text_of(y);
        assert(x_text[0] == y_text[0]);
        match (x, y) {
            (TargetFilter::Typed(a), TargetFilter::Typed(b)) => {
                assert(a.type_filter == b.type_filter);
            },
            (
                TargetFilter::SpecificObject { id: a },
                TargetFilter::SpecificObject { id: b },
            ) => {
                let opening = "SpecificObject { id: "@;
                assert(x_text =~= opening + (ObjectId::text_of(a) + " }"@));
                assert(y_text =~= opening + (ObjectId::text_of(b) + " }"@));
                lemma_backs(opening, ObjectId::text_of(a) + " }"@, ObjectId::text_of(b) + " }"@);
                lemma_read_object_id(a, " }"@, b, " }"@);
            },
            (TargetFilter::Typed(_), _) => {
                assert(x_text[0] == 'T');
                assert(y_text[0] == 'S');
            },
            (TargetFilter::SpecificObject { .. }, _) => {
                assert(x_text[0] == 'S');
                assert(y_text[0] == 'T');
            },
        }
    }
}

proof fn lemma_read_affected(
    a: Option<TargetFilter>,
    s: Seq<char>,
    b: Option<TargetFilter>,
    t: Seq<char>,
)
    requires
        prefix_related(affected_text(a) + s, affected_text(b) + t),
    ensures
        a == b,
        prefix_related(s, t),
{
    let x = match a {
        None => None,
        Some(a) => Some(TargetFilter::text_of(a)),
    };
    let y = match b {
        None => None,
        Some(b) => Some(TargetFilter::text_of(b)),
    };
    lemma_read_optional(x, s, y, t);
    if a is Some {
        filters_part();
        lemma_read_off::<TargetFilter>(a->0, ")"@ + s, b->0, ")"@ + t);
        lemma_backs(")"@, s, t);
    }
}

/// Different static abilities part in the text.
pub proof fn static_definitions_part()
    ensures
        prefix_free::<StaticDefinition>(),
        starts_an_item::<StaticDefinition>(),
{
    assert forall|x: StaticDefinitionView, y: StaticDefinitionView| #[trigger]
        prefix_related(StaticDefinition::text_of(x), StaticDefinition::text_of(y)) implies x
        == y by {
        lemma_static_definitions_part(x, y);
    }
    reveal_strlit("StaticDefinition { mode: ");
    assert forall|x: StaticDefinitionView| (#[trigger] StaticDefinition::text_of(x)).len() > 0
        && StaticDefinition::text_of(x)[0] != ']' by {
        assert(StaticDefinition::text_of(x)[0] == 'S');
    }
}

proof fn lemma_static_definitions_part(x: StaticDefinitionView, y: StaticDefinitionView)
    requires
        prefix_related(StaticDefinition::text_of(x), StaticDefinition::text_of(y)),
    ensures
        x == y,
{
    assert(x.mode == y.mode);
    let opening = "StaticDefinition { mode: "@ + StaticMode::text_of(x.mode) + ", affected: "@;
    let between = ", modifications: "@;
    let x_list = list(texts::<ContinuousModification>(x.modifications)) + " }"@;
    let y_list = list(texts::<ContinuousModification>(y.modifications)) + " }"@;
    let x_rest = affected_text(x.affected) + (between + x_list);
    let y_rest = affected_text(y.affected) + (between + y_list);
    assert(StaticDefinition::text_of(x) =~= opening + x_rest);
    assert(StaticDefinition::text_of(y) =~= opening + y_rest);
    lemma_backs(opening, x_rest, y_rest);
    lemma_read_affected(x.affected, between + x_list, y.affected, between + y_list);
    lemma_backs(between, x_list, y_list);
    modifications_part();
    lemma_read_list::<ContinuousModification>(x.modifications, " }"@, y.modifications, " }"@);
}

/// Different types of a card have different texts.
pub proof fn card_types_differ(a: Seq<CoreType>, b: Seq<CoreType>)
    requires
        CardTypes::text_of(a) == CardTypes::text_of(b),
    ensures
        a == b,
{
    let opening = "CardTypes { core_types: "@;
    let x = list(texts::<CoreType>(a)) + " }"@;
    let y = list(texts::<CoreType>(b)) + " }"@;
    assert(CardTypes::text_of(a) =~= opening + x);
    assert(CardTypes::text_of(b) =~= opening + y);
    lemma_backs(opening, x, y);
    core_types_part();
    lemma_read_list::<CoreType>(a, " }"@, b, " }"@);
}

/// Different mana costs have different texts.
pub proof fn mana_costs_differ(a: ManaCostView, b: ManaCostView)
    requires
        ManaCost::text_of(a) == ManaCost::text_of(b),
    ensures
        a == b,
{
    reveal_strlit("NoCost");
    reveal_strlit("Cost { shards: ");
    reveal_strlit(" }");
    let opening = "Cost { shards: "@;
    let between = ", generic: "@;
    let x = ManaCost::text_of(a);
    let y = ManaCost::text_of(b);
    assert(x[0] == if a is Cost {
        'C'
    } else {
        'N'
    });
    assert(y[0] == if b is Cost {
        'C'
    } else {
        'N'
    });
    match (a, b) {
        (
            ManaCostView::Cost { shards: a_shards, generic: a_generic },
            ManaCostView::Cost { shards: b_shards, generic: b_generic },
        ) => {
            let x_rest = between + (decimal(a_generic as nat) + " }"@);
            let y_rest = between + (decimal(b_generic as nat) + " }"@);
            let x_list = list(texts::<ManaCostShard>(a_shards)) + x_rest;
            let y_list = list(texts::<ManaCostShard>(b_shards)) + y_rest;
            assert(x =~= opening + x_list);
            assert(y =~= opening + y_list);
            lemma_backs(opening, x_list, y_list);
            shards_part();
            lemma_read_list::<ManaCostShard>(a_shards, x_rest, b_shards, y_rest);
            lemma_backs(
                between,
                decimal(a_generic as nat) + " }"@,
                decimal(b_generic as nat) + " }"@,
            );
            lemma_read_decimal(a_generic as nat, " }"@, b_generic as nat, " }"@);
        },
        _ => {},
    }
}

/// Words are written as they are called.
pub proof fn words_are_written_out(
    core_type: CoreType,
    shard: ManaCostShard,
    color: ManaColor,
    keyword: Keyword,
    kind: AbilityKind,
    source: DisplaySource,
)
    ensures
        CoreType::text_of(core_type) == (match core_type {
            CoreType::Artifact => "Artifact"@,
            CoreType::Creature => "Creature"@,
            CoreType::Enchantment => "Enchantment"@,
        }),
        ManaCostShard::text_of(shard) == (match shard {
            ManaCostShard::White => "White"@,
            ManaCostShard::Blue => "Blue"@,
            ManaCostShard::Black => "Black"@,
            ManaCostShard::Red => "Red"@,
            ManaCostShard::Green => "Green"@,
        }),
        ManaColor::text_of(color) == (match color {
            ManaColor::White => "White"@,
            ManaColor::Blue => "Blue"@,
            ManaColor::Black => "Black"@,
            ManaColor::Red => "Red"@,
            ManaColor::Green => "Green"@,
        }),
        Keyword::text_of(keyword) == (match keyword {
            Keyword::Flying => "Flying"@,
            Keyword::Trample => "Trample"@,
            Keyword::Vigilance => "Vigilance"@,
        }),
        AbilityKind::text_of(kind) == (match kind {
            AbilityKind::Activated => "Activated"@,
            AbilityKind::Spell => "Spell"@,
        }),
        DisplaySource::text_of(source) == (match source {
            DisplaySource::Card => "Card"@,
            DisplaySource::Token => "Token"@,
        }),
{
}

/// Identifiers are written with the number they hold.
pub proof fn identifiers_are_written_out(object: ObjectId, player: PlayerId)
    ensures
        ObjectId::text_of(object) == "ObjectId("@ + decimal(object.0 as nat) + ")"@,
        PlayerId::text_of(player) == "PlayerId("@ + decimal(player.0 as nat) + ")"@,
{
}

/// Characteristics are written with all that they hold, part by part.
pub proof fn characteristics_are_written_out(
    types: Seq<CoreType>,
    cost: ManaCostView,
    ability: AbilityDefinition,
    replacement: ReplacementDefinition,
    filter: TargetFilter,
    modification: ContinuousModification,
    definition: StaticDefinitionView,
)
    ensures
        CardTypes::text_of(types) == "CardTypes { core_types: "@ + list(texts::<CoreType>(types))
            + " }"@,
        ManaCost::text_of(cost) == (match cost {
            ManaCostView::NoCost => "NoCost"@,
            ManaCostView::Cost { shards, generic } => "Cost { shards: "@ + list(
                texts::<ManaCostShard>(shards),
            ) + ", generic: "@ + decimal(generic as nat) + " }"@,
        }),
        AbilityDefinition::text_of(ability) == "AbilityDefinition { kind: "@ + AbilityKind::text_of(
            ability.kind,
        ) + ", effect: "@ + "NoOp"@ + " }"@,
        ReplacementDefinition::text_of(replacement) == "ReplacementDefinition { event: "@ + "Draw"@
            + " }"@,
        TargetFilter::text_of(filter) == (match filter {
            TargetFilter::Typed(_) => "Typed(TypedFilter { type_filter: "@ + "Creature"@ + " })"@,
            TargetFilter::SpecificObject { id } => "SpecificObject { id: "@ + ObjectId::text_of(id)
                + " }"@,
        }),
        ContinuousModification::text_of(modification) == (match modification {
            ContinuousModification::AddPower { value } => "AddPower { value: "@ + integer(
                value as int,
            ) + " }"@,
            ContinuousModification::AddToughness { value } => "AddToughness { value: "@ + integer(
                value as int,
            ) + " }"@,
        }),
        StaticDefinition::text_of(definition) == "StaticDefinition { mode: "@ + "Continuous"@
            + ", affected: "@ + (match definition.affected {
            None => "None"@,
            Some(filter) => "Some("@ + TargetFilter::text_of(filter) + ")"@,
        }) + ", modifications: "@ + list(
            texts::<ContinuousModification>(definition.modifications),
        ) + " }"@,
{
}

/// References to printed cards and token images are written with every name they hold, each
/// in quotes.
pub proof fn references_are_written_out(printed: PrintedCardRefView, image: TokenImageRefView)
    ensures
        PrintedCardRef::text_of(printed) == "PrintedCardRef { oracle_id: "@ + quoted(
            printed.oracle_id,
        ) + ", face_name: "@ + quoted(printed.face_name) + " }"@,
        TokenImageRef::text_of(image) == "TokenImageRef { scryfall_id: "@ + quoted(
            image.scryfall_id,
        ) + ", scryfall_oracle_id: "@ + (match image.scryfall_oracle_id {
            None => "None"@,
            Some(name) => "Some("@ + quoted(name) + ")"@,
        }) + ", face_name: "@ + (match image.face_name {
            None => "None"@,
            Some(name) => "Some("@ + quoted(name) + ")"@,
        }) + ", preset_id: "@ + quoted(image.preset_id) + " }"@,
{
}

} // verus!
