//! What contracts speak of is what is there: a view has every field of a value, as it is.

use vstd::prelude::*;

use crate::differential::{Divergence, RecipientDerived};
use crate::game_object::{Characteristics, GameObject};
use crate::game_state::{GameState, LayersDirty, LayersDirtyView, TransientEffect};
use crate::perf_counters::{LayersAttribution, PerfCounters};
use crate::vocabulary::{
    CardTypes, ManaCost, ManaCostView, PrintedCardRef, StaticDefinition, TokenImageRef,
};

verus! {

/// The view of an object.
pub proof fn objects_are_seen_as_they_are(object: GameObject)
    ensures
        object@.card_id == object.card_id,
        object@.owner == object.owner,
        object@.zone == object.zone,
        object@.timestamp == object.timestamp,
        object@.live == object.live@,
        object@.base == object.base@,
        object@.base_initialized == object.base_initialized,
        object@.controller == object.controller,
        object@.base_controller == object.base_controller,
        object@.assigns_damage_from_toughness == object.assigns_damage_from_toughness,
        object@.assigns_damage_as_though_unblocked == object.assigns_damage_as_though_unblocked,
        object@.assigns_no_combat_damage == object.assigns_no_combat_damage,
        object@.counters == object.counters,
        object@.attached_to == object.attached_to,
        object@.paired_with == object.paired_with,
        object@.phased_out == object.phased_out,
        object@.bestow_form == object.bestow_form,
{
}

/// The view of a set of characteristics.
pub proof fn characteristics_are_seen_as_they_are(live: Characteristics)
    ensures
        live@.name == live.name@,
        live@.power == live.power,
        live@.toughness == live.toughness,
        live@.loyalty == live.loyalty,
        live@.card_types == live.card_types@,
        live@.mana_cost == live.mana_cost@,
        live@.keywords == live.keywords@,
        live@.abilities == live.abilities@,
        live@.replacement_definitions == live.replacement_definitions@,
        live@.static_definitions.len() == live.static_definitions@.len(),
        forall|k: int|
            0 <= k < live.static_definitions@.len() ==> #[trigger] live@.static_definitions[k] == live.static_definitions@[k]@,
        live@.color == live.color@,
        live.printed_ref is None ==> live@.printed_ref is None,
        live.printed_ref is Some ==> live@.printed_ref == Some(live.printed_ref->0@),
        live@.display_source == live.display_source,
        live.token_image_ref is None ==> live@.token_image_ref is None,
        live.token_image_ref is Some ==> live@.token_image_ref == Some(live.token_image_ref->0@),
{
}

/// The view of a state.
pub proof fn states_are_seen_as_they_are(state: GameState)
    ensures
        state@.seed == state.seed,
        state@.objects == state.objects@,
        state@.transient_effects.len() == state.transient_effects@.len(),
        forall|k: int|
            0 <= k < state.transient_effects@.len() ==> #[trigger] state@.transient_effects[k] == state.transient_effects@[k]@,
        state@.layers_dirty == state.layers_dirty@,
        state@.layers_full_classes == state.layers_full_classes@,
        state@.next_object_id == state.next_object_id,
        state@.next_timestamp == state.next_timestamp,
{
}

/// The view of a transient effect.
pub proof fn effects_are_seen_as_they_are(effect: TransientEffect)
    ensures
        effect@.source == effect.source,
        effect@.controller == effect.controller,
        effect@.duration == effect.duration,
        effect@.affected == effect.affected,
        effect@.modifications == effect.modifications@,
{
}

/// The view of a static ability.
pub proof fn abilities_are_seen_as_they_are(ability: StaticDefinition)
    ensures
        ability@.mode == ability.mode,
        ability@.affected == ability.affected,
        ability@.modifications == ability.modifications@,
{
}

/// The view of a reference to a printed card.
pub proof fn printed_refs_are_seen_as_they_are(printed: PrintedCardRef)
    ensures
        printed@.oracle_id == printed.oracle_id@,
        printed@.face_name == printed.face_name@,
{
}

/// The view of a reference to a token image.
pub proof fn token_images_are_seen_as_they_are(image: TokenImageRef)
    ensures
        image@.scryfall_id == image.scryfall_id@,
        image.scryfall_oracle_id is None ==> image@.scryfall_oracle_id is None,
        image.scryfall_oracle_id is Some ==> image@.scryfall_oracle_id == Some(image.scryfall_oracle_id->0@),
        image.face_name is None ==> image@.face_name is None,
        image.face_name is Some ==> image@.face_name == Some(image.face_name->0@),
        image@.preset_id == image.preset_id@,
{
}

/// The view of a snapshot.
pub proof fn snapshots_are_seen_as_they_are(snapshot: RecipientDerived)
    ensures
        snapshot@.name == snapshot.name@,
        snapshot@.power == snapshot.power,
        snapshot@.toughness == snapshot.toughness,
        snapshot@.loyalty == snapshot.loyalty,
        snapshot@.card_types == snapshot.card_types@,
        snapshot@.mana_cost == snapshot.mana_cost@,
        snapshot@.keywords == snapshot.keywords@,
        snapshot@.abilities == snapshot.abilities@,
        snapshot@.replacement_definitions == snapshot.replacement_definitions@,
        snapshot@.static_definitions == snapshot.static_definitions@,
        snapshot@.color == snapshot.color@,
        snapshot@.printed_ref == snapshot.printed_ref@,
        snapshot@.display_source == snapshot.display_source@,
        snapshot@.token_image_ref == snapshot.token_image_ref@,
        snapshot@.controller == snapshot.controller@,
        snapshot@.assigns_damage_from_toughness == snapshot.assigns_damage_from_toughness,
        snapshot@.assigns_damage_as_though_unblocked == snapshot.assigns_damage_as_though_unblocked,
        snapshot@.assigns_no_combat_damage == snapshot.assigns_no_combat_damage,
{
}

/// The view of a disagreement.
pub proof fn divergences_are_seen_as_they_are(divergence: Divergence)
    ensures
        divergence@.object == divergence.object,
        divergence@.class == divergence.class,
        divergence@.incremental == divergence.incremental@,
        divergence@.full == divergence.full@,
{
}

/// The view of the counters.
pub proof fn counters_are_seen_as_they_are(counters: PerfCounters)
    ensures
        counters@.layers_incremental == counters.layers_incremental,
        counters@.layers_escalated == counters.layers_escalated,
        counters@.attribution == counters.attribution@,
        counters@.active_effect_collections == counters.active_effect_collections,
        counters@.observing == counters.observing,
{
}

/// The view of an attribution.
pub proof fn attributions_are_seen_as_they_are(attribution: LayersAttribution)
    ensures
        attribution@.full_windows == attribution.full_windows,
        attribution@.unattributed_windows == attribution.unattributed_windows,
        attribution@.class_windows == attribution.class_windows@,
        attribution@.escalation_windows == attribution.escalation_windows@,
{
}

/// The view of card types, of a mana cost, and of what is owed.
pub proof fn lists_are_seen_as_they_are(types: CardTypes, cost: ManaCost, dirty: LayersDirty)
    ensures
        types@ == types.core_types@,
        match cost {
            ManaCost::NoCost => cost@ is NoCost,
            ManaCost::Cost { shards, generic } => cost@ == (ManaCostView::Cost {
                shards: shards@,
                generic,
            }),
        },
        match dirty {
            LayersDirty::Clean => dirty@ is Clean,
            LayersDirty::Full => dirty@ is Full,
            LayersDirty::EnteredObjects(ids) => dirty@ == LayersDirtyView::EnteredObjects(ids@),
        },
{
}

} // verus!
