//! The state of a game, as far as the layers read it.

use vstd::prelude::*;

use crate::identifiers::{ObjectId, PlayerId};
use crate::object_table::{ascending, Board, ObjectTable};
use crate::text::views;
use crate::vocabulary::{ContinuousModification, TargetFilter};

verus! {

/// The kind of change that made a full evaluation necessary.
#[derive(Clone, Copy, Debug, PartialEq, Eq, Structural)]
pub enum FullEvalClass {
    /// An object entered the battlefield from a hand or from exile.
    EntryHandExile,
    /// An object left the battlefield.
    BattlefieldExit,
    /// A hand gained or lost an object.
    HandChurn,
    /// Objects were attached or paired.
    Attach,
    /// An object phased.
    Phasing,
    /// A continuous effect from a resolved spell or ability began or ended.
    TransientEffect,
    /// An object took or lost an alternative form.
    FormChange,
    /// The combat state changed.
    Combat,
}

impl FullEvalClass {
    pub const COUNT: usize = 8;

    /// Every value, each at its index.
    pub const ALL: [FullEvalClass; 8] = [
        FullEvalClass::EntryHandExile,
        FullEvalClass::BattlefieldExit,
        FullEvalClass::HandChurn,
        FullEvalClass::Attach,
        FullEvalClass::Phasing,
        FullEvalClass::TransientEffect,
        FullEvalClass::FormChange,
        FullEvalClass::Combat,
    ];

    /// The place of a value in [`FullEvalClass::ALL`].
    pub open spec fn place(self) -> int {
        match self {
            FullEvalClass::EntryHandExile => 0,
            FullEvalClass::BattlefieldExit => 1,
            FullEvalClass::HandChurn => 2,
            FullEvalClass::Attach => 3,
            FullEvalClass::Phasing => 4,
            FullEvalClass::TransientEffect => 5,
            FullEvalClass::FormChange => 6,
            FullEvalClass::Combat => 7,
        }
    }

    /// The place of this value in [`FullEvalClass::ALL`].
    pub fn index(self) -> (index: usize)
        ensures
            index == self.place(),
            index < FullEvalClass::COUNT,
            FullEvalClass::ALL@[index as int] == self,
    {
        match self {
            FullEvalClass::EntryHandExile => 0,
            FullEvalClass::BattlefieldExit => 1,
            FullEvalClass::HandChurn => 2,
            FullEvalClass::Attach => 3,
            FullEvalClass::Phasing => 4,
            FullEvalClass::TransientEffect => 5,
            FullEvalClass::FormChange => 6,
            FullEvalClass::Combat => 7,
        }
    }

    /// How a value is written in a report.
    pub open spec fn written(self) -> Seq<char> {
        match self {
            FullEvalClass::EntryHandExile => "entry_hand_exile"@,
            FullEvalClass::BattlefieldExit => "battlefield_exit"@,
            FullEvalClass::HandChurn => "hand_churn"@,
            FullEvalClass::Attach => "attach"@,
            FullEvalClass::Phasing => "phasing"@,
            FullEvalClass::TransientEffect => "transient_effect"@,
            FullEvalClass::FormChange => "form_change"@,
            FullEvalClass::Combat => "combat"@,
        }
    }

    /// How this value is written in a report.
    pub fn name(self) -> (name: &'static str)
        ensures
            name@ == self.written(),
    {
        match self {
            FullEvalClass::EntryHandExile => "entry_hand_exile",
            FullEvalClass::BattlefieldExit => "battlefield_exit",
            FullEvalClass::HandChurn => "hand_churn",
            FullEvalClass::Attach => "attach",
            FullEvalClass::Phasing => "phasing",
            FullEvalClass::TransientEffect => "transient_effect",
            FullEvalClass::FormChange => "form_change",
            FullEvalClass::Combat => "combat",
        }
    }
}

/// Why an incremental flush gave way to a full evaluation.
#[derive(Clone, Copy, Debug, PartialEq, Eq, Structural)]
pub enum EscalationReason {
    /// An object marked as entered is not on the battlefield.
    EnteredMissing,
    /// An entered object could change more than itself and its host.
    EnteredBlocksIncremental,
}

impl EscalationReason {
    pub const COUNT: usize = 2;

    /// Every value, each at its index.
    pub const ALL: [EscalationReason; 2] = [
        EscalationReason::EnteredMissing,
        EscalationReason::EnteredBlocksIncremental,
    ];

    /// The place of a value in [`EscalationReason::ALL`].
    pub open spec fn place(self) -> int {
        match self {
            EscalationReason::EnteredMissing => 0,
            EscalationReason::EnteredBlocksIncremental => 1,
        }
    }

    /// The place of this value in [`EscalationReason::ALL`].
    pub fn index(self) -> (index: usize)
        ensures
            index == self.place(),
            index < EscalationReason::COUNT,
            EscalationReason::ALL@[index as int] == self,
    {
        match self {
            EscalationReason::EnteredMissing => 0,
            EscalationReason::EnteredBlocksIncremental => 1,
        }
    }

    /// How a value is written in a report.
    pub open spec fn written(self) -> Seq<char> {
        match self {
            EscalationReason::EnteredMissing => "entered_missing"@,
            EscalationReason::EnteredBlocksIncremental => "entered_blocks_incremental"@,
        }
    }

    /// How this value is written in a report.
    pub fn name(self) -> (name: &'static str)
        ensures
            name@ == self.written(),
    {
        match self {
            EscalationReason::EnteredMissing => "entered_missing",
            EscalationReason::EnteredBlocksIncremental => "entered_blocks_incremental",
        }
    }
}

/// A set of full-evaluation classes.
#[derive(Clone, Copy, Debug)]
pub struct FullEvalClasses {
    marked: [bool; FullEvalClass::COUNT],
}

impl View for FullEvalClasses {
    type V = Set<FullEvalClass>;

    closed spec fn view(&self) -> Set<FullEvalClass> {
        Set::new(|class: FullEvalClass| self.marked@[class.place()])
    }
}

impl FullEvalClasses {
    /// No class.
    pub fn new() -> (classes: Self)
        ensures
            classes@ == Set::<FullEvalClass>::empty(),
    {
        let classes = FullEvalClasses { marked: [false; FullEvalClass::COUNT] };
        proof {
            assert(classes@ =~= Set::<FullEvalClass>::empty());
        }
        classes
    }

    /// Adds a class.
    pub fn insert(&mut self, class: FullEvalClass)
        ensures
            final(self)@ == old(self)@.insert(class),
    {
        let i: usize = class.index();
        self.marked[i] = true;
        proof {
            assert(self@ =~= old(self)@.insert(class));
        }
    }

    /// Whether a class is in the set.
    pub fn contains(&self, class: FullEvalClass) -> (member: bool)
        ensures
            member == self@.contains(class),
    {
        self.marked[class.index()]
    }

    /// Whether the set is empty.
    pub fn is_empty(&self) -> (empty: bool)
        ensures
            empty == (self@ == Set::<FullEvalClass>::empty()),
    {
        let mut i: usize = 0;
        while i < FullEvalClass::COUNT
            invariant
                i <= FullEvalClass::COUNT,
                forall|k: int| 0 <= k < i ==> !#[trigger] self.marked@[k],
            decreases FullEvalClass::COUNT - i,
        {
            if self.marked[i] {
                proof {
                    let class = FullEvalClass::ALL@[i as int];
                    assert(class.place() == i);
                    assert(self@.contains(class));
                }
                return false;
            }
            i = i + 1;
        }
        proof {
            assert(self@ =~= Set::<FullEvalClass>::empty());
        }
        true
    }
}

/// How much of the board the next flush owes.
#[derive(Debug)]
pub enum LayersDirty {
    /// Nothing.
    Clean,
    /// The objects that entered since the last flush.
    EnteredObjects(Vec<ObjectId>),
    /// All of it.
    Full,
}

/// How much of the board the next flush owes.
#[verifier::ext_equal]
pub enum LayersDirtyView {
    Clean,
    EnteredObjects(Seq<ObjectId>),
    Full,
}

impl View for LayersDirty {
    type V = LayersDirtyView;

    open spec fn view(&self) -> LayersDirtyView {
        match self {
            LayersDirty::Clean => LayersDirtyView::Clean,
            LayersDirty::EnteredObjects(ids) => LayersDirtyView::EnteredObjects(ids@),
            LayersDirty::Full => LayersDirtyView::Full,
        }
    }
}

/// What is owed once an object has entered as well.
pub open spec fn entered_too(dirty: LayersDirtyView, id: ObjectId) -> LayersDirtyView {
    match dirty {
        LayersDirtyView::Clean => LayersDirtyView::EnteredObjects(seq![id]),
        LayersDirtyView::EnteredObjects(ids) => if ids.contains(id) {
            dirty
        } else {
            LayersDirtyView::EnteredObjects(ids.push(id))
        },
        LayersDirtyView::Full => LayersDirtyView::Full,
    }
}

impl Clone for LayersDirty {
    fn clone(&self) -> (copy: Self)
        ensures
            copy@ == self@,
    {
        match self {
            LayersDirty::Clean => LayersDirty::Clean,
            LayersDirty::EnteredObjects(ids) => LayersDirty::EnteredObjects(ids.clone()),
            LayersDirty::Full => LayersDirty::Full,
        }
    }
}

impl LayersDirty {
    /// Asks for a full evaluation.
    pub fn mark_full(&mut self)
        ensures
            final(self)@ == LayersDirtyView::Full,
    {
        *self = LayersDirty::Full;
    }

    /// Asks for an object that entered, unless a full evaluation is owed anyway.
    pub fn mark_entered(&mut self, id: ObjectId)
        ensures
            final(self)@ == entered_too(old(self)@, id),
    {
        match self {
            LayersDirty::Full => {},
            LayersDirty::Clean => {
                let mut ids: Vec<ObjectId> = Vec::new();
                ids.push(id);
                proof {
                    assert(ids@ =~= seq![id]);
                }
                *self = LayersDirty::EnteredObjects(ids);
            },
            LayersDirty::EnteredObjects(ids) => {
                if !contains_object(ids, id) {
                    ids.push(id);
                }
            },
        }
    }
}

/// Whether an identifier is in a list.
pub fn contains_object(ids: &Vec<ObjectId>, id: ObjectId) -> (found: bool)
    ensures
        found == ids@.contains(id),
{
    let mut i: usize = 0;
    while i < ids.len()
        invariant
            i <= ids.len(),
            forall|k: int| 0 <= k < i ==> #[trigger] ids@[k] != id,
        decreases ids.len() - i,
    {
        if ids[i] == id {
            return true;
        }
        i = i + 1;
    }
    false
}

/// How long a continuous effect lasts.
#[derive(Clone, Copy, Debug, PartialEq, Eq, Structural)]
pub enum Duration {
    UntilEndOfTurn,
    Permanent,
}

/// A continuous effect from a resolved spell or ability.
#[derive(Debug)]
pub struct TransientEffect {
    pub source: ObjectId,
    pub controller: PlayerId,
    pub duration: Duration,
    pub affected: TargetFilter,
    pub modifications: Vec<ContinuousModification>,
}

/// What a transient continuous effect does.
#[verifier::ext_equal]
pub struct TransientEffectView {
    pub source: ObjectId,
    pub controller: PlayerId,
    pub duration: Duration,
    pub affected: TargetFilter,
    pub modifications: Seq<ContinuousModification>,
}

impl View for TransientEffect {
    type V = TransientEffectView;

    open spec fn view(&self) -> TransientEffectView {
        TransientEffectView {
            source: self.source,
            controller: self.controller,
            duration: self.duration,
            affected: self.affected,
            modifications: self.modifications@,
        }
    }
}

impl Clone for TransientEffect {
    fn clone(&self) -> (copy: Self)
        ensures
            copy@ == self@,
    {
        TransientEffect {
            source: self.source,
            controller: self.controller,
            duration: self.duration,
            affected: self.affected,
            modifications: self.modifications.clone(),
        }
    }
}

/// Copies a list of transient continuous effects.
fn clone_transient_effects(effects: &Vec<TransientEffect>) -> (copy: Vec<TransientEffect>)
    ensures
        views(copy@) == views(effects@),
{
    let mut copy: Vec<TransientEffect> = Vec::new();
    let mut i: usize = 0;
    while i < effects.len()
        invariant
            i <= effects.len(),
            views(copy@) == views(effects@).take(i as int),
        decreases effects.len() - i,
    {
        let ghost before = copy@;
        copy.push(effects[i].clone());
        proof {
            assert(views(copy@) =~= views(before).push(effects@[i as int]@));
            assert(views(effects@).take(i + 1) =~= views(effects@).take(i as int).push(
                views(effects@)[i as int],
            ));
        }
        i = i + 1;
    }
    proof {
        assert(views(effects@).take(effects.len() as int) =~= views(effects@));
    }
    copy
}

/// The state of a game.
///
/// Every identifier below `next_object_id` has been given out, and no other; the same
/// goes for `next_timestamp`.
#[derive(Debug)]
pub struct GameState {
    pub seed: u64,
    pub objects: ObjectTable,
    pub transient_effects: Vec<TransientEffect>,
    pub layers_dirty: LayersDirty,
    pub layers_full_classes: FullEvalClasses,
    pub next_object_id: u64,
    pub next_timestamp: u64,
}

/// The state of a game.
#[verifier::ext_equal]
pub struct GameStateView {
    pub seed: u64,
    pub objects: Board,
    pub transient_effects: Seq<TransientEffectView>,
    pub layers_dirty: LayersDirtyView,
    pub layers_full_classes: Set<FullEvalClass>,
    pub next_object_id: u64,
    pub next_timestamp: u64,
}

impl View for GameState {
    type V = GameStateView;

    open spec fn view(&self) -> GameStateView {
        GameStateView {
            seed: self.seed,
            objects: self.objects@,
            transient_effects: views(self.transient_effects@),
            layers_dirty: self.layers_dirty@,
            layers_full_classes: self.layers_full_classes@,
            next_object_id: self.next_object_id,
            next_timestamp: self.next_timestamp,
        }
    }
}

/// Whether the objects of a state are in order, each under an identifier that was
/// given out.
pub open spec fn well_formed(state: GameStateView) -> bool {
    &&& ascending(state.objects)
    &&& forall|i: int|
        0 <= i < state.objects.len() ==> (#[trigger] state.objects[i]).0.0 < state.next_object_id
}

/// A game in which nothing has happened yet.
pub open spec fn opening(seed: u64) -> GameStateView {
    GameStateView {
        seed,
        objects: Board::empty(),
        transient_effects: Seq::empty(),
        layers_dirty: LayersDirtyView::Full,
        layers_full_classes: Set::empty(),
        next_object_id: 1,
        next_timestamp: 1,
    }
}

/// A state that owes a full evaluation because of a change of this class.
pub open spec fn owing_full(state: GameStateView, class: FullEvalClass) -> GameStateView {
    GameStateView {
        layers_dirty: LayersDirtyView::Full,
        layers_full_classes: state.layers_full_classes.insert(class),
        ..state
    }
}

impl Clone for GameState {
    fn clone(&self) -> (copy: Self)
        ensures
            copy@ == self@,
    {
        GameState {
            seed: self.seed,
            objects: self.objects.clone(),
            transient_effects: clone_transient_effects(&self.transient_effects),
            layers_dirty: self.layers_dirty.clone(),
            layers_full_classes: self.layers_full_classes,
            next_object_id: self.next_object_id,
            next_timestamp: self.next_timestamp,
        }
    }
}

impl GameState {
    /// A two-player game in which nothing has happened yet.
    pub fn new_two_player(seed: u64) -> (state: Self)
        ensures
            state@ == opening(seed),
            well_formed(state@),
    {
        let state = GameState {
            seed,
            objects: ObjectTable::new(),
            transient_effects: Vec::new(),
            layers_dirty: LayersDirty::Full,
            layers_full_classes: FullEvalClasses::new(),
            next_object_id: 1,
            next_timestamp: 1,
        };
        proof {
            assert(state@.transient_effects =~= Seq::empty());
        }
        state
    }

    /// Gives out a timestamp later than all before it.
    pub fn next_timestamp(&mut self) -> (timestamp: u64)
        requires
            old(self).next_timestamp < u64::MAX,
        ensures
            timestamp == old(self).next_timestamp,
            final(self)@ == (GameStateView {
                next_timestamp: (old(self).next_timestamp + 1) as u64,
                ..old(self)@
            }),
    {
        let timestamp: u64 = self.next_timestamp;
        self.next_timestamp = timestamp + 1;
        timestamp
    }

    /// Asks for a full evaluation, and records the kind of change that made it
    /// necessary.
    pub fn mark_layers_full_classed(&mut self, class: FullEvalClass)
        ensures
            final(self)@ == owing_full(old(self)@, class),
    {
        self.layers_dirty.mark_full();
        self.layers_full_classes.insert(class);
    }

    /// Starts a continuous effect.
    pub fn add_transient_continuous_effect(
        &mut self,
        source: ObjectId,
        controller: PlayerId,
        duration: Duration,
        affected: TargetFilter,
        modifications: Vec<ContinuousModification>,
    )
        ensures
            final(self)@ == owing_full(
                GameStateView {
                    transient_effects: old(self)@.transient_effects.push(
                        TransientEffectView {
                            source,
                            controller,
                            duration,
                            affected,
                            modifications: modifications@,
                        },
                    ),
                    ..old(self)@
                },
                FullEvalClass::TransientEffect,
            ),
    {
        let ghost before = self.transient_effects@;
        let effect = TransientEffect { source, controller, duration, affected, modifications };
        self.transient_effects.push(effect);
        proof {
            assert(views(self.transient_effects@) =~= views(before).push(effect@));
        }
        self.mark_layers_full_classed(FullEvalClass::TransientEffect);
    }
}

} // verus!
