//! Things that happen in a game.

use vstd::prelude::*;

use crate::game_object::PhaseOutCause;
use crate::identifiers::{ObjectId, Zone};

verus! {

/// Something that happened.
#[derive(Clone, Copy, Debug, PartialEq, Eq, Structural)]
pub enum GameEvent {
    ZoneChanged { object: ObjectId, from: Zone, to: Zone },
    PhasedOut { object: ObjectId, cause: PhaseOutCause },
}

} // verus!
