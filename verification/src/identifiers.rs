//! Identifiers of the things a game is made of.

use vstd::prelude::*;
use vstd::string::*;

use crate::text::{decimal, render_decimal, Rendered};

verus! {

/// An object of the game, in whatever zone it is.
#[derive(Clone, Copy, Debug, PartialEq, Eq, PartialOrd, Ord, Hash, Structural)]
pub struct ObjectId(pub u64);

/// The card that an object represents.
#[derive(Clone, Copy, Debug, PartialEq, Eq, PartialOrd, Ord, Hash, Structural)]
pub struct CardId(pub u64);

/// A player.
#[derive(Clone, Copy, Debug, PartialEq, Eq, PartialOrd, Ord, Hash, Structural)]
pub struct PlayerId(pub u8);

/// Where an object is.
#[derive(Clone, Copy, Debug, PartialEq, Eq, Structural)]
pub enum Zone {
    Library,
    Hand,
    Battlefield,
    Graveyard,
    Stack,
    Exile,
    Command,
}

impl View for ObjectId {
    type V = ObjectId;

    open spec fn view(&self) -> ObjectId {
        *self
    }
}

impl Rendered for ObjectId {
    open spec fn text_of(value: ObjectId) -> Seq<char> {
        "ObjectId("@ + decimal(value.0 as nat) + ")"@
    }

    fn render(&self) -> (text: String) {
        let mut text = String::from_str("ObjectId(");
        text.append(render_decimal(self.0).as_str());
        text.append(")");
        text
    }
}

impl View for PlayerId {
    type V = PlayerId;

    open spec fn view(&self) -> PlayerId {
        *self
    }
}

impl Rendered for PlayerId {
    open spec fn text_of(value: PlayerId) -> Seq<char> {
        "PlayerId("@ + decimal(value.0 as nat) + ")"@
    }

    fn render(&self) -> (text: String) {
        let mut text = String::from_str("PlayerId(");
        text.append(render_decimal(self.0 as u64).as_str());
        text.append(")");
        text
    }
}

} // verus!
