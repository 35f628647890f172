use vstd::prelude::*;
use crate::card::Card;
use crate::card_play::CardPlay;

verus! {

/// A move: a card handed over during the exchange before a round, a group of
/// cards played on the table, or a pass.
#[derive(Clone, Copy, Debug, PartialEq, Eq, Structural)]
pub enum Action {
    SendCard { to: u128, card: Card },
    PlayCards { card_play: CardPlay },
    Pass,
}

/// One entry of a round's history: who acted, and how.
#[derive(Clone, Copy, Debug, PartialEq, Eq, Structural)]
pub struct Event {
    pub player_id: u128,
    pub action: Action,
}

impl Action {
    /// The action of playing `card_play`.
    pub fn from_card_play(card_play: &CardPlay) -> (r: Action)
        ensures
            r == (Action::PlayCards { card_play: *card_play }),
    {
        Action::PlayCards { card_play: *card_play }
    }
}

} // verus!
