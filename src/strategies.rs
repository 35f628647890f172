use vstd::prelude::*;
use rand::Rng;
use crate::action::Action;
use crate::card::{Card, Rank, Suit};
use crate::game_state::PublicInfo;
use crate::player::Strategy;
use crate::player_state::PlayerState;

verus! {

/// Order key of a play for the default policy: smaller groups first, then weaker.
pub open spec fn play_key_le(a: Action, b: Action) -> bool {
    let x = a->card_play;
    let y = b->card_play;
    x.spec_size() < y.spec_size() || (x.spec_size() == y.spec_size() && x.spec_value()
        <= y.spec_value())
}

/// A card the default policy is willing to hand over: anything but the three of clubs.
pub open spec fn giveable(a: Action) -> bool {
    a is SendCard && !(a->SendCard_card == Card { rank: Rank::Three, suit: Suit::Clubs })
}

/// Plays the weakest legal group (smallest, then lowest); when handing cards
/// over, gives the weakest card other than the three of clubs; otherwise takes
/// the first move offered.
#[derive(Debug, Default)]
pub struct DefaultStrategy {}

/// Picks uniformly at random among the moves offered.
#[derive(Debug, Default)]
pub struct RandomStrategy {}

impl DefaultStrategy {
    /// The move this policy picks among `available_actions`.
    pub fn pick_action(available_actions: &[Action]) -> (r: Action)
        requires
            available_actions@.len() > 0,
        ensures
            available_actions@.contains(r),
            (exists|i: int| 0 <= i < available_actions@.len() && (#[trigger] available_actions@[i]) is PlayCards)
                ==> r is PlayCards && forall|i: int|
                0 <= i < available_actions@.len() && (#[trigger] available_actions@[i]) is PlayCards ==> play_key_le(r, available_actions@[i]),
            (forall|i: int| 0 <= i < available_actions@.len() ==> !((#[trigger] available_actions@[i]) is PlayCards))
                && (exists|i: int| 0 <= i < available_actions@.len() && giveable(#[trigger] available_actions@[i])) ==> giveable(r) && forall|i: int|
                0 <= i < available_actions@.len() && giveable(#[trigger] available_actions@[i]) ==> r->SendCard_card.spec_value() <= available_actions@[i]->SendCard_card.spec_value(),
            (forall|i: int| 0 <= i < available_actions@.len() ==> !((#[trigger] available_actions@[i]) is PlayCards) && !giveable(available_actions@[i]))
                ==> r == available_actions@[0],
    {
        let acts = available_actions;
        let mut best_play: Option<usize> = None;
        let mut i: usize = 0;
        while i < acts.len()
            invariant
                i <= acts@.len(),
                match best_play {
                    None => forall|j: int| 0 <= j < i ==> !((#[trigger] acts@[j]) is PlayCards),
                    Some(b) => b < i && acts@[b as int] is PlayCards && forall|j: int|
                        0 <= j < i && (#[trigger] acts@[j]) is PlayCards ==> play_key_le(acts@[b as int], acts@[j]),
                },
            decreases acts@.len() - i,
        {
            if let Action::PlayCards { card_play } = acts[i] {
                match best_play {
                    None => {
                        best_play = Some(i);
                    },
                    Some(b) => {
                        if let Action::PlayCards { card_play: best } = acts[b] {
                            let cs = card_play.size();
                            let bs = best.size();
                            if cs < bs || (cs == bs && card_play.value() < best.value()) {
                                best_play = Some(i);
                            }
                        }
                    },
                }
            }
            i = i + 1;
        }
        if let Some(b) = best_play {
            return acts[b];
        }
        let mut best_send: Option<usize> = None;
        let mut i: usize = 0;
        let three_of_clubs = Card::new(Rank::Three, Suit::Clubs);
        while i < acts.len()
            invariant
                i <= acts@.len(),
                three_of_clubs == (Card { rank: Rank::Three, suit: Suit::Clubs }),
                match best_send {
                    None => forall|j: int| 0 <= j < i ==> !giveable(#[trigger] acts@[j]),
                    Some(b) => b < i && giveable(acts@[b as int]) && forall|j: int|
                        0 <= j < i && giveable(#[trigger] acts@[j]) ==> acts@[b as int]->SendCard_card.spec_value()
                            <= acts@[j]->SendCard_card.spec_value(),
                },
            decreases acts@.len() - i,
        {
            if let Action::SendCard { card, .. } = acts[i] {
                if card != three_of_clubs {
                    match best_send {
                        None => {
                            best_send = Some(i);
                        },
                        Some(b) => {
                            if let Action::SendCard { card: best, .. } = acts[b] {
                                if card.value() < best.value() {
                                    best_send = Some(i);
                                }
                            }
                        },
                    }
                }
            }
            i = i + 1;
        }
        if let Some(b) = best_send {
            return acts[b];
        }
        acts[0]
    }
}

impl Strategy for DefaultStrategy {
    fn select_action(
        &mut self,
        private_info: &PlayerState,
        public_info: &PublicInfo,
        available_actions: &[Action],
    ) -> (r: Action) {
        DefaultStrategy::pick_action(available_actions)
    }
}

/// Relies on rand's `Rng::gen_range` with the thread-local generator: a number
/// below `len` (the range `0..len` is not empty).
#[verifier::external_body]
fn random_below(len: usize) -> (r: usize)
    requires
        len > 0,
    ensures
        r < len,
{
    rand::thread_rng().gen_range(0..len)
}

impl Strategy for RandomStrategy {
    fn select_action(
        &mut self,
        private_info: &PlayerState,
        public_info: &PublicInfo,
        available_actions: &[Action],
    ) -> (r: Action) {
        let i = random_below(available_actions.len());
        available_actions[i]
    }
}

} // verus!
