use vstd::prelude::*;
use crate::action::Action;
use crate::game_state::PublicInfo;
use crate::player_state::PlayerState;

verus! {

/// A move-selection policy. Given what the acting player knows and the legal
/// moves, it picks one of those moves.
pub trait Strategy {
    fn select_action(
        &mut self,
        private_info: &PlayerState,
        public_info: &PublicInfo,
        available_actions: &[Action],
    ) -> (r: Action)
        requires
            available_actions@.len() > 0,
        ensures
            available_actions@.contains(r),
    ;
}

/// A seated player: its state and the policy that chooses its moves.
pub struct Player<S> {
    pub state: PlayerState,
    pub strategy: S,
}

} // verus!
