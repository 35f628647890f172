//! Engine of a climbing card game in the style of "President": card groups and
//! their order, the moves open to the player in front, turn rotation with
//! clearing of the table, the card exchange between roles before a round, and
//! role assignment from a round's finishing order.
pub mod card;
pub mod card_play;
pub mod deck;
pub mod hand;
pub mod action;
pub mod player_state;
pub mod player;
pub mod game_state;
pub mod round;
pub mod table;
pub mod pregame;
pub mod strategies;
pub mod config;
pub mod laws;
pub mod moves;
