use president::action::Action;
use president::card::{Card, Rank, Suit};
use president::card_play::CardPlay;
use president::moves::{pass_action_for, play_action_for, send_action_for, MoveError};

fn c(rank: Rank, suit: Suit) -> Card {
    Card::new(rank, suit)
}

fn offers() -> Vec<Action> {
    vec![
        Action::PlayCards { card_play: CardPlay::Single(c(Rank::Nine, Suit::Hearts)) },
        Action::PlayCards { card_play: CardPlay::Pair(c(Rank::Nine, Suit::Hearts), c(Rank::Nine, Suit::Clubs)) },
        Action::PlayCards { card_play: CardPlay::Pair(c(Rank::Nine, Suit::Hearts), c(Rank::Nine, Suit::Spades)) },
        Action::Pass,
    ]
}

#[test]
fn typed_play_picks_matching_group() {
    let acts = offers();
    assert_eq!(play_action_for(&[(Rank::Nine, None)], &acts), Ok(acts[0]));
    assert_eq!(play_action_for(&[(Rank::Nine, None), (Rank::Nine, None)], &acts), Ok(acts[1]));
    assert_eq!(
        play_action_for(&[(Rank::Nine, Some(Suit::Spades)), (Rank::Nine, None)], &acts),
        Ok(acts[2])
    );
}

#[test]
fn typed_play_errors() {
    let acts = offers();
    assert_eq!(play_action_for(&[], &acts), Err(MoveError::NoCards));
    assert_eq!(
        play_action_for(&[(Rank::Nine, None), (Rank::Ten, None)], &acts),
        Err(MoveError::MixedRanks)
    );
    assert_eq!(
        play_action_for(&[(Rank::Nine, Some(Suit::Hearts)), (Rank::Nine, Some(Suit::Hearts))], &acts),
        Err(MoveError::RepeatedSuit)
    );
    assert_eq!(play_action_for(&[(Rank::King, None)], &acts), Err(MoveError::NoMatchingPlay));
    assert_eq!(
        play_action_for(&[(Rank::Nine, Some(Suit::Diamonds))], &acts),
        Err(MoveError::NoMatchingPlay)
    );
}

#[test]
fn typed_pass() {
    assert_eq!(pass_action_for(&offers()), Ok(Action::Pass));
    assert_eq!(pass_action_for(&offers()[0..2]), Err(MoveError::PassNotPermitted));
}

#[test]
fn typed_send() {
    let acts = vec![
        Action::SendCard { to: 5, card: c(Rank::Four, Suit::Hearts) },
        Action::SendCard { to: 5, card: c(Rank::Four, Suit::Clubs) },
    ];
    assert_eq!(send_action_for((Rank::Four, None), &acts), Ok(acts[0]));
    assert_eq!(send_action_for((Rank::Four, Some(Suit::Clubs)), &acts), Ok(acts[1]));
    assert_eq!(send_action_for((Rank::Five, None), &acts), Err(MoveError::NoMatchingCard));
}
