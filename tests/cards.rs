use president::card::{Card, Rank, Suit};
use president::card_play::CardPlay;
use president::deck::shuffled_deck;
use president::hand::{card_plays_for_size, pairs, quads, remove_card, singles, triples};
use president::player_state::PlayerState;

fn c(rank: Rank, suit: Suit) -> Card {
    Card::new(rank, suit)
}

#[test]
fn two_beats_ace_beats_king() {
    let two = c(Rank::Two, Suit::Spades);
    let ace = c(Rank::Ace, Suit::Hearts);
    let king = c(Rank::King, Suit::Diamonds);
    assert!(two > ace);
    assert!(ace > king);
    assert!(two > king);
    assert!(king < ace);
}

#[test]
fn card_values() {
    assert_eq!(c(Rank::Three, Suit::Clubs).value(), 1);
    assert_eq!(c(Rank::Ace, Suit::Clubs).value(), 12);
    assert_eq!(c(Rank::Two, Suit::Clubs).value(), 13);
    assert_eq!(c(Rank::Ten, Suit::Hearts).rank(), Rank::Ten);
    assert_eq!(c(Rank::Ten, Suit::Hearts).suit(), Suit::Hearts);
}

#[test]
fn same_rank_cards_tie_in_order() {
    let a = c(Rank::Nine, Suit::Spades);
    let b = c(Rank::Nine, Suit::Hearts);
    assert_eq!(a.partial_cmp(&b), Some(std::cmp::Ordering::Equal));
    assert_ne!(a, b);
}

#[test]
fn all_cards_in_fresh_deck_order() {
    let all = Card::all_cards();
    assert_eq!(all.len(), 52);
    assert_eq!(all[0], c(Rank::Two, Suit::Spades));
    assert_eq!(all[12], c(Rank::Ace, Suit::Spades));
    assert_eq!(all[13], c(Rank::Two, Suit::Hearts));
    assert_eq!(all[51], c(Rank::Ace, Suit::Clubs));
}

#[test]
fn shuffled_deck_holds_each_card_once() {
    let deck = shuffled_deck();
    assert_eq!(deck.len(), 52);
    for card in Card::all_cards() {
        assert_eq!(deck.iter().filter(|d| **d == card).count(), 1);
    }
}

#[test]
fn card_play_construction_and_size() {
    let k1 = c(Rank::King, Suit::Spades);
    let k2 = c(Rank::King, Suit::Hearts);
    let pair = CardPlay::from_cards(&[k1, k2]);
    assert_eq!(pair, CardPlay::Pair(k1, k2));
    assert_eq!(pair.size(), 2);
    assert_eq!(pair.value(), 11);
    assert_eq!(pair.rank(), Rank::King);
    assert_eq!(pair.to_vec(), vec![k1, k2]);
    assert!(pair.contains_card(&k2));
    assert!(!pair.contains_card(&c(Rank::King, Suit::Clubs)));
}

#[test]
fn groups_of_different_sizes_are_not_compared() {
    let single_two = CardPlay::Single(c(Rank::Two, Suit::Spades));
    let pair_aces = CardPlay::Pair(c(Rank::Ace, Suit::Spades), c(Rank::Ace, Suit::Hearts));
    assert_eq!(single_two.partial_cmp(&pair_aces), None);
    assert!(!(single_two > pair_aces));
    assert!(!(single_two < pair_aces));
    assert!(!single_two.beats(Some(pair_aces)));
    assert!(!pair_aces.beats(Some(single_two)));
}

#[test]
fn same_size_groups_compare_by_value() {
    let single_two = CardPlay::Single(c(Rank::Two, Suit::Spades));
    let single_ace = CardPlay::Single(c(Rank::Ace, Suit::Hearts));
    assert!(single_two > single_ace);
    assert!(single_two.beats(Some(single_ace)));
    assert!(!single_ace.beats(Some(single_two)));
    assert!(!single_ace.beats(Some(single_ace)));
    assert!(single_ace.beats(None));
}

#[test]
fn groups_of_a_hand() {
    let hand = vec![
        c(Rank::King, Suit::Spades),
        c(Rank::Ace, Suit::Diamonds),
        c(Rank::King, Suit::Hearts),
        c(Rank::King, Suit::Clubs),
    ];
    assert_eq!(singles(&hand).len(), 4);
    let p = pairs(&hand);
    assert_eq!(p.len(), 3);
    assert!(p.contains(&CardPlay::Pair(c(Rank::King, Suit::Spades), c(Rank::King, Suit::Hearts))));
    assert!(p.contains(&CardPlay::Pair(c(Rank::King, Suit::Hearts), c(Rank::King, Suit::Clubs))));
    let t = triples(&hand);
    assert_eq!(
        t,
        vec![CardPlay::Triple(
            c(Rank::King, Suit::Spades),
            c(Rank::King, Suit::Hearts),
            c(Rank::King, Suit::Clubs)
        )]
    );
    assert!(quads(&hand).is_empty());
    assert!(card_plays_for_size(&[], 1).is_empty());
}

#[test]
fn quad_of_a_hand() {
    let hand = vec![
        c(Rank::Seven, Suit::Spades),
        c(Rank::Seven, Suit::Hearts),
        c(Rank::Seven, Suit::Diamonds),
        c(Rank::Seven, Suit::Clubs),
        c(Rank::Eight, Suit::Clubs),
    ];
    assert_eq!(quads(&hand).len(), 1);
    assert_eq!(triples(&hand).len(), 4);
    assert_eq!(pairs(&hand).len(), 6);
}

#[test]
fn remove_card_from_hand() {
    let mut hand = vec![c(Rank::Five, Suit::Spades), c(Rank::Six, Suit::Spades)];
    assert!(remove_card(&mut hand, &c(Rank::Five, Suit::Spades)));
    assert_eq!(hand, vec![c(Rank::Six, Suit::Spades)]);
    assert!(!remove_card(&mut hand, &c(Rank::Five, Suit::Spades)));
    assert_eq!(hand, vec![c(Rank::Six, Suit::Spades)]);
}

#[test]
fn top_and_bottom_cards() {
    let state = PlayerState::new_with_id(
        7,
        "Ann".to_string(),
        vec![
            c(Rank::Five, Suit::Spades),
            c(Rank::King, Suit::Hearts),
            c(Rank::Two, Suit::Clubs),
            c(Rank::Nine, Suit::Diamonds),
        ],
        None,
    );
    assert_eq!(
        state.top_k_cards(2),
        vec![c(Rank::Two, Suit::Clubs), c(Rank::King, Suit::Hearts)]
    );
    assert_eq!(
        state.bottom_k_cards(2),
        vec![c(Rank::Five, Suit::Spades), c(Rank::Nine, Suit::Diamonds)]
    );
    assert_eq!(state.top_k_cards(9).len(), 4);
    assert!(state.bottom_k_cards(0).is_empty());
}

#[test]
fn fresh_players_get_distinct_ids() {
    let a = PlayerState::new("A".to_string(), vec![], None);
    let b = PlayerState::new("B".to_string(), vec![], None);
    assert!(!a.same_player(&b));
    assert!(a.same_player(&a));
    assert_eq!(a.name, "A");
}

#[test]
fn top_cards_with_equal_values() {
    let state = PlayerState::new_with_id(
        3,
        "Bo".to_string(),
        vec![c(Rank::Nine, Suit::Spades), c(Rank::Nine, Suit::Hearts), c(Rank::Five, Suit::Clubs)],
        None,
    );
    let top = state.top_k_cards(1);
    assert_eq!(top.len(), 1);
    assert_eq!(top[0].rank(), Rank::Nine);
    let top2 = state.top_k_cards(2);
    assert!(top2.contains(&c(Rank::Nine, Suit::Spades)));
    assert!(top2.contains(&c(Rank::Nine, Suit::Hearts)));
    assert_eq!(state.bottom_k_cards(1), vec![c(Rank::Five, Suit::Clubs)]);
}

#[test]
fn symbols_of_ranks_and_suits() {
    assert_eq!(Rank::from_symbol('t'), Some(Rank::Ten));
    assert_eq!(Rank::from_symbol('A'), Some(Rank::Ace));
    assert_eq!(Rank::from_symbol('2'), Some(Rank::Two));
    assert_eq!(Rank::from_symbol('1'), None);
    assert_eq!(Suit::from_symbol('\u{2663}'), Some(Suit::Clubs));
    assert_eq!(Suit::from_symbol('H'), Some(Suit::Hearts));
    assert_eq!(Suit::from_symbol('x'), None);
    assert_eq!(Rank::Queen.symbol(), 'Q');
    assert_eq!(Suit::Spades.symbol(), '\u{2660}');
}
