use vstd::prelude::*;
use crate::card::{Card, DECK_SIZE, NUM_RANKS, NUM_SUITS, rank_at, suit_at};

verus! {

/// The (rank ordinal, suit ordinal) pair sitting at position `i` of a fresh
/// standard deck: suits in order, each running from Two to Ace.
pub open spec fn fresh_deck_entry(i: int) -> (usize, usize) {
    ((i % 13) as usize, (i / 13) as usize)
}

/// The card that sits at position `i` of a fresh standard deck.
pub open spec fn fresh_deck_card(i: int) -> Card {
    Card { rank: rank_at(i % 13), suit: suit_at(i / 13) }
}

/// A deck of ordinal pairs that holds each of the 52 standard cards exactly once.
pub open spec fn is_full_deck_of_ordinals(d: Seq<(usize, usize)>) -> bool {
    &&& d.len() == DECK_SIZE
    &&& d.no_duplicates()
    &&& forall|i: int| 0 <= i < d.len() ==> (#[trigger] d[i]).0 < NUM_RANKS && d[i].1 < NUM_SUITS
}

/// A deck of cards that holds each of the 52 standard cards exactly once.
pub open spec fn is_full_deck(d: Seq<Card>) -> bool {
    &&& d.len() == DECK_SIZE
    &&& d.no_duplicates()
}

/// Relies on deckofcards' `Card::all_cards`: the 52 cards of a fresh deck, Spades,
/// Hearts, Diamonds, Clubs, each from Two to Ace, read as rank and suit ordinals.
#[verifier::external_body]
fn standard_deck_ordinals() -> (r: Vec<(usize, usize)>)
    ensures
        r@.len() == DECK_SIZE,
        forall|i: int| 0 <= i < DECK_SIZE ==> #[trigger] r@[i] == fresh_deck_entry(i),
{
    deckofcards::Card::all_cards().iter().map(|c| (c.rank.ordinal(), c.suit.ordinal())).collect()
}

/// Relies on deckofcards' `Deck::new`, `Deck::reset_shuffle` and `Deck::deal`: a
/// shuffled standard deck dealt out whole, read as rank and suit ordinals. The
/// order is random; every outcome holds each card exactly once.
#[verifier::external_body]
fn shuffled_deck_ordinals() -> (r: Vec<(usize, usize)>)
    ensures
        is_full_deck_of_ordinals(r@),
{
    let mut deck = deckofcards::Deck::new();
    deck.reset_shuffle();
    let count = deck.count();
    deck.deal(count).iter().map(|c| (c.rank.ordinal(), c.suit.ordinal())).collect()
}

impl Card {
    /// The 52 cards of a fresh standard deck, in the order of `fresh_deck_card`.
    pub fn all_cards() -> (r: Vec<Card>)
        ensures
            r@.len() == DECK_SIZE,
            forall|i: int| 0 <= i < DECK_SIZE ==> #[trigger] r@[i] == fresh_deck_card(i),
    {
        let ords = standard_deck_ordinals();
        let mut r: Vec<Card> = Vec::new();
        let mut i: usize = 0;
        while i < ords.len()
            invariant
                ords@.len() == DECK_SIZE,
                forall|j: int| 0 <= j < DECK_SIZE ==> #[trigger] ords@[j] == fresh_deck_entry(j),
                i <= ords@.len(),
                r@.len() == i,
                forall|j: int| 0 <= j < i ==> #[trigger] r@[j] == fresh_deck_card(j),
            decreases ords@.len() - i,
        {
            let (rk, st) = ords[i];
            assert(ords@[i as int] == fresh_deck_entry(i as int));
            let c = Card::from_ordinals(rk, st);
            proof {
                lemma_rank_at_ordinal(c.rank);
                lemma_suit_at_ordinal(c.suit);
            }
            r.push(c);
            i = i + 1;
        }
        r
    }
}

proof fn lemma_rank_at_ordinal(r: crate::card::Rank)
    ensures
        rank_at(r.spec_ordinal() as int) == r,
{
}

proof fn lemma_suit_at_ordinal(s: crate::card::Suit)
    ensures
        suit_at(s.spec_ordinal() as int) == s,
{
}

/// A standard deck in random order. Every outcome holds each card exactly once.
pub fn shuffled_deck() -> (r: Vec<Card>)
    ensures
        is_full_deck(r@),
{
    let ords = shuffled_deck_ordinals();
    let mut r: Vec<Card> = Vec::new();
    let mut i: usize = 0;
    while i < ords.len()
        invariant
            is_full_deck_of_ordinals(ords@),
            i <= ords@.len(),
            r@.len() == i,
            forall|j: int| 0 <= j < i ==> (#[trigger] r@[j]).rank.spec_ordinal() == ords@[j].0
                && r@[j].suit.spec_ordinal() == ords@[j].1,
        decreases ords@.len() - i,
    {
        let (rk, st) = ords[i];
        assert(ords@[i as int].0 < NUM_RANKS && ords@[i as int].1 < NUM_SUITS);
        let c = Card::from_ordinals(rk, st);
        r.push(c);
        i = i + 1;
    }
    assert forall|a: int, b: int| 0 <= a < r@.len() && 0 <= b < r@.len() && a != b implies r@[a]
        != r@[b] by {
        assert(ords@[a] != ords@[b]);
    }
    r
}

} // verus!
