use vstd::prelude::*;
use crate::action::Action;
use crate::card::{Rank, Suit};
use crate::card_play::CardPlay;

verus! {

/// A card named by a player: a rank, and a suit when one was given.
pub type CardName = (Rank, Option<Suit>);

/// Why a typed move does not name one of the moves on offer.
#[derive(Debug, Clone, Copy, PartialEq, Eq, Structural)]
pub enum MoveError {
    /// No card that may be handed over matches the named card.
    NoMatchingCard,
    /// Passing is not among the moves on offer.
    PassNotPermitted,
    /// A play was asked for without naming any card.
    NoCards,
    /// The named cards are not all of one rank.
    MixedRanks,
    /// The same suit was named twice.
    RepeatedSuit,
    /// No play on offer matches the named cards.
    NoMatchingPlay,
}

/// `name` describes `card`: same rank, and same suit if a suit was named.
pub open spec fn names_card(name: CardName, rank: Rank, suit: Suit) -> bool {
    name.0 == rank && match name.1 {
        Some(s) => s == suit,
        None => true,
    }
}

/// `a` hands over a card that `name` describes.
pub open spec fn send_matches(name: CardName, a: Action) -> bool {
    a is SendCard && names_card(name, a->SendCard_card.rank, a->SendCard_card.suit)
}

/// The suits named among `names`.
pub open spec fn named_suits(names: Seq<CardName>) -> Seq<Suit>
    decreases names.len(),
{
    if names.len() == 0 {
        Seq::empty()
    } else {
        let rest = named_suits(names.drop_last());
        match names.last().1 {
            Some(s) => rest.push(s),
            None => rest,
        }
    }
}

/// `a` plays a group of `names.len()` cards of rank `names[0].0` that holds
/// every suit named.
pub open spec fn play_matches(names: Seq<CardName>, a: Action) -> bool {
    &&& a is PlayCards
    &&& a->card_play.spec_size() == names.len()
    &&& a->card_play.lead().rank == names[0].0
    &&& forall|s: Suit|
        #[trigger] named_suits(names).contains(s) ==> exists|j: int|
            0 <= j < a->card_play.spec_cards().len() && (#[trigger] a->card_play.spec_cards()[j]).suit
                == s
}

/// `a` is the first move of `actions` for which `p` holds.
pub open spec fn first_match(actions: Seq<Action>, a: Action, p: spec_fn(Action) -> bool) -> bool {
    exists|i: int|
        0 <= i < actions.len() && actions[i] == a && p(a) && forall|j: int|
            0 <= j < i ==> !p(#[trigger] actions[j])
}

/// The first move on offer that hands over a card `name` describes.
pub fn send_action_for(name: CardName, actions: &[Action]) -> (r: Result<Action, MoveError>)
    ensures
        match r {
            Ok(a) => first_match(actions@, a, |x: Action| send_matches(name, x)),
            Err(e) => e == MoveError::NoMatchingCard && forall|i: int|
                0 <= i < actions@.len() ==> !send_matches(name, #[trigger] actions@[i]),
        },
{
    let mut i: usize = 0;
    while i < actions.len()
        invariant
            i <= actions@.len(),
            forall|j: int| 0 <= j < i ==> !send_matches(name, #[trigger] actions@[j]),
        decreases actions@.len() - i,
    {
        if let Action::SendCard { card, .. } = actions[i] {
            let suit_ok = match name.1 {
                Some(s) => s == card.suit,
                None => true,
            };
            if card.rank == name.0 && suit_ok {
                let a = actions[i];
                proof {
                    let p = |x: Action| send_matches(name, x);
                    assert(p(a));
                    assert(forall|j: int| 0 <= j < i ==> !p(#[trigger] actions@[j]));
                }
                return Ok(a);
            }
        }
        i = i + 1;
    }
    Err(MoveError::NoMatchingCard)
}

/// A pass, when passing is on offer.
pub fn pass_action_for(actions: &[Action]) -> (r: Result<Action, MoveError>)
    ensures
        actions@.contains(Action::Pass) ==> r == Ok::<Action, MoveError>(Action::Pass),
        !actions@.contains(Action::Pass) ==> r == Err::<Action, MoveError>(MoveError::PassNotPermitted),
{
    let mut i: usize = 0;
    while i < actions.len()
        invariant
            i <= actions@.len(),
            forall|j: int| 0 <= j < i ==> actions@[j] != Action::Pass,
        decreases actions@.len() - i,
    {
        if let Action::Pass = actions[i] {
            assert(actions@[i as int] == Action::Pass);
            return Ok(Action::Pass);
        }
        i = i + 1;
    }
    Err(MoveError::PassNotPermitted)
}

fn named_suits_of(names: &[CardName]) -> (r: Vec<Suit>)
    ensures
        r@ == named_suits(names@),
{
    let mut r: Vec<Suit> = Vec::new();
    let mut i: usize = 0;
    while i < names.len()
        invariant
            i <= names@.len(),
            r@ == named_suits(names@.subrange(0, i as int)),
        decreases names@.len() - i,
    {
        assert(names@.subrange(0, i + 1).drop_last() =~= names@.subrange(0, i as int));
        if let Some(s) = names[i].1 {
            r.push(s);
        }
        i = i + 1;
    }
    assert(names@.subrange(0, i as int) =~= names@);
    r
}

fn play_has_suit(cp: &CardPlay, s: Suit) -> (r: bool)
    ensures
        r == exists|j: int| 0 <= j < cp.spec_cards().len() && (#[trigger] cp.spec_cards()[j]).suit == s,
{
    let cards = cp.to_vec();
    let mut i: usize = 0;
    while i < cards.len()
        invariant
            cards@ == cp.spec_cards(),
            i <= cards@.len(),
            forall|j: int| 0 <= j < i ==> (#[trigger] cards@[j]).suit != s,
        decreases cards@.len() - i,
    {
        if cards[i].suit == s {
            return true;
        }
        i = i + 1;
    }
    false
}

fn play_holds_suits(cp: &CardPlay, suits: &Vec<Suit>) -> (r: bool)
    ensures
        r == forall|s: Suit|
            #[trigger] suits@.contains(s) ==> exists|j: int|
                0 <= j < cp.spec_cards().len() && (#[trigger] cp.spec_cards()[j]).suit == s,
{
    let mut i: usize = 0;
    while i < suits.len()
        invariant
            i <= suits@.len(),
            forall|t: int|
                0 <= t < i ==> exists|j: int|
                    0 <= j < cp.spec_cards().len() && (#[trigger] cp.spec_cards()[j]).suit == #[trigger] suits@[t],
        decreases suits@.len() - i,
    {
        if !play_has_suit(cp, suits[i]) {
            assert(suits@.contains(suits@[i as int]));
            return false;
        }
        i = i + 1;
    }
    proof {
        assert forall|s: Suit| #[trigger] suits@.contains(s) implies exists|j: int|
            0 <= j < cp.spec_cards().len() && (#[trigger] cp.spec_cards()[j]).suit == s by {
            let t = choose|t: int| 0 <= t < suits@.len() && suits@[t] == s;
            assert(exists|j: int|
                0 <= j < cp.spec_cards().len() && (#[trigger] cp.spec_cards()[j]).suit == suits@[t]);
        }
    }
    true
}

/// The first play on offer that matches the named cards: as many cards as
/// named, of the named rank, holding every named suit. The names must share one
/// rank and name no suit twice.
pub fn play_action_for(names: &[CardName], actions: &[Action]) -> (r: Result<Action, MoveError>)
    ensures
        names@.len() == 0 ==> r == Err::<Action, MoveError>(MoveError::NoCards),
        names@.len() > 0 && !(forall|i: int| 0 <= i < names@.len() ==> (#[trigger] names@[i]).0
            == names@[0].0) ==> r == Err::<Action, MoveError>(MoveError::MixedRanks),
        names@.len() > 0 && (forall|i: int| 0 <= i < names@.len() ==> (#[trigger] names@[i]).0
            == names@[0].0) && !named_suits(names@).no_duplicates() ==> r == Err::<
            Action,
            MoveError,
        >(MoveError::RepeatedSuit),
        names@.len() > 0 && (forall|i: int| 0 <= i < names@.len() ==> (#[trigger] names@[i]).0
            == names@[0].0) && named_suits(names@).no_duplicates() ==> match r {
            Ok(a) => first_match(actions@, a, |x: Action| play_matches(names@, x)),
            Err(e) => e == MoveError::NoMatchingPlay && forall|i: int|
                0 <= i < actions@.len() ==> !play_matches(names@, #[trigger] actions@[i]),
        },
{
    if names.len() == 0 {
        return Err(MoveError::NoCards);
    }
    let rank = names[0].0;
    let mut i: usize = 0;
    while i < names.len()
        invariant
            names@.len() > 0,
            rank == names@[0].0,
            i <= names@.len(),
            forall|j: int| 0 <= j < i ==> (#[trigger] names@[j]).0 == rank,
        decreases names@.len() - i,
    {
        if names[i].0 != rank {
            return Err(MoveError::MixedRanks);
        }
        i = i + 1;
    }
    let suits = named_suits_of(names);
    let mut a: usize = 0;
    while a < suits.len()
        invariant
            names@.len() > 0,
            rank == names@[0].0,
            forall|j: int| 0 <= j < names@.len() ==> (#[trigger] names@[j]).0 == rank,
            suits@ == named_suits(names@),
            a <= suits@.len(),
            forall|x: int, y: int| 0 <= x < a && 0 <= y < suits@.len() && x != y ==> suits@[x] != suits@[y],
        decreases suits@.len() - a,
    {
        let mut b: usize = 0;
        while b < suits.len()
            invariant
                names@.len() > 0,
                rank == names@[0].0,
                forall|j: int| 0 <= j < names@.len() ==> (#[trigger] names@[j]).0 == rank,
                suits@ == named_suits(names@),
                a < suits@.len(),
                b <= suits@.len(),
                forall|x: int, y: int| 0 <= x < a && 0 <= y < suits@.len() && x != y ==> suits@[x] != suits@[y],
                forall|y: int| 0 <= y < b && y != a ==> suits@[a as int] != suits@[y],
            decreases suits@.len() - b,
        {
            if b != a && suits[a] == suits[b] {
                return Err(MoveError::RepeatedSuit);
            }
            b = b + 1;
        }
        a = a + 1;
    }
    assert(suits@.no_duplicates());
    let n = names.len();
    let mut k: usize = 0;
    while k < actions.len()
        invariant
            names@.len() == n,
            n > 0,
            forall|j: int| 0 <= j < names@.len() ==> (#[trigger] names@[j]).0 == rank,
            suits@.no_duplicates(),
            rank == names@[0].0,
            suits@ == named_suits(names@),
            k <= actions@.len(),
            forall|j: int| 0 <= j < k ==> !play_matches(names@, #[trigger] actions@[j]),
        decreases actions@.len() - k,
    {
        if let Action::PlayCards { card_play } = actions[k] {
            if card_play.size() == n && card_play.rank() == rank && play_holds_suits(&card_play, &suits) {
                let act = actions[k];
                proof {
                    let p = |x: Action| play_matches(names@, x);
                    assert(p(act));
                    assert(forall|j: int| 0 <= j < k ==> !p(#[trigger] actions@[j]));
                }
                return Ok(act);
            }
        }
        k = k + 1;
    }
    Err(MoveError::NoMatchingPlay)
}

} // verus!
