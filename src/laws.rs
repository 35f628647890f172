use vstd::prelude::*;
use vstd::multiset::Multiset;
use crate::action::Action;
use crate::card::{Card, Rank, card_order};
use crate::card_play::{CardPlay, play_order};
use crate::game_state::{GameState, RoleScheme};
use crate::player_state::Role;
use crate::round::role_at;
use crate::hand::{holds_all, lemma_first_occurrence, remove_all, remove_one};

verus! {

/// Cards are totally ordered by value, suits ignored: the order is antisymmetric
/// and transitive, two cards tie exactly when their ranks match, a Two is above
/// every other rank (Ace included), and an Ace is above every rank but Two.
pub proof fn lemma_card_order(a: Card, b: Card, c: Card)
    ensures
        card_order(a, b) == core::cmp::Ordering::Less <==> card_order(b, a)
            == core::cmp::Ordering::Greater,
        card_order(a, b) == core::cmp::Ordering::Equal <==> a.rank == b.rank,
        card_order(a, b) != core::cmp::Ordering::Greater && card_order(b, c)
            != core::cmp::Ordering::Greater ==> card_order(a, c) != core::cmp::Ordering::Greater,
        a.rank == Rank::Two && b.rank != Rank::Two ==> card_order(a, b)
            == core::cmp::Ordering::Greater,
        a.rank == Rank::Ace && b.rank != Rank::Ace && b.rank != Rank::Two ==> card_order(a, b)
            == core::cmp::Ordering::Greater,
{
    assert(a.spec_value() == b.spec_value() ==> a.rank == b.rank) by {
        match a.rank {
            Rank::Two => {},
            Rank::Three => {},
            Rank::Four => {},
            Rank::Five => {},
            Rank::Six => {},
            Rank::Seven => {},
            Rank::Eight => {},
            Rank::Nine => {},
            Rank::Ten => {},
            Rank::Jack => {},
            Rank::Queen => {},
            Rank::King => {},
            Rank::Ace => {},
        }
    }
}

/// Groups of different sizes are never ordered against each other; groups of
/// one size are ordered by value.
pub proof fn lemma_play_order_sizes(a: CardPlay, b: CardPlay)
    ensures
        play_order(a, b) is None <==> a.spec_size() != b.spec_size(),
        a.spec_size() == b.spec_size() ==> (play_order(a, b) == Some(core::cmp::Ordering::Greater)
            <==> a.spec_value() > b.spec_value()),
{
}

/// While a group lies on the table, every play a state permits has that
/// group's size: groups of another size never compete with it.
pub proof fn lemma_permitted_plays_match_size<S>(g: GameState<S>, a: Action)
    requires
        g.permits(a),
        a is PlayCards,
        g.top_card is Some,
    ensures
        a->card_play.spec_size() == g.top_card->Some_0.spec_size(),
        a->card_play.spec_value() > g.top_card->Some_0.spec_value(),
{
}

/// Asking twice for the moves of an unchanged state gives the same list, in
/// the same order: the list is determined by the state alone.
pub proof fn lemma_permitted_actions_idempotent<S>(
    g: GameState<S>,
    r1: Seq<Action>,
    r2: Seq<Action>,
)
    requires
        r1 == g.permitted_list(),
        r2 == g.permitted_list(),
    ensures
        r1 == r2,
        forall|a: Action| r1.contains(a) <==> r2.contains(a),
{
}

/// Roles by finishing place: the best finisher is always President. At four or
/// more players both schemes agree: worst Asshole, second worst ViceAsshole,
/// second best VicePresident, everyone else no role. With fewer, the default
/// scheme gives only President and Asshole.
pub proof fn lemma_roles_by_place(scheme: RoleScheme, place: int, count: int)
    requires
        0 <= place < count,
    ensures
        place == count - 1 ==> role_at(scheme, place, count) == Some(Role::President),
        count >= 4 ==> role_at(scheme, place, count) == (if place == count - 1 {
            Some(Role::President)
        } else if place == count - 2 {
            Some(Role::VicePresident)
        } else if place == 1 {
            Some(Role::ViceAsshole)
        } else if place == 0 {
            Some(Role::Asshole)
        } else {
            None
        }),
        count < 4 ==> role_at(RoleScheme::ExtremesFirst, place, count) == (if place == count - 1 {
            Some(Role::President)
        } else if place == 0 {
            Some(Role::Asshole)
        } else {
            None
        }),
{
}

proof fn lemma_sub_empty(a: Multiset<Card>, b: Multiset<Card>)
    requires
        b.len() == 0,
    ensures
        a.sub(b) == a,
{
    broadcast use vstd::multiset::group_multiset_axioms;

    assert(b =~= Multiset::empty());
    assert(a.sub(b) =~= a);
}

proof fn lemma_sub_insert(a: Multiset<Card>, b: Multiset<Card>, x: Card)
    requires
        a.count(x) > 0,
    ensures
        a.remove(x).sub(b) == a.sub(b.insert(x)),
{
    broadcast use vstd::multiset::group_multiset_axioms;

    assert(a.remove(x).sub(b) =~= a.sub(b.insert(x)));
}

proof fn lemma_remove_one_multiset(hand: Seq<Card>, c: Card)
    requires
        hand.contains(c),
    ensures
        remove_one(hand, c).to_multiset() == hand.to_multiset().remove(c),
        hand.to_multiset().count(c) > 0,
{
    let k = choose|k: int| 0 <= k < hand.len() && hand[k] == c;
    lemma_first_occurrence(hand, c, k);
    let i = choose|i: int|
        0 <= i < hand.len() && hand[i] == c && forall|j: int| 0 <= j < i ==> hand[j] != c;
    vstd::seq_lib::to_multiset_remove(hand, i);
    vstd::seq_lib::to_multiset_contains(hand, c);
}

proof fn lemma_first_multiset(cards: Seq<Card>)
    requires
        cards.len() > 0,
    ensures
        cards.to_multiset() == cards.drop_first().to_multiset().insert(cards[0]),
{
    broadcast use vstd::multiset::group_multiset_axioms;

    vstd::seq_lib::to_multiset_remove(cards, 0);
    vstd::seq_lib::to_multiset_contains(cards, cards[0]);
    assert(cards.remove(0) =~= cards.drop_first());
    assert(cards.to_multiset() =~= cards.drop_first().to_multiset().insert(cards[0]));
}

/// Playing cards takes exactly those cards out of the hand, one copy each.
pub proof fn lemma_remove_all_multiset(hand: Seq<Card>, cards: Seq<Card>)
    requires
        holds_all(hand, cards),
    ensures
        remove_all(hand, cards).to_multiset() == hand.to_multiset().sub(cards.to_multiset()),
    decreases cards.len(),
{
    if cards.len() == 0 {
        vstd::seq_lib::to_multiset_len(cards);
        lemma_sub_empty(hand.to_multiset(), cards.to_multiset());
    } else {
        let c0 = cards[0];
        let rest = cards.drop_first();
        lemma_remove_all_multiset(remove_one(hand, c0), rest);
        lemma_remove_one_multiset(hand, c0);
        lemma_first_multiset(cards);
        lemma_sub_insert(hand.to_multiset(), rest.to_multiset(), c0);
    }
}

/// Playing cards shortens the hand by exactly the number of cards played.
pub proof fn lemma_remove_all_len(hand: Seq<Card>, cards: Seq<Card>)
    requires
        holds_all(hand, cards),
    ensures
        remove_all(hand, cards).len() == hand.len() - cards.len(),
    decreases cards.len(),
{
    if cards.len() > 0 {
        let c0 = cards[0];
        let k = choose|k: int| 0 <= k < hand.len() && hand[k] == c0;
        lemma_first_occurrence(hand, c0, k);
        lemma_remove_all_len(remove_one(hand, c0), cards.drop_first());
    }
}

/// From a hand without repeated cards, every played card is gone.
pub proof fn lemma_played_cards_leave_hand(hand: Seq<Card>, cards: Seq<Card>)
    requires
        holds_all(hand, cards),
        hand.no_duplicates(),
    ensures
        forall|c: Card| cards.contains(c) ==> !(#[trigger] remove_all(hand, cards).contains(c)),
{
    lemma_remove_all_multiset(hand, cards);
    hand.lemma_multiset_has_no_duplicates();
    let r = remove_all(hand, cards);
    r.to_multiset_ensures();
    cards.to_multiset_ensures();
    hand.to_multiset_ensures();
    assert forall|c: Card| cards.contains(c) implies !(#[trigger] remove_all(hand, cards).contains(
        c,
    )) by {
        broadcast use vstd::multiset::group_multiset_axioms;

        assert(cards.to_multiset().count(c) > 0);
        if hand.to_multiset().count(c) > 0 {
            assert(hand.to_multiset().count(c) == 1);
        }
        assert(r.to_multiset().count(c) == 0);
    }
}

} // verus!
