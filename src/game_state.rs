use vstd::prelude::*;
use crate::action::{Action, Event};
use crate::card::{Card, Rank, Suit};
use crate::card_play::{CardPlay, lemma_size_range};
use crate::hand::{
    card_plays_for_size, combinations_of, hand_contains, holds_all, is_group_of, plays_from, remove_all,
    remove_cards,
};
use crate::laws::{lemma_played_cards_leave_hand, lemma_remove_all_len};
use crate::player::Player;
use crate::player_state::{PublicPlayerState, SeatView};

verus! {

/// How finishing places turn into roles when the table is small.
#[derive(Clone, Copy, Debug, PartialEq, Eq, Structural)]
pub enum RoleScheme {
    /// Roles go by position, later ones overriding earlier ones: worst Asshole,
    /// second worst ViceAsshole, second best VicePresident, best President.
    /// With two players this gives President and VicePresident, with three the
    /// middle finisher becomes VicePresident.
    Positional,
    /// President and Asshole always go to the best and the worst; the vice
    /// roles are handed out only at tables of four or more. This is the scheme
    /// a new game starts with.
    ExtremesFirst,
}

/// The state of one game: seats in turn order (the front seat is to act), the
/// group on top of the table, and the history of the current round.
pub struct GameState<S> {
    pub table: Vec<Player<S>>,
    pub top_card: Option<CardPlay>,
    pub history: Vec<Event>,
    pub role_scheme: RoleScheme,
}

/// What every player may see of the game.
pub struct PublicInfo {
    pub top_card: Option<CardPlay>,
    pub history: Vec<Event>,
    pub public_table: Vec<PublicPlayerState>,
}

/// The id of whoever made the last play in `h`, if anyone did.
pub open spec fn last_play_id(h: Seq<Event>) -> Option<u128>
    decreases h.len(),
{
    if h.len() == 0 {
        None
    } else if h.last().action is PlayCards {
        Some(h.last().player_id)
    } else {
        last_play_id(h.drop_last())
    }
}

/// No play has been made in `h` yet.
pub open spec fn no_play_in(h: Seq<Event>) -> bool {
    forall|i: int| 0 <= i < h.len() ==> !(#[trigger] h[i].action is PlayCards)
}

/// The cards that may open a round, in order of preference.
pub open spec fn starting_candidates() -> Seq<Card> {
    seq![
        Card { rank: Rank::Three, suit: Suit::Clubs },
        Card { rank: Rank::Three, suit: Suit::Spades },
        Card { rank: Rank::Three, suit: Suit::Hearts },
        Card { rank: Rank::Three, suit: Suit::Diamonds },
        Card { rank: Rank::Four, suit: Suit::Clubs },
    ]
}

/// `s` turned left by `k` places: seat `k` comes to the front.
pub open spec fn rotate<T>(s: Seq<T>, k: int) -> Seq<T> {
    s.subrange(k, s.len() as int) + s.subrange(0, k)
}

/// Some seat holds `c`.
pub open spec fn held(seats: Seq<SeatView>, c: Card) -> bool {
    exists|i: int| 0 <= i < seats.len() && (#[trigger] seats[i]).3.contains(c)
}

/// The first starting candidate from position `k` on that some seat holds.
pub open spec fn first_held_from(seats: Seq<SeatView>, k: nat) -> Option<Card>
    decreases 5 - k,
{
    if k >= 5 {
        None
    } else if held(seats, starting_candidates()[k as int]) {
        Some(starting_candidates()[k as int])
    } else {
        first_held_from(seats, k + 1)
    }
}

/// The card that opens the round: the first starting candidate that some seat holds.
pub open spec fn starting_card(seats: Seq<SeatView>) -> Option<Card> {
    first_held_from(seats, 0)
}

/// At least two seats still hold cards.
pub open spec fn two_hold_cards(seats: Seq<SeatView>) -> bool {
    exists|i: int, j: int|
        0 <= i < j < seats.len() && (#[trigger] seats[i]).3.len() > 0 && (#[trigger] seats[j]).3.len()
            > 0
}

/// After the front seat acts, the turn moves `k` seats on: seat `k` holds cards
/// and every seat before it (but the front) is empty.
pub open spec fn turn_passes_to(seats: Seq<SeatView>, k: int) -> bool {
    &&& 1 <= k < seats.len()
    &&& seats[k].3.len() > 0
    &&& forall|j: int| 1 <= j < k ==> (#[trigger] seats[j]).3.len() == 0
}

/// On the way from the front to seat `k`, the turn reaches the last player who
/// made a play: the table is cleared.
pub open spec fn clears_on_way(seats: Seq<SeatView>, k: int, last: Option<u128>) -> bool {
    exists|j: int| 1 <= j <= k && last == Some((#[trigger] seats[j]).0)
}

/// Seats hold pairwise distinct ids.
pub open spec fn seat_ids_distinct(seats: Seq<SeatView>) -> bool {
    forall|i: int, j: int|
        0 <= i < seats.len() && 0 <= j < seats.len() && i != j ==> (#[trigger] seats[i]).0 != (
        #[trigger] seats[j]).0
}

pub proof fn lemma_rotate_index<T>(s: Seq<T>, k: int, i: int)
    requires
        0 <= k <= s.len(),
        0 <= i < s.len(),
    ensures
        rotate(s, k).len() == s.len(),
        i < s.len() - k ==> rotate(s, k)[i] == s[i + k],
        i >= s.len() - k ==> rotate(s, k)[i] == s[i + k - s.len()],
{
}

pub proof fn lemma_rotate_step<T>(s: Seq<T>, k: int)
    requires
        0 <= k < s.len(),
    ensures
        rotate(rotate(s, k), 1) == rotate(s, k + 1),
{
    let r = rotate(s, k);
    assert(rotate(r, 1) =~= rotate(s, k + 1)) by {
        assert forall|i: int| 0 <= i < s.len() implies rotate(r, 1)[i] == rotate(s, k + 1)[i] by {
            lemma_rotate_index(r, 1, i);
            lemma_rotate_index(s, k + 1, i);
            if i < s.len() - 1 {
                lemma_rotate_index(s, k, i + 1);
            } else {
                lemma_rotate_index(s, k, 0);
            }
        }
    }
}

pub proof fn lemma_rotate_ids_distinct(s: Seq<SeatView>, k: int)
    requires
        0 <= k <= s.len(),
        seat_ids_distinct(s),
    ensures
        seat_ids_distinct(rotate(s, k)),
{
    let r = rotate(s, k);
    assert forall|i: int, j: int| 0 <= i < r.len() && 0 <= j < r.len() && i != j implies (
    #[trigger] r[i]).0 != (#[trigger] r[j]).0 by {
        lemma_rotate_index(s, k, i);
        lemma_rotate_index(s, k, j);
    }
}

impl<S> GameState<S> {
    /// The strategy at each seat, in seating order.
    pub open spec fn strategies(self) -> Seq<S> {
        self.table@.map_values(|p: Player<S>| p.strategy)
    }

    pub open spec fn seats(self) -> Seq<SeatView> {
        self.table@.map_values(|p: Player<S>| p.state.view())
    }

    pub open spec fn current_hand(self) -> Seq<Card> {
        self.seats()[0].3
    }

    pub open spec fn ids_distinct(self) -> bool {
        forall|i: int, j: int|
            0 <= i < self.seats().len() && 0 <= j < self.seats().len() && i != j ==> (
            #[trigger] self.seats()[i]).0 != (#[trigger] self.seats()[j]).0
    }

    /// No group has been played yet in this round.
    pub open spec fn first_play_pending(self) -> bool {
        no_play_in(self.history@)
    }

    pub open spec fn spec_still_playing(self) -> bool {
        two_hold_cards(self.seats())
    }

    /// `cp` is a legal play for the player in front.
    pub open spec fn legal_play(self, cp: CardPlay) -> bool {
        &&& is_group_of(self.current_hand(), cp.spec_size(), cp)
        &&& cp.spec_beats(self.top_card)
        &&& self.first_play_pending() ==> cp.spec_cards().contains(
            starting_card(self.seats())->Some_0,
        )
    }

    /// `cp` may be offered: it beats the table and, while the round has not been
    /// opened, holds the starting card.
    pub open spec fn offers_play(self, cp: CardPlay) -> bool {
        &&& cp.spec_beats(self.top_card)
        &&& self.first_play_pending() ==> cp.spec_cards().contains(
            starting_card(self.seats())->Some_0,
        )
    }

    /// The plays of `plays` that may be offered, as moves, in order.
    pub open spec fn offered_plays(self, plays: Seq<CardPlay>) -> Seq<Action>
        decreases plays.len(),
    {
        if plays.len() == 0 {
            Seq::empty()
        } else {
            let r = self.offered_plays(plays.drop_last());
            if self.offers_play(plays.last()) {
                r.push(Action::PlayCards { card_play: plays.last() })
            } else {
                r
            }
        }
    }

    /// The offered plays of `k` cards, in the order the hand's groups are listed;
    /// none when a group of another size lies on the table.
    pub open spec fn offered_of_size(self, k: nat) -> Seq<Action> {
        if self.top_card is None || self.top_card->Some_0.spec_size() == k {
            self.offered_plays(
                plays_from(self.current_hand(), combinations_of(self.current_hand().len(), k)),
            )
        } else {
            Seq::empty()
        }
    }

    /// The offered plays of fewer than `k` cards: smaller groups first.
    pub open spec fn offered_below(self, k: nat) -> Seq<Action>
        decreases k,
    {
        if k <= 1 {
            Seq::empty()
        } else {
            self.offered_below((k - 1) as nat) + self.offered_of_size((k - 1) as nat)
        }
    }

    /// The list of moves offered to the player in front: plays of one card,
    /// then two, three and four, then a pass when one is allowed.
    pub open spec fn permitted_list(self) -> Seq<Action> {
        self.offered_below(5) + if self.top_card is Some && !self.first_play_pending() {
            seq![Action::Pass]
        } else {
            Seq::empty()
        }
    }

    /// The moves open to the player in front: legal plays, and a pass when a
    /// group lies on the table and the round has been opened.
    pub open spec fn permits(self, a: Action) -> bool {
        match a {
            Action::PlayCards { card_play } => self.legal_play(card_play),
            Action::Pass => self.top_card is Some && !self.first_play_pending(),
            Action::SendCard { .. } => false,
        }
    }

    /// The move can be applied: it is not a card exchange, and a play holds cards
    /// of the player in front and beats the table.
    pub open spec fn performable(self, a: Action) -> bool {
        match a {
            Action::PlayCards { card_play } => holds_all(self.current_hand(), card_play.spec_cards())
                && card_play.spec_beats(self.top_card),
            Action::Pass => true,
            Action::SendCard { .. } => false,
        }
    }

    /// The group on the table once the player in front has taken `a`.
    pub open spec fn top_after(self, a: Action) -> Option<CardPlay> {
        match a {
            Action::PlayCards { card_play } => Some(card_play),
            _ => self.top_card,
        }
    }

    /// The seats once the player in front has taken `a`, before the turn moves on.
    pub open spec fn seats_after(self, a: Action) -> Seq<SeatView> {
        match a {
            Action::PlayCards { card_play } => {
                let s = self.seats()[0];
                self.seats().update(0, (s.0, s.1, s.2, remove_all(s.3, card_play.spec_cards())))
            },
            _ => self.seats(),
        }
    }

    /// Whether at least two players still hold cards.
    pub fn still_playing(&self) -> (r: bool)
        ensures
            r == self.spec_still_playing(),
    {
        let mut first: Option<usize> = None;
        let mut i: usize = 0;
        while i < self.table.len()
            invariant
                i <= self.seats().len(),
                self.seats().len() == self.table@.len(),
                match first {
                    None => forall|j: int| 0 <= j < i ==> (#[trigger] self.seats()[j]).3.len() == 0,
                    Some(f) => f < i && self.seats()[f as int].3.len() > 0 && forall|j: int|
                        0 <= j < i && j != f ==> (#[trigger] self.seats()[j]).3.len() == 0,
                },
            decreases self.table@.len() - i,
        {
            assert(self.seats()[i as int] == self.table@[i as int].state.view());
            if self.table[i].state.current_hand.len() > 0 {
                match first {
                    None => {
                        first = Some(i);
                    },
                    Some(f) => {
                        assert(self.seats()[f as int].3.len() > 0 && self.seats()[i as int].3.len()
                            > 0);
                        return true;
                    },
                }
            }
            i = i + 1;
        }
        proof {
            if two_hold_cards(self.seats()) {
                let (a, b) = choose|a: int, b: int|
                    0 <= a < b < self.seats().len() && (#[trigger] self.seats()[a]).3.len() > 0
                        && (#[trigger] self.seats()[b]).3.len() > 0;
                assert(false);
            }
        }
        false
    }

    /// The id of the last player to have played a group this round.
    pub fn last_played_id(&self) -> (r: Option<u128>)
        ensures
            r == last_play_id(self.history@),
    {
        let mut i: usize = self.history.len();
        assert(self.history@.subrange(0, i as int) =~= self.history@);
        while i > 0
            invariant
                i <= self.history@.len(),
                last_play_id(self.history@) == last_play_id(self.history@.subrange(0, i as int)),
            decreases i,
        {
            let ghost h = self.history@.subrange(0, i as int);
            assert(h.drop_last() =~= self.history@.subrange(0, i - 1));
            if let Action::PlayCards { .. } = self.history[i - 1].action {
                return Some(self.history[i - 1].player_id);
            }
            i = i - 1;
        }
        None
    }

    /// Whether no group has been played yet in this round.
    pub fn is_first_play_pending(&self) -> (r: bool)
        ensures
            r == self.first_play_pending(),
    {
        let mut i: usize = 0;
        while i < self.history.len()
            invariant
                i <= self.history@.len(),
                no_play_in(self.history@.subrange(0, i as int)),
            decreases self.history@.len() - i,
        {
            if let Action::PlayCards { .. } = self.history[i].action {
                assert(self.history@[i as int].action is PlayCards);
                return false;
            }
            i = i + 1;
            assert forall|j: int| 0 <= j < i implies !(#[trigger] self.history@.subrange(
                0,
                i as int,
            )[j].action is PlayCards) by {
                assert(self.history@.subrange(0, i as int)[j] == self.history@[j]);
                if j < i - 1 {
                    assert(self.history@.subrange(0, i - 1)[j] == self.history@[j]);
                }
            }
        }
        assert(self.history@.subrange(0, i as int) =~= self.history@);
        true
    }

    /// The first seat holding `c`, if any.
    fn find_holder(&self, c: &Card) -> (r: Option<usize>)
        ensures
            match r {
                None => !held(self.seats(), *c),
                Some(i) => i < self.seats().len() && self.seats()[i as int].3.contains(*c) && forall|
                    j: int,
                | 0 <= j < i ==> !(#[trigger] self.seats()[j]).3.contains(*c),
            },
    {
        let mut i: usize = 0;
        while i < self.table.len()
            invariant
                i <= self.seats().len(),
                self.seats().len() == self.table@.len(),
                forall|j: int| 0 <= j < i ==> !(#[trigger] self.seats()[j]).3.contains(*c),
            decreases self.table@.len() - i,
        {
            assert(self.seats()[i as int] == self.table@[i as int].state.view());
            if hand_contains(self.table[i].state.current_hand.as_slice(), c) {
                return Some(i);
            }
            i = i + 1;
        }
        None
    }

    /// The card that opens the round, if any seat holds a candidate.
    pub fn find_starting_card(&self) -> (r: Option<Card>)
        ensures
            r == starting_card(self.seats()),
    {
        let candidates: Vec<Card> = vec![
            Card::new(Rank::Three, Suit::Clubs),
            Card::new(Rank::Three, Suit::Spades),
            Card::new(Rank::Three, Suit::Hearts),
            Card::new(Rank::Three, Suit::Diamonds),
            Card::new(Rank::Four, Suit::Clubs),
        ];
        assert(candidates@ =~= starting_candidates());
        let mut k: usize = 0;
        while k < candidates.len()
            invariant
                candidates@ == starting_candidates(),
                k <= 5,
                first_held_from(self.seats(), k as nat) == starting_card(self.seats()),
            decreases 5 - k,
        {
            if self.find_holder(&candidates[k]).is_some() {
                return Some(candidates[k]);
            }
            k = k + 1;
        }
        None
    }

    /// The seat that opens the round and the card it opens with.
    pub(crate) fn starting_seat_and_card(&self) -> (r: (usize, Card))
        requires
            starting_card(self.seats()) is Some,
        ensures
            r.1 == starting_card(self.seats())->Some_0,
            r.0 < self.seats().len(),
            self.seats()[r.0 as int].3.contains(r.1),
            forall|j: int| 0 <= j < r.0 ==> !(#[trigger] self.seats()[j]).3.contains(r.1),
    {
        let candidates: Vec<Card> = vec![
            Card::new(Rank::Three, Suit::Clubs),
            Card::new(Rank::Three, Suit::Spades),
            Card::new(Rank::Three, Suit::Hearts),
            Card::new(Rank::Three, Suit::Diamonds),
            Card::new(Rank::Four, Suit::Clubs),
        ];
        assert(candidates@ =~= starting_candidates());
        let mut k: usize = 0;
        while k < candidates.len()
            invariant
                candidates@ == starting_candidates(),
                k <= 5,
                first_held_from(self.seats(), k as nat) == starting_card(self.seats()),
                starting_card(self.seats()) is Some,
            decreases 5 - k,
        {
            match self.find_holder(&candidates[k]) {
                Some(i) => {
                    return (i, candidates[k]);
                },
                None => {},
            }
            k = k + 1;
        }
        (0, candidates[0])
    }

    /// The id of the player who opens the round, and the card they open with.
    pub fn starting_player_and_card(&self) -> (r: (u128, Card))
        requires
            starting_card(self.seats()) is Some,
        ensures
            r.1 == starting_card(self.seats())->Some_0,
            exists|i: int|
                0 <= i < self.seats().len() && (#[trigger] self.seats()[i]).0 == r.0
                    && self.seats()[i].3.contains(r.1) && forall|j: int|
                    0 <= j < i ==> !(#[trigger] self.seats()[j]).3.contains(r.1),
    {
        let (i, c) = self.starting_seat_and_card();
        assert(self.seats()[i as int] == self.table@[i as int].state.view());
        (self.table[i].state.id, c)
    }

    /// Every move open to the player in front.
    pub fn permitted_actions(&self) -> (r: Vec<Action>)
        requires
            self.table@.len() > 0,
            self.first_play_pending() ==> starting_card(self.seats()) is Some,
        ensures
            forall|a: Action| r@.contains(a) <==> self.permits(a),
            self.current_hand().no_duplicates() ==> r@.no_duplicates(),
            r@ == self.permitted_list(),
    {
        let pending = self.is_first_play_pending();
        let start: Option<Card> = if pending {
            Some(self.starting_player_and_card().1)
        } else {
            None
        };
        assert(self.seats()[0] == self.table@[0].state.view());
        let hand = self.table[0].state.current_hand.as_slice();
        let mut actions: Vec<Action> = Vec::new();
        let mut k: usize = 1;
        while k <= 4
            invariant
                1 <= k <= 5,
                hand@ == self.current_hand(),
                pending == self.first_play_pending(),
                pending ==> start == Some(starting_card(self.seats())->Some_0),
                !pending ==> start is None,
                hand@.no_duplicates() ==> actions@.no_duplicates(),
                actions@ == self.offered_below(k as nat),
                forall|a: Action|
                    #![trigger actions@.contains(a)]
                    actions@.contains(a) <==> (a is PlayCards && self.legal_play(a->card_play)
                        && a->card_play.spec_size() < k),
            decreases 5 - k,
        {
            let size_ok = match self.top_card {
                None => true,
                Some(t) => t.size() == k,
            };
            if size_ok {
                let plays = card_plays_for_size(hand, k);
                let mut j: usize = 0;
                while j < plays.len()
                    invariant
                        1 <= k <= 4,
                        j <= plays@.len(),
                        hand@ == self.current_hand(),
                        pending == self.first_play_pending(),
                        pending ==> start == Some(starting_card(self.seats())->Some_0),
                        !pending ==> start is None,
                        forall|cp: CardPlay| plays@.contains(cp) <==> is_group_of(hand@, k as nat, cp),
                        hand@.no_duplicates() ==> plays@.no_duplicates(),
                        hand@.no_duplicates() ==> actions@.no_duplicates(),
                        plays@ == plays_from(hand@, combinations_of(hand@.len(), k as nat)),
                        self.top_card is None || self.top_card->Some_0.spec_size() == k,
                        actions@ == self.offered_below(k as nat) + self.offered_plays(
                            plays@.subrange(0, j as int),
                        ),
                        forall|a: Action|
                            #![trigger actions@.contains(a)]
                            actions@.contains(a) <==> (a is PlayCards && self.legal_play(
                                a->card_play,
                            ) && (a->card_play.spec_size() < k || (a->card_play.spec_size() == k
                                && plays@.subrange(0, j as int).contains(a->card_play)))),
                    decreases plays@.len() - j,
                {
                    let cp = plays[j];
                    assert(plays@.contains(cp));
                    let ghost old_actions = actions@;
                    let ok = cp.beats(self.top_card) && match start {
                        None => true,
                        Some(c) => cp.contains_card(&c),
                    };
                    proof {
                        let s0 = plays@.subrange(0, j as int);
                        let s1 = plays@.subrange(0, j + 1);
                        assert(s1.drop_last() =~= s0);
                        assert(s1.last() == cp);
                        assert(ok == self.offers_play(cp));
                        assert(s1 =~= s0.push(cp));
                        assert(cp.spec_cards().len() == k);
                        assert forall|q: CardPlay| #[trigger] s1.contains(q) <==> (s0.contains(q) || q
                            == cp) by {
                            if s1.contains(q) && q != cp {
                                let w = choose|w: int| 0 <= w < s1.len() && s1[w] == q;
                                assert(s0[w] == q);
                            }
                            if s0.contains(q) {
                                let w = choose|w: int| 0 <= w < s0.len() && s0[w] == q;
                                assert(s1[w] == q);
                            }
                            if q == cp {
                                assert(s1[j as int] == q);
                            }
                        }
                    }
                    if ok {
                        actions.push(Action::PlayCards { card_play: cp });
                        proof {
                            assert(actions@ =~= self.offered_below(k as nat) + self.offered_plays(
                                plays@.subrange(0, j + 1),
                            ));
                            let pa = Action::PlayCards { card_play: cp };
                            assert(actions@[old_actions.len() as int] == pa);
                            assert(self.legal_play(cp));
                            if hand@.no_duplicates() {
                                if old_actions.contains(pa) {
                                    let s0 = plays@.subrange(0, j as int);
                                    assert(s0.contains(cp));
                                    let w = choose|w: int| 0 <= w < s0.len() && s0[w] == cp;
                                    assert(plays@[w] == plays@[j as int]);
                                }
                                assert forall|x: int, y: int|
                                    0 <= x < actions@.len() && 0 <= y < actions@.len() && x != y implies actions@[x]
                                    != actions@[y] by {
                                    if x == old_actions.len() as int {
                                        assert(old_actions[y] == actions@[y]);
                                    } else if y == old_actions.len() as int {
                                        assert(old_actions[x] == actions@[x]);
                                    } else {
                                        assert(old_actions[x] == actions@[x]);
                                        assert(old_actions[y] == actions@[y]);
                                    }
                                }
                            }
                            assert forall|a: Action|
                                #![trigger actions@.contains(a)]
                                actions@.contains(a) <==> (a is PlayCards && self.legal_play(
                                    a->card_play,
                                ) && (a->card_play.spec_size() < k || (a->card_play.spec_size()
                                    == k && plays@.subrange(0, j + 1).contains(a->card_play)))) by {
                                assert(old_actions.contains(a) <==> (a is PlayCards && self.legal_play(
                                    a->card_play,
                                ) && (a->card_play.spec_size() < k || (a->card_play.spec_size()
                                    == k && plays@.subrange(0, j as int).contains(a->card_play)))));
                                if actions@.contains(a) && a != pa {
                                    let w = choose|w: int| 0 <= w < actions@.len() && actions@[w] == a;
                                    assert(old_actions[w] == a);
                                }
                                if a is PlayCards && a != pa && a->card_play.spec_size() == k
                                    && plays@.subrange(0, j + 1).contains(a->card_play) {
                                    let s1 = plays@.subrange(0, j + 1);
                                    let w = choose|w: int| 0 <= w < s1.len() && s1[w] == a->card_play;
                                    assert(plays@.subrange(0, j as int)[w] == a->card_play);
                                }
                                if a is PlayCards && self.legal_play(a->card_play) && a != pa && (
                                a->card_play.spec_size() < k || (a->card_play.spec_size() == k
                                    && plays@.subrange(0, j as int).contains(a->card_play))) {
                                    assert(old_actions.contains(a));
                                    let w = choose|w: int|
                                        0 <= w < old_actions.len() && old_actions[w] == a;
                                    assert(actions@[w] == a);
                                }
                            }
                        }
                    } else {
                        proof {
                            assert(actions@ =~= self.offered_below(k as nat) + self.offered_plays(
                                plays@.subrange(0, j + 1),
                            ));
                            assert(!self.legal_play(cp));
                            assert forall|a: Action|
                                #![trigger actions@.contains(a)]
                                actions@.contains(a) <==> (a is PlayCards && self.legal_play(
                                    a->card_play,
                                ) && (a->card_play.spec_size() < k || (a->card_play.spec_size()
                                    == k && plays@.subrange(0, j + 1).contains(a->card_play)))) by {
                                assert(actions@.contains(a) <==> (a is PlayCards && self.legal_play(
                                    a->card_play,
                                ) && (a->card_play.spec_size() < k || (a->card_play.spec_size()
                                    == k && plays@.subrange(0, j as int).contains(a->card_play)))));
                                if a is PlayCards && a->card_play == cp {
                                    assert(!self.legal_play(a->card_play));
                                }
                                if a is PlayCards && a->card_play != cp && a->card_play.spec_size()
                                    == k && plays@.subrange(0, j as int).contains(a->card_play) {
                                    let s0 = plays@.subrange(0, j as int);
                                    let w = choose|w: int| 0 <= w < s0.len() && s0[w] == a->card_play;
                                    assert(plays@.subrange(0, j + 1)[w] == a->card_play);
                                }
                                if a is PlayCards && a->card_play != cp && a->card_play.spec_size()
                                    == k && plays@.subrange(0, j + 1).contains(a->card_play) {
                                    let s1 = plays@.subrange(0, j + 1);
                                    let w = choose|w: int| 0 <= w < s1.len() && s1[w] == a->card_play;
                                    assert(plays@.subrange(0, j as int)[w] == a->card_play);
                                }
                            }
                        }
                    }
                    j = j + 1;
                }
                proof {
                    assert(plays@.subrange(0, plays@.len() as int) =~= plays@);
                    assert(actions@ =~= self.offered_below((k + 1) as nat));
                }
            } else {
                proof {
                    assert(self.offered_of_size(k as nat) =~= Seq::<Action>::empty());
                    assert(actions@ =~= self.offered_below((k + 1) as nat));
                }
            }
            k = k + 1;
        }
        if self.top_card.is_some() && !pending {
            let ghost old_actions = actions@;
            actions.push(Action::Pass);
            proof {
                assert(actions@[old_actions.len() as int] == Action::Pass);
                if hand@.no_duplicates() {
                    assert(!old_actions.contains(Action::Pass));
                    assert forall|x: int, y: int|
                        0 <= x < actions@.len() && 0 <= y < actions@.len() && x != y implies actions@[x]
                        != actions@[y] by {
                        if x == old_actions.len() as int {
                            assert(old_actions[y] == actions@[y]);
                        } else if y == old_actions.len() as int {
                            assert(old_actions[x] == actions@[x]);
                        } else {
                            assert(old_actions[x] == actions@[x]);
                            assert(old_actions[y] == actions@[y]);
                        }
                    }
                }
                assert forall|a: Action| #![trigger actions@.contains(a)]
                    actions@.contains(a) <==> self.permits(a) by {
                    if a is PlayCards {
                        lemma_size_range(a->card_play);
                    }
                    assert(old_actions.contains(a) <==> (a is PlayCards && self.legal_play(
                        a->card_play,
                    ) && a->card_play.spec_size() < 5));
                    if actions@.contains(a) && a != Action::Pass {
                        let w = choose|w: int| 0 <= w < actions@.len() && actions@[w] == a;
                        assert(old_actions[w] == a);
                    }
                    if self.permits(a) && a != Action::Pass {
                        assert(old_actions.contains(a));
                        let w = choose|w: int| 0 <= w < old_actions.len() && old_actions[w] == a;
                        assert(actions@[w] == a);
                    }
                }
            }
        }
        assert forall|a: Action| #![trigger actions@.contains(a)]
            actions@.contains(a) <==> self.permits(a) by {
            if a is PlayCards {
                lemma_size_range(a->card_play);
            }
        }
        actions
    }

    /// Turns the table left by one seat, and clears it when the turn reaches
    /// `last`, the last player to have played.
    pub(crate) fn rotate_once(&mut self, last: Option<u128>)
        requires
            old(self).table@.len() > 0,
        ensures
            final(self).seats() == rotate(old(self).seats(), 1),
            final(self).strategies() == rotate(old(self).strategies(), 1),
            final(self).table@.len() == old(self).table@.len(),
            final(self).history == old(self).history,
            final(self).role_scheme == old(self).role_scheme,
            final(self).top_card == (if last == Some(final(self).seats()[0].0) {
                None
            } else {
                old(self).top_card
            }),
    {
        let ghost s = self.seats();
        let ghost st = self.strategies();
        let p = self.table.remove(0);
        self.table.push(p);
        assert(self.seats() =~= rotate(s, 1));
        assert(self.strategies() =~= rotate(st, 1));
        assert(self.seats()[0] == self.table@[0].state.view());
        if last == Some(self.table[0].state.id) {
            self.top_card = None;
        }
    }

    /// Applies the move of the player in front, records it in the history and
    /// passes the turn on to the next player who still holds cards, clearing the
    /// table when the turn comes back to the last player who made a play.
    pub fn perform_ingame_action(&mut self, action: &Action)
        requires
            old(self).table@.len() > 0,
            old(self).ids_distinct(),
            old(self).spec_still_playing(),
            old(self).performable(*action),
        ensures
            final(self).history@ == old(self).history@.push(
                Event { player_id: old(self).seats()[0].0, action: *action },
            ),
            final(self).role_scheme == old(self).role_scheme,
            final(self).ids_distinct(),
            exists|k: int|
                #[trigger] turn_passes_to(old(self).seats_after(*action), k) && final(self).seats()
                    == rotate(old(self).seats_after(*action), k) && final(self).strategies() == rotate(
                    old(self).strategies(),
                    k,
                ) && final(self).top_card == (if clears_on_way(
                    old(self).seats_after(*action),
                    k,
                    last_play_id(final(self).history@),
                ) {
                    None
                } else {
                    old(self).top_after(*action)
                }),
            action is PlayCards ==> final(self).top_card == Some(action->card_play),
            action is PlayCards ==> exists|i: int|
                0 <= i < final(self).seats().len() && (#[trigger] final(self).seats()[i]).0 == old(
                    self,
                ).seats()[0].0 && final(self).seats()[i].3 == remove_all(
                    old(self).current_hand(),
                    action->card_play.spec_cards(),
                ) && final(self).seats()[i].3.len() == old(self).current_hand().len()
                    - action->card_play.spec_size(),
            action is PlayCards && old(self).current_hand().no_duplicates() ==> exists|i: int|
                0 <= i < final(self).seats().len() && (#[trigger] final(self).seats()[i]).0 == old(
                    self,
                ).seats()[0].0 && forall|c: Card|
                    action->card_play.spec_cards().contains(c) ==> !final(self).seats()[i].3.contains(
                        c,
                    ),
    {
        let ghost pre = self.seats_after(*action);
        let ghost top1 = self.top_after(*action);
        let ghost n = self.table@.len() as int;
        let ghost st0 = self.strategies();
        assert(self.seats()[0] == self.table@[0].state.view());
        let player_id = self.table[0].state.id;
        match action {
            Action::PlayCards { card_play } => {
                let cards = card_play.to_vec();
                remove_cards(&mut self.table[0].state.current_hand, cards.as_slice());
                self.top_card = Some(*card_play);
            },
            _ => {},
        }
        assert(self.seats() =~= pre);
        assert(self.strategies() =~= st0);
        self.history.push(Event { player_id, action: *action });
        let last = self.last_played_id();
        proof {
            assert(seat_ids_distinct(pre));
        }
        // a seat other than the front still holds cards
        let ghost j0: int = choose|j: int| 1 <= j < n && (#[trigger] pre[j]).3.len() > 0;
        proof {
            let (a, b) = choose|a: int, b: int|
                0 <= a < b < n && (#[trigger] old(self).seats()[a]).3.len() > 0 && (
                #[trigger] old(self).seats()[b]).3.len() > 0;
            assert(pre[b] == old(self).seats()[b]);
            assert(1 <= b < n && pre[b].3.len() > 0);
        }
        self.rotate_once(last);
        let ghost mut k: int = 1;
        proof {
            assert(rotate(pre, 0) =~= pre);
            lemma_rotate_step(pre, 0);
            assert(rotate(st0, 0) =~= st0);
            lemma_rotate_step(st0, 0);
            lemma_rotate_index(pre, 1, 0);
        }
        while self.table[0].state.current_hand.len() == 0
            invariant
                1 <= k <= j0 < n,
                pre.len() == n,
                pre[j0].3.len() > 0,
                self.table@.len() == n,
                self.seats() == rotate(pre, k),
                st0.len() == n,
                self.strategies() == rotate(st0, k),
                self.seats()[0] == pre[k],
                self.history@ == old(self).history@.push(Event { player_id, action: *action }),
                last == last_play_id(self.history@),
                self.role_scheme == old(self).role_scheme,
                forall|j: int| 1 <= j < k ==> (#[trigger] pre[j]).3.len() == 0,
                self.top_card == (if clears_on_way(pre, k, last) {
                    None
                } else {
                    top1
                }),
            decreases j0 - k,
        {
            assert(self.seats()[0] == self.table@[0].state.view());
            assert(pre[k].3.len() == 0);
            self.rotate_once(last);
            proof {
                lemma_rotate_step(pre, k);
                lemma_rotate_step(st0, k);
                k = k + 1;
                lemma_rotate_index(pre, k, 0);
                if clears_on_way(pre, k - 1, last) {
                    let j = choose|j: int| 1 <= j <= k - 1 && last == Some((#[trigger] pre[j]).0);
                    assert(1 <= j <= k && last == Some(pre[j].0));
                }
                if clears_on_way(pre, k, last) && !clears_on_way(pre, k - 1, last) {
                    let j = choose|j: int| 1 <= j <= k && last == Some((#[trigger] pre[j]).0);
                    assert(j == k);
                }
            }
        }
        proof {
            assert(self.seats()[0] == self.table@[0].state.view());
            assert(turn_passes_to(pre, k));
            lemma_rotate_ids_distinct(pre, k);
            if action is PlayCards {
                lemma_rotate_index(pre, k, n - k);
                assert(self.seats()[n - k] == pre[0]);
                lemma_remove_all_len(old(self).current_hand(), action->card_play.spec_cards());
                if old(self).current_hand().no_duplicates() {
                    lemma_played_cards_leave_hand(
                        old(self).current_hand(),
                        action->card_play.spec_cards(),
                    );
                }
                assert(last == Some(player_id));
                if clears_on_way(pre, k, last) {
                    let j = choose|j: int| 1 <= j <= k && last == Some((#[trigger] pre[j]).0);
                    assert(pre[0].0 == player_id);
                }
            }
        }
    }
}

} // verus!
