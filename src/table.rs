use vstd::prelude::*;
use rand::seq::SliceRandom;
use crate::action::{Action, Event};
use crate::card::Card;
use crate::deck::{is_full_deck, shuffled_deck};
use crate::game_state::{GameState, PublicInfo, RoleScheme};
use crate::hand::{holds_all, remove_card};
use crate::player::Player;
use crate::player_state::{PlayerState, PublicPlayerState, Role, SeatView};

verus! {

/// Seats for a new game: the players in the given order, no roles yet, and
/// `deck` dealt out in equal consecutive slices of `deck.len() / players.len()` cards.
pub open spec fn initial_seats(players: Seq<(u128, Seq<char>)>, deck: Seq<Card>) -> Seq<SeatView> {
    let size = deck.len() / players.len();
    Seq::new(
        players.len(),
        |i: int| (players[i].0, players[i].1, None, deck.subrange(i * size, i * size + size)),
    )
}

/// Ids and names of the players of `inputs`, in order.
pub open spec fn id_names<S>(inputs: Seq<(u128, String, S)>) -> Seq<(u128, Seq<char>)> {
    inputs.map_values(|p: (u128, String, S)| (p.0, p.1@))
}

/// Strategies of the players of `inputs`, in order.
pub open spec fn input_strategies<S>(inputs: Seq<(u128, String, S)>) -> Seq<S> {
    inputs.map_values(|p: (u128, String, S)| p.2)
}

/// Relies on rand's `SliceRandom::shuffle` with the thread-local generator: the
/// same elements in a random order.
#[verifier::external_body]
fn shuffle_in_place<T>(v: &mut Vec<T>)
    ensures
        final(v)@.to_multiset() == old(v)@.to_multiset(),
{
    v.shuffle(&mut rand::thread_rng());
}

impl<S> GameState<S> {
    /// A new game with the players seated in the given order, and `deck` dealt
    /// out in equal slices (the `i`-th slice to the `i`-th player).
    pub fn new_with_deck(player_inputs: Vec<(u128, String, S)>, deck: &[Card]) -> (r: GameState<S>)
        requires
            player_inputs@.len() > 0,
        ensures
            r.seats() == initial_seats(id_names(player_inputs@), deck@),
            r.strategies() == input_strategies(player_inputs@),
            r.top_card is None,
            r.history@.len() == 0,
            r.role_scheme == RoleScheme::ExtremesFirst,
    {
        let ghost target = initial_seats(id_names(player_inputs@), deck@);
        let ghost orig = player_inputs@;
        let n = player_inputs.len();
        let deck_len = deck.len();
        let size = deck_len / n;
        proof {
            vstd::arithmetic::div_mod::lemma_fundamental_div_mod(deck@.len() as int, n as int);
            vstd::arithmetic::div_mod::lemma_mod_bound(deck@.len() as int, n as int);
        }
        let mut inputs = player_inputs;
        let mut table: Vec<Player<S>> = Vec::new();
        let mut i: usize = 0;
        let mut offset: usize = 0;
        while i < n
            invariant
                n == orig.len(),
                size == deck@.len() / (n as nat),
                n * size <= deck@.len(),
                deck_len == deck@.len(),
                i <= n,
                offset == i * size,
                inputs@ == orig.subrange(i as int, n as int),
                target == initial_seats(id_names(orig), deck@),
                table@.len() == i,
                forall|j: int| 0 <= j < i ==> #[trigger] table@[j].state.view() == target[j],
                forall|j: int| 0 <= j < i ==> #[trigger] table@[j].strategy == orig[j].2,
            decreases n - i,
        {
            proof {
                assert((i + 1) * size <= n * size) by (nonlinear_arith)
                    requires
                        i + 1 <= n,
                ;
                assert((i + 1) * size == i * size + size) by (nonlinear_arith);
            }
            let (id, name, strategy) = inputs.remove(0);
            let mut hand: Vec<Card> = Vec::new();
            let mut j: usize = 0;
            while j < size
                invariant
                    offset + size <= deck@.len(),
                    deck_len == deck@.len(),
                    j <= size,
                    hand@ == deck@.subrange(offset as int, offset + j),
                decreases size - j,
            {
                hand.push(deck[offset + j]);
                j = j + 1;
                assert(hand@ =~= deck@.subrange(offset as int, offset + j));
            }
            table.push(
                Player { state: PlayerState::new_with_id(id, name, hand, None), strategy },
            );
            assert(inputs@ =~= orig.subrange(i + 1, n as int));
            offset = offset + size;
            i = i + 1;
        }
        let r = GameState {
            table,
            top_card: None,
            history: Vec::new(),
            role_scheme: RoleScheme::ExtremesFirst,
        };
        assert(r.seats() =~= target);
        assert(r.strategies() =~= input_strategies(orig));
        r
    }

    /// A new game: players seated in random order, and a freshly shuffled deck
    /// dealt out in equal slices.
    pub fn new(player_inputs: Vec<(u128, String, S)>) -> (r: GameState<S>)
        requires
            player_inputs@.len() > 0,
        ensures
            exists|seated: Seq<(u128, String, S)>, deck: Seq<Card>|
                seated.to_multiset() == player_inputs@.to_multiset() && is_full_deck(deck)
                    && r.seats() == initial_seats(id_names(seated), deck) && r.strategies()
                    == input_strategies(seated),
            r.top_card is None,
            r.history@.len() == 0,
            r.role_scheme == RoleScheme::ExtremesFirst,
    {
        let mut inputs = player_inputs;
        shuffle_in_place(&mut inputs);
        proof {
            inputs@.to_multiset_ensures();
            player_inputs@.to_multiset_ensures();
        }
        let deck = shuffled_deck();
        GameState::new_with_deck(inputs, deck.as_slice())
    }

    /// The player with the given id, if seated.
    pub fn get_player(&self, id: u128) -> (r: Option<&Player<S>>)
        ensures
            match r {
                None => forall|i: int| 0 <= i < self.seats().len() ==> (#[trigger] self.seats()[i]).0
                    != id,
                Some(p) => p.state.id == id && exists|i: int|
                    0 <= i < self.table@.len() && self.table@[i] == *p,
            },
    {
        let mut i: usize = 0;
        while i < self.table.len()
            invariant
                i <= self.table@.len(),
                forall|j: int| 0 <= j < i ==> (#[trigger] self.seats()[j]).0 != id,
            decreases self.table@.len() - i,
        {
            assert(self.seats()[i as int] == self.table@[i as int].state.view());
            if self.table[i].state.id == id {
                return Some(&self.table[i]);
            }
            i = i + 1;
        }
        None
    }

    /// Position at the table of the first player holding `role`.
    pub(crate) fn seat_of_role(&self, role: Role) -> (r: Option<usize>)
        ensures
            match r {
                None => forall|i: int| 0 <= i < self.seats().len() ==> (#[trigger] self.seats()[i]).2
                    != Some(role),
                Some(i) => i < self.seats().len() && self.seats()[i as int].2 == Some(role) && forall|
                    j: int,
                | 0 <= j < i ==> (#[trigger] self.seats()[j]).2 != Some(role),
            },
    {
        let mut i: usize = 0;
        while i < self.table.len()
            invariant
                i <= self.table@.len(),
                self.seats().len() == self.table@.len(),
                forall|j: int| 0 <= j < i ==> (#[trigger] self.seats()[j]).2 != Some(role),
            decreases self.table@.len() - i,
        {
            assert(self.seats()[i as int] == self.table@[i as int].state.view());
            if self.table[i].state.role == Some(role) {
                return Some(i);
            }
            i = i + 1;
        }
        None
    }

    /// The first player, in seating order, holding `role`.
    pub fn get_role(&self, role: Role) -> (r: Option<&Player<S>>)
        ensures
            match r {
                None => forall|i: int| 0 <= i < self.seats().len() ==> (#[trigger] self.seats()[i]).2
                    != Some(role),
                Some(p) => p.state.role == Some(role) && exists|i: int|
                    0 <= i < self.table@.len() && self.table@[i] == *p && forall|j: int|
                        0 <= j < i ==> (#[trigger] self.seats()[j]).2 != Some(role),
            },
    {
        match self.seat_of_role(role) {
            Some(i) => {
                assert(self.seats()[i as int] == self.table@[i as int].state.view());
                Some(&self.table[i])
            },
            None => None,
        }
    }

    /// The player whose turn it is.
    pub fn current_player(&self) -> (r: &Player<S>)
        requires
            self.table@.len() > 0,
        ensures
            *r == self.table@[0],
    {
        &self.table[0]
    }

    /// What every player may see: the table's top group, the history, and each
    /// player's public state in seating order.
    pub fn public_info(&self) -> (r: PublicInfo)
        ensures
            r.top_card == self.top_card,
            r.history@ == self.history@,
            r.public_table@.len() == self.table@.len(),
            forall|i: int|
                0 <= i < self.table@.len() ==> (#[trigger] r.public_table@[i]).id
                    == self.seats()[i].0 && r.public_table@[i].name@ == self.seats()[i].1
                    && r.public_table@[i].role == self.seats()[i].2
                    && r.public_table@[i].hand_size == self.seats()[i].3.len(),
    {
        let mut public_table: Vec<PublicPlayerState> = Vec::new();
        let mut i: usize = 0;
        while i < self.table.len()
            invariant
                i <= self.table@.len(),
                public_table@.len() == i,
                forall|j: int|
                    0 <= j < i ==> (#[trigger] public_table@[j]).id == self.seats()[j].0
                        && public_table@[j].name@ == self.seats()[j].1 && public_table@[j].role
                        == self.seats()[j].2 && public_table@[j].hand_size
                        == self.seats()[j].3.len(),
            decreases self.table@.len() - i,
        {
            assert(self.seats()[i as int] == self.table@[i as int].state.view());
            public_table.push(self.table[i].state.to_public());
            i = i + 1;
        }
        let mut history: Vec<Event> = Vec::new();
        let mut k: usize = 0;
        while k < self.history.len()
            invariant
                k <= self.history@.len(),
                history@ == self.history@.subrange(0, k as int),
            decreases self.history@.len() - k,
        {
            history.push(self.history[k]);
            k = k + 1;
            assert(history@ =~= self.history@.subrange(0, k as int));
        }
        assert(history@ =~= self.history@);
        PublicInfo { top_card: self.top_card, history, public_table }
    }

    /// Whether the seated players have pairwise distinct ids.
    pub fn has_distinct_ids(&self) -> (r: bool)
        ensures
            r == self.ids_distinct(),
    {
        let n = self.table.len();
        let mut i: usize = 0;
        while i < n
            invariant
                n == self.table@.len(),
                self.seats().len() == n,
                i <= n,
                forall|a: int, b: int|
                    0 <= a < i && 0 <= b < n && a != b ==> (#[trigger] self.seats()[a]).0 != (
                    #[trigger] self.seats()[b]).0,
            decreases n - i,
        {
            let mut j: usize = 0;
            while j < n
                invariant
                    n == self.table@.len(),
                    self.seats().len() == n,
                    i < n,
                    j <= n,
                    forall|a: int, b: int|
                        0 <= a < i && 0 <= b < n && a != b ==> (#[trigger] self.seats()[a]).0 != (
                        #[trigger] self.seats()[b]).0,
                    forall|b: int| 0 <= b < j && b != i ==> self.seats()[i as int].0 != (
                    #[trigger] self.seats()[b]).0,
                decreases n - j,
            {
                assert(self.seats()[i as int] == self.table@[i as int].state.view());
                assert(self.seats()[j as int] == self.table@[j as int].state.view());
                if j != i && self.table[i].state.id == self.table[j].state.id {
                    return false;
                }
                j = j + 1;
            }
            i = i + 1;
        }
        true
    }

    /// Whether `action` can be applied to the player in front (see `performable`).
    pub fn is_performable(&self, action: &Action) -> (r: bool)
        requires
            self.table@.len() > 0,
        ensures
            r == self.performable(*action),
    {
        match action {
            Action::PlayCards { card_play } => {
                assert(self.seats()[0] == self.table@[0].state.view());
                let cards = card_play.to_vec();
                holds_cards(&self.table[0].state.current_hand, cards.as_slice()) && card_play.beats(
                    self.top_card,
                )
            },
            Action::Pass => true,
            Action::SendCard { .. } => false,
        }
    }
}

/// Whether `hand` holds a copy of each card of `cards`, counting repeats.
pub fn holds_cards(hand: &Vec<Card>, cards: &[Card]) -> (r: bool)
    ensures
        r == holds_all(hand@, cards@),
{
    let mut rest = hand.clone();
    proof {
        assert(rest@ == hand@);
    }
    let mut i: usize = 0;
    assert(cards@.subrange(0, cards@.len() as int) =~= cards@);
    while i < cards.len()
        invariant
            i <= cards@.len(),
            holds_all(hand@, cards@) == holds_all(rest@, cards@.subrange(i as int, cards@.len() as int)),
        decreases cards@.len() - i,
    {
        let ghost tail = cards@.subrange(i as int, cards@.len() as int);
        assert(tail[0] == cards@[i as int]);
        assert(tail.drop_first() =~= cards@.subrange(i + 1, cards@.len() as int));
        if !remove_card(&mut rest, &cards[i]) {
            return false;
        }
        i = i + 1;
    }
    true
}

} // verus!
