use vstd::prelude::*;
use crate::action::{Action, Event};
use crate::card::Card;
use crate::deck::{is_full_deck, shuffled_deck};
use crate::game_state::{GameState, RoleScheme};
use crate::player_state::{Role, SeatView};

verus! {

/// Ids of the seats that still hold cards, in seating order.
pub open spec fn stuck_ids(s: Seq<SeatView>) -> Seq<u128>
    decreases s.len(),
{
    if s.len() == 0 {
        Seq::empty()
    } else {
        let r = stuck_ids(s.drop_last());
        if s.last().3.len() > 0 {
            r.push(s.last().0)
        } else {
            r
        }
    }
}

/// Extends `acc` with the players of `h` who made a play, latest first, each
/// once, skipping those already in `acc`.
pub open spec fn add_finishers(acc: Seq<u128>, h: Seq<Event>) -> Seq<u128>
    decreases h.len(),
{
    if h.len() == 0 {
        acc
    } else {
        let e = h.last();
        let next = if e.action is PlayCards && !acc.contains(e.player_id) {
            acc.push(e.player_id)
        } else {
            acc
        };
        add_finishers(next, h.drop_last())
    }
}

/// Finishing order of a round, worst to first: players still holding cards in
/// seating order, then players in reverse order of their last play.
pub open spec fn finishing_order(seats: Seq<SeatView>, h: Seq<Event>) -> Seq<u128> {
    add_finishers(stuck_ids(seats), h)
}

/// Role for the player at `place` (0 is the worst) of `count` finishers.
pub open spec fn role_at(scheme: RoleScheme, place: int, count: int) -> Option<Role> {
    match scheme {
        RoleScheme::Positional => if place == count - 1 {
            Some(Role::President)
        } else if place == count - 2 {
            Some(Role::VicePresident)
        } else if place == 1 {
            Some(Role::ViceAsshole)
        } else if place == 0 {
            Some(Role::Asshole)
        } else {
            None
        },
        RoleScheme::ExtremesFirst => if place == count - 1 {
            Some(Role::President)
        } else if place == 0 {
            Some(Role::Asshole)
        } else if count >= 4 && place == count - 2 {
            Some(Role::VicePresident)
        } else if count >= 4 && place == 1 {
            Some(Role::ViceAsshole)
        } else {
            None
        },
    }
}

/// First position of `id` in `order`.
pub open spec fn place_of(order: Seq<u128>, id: u128) -> int {
    choose|p: int| 0 <= p < order.len() && order[p] == id && forall|q: int| 0 <= q < p ==> order[q] != id
}

/// Role that `id` receives from finishing order `order` (none when absent).
pub open spec fn role_from_order(scheme: RoleScheme, order: Seq<u128>, id: u128) -> Option<Role> {
    if order.contains(id) {
        role_at(scheme, place_of(order, id), order.len() as int)
    } else {
        None
    }
}

/// Seats of the next round: same players, roles from the finishing order, and
/// `deck` dealt out in equal consecutive slices of `deck.len() / seats.len()` cards.
pub open spec fn next_round_seats(
    seats: Seq<SeatView>,
    h: Seq<Event>,
    scheme: RoleScheme,
    deck: Seq<Card>,
) -> Seq<SeatView> {
    let order = finishing_order(seats, h);
    let size = deck.len() / seats.len();
    Seq::new(
        seats.len(),
        |i: int|
            (
                seats[i].0,
                seats[i].1,
                role_from_order(scheme, order, seats[i].0),
                deck.subrange(i * size, i * size + size),
            ),
    )
}

/// The role that `scheme` gives to the finisher at `place` of `count`.
pub fn role_for_place(scheme: RoleScheme, place: usize, count: usize) -> (r: Option<Role>)
    requires
        place < count,
    ensures
        r == role_at(scheme, place as int, count as int),
{
    match scheme {
        RoleScheme::Positional => if place == count - 1 {
            Some(Role::President)
        } else if count >= 2 && place == count - 2 {
            Some(Role::VicePresident)
        } else if place == 1 {
            Some(Role::ViceAsshole)
        } else if place == 0 {
            Some(Role::Asshole)
        } else {
            None
        },
        RoleScheme::ExtremesFirst => if place == count - 1 {
            Some(Role::President)
        } else if place == 0 {
            Some(Role::Asshole)
        } else if count >= 4 && place == count - 2 {
            Some(Role::VicePresident)
        } else if count >= 4 && place == 1 {
            Some(Role::ViceAsshole)
        } else {
            None
        },
    }
}

fn ids_contain(ids: &Vec<u128>, id: u128) -> (r: Option<usize>)
    ensures
        match r {
            None => !ids@.contains(id),
            Some(p) => p == place_of(ids@, id) && ids@.contains(id) && p < ids@.len(),
        },
{
    let mut i: usize = 0;
    while i < ids.len()
        invariant
            i <= ids@.len(),
            forall|q: int| 0 <= q < i ==> ids@[q] != id,
        decreases ids@.len() - i,
    {
        if ids[i] == id {
            proof {
                assert(ids@.contains(id));
                let p = place_of(ids@, id);
                assert(p == i);
            }
            return Some(i);
        }
        i = i + 1;
    }
    None
}

impl<S> GameState<S> {
    /// Finishing order of the round just played, worst to first.
    pub fn finishing_order(&self) -> (r: Vec<u128>)
        ensures
            r@ == finishing_order(self.seats(), self.history@),
    {
        let mut order: Vec<u128> = Vec::new();
        let mut i: usize = 0;
        while i < self.table.len()
            invariant
                i <= self.table@.len(),
                self.seats().len() == self.table@.len(),
                order@ == stuck_ids(self.seats().subrange(0, i as int)),
            decreases self.table@.len() - i,
        {
            assert(self.seats()[i as int] == self.table@[i as int].state.view());
            assert(self.seats().subrange(0, i + 1).drop_last() =~= self.seats().subrange(0, i as int));
            if self.table[i].state.current_hand.len() > 0 {
                order.push(self.table[i].state.id);
            }
            i = i + 1;
        }
        assert(self.seats().subrange(0, i as int) =~= self.seats());
        let mut k: usize = self.history.len();
        assert(self.history@.subrange(0, k as int) =~= self.history@);
        while k > 0
            invariant
                k <= self.history@.len(),
                add_finishers(order@, self.history@.subrange(0, k as int)) == finishing_order(
                    self.seats(),
                    self.history@,
                ),
            decreases k,
        {
            let ghost h = self.history@.subrange(0, k as int);
            assert(h.drop_last() =~= self.history@.subrange(0, k - 1));
            let e = self.history[k - 1];
            if let Action::PlayCards { .. } = e.action {
                if ids_contain(&order, e.player_id).is_none() {
                    order.push(e.player_id);
                }
            }
            k = k - 1;
        }
        order
    }

    /// Ends the round: assigns roles from the finishing order, deals `deck` out
    /// in equal slices (seat `i` gets the `i`-th slice), and clears the table and
    /// the history. Seating order is kept.
    pub fn start_new_game_with_deck(&mut self, deck: &[Card])
        requires
            old(self).table@.len() > 0,
        ensures
            final(self).seats() == next_round_seats(
                old(self).seats(),
                old(self).history@,
                old(self).role_scheme,
                deck@,
            ),
            final(self).strategies() == old(self).strategies(),
            final(self).top_card is None,
            final(self).history@.len() == 0,
            final(self).role_scheme == old(self).role_scheme,
    {
        let ghost st0 = self.strategies();
        let order = self.finishing_order();
        let n = self.table.len();
        let deck_len = deck.len();
        let size = deck_len / n;
        let ghost old_seats = self.seats();
        let ghost target = next_round_seats(old_seats, self.history@, self.role_scheme, deck@);
        proof {
            vstd::arithmetic::div_mod::lemma_fundamental_div_mod(deck@.len() as int, n as int);
            vstd::arithmetic::div_mod::lemma_mod_bound(deck@.len() as int, n as int);
        }
        let mut i: usize = 0;
        let mut offset: usize = 0;
        while i < n
            invariant
                n == self.table@.len(),
                n == old_seats.len(),
                size == deck@.len() / (n as nat),
                n * size <= deck@.len(),
                deck_len == deck@.len(),
                i <= n,
                offset == i * size,
                target == next_round_seats(old_seats, old(self).history@, old(self).role_scheme, deck@),
                order@ == finishing_order(old_seats, old(self).history@),
                self.role_scheme == old(self).role_scheme,
                self.strategies() == st0,
                forall|j: int| 0 <= j < i ==> #[trigger] self.seats()[j] == target[j],
                forall|j: int| i <= j < n ==> #[trigger] self.seats()[j] == old_seats[j],
            decreases n - i,
        {
            proof {
                assert((i + 1) * size <= n * size) by (nonlinear_arith)
                    requires
                        i + 1 <= n,
                ;
                assert((i + 1) * size == i * size + size) by (nonlinear_arith);
            }
            assert(self.seats()[i as int] == self.table@[i as int].state.view());
            let id = self.table[i].state.id;
            let role = match ids_contain(&order, id) {
                Some(p) => role_for_place(self.role_scheme, p, order.len()),
                None => None,
            };
            let mut hand: Vec<Card> = Vec::new();
            let mut j: usize = 0;
            while j < size
                invariant
                    offset + size <= deck@.len(),
                    deck_len == deck@.len(),
                    j <= size,
                    hand@ == deck@.subrange(offset as int, offset + j),
                decreases size - j,
            {
                hand.push(deck[offset + j]);
                j = j + 1;
                assert(hand@ =~= deck@.subrange(offset as int, offset + j));
            }
            let ghost before = self.seats();
            let ghost before_st = self.strategies();
            self.table[i].state.role = role;
            self.table[i].state.current_hand = hand;
            proof {
                assert(self.strategies() =~= before_st) by {
                    assert forall|j: int| 0 <= j < n implies #[trigger] self.strategies()[j]
                        == before_st[j] by {
                        assert(self.strategies()[j] == self.table@[j].strategy);
                    }
                }
                assert forall|j: int| 0 <= j < n && j != i implies #[trigger] self.seats()[j]
                    == before[j] by {
                    assert(self.seats()[j] == self.table@[j].state.view());
                }
                assert(self.seats()[i as int] == self.table@[i as int].state.view());
                assert(self.seats()[i as int] == target[i as int]);
            }
            offset = offset + size;
            i = i + 1;
        }
        assert(self.seats() =~= target);
        self.top_card = None;
        self.history.clear();
    }

    /// Ends the round and deals a freshly shuffled deck (see
    /// `start_new_game_with_deck`); every outcome deals a full deck.
    pub fn start_new_game(&mut self)
        requires
            old(self).table@.len() > 0,
        ensures
            exists|deck: Seq<Card>|
                is_full_deck(deck) && final(self).seats() == next_round_seats(
                    old(self).seats(),
                    old(self).history@,
                    old(self).role_scheme,
                    deck,
                ),
            final(self).strategies() == old(self).strategies(),
            final(self).top_card is None,
            final(self).history@.len() == 0,
            final(self).role_scheme == old(self).role_scheme,
    {
        let deck = shuffled_deck();
        self.start_new_game_with_deck(deck.as_slice());
    }
}

} // verus!
