use vstd::prelude::*;
use crate::action::{Action, Event};
use crate::card::Card;
use crate::game_state::{GameState, lemma_rotate_index, lemma_rotate_step, rotate, starting_card};
use crate::hand::{remove_card, remove_one};
use crate::player::Strategy;
use crate::player_state::{Role, SeatView, is_strongest, min_len};

verus! {

/// The seats after the card transfer `e`: the sender loses one copy of the card
/// and the receiver gains it. Events other than transfers change nothing.
pub open spec fn apply_event(seats: Seq<SeatView>, e: Event) -> Seq<SeatView> {
    match e.action {
        Action::SendCard { to, card } => Seq::new(
            seats.len(),
            |i: int|
                {
                    let s = seats[i];
                    let h1 = if s.0 == e.player_id {
                        remove_one(s.3, card)
                    } else {
                        s.3
                    };
                    let h2 = if s.0 == to {
                        h1.push(card)
                    } else {
                        h1
                    };
                    (s.0, s.1, s.2, h2)
                },
        ),
        _ => seats,
    }
}

/// The seats after the transfers of `es`, in order.
pub open spec fn apply_events(seats: Seq<SeatView>, es: Seq<Event>) -> Seq<SeatView>
    decreases es.len(),
{
    if es.len() == 0 {
        seats
    } else {
        apply_event(apply_events(seats, es.drop_last()), es.last())
    }
}

/// `mid` keeps the strategy of every seat but the President's and the
/// VicePresident's, the players who choose cards during the exchange.
pub open spec fn keeps_non_choosers<S>(seats: Seq<SeatView>, st: Seq<S>, mid: Seq<S>) -> bool {
    &&& mid.len() == st.len()
    &&& forall|j: int|
        0 <= j < mid.len() && seats[j].2 != Some(Role::President) && seats[j].2 != Some(
            Role::VicePresident,
        ) ==> #[trigger] mid[j] == st[j]
}

/// Transfers move cards only: ids, names and roles stay with their seats.
pub proof fn lemma_apply_events_keeps_roles(seats: Seq<SeatView>, es: Seq<Event>)
    ensures
        apply_events(seats, es).len() == seats.len(),
        forall|j: int|
            0 <= j < seats.len() ==> (#[trigger] apply_events(seats, es)[j]).0 == seats[j].0
                && apply_events(seats, es)[j].1 == seats[j].1 && apply_events(seats, es)[j].2
                == seats[j].2,
    decreases es.len(),
{
    if es.len() > 0 {
        lemma_apply_events_keeps_roles(seats, es.drop_last());
    }
}

/// Applying two runs of transfers one after the other is applying their concatenation.
pub proof fn lemma_apply_events_concat(seats: Seq<SeatView>, a: Seq<Event>, b: Seq<Event>)
    ensures
        apply_events(seats, a + b) == apply_events(apply_events(seats, a), b),
    decreases b.len(),
{
    if b.len() == 0 {
        assert(a + b =~= a);
    } else {
        assert((a + b).drop_last() =~= a + b.drop_last());
        assert((a + b).last() == b.last());
        lemma_apply_events_concat(seats, a, b.drop_last());
    }
}

/// `i` is the first seat holding the round's starting card.
pub open spec fn is_starting_seat(seats: Seq<SeatView>, i: int) -> bool {
    &&& starting_card(seats) is Some
    &&& 0 <= i < seats.len()
    &&& seats[i].3.contains(starting_card(seats)->Some_0)
    &&& forall|j: int| 0 <= j < i ==> !(#[trigger] seats[j]).3.contains(starting_card(seats)->Some_0)
}

/// Some seat holds `role`.
pub open spec fn role_filled(seats: Seq<SeatView>, role: Role) -> bool {
    exists|i: int| 0 <= i < seats.len() && (#[trigger] seats[i]).2 == Some(role)
}

/// `i` is the first seat holding `role`.
pub open spec fn first_with_role(seats: Seq<SeatView>, role: Role, i: int) -> bool {
    &&& 0 <= i < seats.len()
    &&& seats[i].2 == Some(role)
    &&& forall|j: int| 0 <= j < i ==> (#[trigger] seats[j]).2 != Some(role)
}

/// `es` are the transfers of one exchange between seat `a`, which hands over its
/// `k` strongest cards (all of them if it holds fewer) to seat `p`, and seat `p`,
/// which then hands back up to `k` distinct cards of its hand; fewer only when
/// it has no other card to give.
pub open spec fn is_exchange(seats: Seq<SeatView>, a: int, p: int, k: nat, es: Seq<Event>) -> bool {
    let sub = seats[a];
    let sup = seats[p];
    let m = min_len(k, sub.3.len());
    let given = Seq::new(m, |t: int| es[t].action->SendCard_card);
    let returned = Seq::new((es.len() - m) as nat, |t: int| es[m + t].action->SendCard_card);
    &&& m <= es.len() <= m + k
    &&& forall|t: int|
        0 <= t < m ==> (#[trigger] es[t]).player_id == sub.0 && es[t].action is SendCard
            && es[t].action->to == sup.0
    &&& is_strongest(sub.3, given)
    &&& forall|x: int, y: int|
        0 <= x < y < m ==> (#[trigger] given[x]).spec_value() >= (#[trigger] given[y]).spec_value()
    &&& forall|t: int|
        m <= t < es.len() ==> (#[trigger] es[t]).player_id == sup.0 && es[t].action is SendCard
            && es[t].action->to == sub.0 && sup.3.contains(es[t].action->SendCard_card)
    &&& returned.no_duplicates()
    &&& es.len() < m + k ==> forall|c: Card| sup.3.contains(c) ==> #[trigger] returned.contains(c)
}

/// `es` are the transfers of the exchange from the first holder of `low` to
/// the first holder of `high` with `k` cards each way: none when either role is
/// unfilled.
pub open spec fn exchange_result(
    seats: Seq<SeatView>,
    low: Role,
    high: Role,
    k: nat,
    es: Seq<Event>,
) -> bool {
    &&& !role_filled(seats, low) || !role_filled(seats, high) ==> es.len() == 0
    &&& forall|a: int, p: int|
        first_with_role(seats, low, a) && first_with_role(seats, high, p) ==> #[trigger] is_exchange(
            seats,
            a,
            p,
            k,
            es,
        )
}

/// Whether `c` is among `cards`.
fn listed_card(cards: &Vec<Card>, c: &Card) -> (r: bool)
    ensures
        r == cards@.contains(*c),
{
    let mut i: usize = 0;
    while i < cards.len()
        invariant
            i <= cards@.len(),
            forall|j: int| 0 <= j < i ==> cards@[j] != *c,
        decreases cards@.len() - i,
    {
        if cards[i] == *c {
            assert(cards@[i as int] == *c);
            return true;
        }
        i = i + 1;
    }
    false
}

impl<S> GameState<S> {
    /// Applies the card transfer `e` to the table.
    fn apply_send(&mut self, e: &Event)
        ensures
            final(self).seats() == apply_event(old(self).seats(), *e),
            final(self).strategies() == old(self).strategies(),
            final(self).table@.len() == old(self).table@.len(),
            final(self).top_card == old(self).top_card,
            final(self).history == old(self).history,
            final(self).role_scheme == old(self).role_scheme,
    {
        if let Action::SendCard { to, card } = e.action {
            let ghost orig = self.seats();
            let ghost target = apply_event(orig, *e);
            let n = self.table.len();
            let mut i: usize = 0;
            while i < n
                invariant
                    n == self.table@.len(),
                    orig.len() == n,
                    target == apply_event(orig, *e),
                    e.action == (Action::SendCard { to, card }),
                    i <= n,
                    self.top_card == old(self).top_card,
                    self.history == old(self).history,
                    self.role_scheme == old(self).role_scheme,
                    self.strategies() == old(self).strategies(),
                    forall|j: int| 0 <= j < i ==> #[trigger] self.seats()[j] == target[j],
                    forall|j: int| i <= j < n ==> #[trigger] self.seats()[j] == orig[j],
                decreases n - i,
            {
                let ghost before = self.seats();
                let ghost before_st = self.strategies();
                assert(before[i as int] == self.table@[i as int].state.view());
                if self.table[i].state.id == e.player_id {
                    remove_card(&mut self.table[i].state.current_hand, &card);
                }
                if self.table[i].state.id == to {
                    self.table[i].state.current_hand.push(card);
                }
                proof {
                    assert forall|j: int| 0 <= j < n && j != i implies #[trigger] self.seats()[j]
                        == before[j] by {
                        assert(self.seats()[j] == self.table@[j].state.view());
                    }
                    assert(self.seats()[i as int] == self.table@[i as int].state.view());
                    assert forall|j: int| 0 <= j < n implies #[trigger] self.strategies()[j]
                        == before_st[j] by {
                        assert(self.strategies()[j] == self.table@[j].strategy);
                    }
                    assert(self.strategies() =~= before_st);
                }
                i = i + 1;
            }
            assert(self.seats() =~= target);
        }
    }

    /// Applies the card transfers of `events` in order.
    fn apply_sends(&mut self, events: &Vec<Event>)
        ensures
            final(self).seats() == apply_events(old(self).seats(), events@),
            final(self).strategies() == old(self).strategies(),
            final(self).table@.len() == old(self).table@.len(),
            final(self).top_card == old(self).top_card,
            final(self).history == old(self).history,
            final(self).role_scheme == old(self).role_scheme,
    {
        let mut i: usize = 0;
        assert(events@.subrange(0, 0) =~= Seq::<Event>::empty());
        while i < events.len()
            invariant
                i <= events@.len(),
                self.seats() == apply_events(old(self).seats(), events@.subrange(0, i as int)),
                self.strategies() == old(self).strategies(),
                self.table@.len() == old(self).table@.len(),
                self.top_card == old(self).top_card,
                self.history == old(self).history,
                self.role_scheme == old(self).role_scheme,
            decreases events@.len() - i,
        {
            assert(events@.subrange(0, i + 1).drop_last() =~= events@.subrange(0, i as int));
            self.apply_send(&events[i]);
            i = i + 1;
        }
        assert(events@.subrange(0, i as int) =~= events@);
    }

    /// Turns the table so that the first seat holding the round's starting card
    /// is in front, and returns that card.
    pub fn set_starting_player(&mut self) -> (r: Card)
        requires
            starting_card(old(self).seats()) is Some,
        ensures
            r == starting_card(old(self).seats())->Some_0,
            exists|i: int|
                is_starting_seat(old(self).seats(), i) && final(self).seats() == rotate(
                    old(self).seats(),
                    i,
                ) && final(self).strategies() == rotate(old(self).strategies(), i),
            final(self).table@.len() == old(self).table@.len(),
            final(self).top_card == old(self).top_card,
            final(self).history == old(self).history,
            final(self).role_scheme == old(self).role_scheme,
    {
        let ghost orig = self.seats();
        let ghost orig_st = self.strategies();
        let (idx, card) = self.starting_seat_and_card();
        let mut k: usize = 0;
        assert(rotate(orig, 0) =~= orig);
        assert(rotate(orig_st, 0) =~= orig_st);
        while k < idx
            invariant
                k <= idx,
                idx < orig.len(),
                self.table@.len() == orig.len(),
                self.seats() == rotate(orig, k as int),
                orig_st.len() == orig.len(),
                self.strategies() == rotate(orig_st, k as int),
                self.top_card == old(self).top_card,
                self.history == old(self).history,
                self.role_scheme == old(self).role_scheme,
            decreases idx - k,
        {
            // with no last player given, a rotation never clears the table
            self.rotate_once(None);
            proof {
                lemma_rotate_step(orig, k as int);
                lemma_rotate_step(orig_st, k as int);
                lemma_rotate_index(orig, k + 1, 0);
            }
            k = k + 1;
        }
        assert(is_starting_seat(orig, idx as int));
        card
    }
}

impl<S: Strategy> GameState<S> {
    /// The exchange between the first player holding `asshole_role` and the first
    /// holding `president_role`: the former hands over their `num_cards` strongest
    /// cards, then the latter picks, through its strategy, up to `num_cards`
    /// distinct cards of its own hand (as it was before the exchange) to hand
    /// back. Returns the transfers, applied in order. Nothing happens when either
    /// role is unfilled.
    pub fn swap_cards_by_role(
        &mut self,
        asshole_role: Role,
        president_role: Role,
        num_cards: usize,
    ) -> (r: Vec<Event>)
        ensures
            final(self).seats() == apply_events(old(self).seats(), r@),
            final(self).table@.len() == old(self).table@.len(),
            final(self).top_card == old(self).top_card,
            final(self).history == old(self).history,
            final(self).role_scheme == old(self).role_scheme,
            exchange_result(old(self).seats(), asshole_role, president_role, num_cards as nat, r@),
            final(self).strategies().len() == old(self).strategies().len(),
            forall|j: int|
                0 <= j < old(self).strategies().len() && !first_with_role(
                    old(self).seats(),
                    president_role,
                    j,
                ) ==> #[trigger] final(self).strategies()[j] == old(self).strategies()[j],
            forall|j: int| 0 <= j < r@.len() ==> (#[trigger] r@[j]).action is SendCard,
            r@.len() <= 2 * num_cards,
    {
        let public_info = self.public_info();
        let sub = self.seat_of_role(asshole_role);
        let sup = self.seat_of_role(president_role);
        let ghost seats0 = self.seats();
        let ghost st0 = self.strategies();
        let mut events: Vec<Event> = Vec::new();
        match (sub, sup) {
            (Some(a), Some(p)) => {
                assert(self.seats()[a as int] == self.table@[a as int].state.view());
                assert(self.seats()[p as int] == self.table@[p as int].state.view());
                let sub_id = self.table[a].state.id;
                let sup_id = self.table[p].state.id;
                let top = self.table[a].state.top_k_cards(num_cards);
                let m = top.len();
                let mut j: usize = 0;
                while j < m
                    invariant
                        m == top@.len(),
                        j <= m,
                        events@.len() == j,
                        forall|t: int|
                            0 <= t < j ==> #[trigger] events@[t] == (Event {
                                player_id: sub_id,
                                action: Action::SendCard { to: sup_id, card: top@[t] },
                            }),
                    decreases m - j,
                {
                    events.push(
                        Event {
                            player_id: sub_id,
                            action: Action::SendCard { to: sup_id, card: top[j] },
                        },
                    );
                    j = j + 1;
                }
                let hand_len = self.table[p].state.current_hand.len();
                let ghost sup_hand = self.seats()[p as int].3;
                let mut sent: Vec<Card> = Vec::new();
                let mut round: usize = 0;
                while round < num_cards
                    invariant
                        p < self.table@.len(),
                        self.table@.len() == old(self).table@.len(),
                        self.seats() == seats0,
                        st0 == old(self).strategies(),
                        self.strategies().len() == st0.len(),
                        forall|j: int|
                            0 <= j < st0.len() && j != p ==> #[trigger] self.strategies()[j] == st0[j],
                        self.top_card == old(self).top_card,
                        self.history == old(self).history,
                        self.role_scheme == old(self).role_scheme,
                        sup_hand == seats0[p as int].3,
                        hand_len == sup_hand.len(),
                        round <= num_cards,
                        m == top@.len(),
                        events@.len() == m + round,
                        sent@.len() == round,
                        forall|t: int|
                            0 <= t < m ==> #[trigger] events@[t] == (Event {
                                player_id: sub_id,
                                action: Action::SendCard { to: sup_id, card: top@[t] },
                            }),
                        forall|t: int|
                            0 <= t < round ==> #[trigger] events@[m + t] == (Event {
                                player_id: sup_id,
                                action: Action::SendCard { to: sub_id, card: sent@[t] },
                            }),
                        forall|t: int| 0 <= t < round ==> sup_hand.contains(#[trigger] sent@[t]),
                        sent@.no_duplicates(),
                    ensures
                        events@.len() < m + num_cards ==> forall|c: Card|
                            sup_hand.contains(c) ==> #[trigger] sent@.contains(c),
                    decreases num_cards - round,
                {
                    let mut available: Vec<Action> = Vec::new();
                    let mut h: usize = 0;
                    while h < hand_len
                        invariant
                            p < self.table@.len(),
                            self.seats() == seats0,
                            sup_hand == seats0[p as int].3,
                            hand_len == sup_hand.len(),
                            h <= hand_len,
                            forall|t: int|
                                0 <= t < available@.len() ==> (#[trigger] available@[t]) is SendCard
                                    && available@[t]->to == sub_id && sup_hand.contains(
                                    available@[t]->SendCard_card,
                                ) && !sent@.contains(available@[t]->SendCard_card),
                            forall|t: int|
                                0 <= t < h ==> sent@.contains(#[trigger] sup_hand[t]) || available@.contains(
                                    Action::SendCard { to: sub_id, card: sup_hand[t] },
                                ),
                        decreases hand_len - h,
                    {
                        assert(self.seats()[p as int] == self.table@[p as int].state.view());
                        let card = self.table[p].state.current_hand[h];
                        let ghost before = available@;
                        if !listed_card(&sent, &card) {
                            available.push(Action::SendCard { to: sub_id, card });
                            proof {
                                assert(available@[before.len() as int] == (Action::SendCard {
                                    to: sub_id,
                                    card,
                                }));
                                assert forall|t: int|
                                    0 <= t < h + 1 implies sent@.contains(#[trigger] sup_hand[t])
                                        || available@.contains(
                                        Action::SendCard { to: sub_id, card: sup_hand[t] },
                                    ) by {
                                    if t < h && !sent@.contains(sup_hand[t]) {
                                        let w = choose|w: int|
                                            0 <= w < before.len() && before[w] == (
                                            Action::SendCard { to: sub_id, card: sup_hand[t] });
                                        assert(available@[w] == before[w]);
                                    }
                                }
                            }
                        }
                        h = h + 1;
                    }
                    if available.len() == 0 {
                        proof {
                            assert forall|c: Card| sup_hand.contains(c) implies sent@.contains(c) by {
                                let t = choose|t: int| 0 <= t < sup_hand.len() && sup_hand[t] == c;
                                assert(sent@.contains(sup_hand[t]) || available@.contains(
                                    Action::SendCard { to: sub_id, card: sup_hand[t] },
                                ));
                            }
                        }
                        break;
                    }
                    let ghost before = self.seats();
                    let ghost before_st = self.strategies();
                    let ghost before_table = self.table@;
                    let player = &mut self.table[p];
                    let action = player.strategy.select_action(
                        &player.state,
                        &public_info,
                        available.as_slice(),
                    );
                    proof {
                        assert forall|j: int| 0 <= j < st0.len() && j != p implies #[trigger] self.strategies()[j]
                            == st0[j] by {
                            assert(self.strategies()[j] == self.table@[j].strategy);
                            assert(before_st[j] == before_table[j].strategy);
                        }
                        assert(self.seats() =~= before) by {
                            assert forall|t: int| 0 <= t < self.seats().len() implies
                                #[trigger] self.seats()[t] == before[t] by {
                                assert(self.seats()[t] == self.table@[t].state.view());
                            }
                        }
                        let w = choose|w: int| 0 <= w < available@.len() && available@[w] == action;
                        assert(available@[w] is SendCard);
                    }
                    if let Action::SendCard { card, .. } = action {
                        let ghost old_sent = sent@;
                        sent.push(card);
                        proof {
                            assert(sent@ == old_sent.push(card));
                            assert(!old_sent.contains(card));
                            assert forall|x: int, y: int|
                                0 <= x < sent@.len() && 0 <= y < sent@.len() && x != y implies sent@[x]
                                != sent@[y] by {
                                if x == old_sent.len() as int {
                                    assert(old_sent[y] == sent@[y]);
                                } else if y == old_sent.len() as int {
                                    assert(old_sent[x] == sent@[x]);
                                }
                            }
                        }
                    }
                    events.push(Event { player_id: sup_id, action });
                    round = round + 1;
                }
                proof {
                    let sub_hand = seats0[a as int].3;
                    assert(top@.len() == min_len(num_cards as nat, sub_hand.len()));
                    assert(Seq::new(top@.len(), |t: int| events@[t].action->SendCard_card) =~= top@);
                    assert forall|t: int| 0 <= t < events@.len() implies (#[trigger] events@[t]).action is SendCard by {
                        if t >= m {
                            let t0 = t - m;
                            assert(events@[m + t0].action is SendCard);
                        }
                    }
                    assert forall|a2: int, p2: int|
                        first_with_role(seats0, asshole_role, a2) && first_with_role(
                            seats0,
                            president_role,
                            p2,
                        ) implies #[trigger] is_exchange(seats0, a2, p2, num_cards as nat, events@) by {
                        assert(a2 == a);
                        assert(p2 == p);
                        let k = num_cards as nat;
                        assert forall|t: int| m <= t < events@.len() implies #[trigger] events@[t]
                            == (Event {
                            player_id: sup_id,
                            action: Action::SendCard { to: sub_id, card: sent@[t - m] },
                        }) by {
                            let t0 = t - m;
                            assert(events@[m + t0] == (Event {
                                player_id: sup_id,
                                action: Action::SendCard { to: sub_id, card: sent@[t0] },
                            }));
                        }
                        assert forall|t: int| m <= t < events@.len() implies seats0[p as int].3.contains(
                            (#[trigger] events@[t]).action->SendCard_card,
                        ) by {
                            assert(sup_hand.contains(sent@[t - m]));
                        }
                        let sub = seats0[a as int];
                        let sup = seats0[p as int];
                        let mm = min_len(k, sub.3.len());
                        assert(mm == m);
                        let given = Seq::new(mm, |t: int| events@[t].action->SendCard_card);
                        let returned = Seq::new((events@.len() - mm) as nat, |t: int| events@[mm + t].action->SendCard_card);
                        assert(returned =~= sent@);
                        assert(given =~= top@);
                    }
                }
            },
            _ => {},
        }
        self.apply_sends(&events);
        events
    }

    /// The exchange before a round: Asshole to President (two cards), then
    /// ViceAsshole to VicePresident (one card) on the table as the first exchange
    /// left it; then the table turns so that the holder of the starting card is
    /// in front. Returns the transfers of both exchanges, in order. Strategies
    /// move with their seats; only the strategies of the President and the
    /// VicePresident, which choose cards to hand back, may change.
    pub fn run_pregame(&mut self) -> (r: Vec<Event>)
        ensures
            exists|n1: int|
                0 <= n1 <= r@.len() && exchange_result(
                    old(self).seats(),
                    Role::Asshole,
                    Role::President,
                    2,
                    #[trigger] r@.subrange(0, n1),
                ) && exchange_result(
                    apply_events(old(self).seats(), r@.subrange(0, n1)),
                    Role::ViceAsshole,
                    Role::VicePresident,
                    1,
                    r@.subrange(n1, r@.len() as int),
                ),
            (forall|i: int| 0 <= i < old(self).seats().len() ==> (#[trigger] old(self).seats()[i]).2 is None)
                ==> r@.len() == 0,
            exists|mid: Seq<S>|
                #[trigger] keeps_non_choosers(old(self).seats(), old(self).strategies(), mid) && (
                starting_card(apply_events(old(self).seats(), r@)) is Some ==> exists|i: int|
                    is_starting_seat(apply_events(old(self).seats(), r@), i) && final(self).seats()
                        == rotate(apply_events(old(self).seats(), r@), i) && final(self).strategies()
                        == rotate(mid, i)) && (starting_card(apply_events(old(self).seats(), r@)) is None
                    ==> final(self).seats() == apply_events(old(self).seats(), r@)
                    && final(self).strategies() == mid),
            final(self).top_card == old(self).top_card,
            final(self).history == old(self).history,
            final(self).role_scheme == old(self).role_scheme,
            forall|j: int| 0 <= j < r@.len() ==> (#[trigger] r@[j]).action is SendCard,
            r@.len() <= 6,
    {
        let ghost s0 = self.seats();
        let ghost st0 = self.strategies();
        let mut events = self.swap_cards_by_role(Role::Asshole, Role::President, 2);
        let ghost s1 = self.seats();
        let ghost st1 = self.strategies();
        let ghost e1 = events@;
        let mut more = self.swap_cards_by_role(Role::ViceAsshole, Role::VicePresident, 1);
        let ghost e2 = more@;
        let ghost mid = self.strategies();
        events.append(&mut more);
        proof {
            lemma_apply_events_concat(s0, e1, e2);
            assert(events@ == e1 + e2);
            assert(events@.subrange(0, e1.len() as int) =~= e1);
            assert(events@.subrange(e1.len() as int, events@.len() as int) =~= e2);
            assert forall|j: int| 0 <= j < events@.len() implies (#[trigger] events@[j]).action is SendCard by {
                if j >= e1.len() {
                    assert(events@[j] == e2[j - e1.len()]);
                }
            }
            lemma_apply_events_keeps_roles(s0, e1);
            assert forall|j: int|
                0 <= j < mid.len() && s0[j].2 != Some(Role::President) && s0[j].2 != Some(
                    Role::VicePresident,
                ) implies #[trigger] mid[j] == st0[j] by {
                if first_with_role(s0, Role::President, j) {
                }
                if first_with_role(s1, Role::VicePresident, j) {
                    assert(s1[j].2 == s0[j].2);
                }
                assert(st1[j] == st0[j]);
            }
            if forall|i: int| 0 <= i < s0.len() ==> (#[trigger] s0[i]).2 is None {
                assert(!role_filled(s0, Role::Asshole));
                assert(e1.len() == 0);
                assert(apply_events(s0, e1) == s0);
                assert(!role_filled(s1, Role::ViceAsshole));
            }
        }
        assert(self.seats() == apply_events(s0, events@));
        assert(self.strategies() == mid);
        if self.find_starting_card().is_some() {
            self.set_starting_player();
        }
        assert(keeps_non_choosers(s0, st0, mid));
        events
    }
}

} // verus!
