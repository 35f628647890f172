use vstd::prelude::*;
use itertools::Itertools;
use crate::card::Card;

verus! {

/// Social rank of a player, assigned from the finishing order of the last round.
#[derive(Clone, Copy, Debug, PartialEq, Eq, Hash, Structural)]
pub enum Role {
    President,
    VicePresident,
    Secretary,
    ViceAsshole,
    Asshole,
}

/// What the game knows of one player: a stable identity, a name, the role of
/// the last round and the cards in hand.
#[derive(Debug)]
pub struct PlayerState {
    pub id: u128,
    pub name: String,
    pub role: Option<Role>,
    pub current_hand: Vec<Card>,
}

/// What every player may see of another: everything but the cards themselves.
#[derive(Debug)]
pub struct PublicPlayerState {
    pub id: u128,
    pub name: String,
    pub role: Option<Role>,
    pub hand_size: usize,
}

/// A player's state as plain values: id, name, role and hand.
pub type SeatView = (u128, Seq<char>, Option<Role>, Seq<Card>);

/// Relies on uuid's `Uuid::new_v4`: a random identity, read as its 128-bit value.
#[verifier::external_body]
fn fresh_id() -> (r: u128) {
    uuid::Uuid::new_v4().as_u128()
}

/// `a` comes no later than `b` in lexicographic order.
pub open spec fn pair_le(a: (usize, usize), b: (usize, usize)) -> bool {
    a.0 < b.0 || (a.0 == b.0 && a.1 <= b.1)
}

/// `r` lists cards of `hand` taken from the distinct positions `idx`.
pub open spec fn is_selection(hand: Seq<Card>, r: Seq<Card>, idx: Seq<int>) -> bool {
    &&& idx.len() == r.len()
    &&& forall|j: int| 0 <= j < idx.len() ==> 0 <= #[trigger] idx[j] < hand.len() && r[j] == hand[idx[j]]
    &&& forall|a: int, b: int| 0 <= a < idx.len() && 0 <= b < idx.len() && a != b ==> idx[a] != idx[b]
}

/// `r` holds cards from distinct positions of `hand`, and no card left behind
/// is stronger than any card taken.
pub open spec fn is_strongest(hand: Seq<Card>, r: Seq<Card>) -> bool {
    exists|idx: Seq<int>|
        is_selection(hand, r, idx) && forall|i: int, j: int|
            0 <= i < hand.len() && !idx.contains(i) && 0 <= j < r.len() ==> (#[trigger] hand[i]).spec_value()
                <= (#[trigger] r[j]).spec_value()
}

/// `r` holds cards from distinct positions of `hand`, and no card left behind
/// is weaker than any card taken.
pub open spec fn is_weakest(hand: Seq<Card>, r: Seq<Card>) -> bool {
    exists|idx: Seq<int>|
        is_selection(hand, r, idx) && forall|i: int, j: int|
            0 <= i < hand.len() && !idx.contains(i) && 0 <= j < r.len() ==> (#[trigger] hand[i]).spec_value()
                >= (#[trigger] r[j]).spec_value()
}

/// The smaller of `k` and `n`.
pub open spec fn min_len(k: nat, n: nat) -> nat {
    if k < n {
        k
    } else {
        n
    }
}

/// Relies on itertools' `Itertools::sorted`: the same elements, in ascending
/// (lexicographic) order.
#[verifier::external_body]
fn sorted_pairs(v: Vec<(usize, usize)>) -> (r: Vec<(usize, usize)>)
    ensures
        r@.to_multiset() == v@.to_multiset(),
        forall|i: int, j: int| 0 <= i < j < r@.len() ==> pair_le(#[trigger] r@[i], #[trigger] r@[j]),
{
    v.into_iter().sorted().collect()
}

/// Position `i` appears as the second component of some entry of `r`.
pub open spec fn listed(r: Seq<(usize, usize)>, i: int) -> bool {
    exists|p: int| 0 <= p < r.len() && (#[trigger] r[p]).1 == i
}

/// The positions of `hand`, each paired with its card's value, sorted by value
/// and then by position.
fn positions_by_value(hand: &Vec<Card>) -> (r: Vec<(usize, usize)>)
    ensures
        r@.len() == hand@.len(),
        forall|p: int|
            0 <= p < r@.len() ==> (#[trigger] r@[p]).1 < hand@.len() && r@[p].0
                == hand@[r@[p].1 as int].spec_value(),
        forall|i: int| 0 <= i < hand@.len() ==> #[trigger] listed(r@, i),
        forall|p: int, q: int| 0 <= p < r@.len() && 0 <= q < r@.len() && p != q ==> (#[trigger] r@[p]).1 != (#[trigger] r@[q]).1,
        forall|i: int, j: int| 0 <= i < j < r@.len() ==> pair_le(#[trigger] r@[i], #[trigger] r@[j]),
{
    let mut keys: Vec<(usize, usize)> = Vec::new();
    let mut i: usize = 0;
    while i < hand.len()
        invariant
            i <= hand@.len(),
            keys@.len() == i,
            forall|j: int| 0 <= j < i ==> #[trigger] keys@[j] == (hand@[j].spec_value() as usize, j as usize),
            forall|j: int| 0 <= j < i ==> hand@[j].spec_value() <= 13,
        decreases hand@.len() - i,
    {
        keys.push((hand[i].value(), i));
        i = i + 1;
    }
    let ghost k = keys@;
    assert(k.no_duplicates()) by {
        assert forall|a: int, b: int| 0 <= a < k.len() && 0 <= b < k.len() && a != b implies k[a] != k[b] by {
            assert(k[a].1 == a && k[b].1 == b);
        }
    }
    let r = sorted_pairs(keys);
    proof {
        broadcast use vstd::multiset::group_multiset_axioms;
        k.to_multiset_ensures();
        r@.to_multiset_ensures();
        k.lemma_multiset_has_no_duplicates();
        r@.lemma_multiset_has_no_duplicates_conv();
        assert forall|p: int| 0 <= p < r@.len() implies (#[trigger] r@[p]).1 < hand@.len() && r@[p].0
            == hand@[r@[p].1 as int].spec_value() by {
            assert(r@.to_multiset().count(r@[p]) > 0);
            assert(k.contains(r@[p]));
        }
        assert forall|i: int| 0 <= i < hand@.len() implies #[trigger] listed(r@, i) by {
            assert(k.contains(k[i]));
            assert(k.to_multiset().count(k[i]) > 0);
            assert(r@.to_multiset().count(k[i]) > 0);
            assert(r@.contains(k[i]));
            let p = choose|p: int| 0 <= p < r@.len() && r@[p] == k[i];
            assert(r@[p].1 == i);
        }
        assert forall|p: int, q: int| 0 <= p < r@.len() && 0 <= q < r@.len() && p != q implies (#[trigger] r@[p]).1 != (#[trigger] r@[q]).1 by {
            assert(r@.to_multiset().count(r@[p]) > 0);
            assert(r@.to_multiset().count(r@[q]) > 0);
            assert(k.contains(r@[p]));
            assert(k.contains(r@[q]));
        }
    }
    r
}

impl PlayerState {
    pub open spec fn view(self) -> SeatView {
        (self.id, self.name@, self.role, self.current_hand@)
    }

    /// A player with a freshly drawn random identity.
    pub fn new(name: String, dealt_hand: Vec<Card>, role: Option<Role>) -> (r: PlayerState)
        ensures
            r.name@ == name@,
            r.role == role,
            r.current_hand@ == dealt_hand@,
    {
        PlayerState { id: fresh_id(), name, role, current_hand: dealt_hand }
    }

    pub fn new_with_id(id: u128, name: String, dealt_hand: Vec<Card>, role: Option<Role>) -> (r:
        PlayerState)
        ensures
            r.view() == (id, name@, role, dealt_hand@),
    {
        PlayerState { id, name, role, current_hand: dealt_hand }
    }

    /// The public part of this state.
    pub fn to_public(&self) -> (r: PublicPlayerState)
        ensures
            r.id == self.id,
            r.name@ == self.name@,
            r.role == self.role,
            r.hand_size == self.current_hand@.len(),
    {
        PublicPlayerState {
            id: self.id,
            name: self.name.clone(),
            role: self.role,
            hand_size: self.current_hand.len(),
        }
    }

    /// The `num_cards` strongest cards of the hand (all of them if it holds
    /// fewer), strongest first.
    pub fn top_k_cards(&self, num_cards: usize) -> (r: Vec<Card>)
        ensures
            r@.len() == min_len(num_cards as nat, self.current_hand@.len()),
            forall|a: int, b: int| 0 <= a < b < r@.len() ==> (#[trigger] r@[a]).spec_value() >= (#[trigger] r@[b]).spec_value(),
            is_strongest(self.current_hand@, r@),
    {
        let hand = &self.current_hand;
        let sorted = positions_by_value(hand);
        let n = sorted.len();
        let m = if num_cards < n { num_cards } else { n };
        let mut r: Vec<Card> = Vec::new();
        let mut j: usize = 0;
        while j < m
            invariant
                m <= n,
                n == sorted@.len(),
                n == hand@.len(),
                j <= m,
                r@.len() == j,
                forall|p: int|
                    0 <= p < sorted@.len() ==> (#[trigger] sorted@[p]).1 < hand@.len() && sorted@[p].0
                        == hand@[sorted@[p].1 as int].spec_value(),
                forall|t: int| 0 <= t < j ==> #[trigger] r@[t] == hand@[sorted@[n - 1 - t].1 as int],
            decreases m - j,
        {
            let e = sorted[n - 1 - j];
            assert(e == sorted@[n - 1 - j]);
            r.push(hand[e.1]);
            j = j + 1;
        }
        let ghost idx = Seq::new(m as nat, |t: int| sorted@[n - 1 - t].1 as int);
        proof {
            assert forall|a: int, b: int| 0 <= a < b < r@.len() implies (#[trigger] r@[a]).spec_value() >= (#[trigger] r@[b]).spec_value() by {
                assert(pair_le(sorted@[n - 1 - b], sorted@[n - 1 - a]));
            }
            assert forall|i: int, j2: int|
                0 <= i < hand@.len() && !idx.contains(i) && 0 <= j2 < r@.len()
                    implies (#[trigger] hand@[i]).spec_value() <= (#[trigger] r@[j2]).spec_value() by {
                assert(listed(sorted@, i));
                let p = choose|p: int| 0 <= p < sorted@.len() && (#[trigger] sorted@[p]).1 == i;
                if p >= n - m {
                    assert(idx[n - 1 - p] == i);
                }
                assert(pair_le(sorted@[p], sorted@[n - 1 - j2]));
            }
            assert(is_selection(hand@, r@, idx));
        }
        r
    }

    /// The `num_cards` weakest cards of the hand (all of them if it holds
    /// fewer), weakest first.
    pub fn bottom_k_cards(&self, num_cards: usize) -> (r: Vec<Card>)
        ensures
            r@.len() == min_len(num_cards as nat, self.current_hand@.len()),
            forall|a: int, b: int| 0 <= a < b < r@.len() ==> (#[trigger] r@[a]).spec_value() <= (#[trigger] r@[b]).spec_value(),
            is_weakest(self.current_hand@, r@),
    {
        let hand = &self.current_hand;
        let sorted = positions_by_value(hand);
        let n = sorted.len();
        let m = if num_cards < n { num_cards } else { n };
        let mut r: Vec<Card> = Vec::new();
        let mut j: usize = 0;
        while j < m
            invariant
                m <= n,
                n == sorted@.len(),
                n == hand@.len(),
                j <= m,
                r@.len() == j,
                forall|p: int|
                    0 <= p < sorted@.len() ==> (#[trigger] sorted@[p]).1 < hand@.len() && sorted@[p].0
                        == hand@[sorted@[p].1 as int].spec_value(),
                forall|t: int| 0 <= t < j ==> #[trigger] r@[t] == hand@[sorted@[t].1 as int],
            decreases m - j,
        {
            let e = sorted[j];
            r.push(hand[e.1]);
            j = j + 1;
        }
        let ghost idx = Seq::new(m as nat, |t: int| sorted@[t].1 as int);
        proof {
            assert forall|a: int, b: int| 0 <= a < b < r@.len() implies (#[trigger] r@[a]).spec_value() <= (#[trigger] r@[b]).spec_value() by {
                assert(pair_le(sorted@[a], sorted@[b]));
            }
            assert forall|i: int, j2: int|
                0 <= i < hand@.len() && !idx.contains(i) && 0 <= j2 < r@.len()
                    implies (#[trigger] hand@[i]).spec_value() >= (#[trigger] r@[j2]).spec_value() by {
                assert(listed(sorted@, i));
                let p = choose|p: int| 0 <= p < sorted@.len() && (#[trigger] sorted@[p]).1 == i;
                if p < m {
                    assert(idx[p] == i);
                }
                assert(pair_le(sorted@[j2], sorted@[p]));
            }
            assert(is_selection(hand@, r@, idx));
        }
        r
    }

    /// Two states belong to the same player exactly when their ids match.
    pub fn same_player(&self, other: &PlayerState) -> (r: bool)
        ensures
            r == (self.id == other.id),
    {
        self.id == other.id
    }
}

} // verus!
