use vstd::prelude::*;
use itertools::Itertools;
use crate::card::Card;
use crate::card_play::{CardPlay, lemma_play_of_cards, play_of_cards, same_rank};

verus! {

/// `c` lists `k` distinct positions below `n`, in increasing order.
pub open spec fn is_index_combination(c: Seq<usize>, n: nat, k: nat) -> bool {
    &&& c.len() == k
    &&& forall|i: int| 0 <= i < c.len() ==> #[trigger] c[i] < n
    &&& forall|i: int, j: int| 0 <= i < j < c.len() ==> c[i] < c[j]
}

/// The cards of `hand` at the positions listed in `c`.
pub open spec fn pick(hand: Seq<Card>, c: Seq<usize>) -> Seq<Card> {
    c.map_values(|i: usize| hand[i as int])
}

/// `cp` is a group of `k` cards of one rank taken from distinct positions of `hand`.
pub open spec fn is_group_of(hand: Seq<Card>, k: nat, cp: CardPlay) -> bool {
    exists|c: Seq<usize>|
        #![trigger is_index_combination(c, hand.len(), k)]
        is_index_combination(c, hand.len(), k) && same_rank(pick(hand, c)) && cp.spec_cards()
            == pick(hand, c)
}

/// `hand` without the first copy of `c` (unchanged when `c` is absent).
pub open spec fn remove_one(hand: Seq<Card>, c: Card) -> Seq<Card> {
    if hand.contains(c) {
        let i = choose|i: int|
            0 <= i < hand.len() && hand[i] == c && forall|j: int| 0 <= j < i ==> hand[j] != c;
        hand.remove(i)
    } else {
        hand
    }
}

/// A card that occurs in `s` has a first occurrence.
pub proof fn lemma_first_occurrence(s: Seq<Card>, c: Card, k: int)
    requires
        0 <= k < s.len(),
        s[k] == c,
    ensures
        exists|i: int| 0 <= i < s.len() && s[i] == c && forall|j: int| 0 <= j < i ==> s[j] != c,
    decreases k,
{
    if exists|j: int| 0 <= j < k && s[j] == c {
        let j = choose|j: int| 0 <= j < k && s[j] == c;
        lemma_first_occurrence(s, c, j);
    } else {
        assert(forall|j: int| 0 <= j < k ==> s[j] != c);
    }
}

/// `hand` after removing one copy of each card of `cards`, in order.
pub open spec fn remove_all(hand: Seq<Card>, cards: Seq<Card>) -> Seq<Card>
    decreases cards.len(),
{
    if cards.len() == 0 {
        hand
    } else {
        remove_all(remove_one(hand, cards[0]), cards.drop_first())
    }
}

/// `hand` holds a copy of each card of `cards` (counting repeats).
pub open spec fn holds_all(hand: Seq<Card>, cards: Seq<Card>) -> bool
    decreases cards.len(),
{
    cards.len() == 0 || (hand.contains(cards[0]) && holds_all(
        remove_one(hand, cards[0]),
        cards.drop_first(),
    ))
}

/// What itertools' `Itertools::combinations` yields for `k` of the positions
/// `0..n`, in the order it yields them.
pub uninterp spec fn combinations_of(n: nat, k: nat) -> Seq<Seq<usize>>;

/// Relies on itertools' `Itertools::combinations` over `0..n`: it yields every
/// `k`-element selection of the positions below `n`, each once and in
/// increasing order.
#[verifier::external_body]
fn index_combinations(n: usize, k: usize) -> (r: Vec<Vec<usize>>)
    ensures
        forall|i: int|
            0 <= i < r@.len() ==> is_index_combination(#[trigger] r@[i]@, n as nat, k as nat),
        forall|c: Seq<usize>|
            is_index_combination(c, n as nat, k as nat) ==> exists|i: int|
                0 <= i < r@.len() && #[trigger] r@[i]@ == c,
        forall|i: int, j: int| 0 <= i < j < r@.len() ==> (#[trigger] r@[i])@ != (#[trigger] r@[j])@,
        views_of(r@) == combinations_of(n as nat, k as nat),
{
    (0..n).combinations(k).collect()
}

/// From a hand without repeated cards, distinct selections of positions pick
/// distinct cards.
pub proof fn lemma_pick_injective(hand: Seq<Card>, c1: Seq<usize>, c2: Seq<usize>, k: nat)
    requires
        hand.no_duplicates(),
        is_index_combination(c1, hand.len(), k),
        is_index_combination(c2, hand.len(), k),
        pick(hand, c1) == pick(hand, c2),
    ensures
        c1 == c2,
{
    assert forall|t: int| 0 <= t < c1.len() implies c1[t] == c2[t] by {
        assert(pick(hand, c1)[t] == hand[c1[t] as int]);
        assert(pick(hand, c2)[t] == hand[c2[t] as int]);
    }
    assert(c1 =~= c2);
}

/// Two groups with the same cards are the same group.
pub proof fn lemma_cards_determine_play(a: CardPlay, b: CardPlay)
    requires
        a.spec_cards() == b.spec_cards(),
    ensures
        a == b,
{
    let sa = a.spec_cards();
    let sb = b.spec_cards();
    assert(sa.len() == sb.len());
    match a {
        CardPlay::Single(x) => {
            assert(sb[0] == x);
        },
        CardPlay::Pair(x, y) => {
            assert(sb[0] == x && sb[1] == y);
        },
        CardPlay::Triple(x, y, z) => {
            assert(sb[0] == x && sb[1] == y && sb[2] == z);
        },
        CardPlay::Quad(x, y, z, w) => {
            assert(sb[0] == x && sb[1] == y && sb[2] == z && sb[3] == w);
        },
    }
}

fn cards_at(hand: &[Card], c: &Vec<usize>) -> (r: Vec<Card>)
    requires
        forall|i: int| 0 <= i < c@.len() ==> #[trigger] c@[i] < hand@.len(),
    ensures
        r@ == pick(hand@, c@),
{
    let mut r: Vec<Card> = Vec::new();
    let mut i: usize = 0;
    while i < c.len()
        invariant
            forall|j: int| 0 <= j < c@.len() ==> #[trigger] c@[j] < hand@.len(),
            i <= c@.len(),
            r@ == pick(hand@, c@.subrange(0, i as int)),
        decreases c@.len() - i,
    {
        r.push(hand[c[i]]);
        i = i + 1;
        assert(pick(hand@, c@.subrange(0, i as int)) =~= pick(hand@, c@.subrange(0, i - 1)).push(
            hand@[c@[i - 1] as int],
        ));
    }
    assert(c@.subrange(0, c@.len() as int) =~= c@);
    r
}

/// Whether all cards of `cards` share one rank.
pub fn all_same_rank(cards: &[Card]) -> (r: bool)
    ensures
        r == same_rank(cards@),
{
    if cards.len() == 0 {
        return true;
    }
    let rank = cards[0].rank;
    let mut i: usize = 1;
    while i < cards.len()
        invariant
            cards@.len() > 0,
            rank == cards@[0].rank,
            1 <= i <= cards@.len(),
            forall|j: int| 0 <= j < i ==> #[trigger] cards@[j].rank == rank,
        decreases cards@.len() - i,
    {
        if cards[i].rank != rank {
            return false;
        }
        i = i + 1;
    }
    true
}

/// Groups of one rank made from `combos`, in order: for each selection of
/// positions whose cards share a rank, the group of those cards.
pub open spec fn plays_from(hand: Seq<Card>, combos: Seq<Seq<usize>>) -> Seq<CardPlay>
    decreases combos.len(),
{
    if combos.len() == 0 {
        Seq::empty()
    } else {
        let r = plays_from(hand, combos.drop_last());
        let c = pick(hand, combos.last());
        if same_rank(c) {
            r.push(play_of_cards(c))
        } else {
            r
        }
    }
}

/// The views of a list of position lists.
pub open spec fn views_of(combos: Seq<Vec<usize>>) -> Seq<Seq<usize>> {
    combos.map_values(|v: Vec<usize>| v@)
}

/// The groups of one rank that `hand` forms at the selections `combos`, in the
/// order of `combos`.
pub fn plays_from_combinations(hand: &[Card], combos: &Vec<Vec<usize>>, k: usize) -> (r: Vec<
    CardPlay,
>)
    requires
        1 <= k <= 4,
        forall|j: int|
            0 <= j < combos@.len() ==> is_index_combination(
                #[trigger] combos@[j]@,
                hand@.len(),
                k as nat,
            ),
    ensures
        r@ == plays_from(hand@, views_of(combos@)),
        forall|cp: CardPlay| r@.contains(cp) ==> is_group_of(hand@, k as nat, cp),
        forall|j: int|
            0 <= j < combos@.len() && same_rank(pick(hand@, #[trigger] combos@[j]@)) ==> r@.contains(
                play_of_cards(pick(hand@, combos@[j]@)),
            ),
        hand@.no_duplicates() && (forall|x: int, y: int|
            0 <= x < y < combos@.len() ==> (#[trigger] combos@[x])@ != (#[trigger] combos@[y])@)
            ==> r@.no_duplicates(),
{
    let ghost views = views_of(combos@);
    let mut out: Vec<CardPlay> = Vec::new();
    let mut i: usize = 0;
    while i < combos.len()
        invariant
            1 <= k <= 4,
            i <= combos@.len(),
            views == views_of(combos@),
            forall|j: int|
                0 <= j < combos@.len() ==> is_index_combination(
                    #[trigger] combos@[j]@,
                    hand@.len(),
                    k as nat,
                ),
            out@ == plays_from(hand@, views.subrange(0, i as int)),
            forall|cp: CardPlay| out@.contains(cp) ==> is_group_of(hand@, k as nat, cp),
            forall|j: int|
                0 <= j < i && same_rank(pick(hand@, #[trigger] combos@[j]@)) ==> out@.contains(
                    play_of_cards(pick(hand@, combos@[j]@)),
                ),
            forall|q: int|
                0 <= q < out@.len() ==> exists|j: int|
                    0 <= j < i && (#[trigger] out@[q]).spec_cards() == pick(hand@, combos@[j]@),
            hand@.no_duplicates() && (forall|x: int, y: int|
                0 <= x < y < combos@.len() ==> (#[trigger] combos@[x])@ != (#[trigger] combos@[y])@)
                ==> out@.no_duplicates(),
        decreases combos@.len() - i,
    {
        let combo = &combos[i];
        assert(is_index_combination(combos@[i as int]@, hand@.len(), k as nat));
        proof {
            let v1 = views.subrange(0, i + 1);
            assert(v1.drop_last() =~= views.subrange(0, i as int));
            assert(v1.last() == combos@[i as int]@);
        }
        let cards = cards_at(hand, combo);
        if all_same_rank(cards.as_slice()) {
            let cp = CardPlay::from_cards(cards.as_slice());
            let ghost old_out = out@;
            out.push(cp);
            assert(out@ == old_out.push(cp));
            assert(out@[old_out.len() as int] == cp);
            assert forall|q: CardPlay| out@.contains(q) implies is_group_of(hand@, k as nat, q) by {
                if q != cp {
                    let w = choose|w: int| 0 <= w < out@.len() && out@[w] == q;
                    assert(old_out[w] == q);
                    assert(old_out.contains(q));
                } else {
                    assert(combo@ == combos@[i as int]@);
                    assert(is_index_combination(combo@, hand@.len(), k as nat));
                    assert(same_rank(pick(hand@, combo@)));
                    assert(q.spec_cards() == pick(hand@, combo@));
                }
            }
            assert forall|j: int|
                0 <= j < i + 1 && same_rank(pick(hand@, #[trigger] combos@[j]@)) implies out@.contains(
                    play_of_cards(pick(hand@, combos@[j]@)),
                ) by {
                if j < i {
                    let q = play_of_cards(pick(hand@, combos@[j]@));
                    let w = choose|w: int| 0 <= w < old_out.len() && old_out[w] == q;
                    assert(out@[w] == q);
                }
            }
            assert forall|q: int| 0 <= q < out@.len() implies exists|j: int|
                0 <= j < i + 1 && (#[trigger] out@[q]).spec_cards() == pick(hand@, combos@[j]@) by {
                if q < old_out.len() {
                    assert(out@[q] == old_out[q]);
                    let j = choose|j: int|
                        0 <= j < i && old_out[q].spec_cards() == pick(hand@, combos@[j]@);
                } else {
                    assert(out@[q] == cp);
                    assert(cp.spec_cards() == pick(hand@, combos@[i as int]@));
                }
            }
            proof {
                if hand@.no_duplicates() && (forall|x: int, y: int|
                    0 <= x < y < combos@.len() ==> (#[trigger] combos@[x])@ != (
                    #[trigger] combos@[y])@) {
                    assert forall|x: int, y: int|
                        0 <= x < out@.len() && 0 <= y < out@.len() && x != y implies out@[x]
                        != out@[y] by {
                        if y == old_out.len() as int || x == old_out.len() as int {
                            let z = if y == old_out.len() as int {
                                x
                            } else {
                                y
                            };
                            assert(out@[z] == old_out[z]);
                            let j = choose|j: int|
                                0 <= j < i && old_out[z].spec_cards() == pick(hand@, combos@[j]@);
                            if old_out[z] == cp {
                                assert(is_index_combination(combos@[j]@, hand@.len(), k as nat));
                                lemma_pick_injective(
                                    hand@,
                                    combos@[j]@,
                                    combos@[i as int]@,
                                    k as nat,
                                );
                            }
                        } else {
                            assert(out@[x] == old_out[x]);
                            assert(out@[y] == old_out[y]);
                        }
                    }
                }
            }
        }
        i = i + 1;
    }
    assert(views.subrange(0, i as int) =~= views);
    out
}

/// Every group of `k` cards of one rank that `hand` can form, one per choice of
/// positions, in the order in which the positions are enumerated.
pub fn card_plays_for_size(hand: &[Card], k: usize) -> (r: Vec<CardPlay>)
    requires
        1 <= k <= 4,
    ensures
        forall|cp: CardPlay| r@.contains(cp) <==> is_group_of(hand@, k as nat, cp),
        hand@.no_duplicates() ==> r@.no_duplicates(),
        r@ == plays_from(hand@, combinations_of(hand@.len(), k as nat)),
{
    let combos = index_combinations(hand.len(), k);
    let out = plays_from_combinations(hand, &combos, k);
    assert forall|cp: CardPlay| is_group_of(hand@, k as nat, cp) implies out@.contains(cp) by {
        let c = choose|c: Seq<usize>|
            is_index_combination(c, hand@.len(), k as nat) && same_rank(pick(hand@, c))
                && cp.spec_cards() == pick(hand@, c);
        let j = choose|j: int| 0 <= j < combos@.len() && #[trigger] combos@[j]@ == c;
        let q = play_of_cards(pick(hand@, combos@[j]@));
        lemma_play_of_cards(pick(hand@, c));
        lemma_cards_determine_play(q, cp);
    }
    out
}

/// Every single card of `hand`.
pub fn singles(hand: &[Card]) -> (r: Vec<CardPlay>)
    ensures
        forall|cp: CardPlay| r@.contains(cp) <==> is_group_of(hand@, 1, cp),
        hand@.no_duplicates() ==> r@.no_duplicates(),
{
    card_plays_for_size(hand, 1)
}

/// Every pair of same-rank cards of `hand`.
pub fn pairs(hand: &[Card]) -> (r: Vec<CardPlay>)
    ensures
        forall|cp: CardPlay| r@.contains(cp) <==> is_group_of(hand@, 2, cp),
        hand@.no_duplicates() ==> r@.no_duplicates(),
{
    card_plays_for_size(hand, 2)
}

/// Every triple of same-rank cards of `hand`.
pub fn triples(hand: &[Card]) -> (r: Vec<CardPlay>)
    ensures
        forall|cp: CardPlay| r@.contains(cp) <==> is_group_of(hand@, 3, cp),
        hand@.no_duplicates() ==> r@.no_duplicates(),
{
    card_plays_for_size(hand, 3)
}

/// Every quad of same-rank cards of `hand`.
pub fn quads(hand: &[Card]) -> (r: Vec<CardPlay>)
    ensures
        forall|cp: CardPlay| r@.contains(cp) <==> is_group_of(hand@, 4, cp),
        hand@.no_duplicates() ==> r@.no_duplicates(),
{
    card_plays_for_size(hand, 4)
}

/// Whether `hand` holds `card`.
pub fn hand_contains(hand: &[Card], card: &Card) -> (r: bool)
    ensures
        r == hand@.contains(*card),
{
    let mut i: usize = 0;
    while i < hand.len()
        invariant
            i <= hand@.len(),
            forall|j: int| 0 <= j < i ==> hand@[j] != *card,
        decreases hand@.len() - i,
    {
        if hand[i] == *card {
            assert(hand@[i as int] == *card);
            return true;
        }
        i = i + 1;
    }
    false
}

/// Removes the first copy of `card` from `hand`; returns whether there was one.
#[verifier::rlimit(40)]
pub fn remove_card(hand: &mut Vec<Card>, card: &Card) -> (r: bool)
    ensures
        r == old(hand)@.contains(*card),
        final(hand)@ == remove_one(old(hand)@, *card),
{
    let mut i: usize = 0;
    while i < hand.len()
        invariant
            hand@ == old(hand)@,
            i <= hand@.len(),
            forall|j: int| 0 <= j < i ==> hand@[j] != *card,
        decreases hand@.len() - i,
    {
        if hand[i] == *card {
            let ghost h = hand@;
            proof {
                let w = choose|w: int|
                    0 <= w < h.len() && h[w] == *card && forall|j: int| 0 <= j < w ==> h[j] != *card;
                assert(h.contains(*card));
                assert(w == i);
            }
            hand.remove(i);
            return true;
        }
        i = i + 1;
    }
    assert(!hand@.contains(*card));
    false
}

/// Removes one copy of each card of `cards` from `hand`, in order.
pub fn remove_cards(hand: &mut Vec<Card>, cards: &[Card])
    requires
        holds_all(old(hand)@, cards@),
    ensures
        final(hand)@ == remove_all(old(hand)@, cards@),
{
    let mut i: usize = 0;
    assert(cards@.subrange(0, cards@.len() as int) =~= cards@);
    while i < cards.len()
        invariant
            i <= cards@.len(),
            holds_all(hand@, cards@.subrange(i as int, cards@.len() as int)),
            remove_all(hand@, cards@.subrange(i as int, cards@.len() as int)) == remove_all(
                old(hand)@,
                cards@,
            ),
        decreases cards@.len() - i,
    {
        let ghost rest = cards@.subrange(i as int, cards@.len() as int);
        assert(rest[0] == cards@[i as int]);
        assert(rest.drop_first() =~= cards@.subrange(i + 1, cards@.len() as int));
        remove_card(hand, &cards[i]);
        i = i + 1;
    }
    assert(cards@.subrange(0, cards@.len() as int) =~= cards@);
}

} // verus!
