use vstd::prelude::*;
use crate::card::{Card, Rank};

verus! {

/// A group of one to four cards played together as one move.
#[derive(Clone, Copy, Debug, PartialEq, Eq, Structural)]
pub enum CardPlay {
    Single(Card),
    Pair(Card, Card),
    Triple(Card, Card, Card),
    Quad(Card, Card, Card, Card),
}

/// The group holding `cards` (one to four of them), in order.
pub open spec fn play_of_cards(cards: Seq<Card>) -> CardPlay {
    if cards.len() == 1 {
        CardPlay::Single(cards[0])
    } else if cards.len() == 2 {
        CardPlay::Pair(cards[0], cards[1])
    } else if cards.len() == 3 {
        CardPlay::Triple(cards[0], cards[1], cards[2])
    } else {
        CardPlay::Quad(cards[0], cards[1], cards[2], cards[3])
    }
}

/// The group built from one to four cards holds exactly those cards.
pub proof fn lemma_play_of_cards(cards: Seq<Card>)
    requires
        1 <= cards.len() <= 4,
    ensures
        play_of_cards(cards).spec_cards() == cards,
{
    assert(play_of_cards(cards).spec_cards() =~= cards);
}

/// All cards of `cards` share one rank.
pub open spec fn same_rank(cards: Seq<Card>) -> bool {
    forall|i: int| 0 <= i < cards.len() ==> #[trigger] cards[i].rank == cards[0].rank
}

impl CardPlay {
    /// The cards of the group, in construction order.
    pub open spec fn spec_cards(self) -> Seq<Card> {
        match self {
            CardPlay::Single(a) => seq![a],
            CardPlay::Pair(a, b) => seq![a, b],
            CardPlay::Triple(a, b, c) => seq![a, b, c],
            CardPlay::Quad(a, b, c, d) => seq![a, b, c, d],
        }
    }

    /// The group's first card, which stands for the whole group.
    pub open spec fn lead(self) -> Card {
        match self {
            CardPlay::Single(a) => a,
            CardPlay::Pair(a, _) => a,
            CardPlay::Triple(a, _, _) => a,
            CardPlay::Quad(a, _, _, _) => a,
        }
    }

    pub open spec fn spec_size(self) -> nat {
        self.spec_cards().len()
    }

    pub open spec fn spec_value(self) -> nat {
        self.lead().spec_value()
    }

    /// A well-formed group holds cards of a single rank.
    pub open spec fn wf(self) -> bool {
        same_rank(self.spec_cards())
    }

    /// `self` may be played on top of `top`: anything goes on an empty table,
    /// otherwise the group must have the same size and a strictly higher value.
    pub open spec fn spec_beats(self, top: Option<CardPlay>) -> bool {
        match top {
            None => true,
            Some(t) => self.spec_size() == t.spec_size() && self.spec_value() > t.spec_value(),
        }
    }

    /// Builds the group holding `cards`, in order.
    pub fn from_cards(cards: &[Card]) -> (r: CardPlay)
        requires
            1 <= cards@.len() <= 4,
            same_rank(cards@),
        ensures
            r.spec_cards() == cards@,
            r == play_of_cards(cards@),
            r.wf(),
    {
        let r = if cards.len() == 1 {
            CardPlay::Single(cards[0])
        } else if cards.len() == 2 {
            CardPlay::Pair(cards[0], cards[1])
        } else if cards.len() == 3 {
            CardPlay::Triple(cards[0], cards[1], cards[2])
        } else {
            CardPlay::Quad(cards[0], cards[1], cards[2], cards[3])
        };
        assert(r.spec_cards() =~= cards@);
        r
    }

    pub fn to_vec(&self) -> (r: Vec<Card>)
        ensures
            r@ == self.spec_cards(),
    {
        let r = match self {
            CardPlay::Single(a) => vec![*a],
            CardPlay::Pair(a, b) => vec![*a, *b],
            CardPlay::Triple(a, b, c) => vec![*a, *b, *c],
            CardPlay::Quad(a, b, c, d) => vec![*a, *b, *c, *d],
        };
        assert(r@ =~= self.spec_cards());
        r
    }

    pub fn size(&self) -> (r: usize)
        ensures
            r == self.spec_size(),
    {
        match self {
            CardPlay::Single(_) => 1,
            CardPlay::Pair(_, _) => 2,
            CardPlay::Triple(_, _, _) => 3,
            CardPlay::Quad(_, _, _, _) => 4,
        }
    }

    fn lead_card(&self) -> (r: Card)
        ensures
            r == self.lead(),
    {
        match self {
            CardPlay::Single(a) => *a,
            CardPlay::Pair(a, _) => *a,
            CardPlay::Triple(a, _, _) => *a,
            CardPlay::Quad(a, _, _, _) => *a,
        }
    }

    /// Value of the group: the value of its cards' rank.
    pub fn value(&self) -> (r: usize)
        ensures
            r == self.spec_value(),
    {
        self.lead_card().value()
    }

    pub fn rank(&self) -> (r: Rank)
        ensures
            r == self.lead().rank,
    {
        self.lead_card().rank
    }

    /// Whether `c` is one of the group's cards.
    pub fn contains_card(&self, c: &Card) -> (r: bool)
        ensures
            r == self.spec_cards().contains(*c),
    {
        let cards = self.to_vec();
        let mut i: usize = 0;
        while i < cards.len()
            invariant
                cards@ == self.spec_cards(),
                i <= cards@.len(),
                forall|j: int| 0 <= j < i ==> cards@[j] != *c,
            decreases cards@.len() - i,
        {
            if cards[i] == *c {
                assert(cards@[i as int] == *c);
                return true;
            }
            i = i + 1;
        }
        false
    }

    /// Whether `self` may be played on top of `top`.
    pub fn beats(&self, top: Option<CardPlay>) -> (r: bool)
        ensures
            r == self.spec_beats(top),
    {
        match top {
            None => true,
            Some(t) => self.size() == t.size() && self.value() > t.value(),
        }
    }
}

/// A group holds one to four cards.
pub proof fn lemma_size_range(cp: CardPlay)
    ensures
        1 <= cp.spec_size() <= 4,
{
}

/// Order of two groups: defined only between groups of the same size, by value.
pub open spec fn play_order(a: CardPlay, b: CardPlay) -> Option<core::cmp::Ordering> {
    if a.spec_size() != b.spec_size() {
        None
    } else if a.spec_value() < b.spec_value() {
        Some(core::cmp::Ordering::Less)
    } else if a.spec_value() > b.spec_value() {
        Some(core::cmp::Ordering::Greater)
    } else {
        Some(core::cmp::Ordering::Equal)
    }
}

impl PartialOrd for CardPlay {
    fn partial_cmp(&self, other: &CardPlay) -> (r: Option<core::cmp::Ordering>) {
        if self.size() != other.size() {
            None
        } else {
            let a = self.value();
            let b = other.value();
            if a < b {
                Some(core::cmp::Ordering::Less)
            } else if a > b {
                Some(core::cmp::Ordering::Greater)
            } else {
                Some(core::cmp::Ordering::Equal)
            }
        }
    }
}

impl vstd::std_specs::cmp::PartialOrdSpecImpl for CardPlay {
    open spec fn obeys_partial_cmp_spec() -> bool {
        true
    }

    open spec fn partial_cmp_spec(&self, other: &CardPlay) -> Option<core::cmp::Ordering> {
        play_order(*self, *other)
    }
}

} // verus!
