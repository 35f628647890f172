use vstd::prelude::*;

verus! {

/// The thirteen ranks of a standard deck, in their natural order (Two lowest).
#[derive(Clone, Copy, Debug, PartialEq, Eq, Hash, Structural)]
pub enum Rank {
    Two,
    Three,
    Four,
    Five,
    Six,
    Seven,
    Eight,
    Nine,
    Ten,
    Jack,
    Queen,
    King,
    Ace,
}

/// The four suits of a standard deck.
#[derive(Clone, Copy, Debug, PartialEq, Eq, Hash, Structural)]
pub enum Suit {
    Spades,
    Hearts,
    Diamonds,
    Clubs,
}

/// Number of ranks in a standard deck.
pub const NUM_RANKS: usize = 13;

/// Number of suits in a standard deck.
pub const NUM_SUITS: usize = 4;

/// Number of cards in a standard deck.
pub const DECK_SIZE: usize = 52;

impl Rank {
    /// Position of the rank in its natural order: Two is 0, Ace is 12.
    pub open spec fn spec_ordinal(self) -> nat {
        match self {
            Rank::Two => 0,
            Rank::Three => 1,
            Rank::Four => 2,
            Rank::Five => 3,
            Rank::Six => 4,
            Rank::Seven => 5,
            Rank::Eight => 6,
            Rank::Nine => 7,
            Rank::Ten => 8,
            Rank::Jack => 9,
            Rank::Queen => 10,
            Rank::King => 11,
            Rank::Ace => 12,
        }
    }

    pub fn ordinal(&self) -> (r: usize)
        ensures
            r == self.spec_ordinal(),
    {
        match self {
            Rank::Two => 0,
            Rank::Three => 1,
            Rank::Four => 2,
            Rank::Five => 3,
            Rank::Six => 4,
            Rank::Seven => 5,
            Rank::Eight => 6,
            Rank::Nine => 7,
            Rank::Ten => 8,
            Rank::Jack => 9,
            Rank::Queen => 10,
            Rank::King => 11,
            Rank::Ace => 12,
        }
    }

    /// The rank at a given position of the natural order.
    pub fn from_ordinal(o: usize) -> (r: Rank)
        requires
            o < NUM_RANKS,
        ensures
            r.spec_ordinal() == o,
    {
        match o {
            0 => Rank::Two,
            1 => Rank::Three,
            2 => Rank::Four,
            3 => Rank::Five,
            4 => Rank::Six,
            5 => Rank::Seven,
            6 => Rank::Eight,
            7 => Rank::Nine,
            8 => Rank::Ten,
            9 => Rank::Jack,
            10 => Rank::Queen,
            11 => Rank::King,
            _ => Rank::Ace,
        }
    }
}

/// The rank a player writes as `c`: a digit from 2 to 9, or T, J, Q, K, A in
/// either case.
pub open spec fn rank_of_symbol(c: char) -> Option<Rank> {
    if c == '2' {
        Some(Rank::Two)
    } else if c == '3' {
        Some(Rank::Three)
    } else if c == '4' {
        Some(Rank::Four)
    } else if c == '5' {
        Some(Rank::Five)
    } else if c == '6' {
        Some(Rank::Six)
    } else if c == '7' {
        Some(Rank::Seven)
    } else if c == '8' {
        Some(Rank::Eight)
    } else if c == '9' {
        Some(Rank::Nine)
    } else if c == 'T' || c == 't' {
        Some(Rank::Ten)
    } else if c == 'J' || c == 'j' {
        Some(Rank::Jack)
    } else if c == 'Q' || c == 'q' {
        Some(Rank::Queen)
    } else if c == 'K' || c == 'k' {
        Some(Rank::King)
    } else if c == 'A' || c == 'a' {
        Some(Rank::Ace)
    } else {
        None
    }
}

/// The suit a player writes as `c`: its initial in either case, or its symbol.
pub open spec fn suit_of_symbol(c: char) -> Option<Suit> {
    if c == 'S' || c == 's' || c == '\u{2660}' {
        Some(Suit::Spades)
    } else if c == 'H' || c == 'h' || c == '\u{2665}' {
        Some(Suit::Hearts)
    } else if c == 'D' || c == 'd' || c == '\u{2666}' {
        Some(Suit::Diamonds)
    } else if c == 'C' || c == 'c' || c == '\u{2663}' {
        Some(Suit::Clubs)
    } else {
        None
    }
}

impl Rank {
    /// The rank written as `c`, if any.
    pub fn from_symbol(c: char) -> (r: Option<Rank>)
        ensures
            r == rank_of_symbol(c),
    {
        if c == '2' {
            Some(Rank::Two)
        } else if c == '3' {
            Some(Rank::Three)
        } else if c == '4' {
            Some(Rank::Four)
        } else if c == '5' {
            Some(Rank::Five)
        } else if c == '6' {
            Some(Rank::Six)
        } else if c == '7' {
            Some(Rank::Seven)
        } else if c == '8' {
            Some(Rank::Eight)
        } else if c == '9' {
            Some(Rank::Nine)
        } else if c == 'T' || c == 't' {
            Some(Rank::Ten)
        } else if c == 'J' || c == 'j' {
            Some(Rank::Jack)
        } else if c == 'Q' || c == 'q' {
            Some(Rank::Queen)
        } else if c == 'K' || c == 'k' {
            Some(Rank::King)
        } else if c == 'A' || c == 'a' {
            Some(Rank::Ace)
        } else {
            None
        }
    }

    /// The character a player writes for this rank.
    pub fn symbol(&self) -> (r: char)
        ensures
            rank_of_symbol(r) == Some(*self),
    {
        match self {
            Rank::Two => '2',
            Rank::Three => '3',
            Rank::Four => '4',
            Rank::Five => '5',
            Rank::Six => '6',
            Rank::Seven => '7',
            Rank::Eight => '8',
            Rank::Nine => '9',
            Rank::Ten => 'T',
            Rank::Jack => 'J',
            Rank::Queen => 'Q',
            Rank::King => 'K',
            Rank::Ace => 'A',
        }
    }
}

impl Suit {
    /// The suit written as `c`, if any.
    pub fn from_symbol(c: char) -> (r: Option<Suit>)
        ensures
            r == suit_of_symbol(c),
    {
        if c == 'S' || c == 's' || c == '\u{2660}' {
            Some(Suit::Spades)
        } else if c == 'H' || c == 'h' || c == '\u{2665}' {
            Some(Suit::Hearts)
        } else if c == 'D' || c == 'd' || c == '\u{2666}' {
            Some(Suit::Diamonds)
        } else if c == 'C' || c == 'c' || c == '\u{2663}' {
            Some(Suit::Clubs)
        } else {
            None
        }
    }

    /// The symbol of the suit.
    pub fn symbol(&self) -> (r: char)
        ensures
            suit_of_symbol(r) == Some(*self),
    {
        match self {
            Suit::Spades => '\u{2660}',
            Suit::Hearts => '\u{2665}',
            Suit::Diamonds => '\u{2666}',
            Suit::Clubs => '\u{2663}',
        }
    }

    /// Position of the suit: Spades 0, Hearts 1, Diamonds 2, Clubs 3.
    pub open spec fn spec_ordinal(self) -> nat {
        match self {
            Suit::Spades => 0,
            Suit::Hearts => 1,
            Suit::Diamonds => 2,
            Suit::Clubs => 3,
        }
    }

    pub fn ordinal(&self) -> (r: usize)
        ensures
            r == self.spec_ordinal(),
    {
        match self {
            Suit::Spades => 0,
            Suit::Hearts => 1,
            Suit::Diamonds => 2,
            Suit::Clubs => 3,
        }
    }

    pub fn from_ordinal(o: usize) -> (r: Suit)
        requires
            o < NUM_SUITS,
        ensures
            r.spec_ordinal() == o,
    {
        match o {
            0 => Suit::Spades,
            1 => Suit::Hearts,
            2 => Suit::Diamonds,
            _ => Suit::Clubs,
        }
    }
}

/// A playing card. Equality compares rank and suit; the game order compares
/// ranks only (see `spec_value`).
#[derive(Clone, Copy, Debug, PartialEq, Eq, Hash, Structural)]
pub struct Card {
    pub rank: Rank,
    pub suit: Suit,
}

/// Strength of a rank in this game: natural order, except that Two is above Ace.
pub open spec fn rank_value(rank: Rank) -> nat {
    if rank == Rank::Two {
        Rank::Ace.spec_ordinal() + 1
    } else {
        rank.spec_ordinal()
    }
}

/// The rank whose ordinal is `o`.
pub open spec fn rank_at(o: int) -> Rank {
    if o <= 0 {
        Rank::Two
    } else if o == 1 {
        Rank::Three
    } else if o == 2 {
        Rank::Four
    } else if o == 3 {
        Rank::Five
    } else if o == 4 {
        Rank::Six
    } else if o == 5 {
        Rank::Seven
    } else if o == 6 {
        Rank::Eight
    } else if o == 7 {
        Rank::Nine
    } else if o == 8 {
        Rank::Ten
    } else if o == 9 {
        Rank::Jack
    } else if o == 10 {
        Rank::Queen
    } else if o == 11 {
        Rank::King
    } else {
        Rank::Ace
    }
}

/// The suit whose ordinal is `o`.
pub open spec fn suit_at(o: int) -> Suit {
    if o <= 0 {
        Suit::Spades
    } else if o == 1 {
        Suit::Hearts
    } else if o == 2 {
        Suit::Diamonds
    } else {
        Suit::Clubs
    }
}

impl Card {
    pub open spec fn spec_value(self) -> nat {
        rank_value(self.rank)
    }

    pub fn new(rank: Rank, suit: Suit) -> (r: Card)
        ensures
            r.rank == rank,
            r.suit == suit,
    {
        Card { rank, suit }
    }

    pub fn rank(&self) -> (r: Rank)
        ensures
            r == self.rank,
    {
        self.rank
    }

    pub fn suit(&self) -> (r: Suit)
        ensures
            r == self.suit,
    {
        self.suit
    }

    /// Strength of the card: its rank's ordinal, with Two counted as one above Ace.
    pub fn value(&self) -> (r: usize)
        ensures
            r == self.spec_value(),
    {
        match self.rank {
            Rank::Two => Rank::Ace.ordinal() + 1,
            _ => self.rank.ordinal(),
        }
    }

    /// The card with the given rank and suit ordinals.
    pub fn from_ordinals(rank: usize, suit: usize) -> (r: Card)
        requires
            rank < NUM_RANKS,
            suit < NUM_SUITS,
        ensures
            r.rank.spec_ordinal() == rank,
            r.suit.spec_ordinal() == suit,
    {
        Card { rank: Rank::from_ordinal(rank), suit: Suit::from_ordinal(suit) }
    }
}

/// Order of two cards in the game: by `spec_value`, suits ignored.
pub open spec fn card_order(a: Card, b: Card) -> core::cmp::Ordering {
    if a.spec_value() < b.spec_value() {
        core::cmp::Ordering::Less
    } else if a.spec_value() > b.spec_value() {
        core::cmp::Ordering::Greater
    } else {
        core::cmp::Ordering::Equal
    }
}

impl PartialOrd for Card {
    fn partial_cmp(&self, other: &Card) -> (r: Option<core::cmp::Ordering>) {
        let a = self.value();
        let b = other.value();
        if a < b {
            Some(core::cmp::Ordering::Less)
        } else if a > b {
            Some(core::cmp::Ordering::Greater)
        } else {
            Some(core::cmp::Ordering::Equal)
        }
    }
}

impl vstd::std_specs::cmp::PartialOrdSpecImpl for Card {
    open spec fn obeys_partial_cmp_spec() -> bool {
        true
    }

    open spec fn partial_cmp_spec(&self, other: &Card) -> Option<core::cmp::Ordering> {
        Some(card_order(*self, *other))
    }
}

} // verus!
