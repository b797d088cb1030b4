use vstd::prelude::*;

verus! {

/// The four suits of a French deck, in the order a fresh deck holds them.
#[derive(Clone, Copy, Debug, PartialEq, Eq, Structural)]
pub enum Suit {
    Hearts,
    Diamonds,
    Clubs,
    Spades,
}

/// The thirteen ranks, in the order a fresh deck holds them within a suit.
#[derive(Clone, Copy, Debug, PartialEq, Eq, Structural)]
pub enum Rank {
    Ace,
    Two,
    Three,
    Four,
    Five,
    Six,
    Seven,
    Eight,
    Nine,
    Ten,
    Jack,
    Queen,
    King,
}

/// A playing card.
#[derive(Clone, Copy, Debug, PartialEq, Eq, Structural)]
pub struct Card {
    pub suit: Suit,
    pub rank: Rank,
}

/// The suit at position `i` (0 to 3) of a fresh deck.
pub open spec fn suit_at(i: int) -> Suit {
    if i == 0 {
        Suit::Hearts
    } else if i == 1 {
        Suit::Diamonds
    } else if i == 2 {
        Suit::Clubs
    } else {
        Suit::Spades
    }
}

/// The rank at position `i` (0 to 12) of a suit in a fresh deck.
pub open spec fn rank_at(i: int) -> Rank {
    if i == 0 {
        Rank::Ace
    } else if i == 1 {
        Rank::Two
    } else if i == 2 {
        Rank::Three
    } else if i == 3 {
        Rank::Four
    } else if i == 4 {
        Rank::Five
    } else if i == 5 {
        Rank::Six
    } else if i == 6 {
        Rank::Seven
    } else if i == 7 {
        Rank::Eight
    } else if i == 8 {
        Rank::Nine
    } else if i == 9 {
        Rank::Ten
    } else if i == 10 {
        Rank::Jack
    } else if i == 11 {
        Rank::Queen
    } else {
        Rank::King
    }
}

/// The points a rank counts for before any ace is lowered: an ace counts
/// 11, a face card 10, any other card its number.
pub open spec fn rank_points(r: Rank) -> nat {
    match r {
        Rank::Ace => 11,
        Rank::Two => 2,
        Rank::Three => 3,
        Rank::Four => 4,
        Rank::Five => 5,
        Rank::Six => 6,
        Rank::Seven => 7,
        Rank::Eight => 8,
        Rank::Nine => 9,
        Rank::Ten => 10,
        Rank::Jack => 10,
        Rank::Queen => 10,
        Rank::King => 10,
    }
}

/// The label of a rank as printed on the card.
pub open spec fn rank_label(r: Rank) -> Seq<char> {
    match r {
        Rank::Ace => "A"@,
        Rank::Two => "2"@,
        Rank::Three => "3"@,
        Rank::Four => "4"@,
        Rank::Five => "5"@,
        Rank::Six => "6"@,
        Rank::Seven => "7"@,
        Rank::Eight => "8"@,
        Rank::Nine => "9"@,
        Rank::Ten => "10"@,
        Rank::Jack => "J"@,
        Rank::Queen => "Q"@,
        Rank::King => "K"@,
    }
}

/// The name of a suit.
pub open spec fn suit_label(s: Suit) -> Seq<char> {
    match s {
        Suit::Hearts => "Hearts"@,
        Suit::Diamonds => "Diamonds"@,
        Suit::Clubs => "Clubs"@,
        Suit::Spades => "Spades"@,
    }
}

/// How a card is shown to the players: its rank, " of ", its suit.
pub open spec fn card_text(c: Card) -> Seq<char> {
    rank_label(c.rank) + " of "@ + suit_label(c.suit)
}

impl Card {
    /// The points the card counts for, an ace as 11.
    pub fn score(&self) -> (points: u32)
        ensures
            points == rank_points(self.rank),
    {
        match self.rank {
            Rank::Ace => 11,
            Rank::Two => 2,
            Rank::Three => 3,
            Rank::Four => 4,
            Rank::Five => 5,
            Rank::Six => 6,
            Rank::Seven => 7,
            Rank::Eight => 8,
            Rank::Nine => 9,
            Rank::Ten => 10,
            Rank::Jack => 10,
            Rank::Queen => 10,
            Rank::King => 10,
        }
    }

    /// Whether the card is an ace, the one card that can count 1 or 11.
    pub fn is_ace(&self) -> (ace: bool)
        ensures
            ace == (self.rank == Rank::Ace),
    {
        match self.rank {
            Rank::Ace => true,
            _ => false,
        }
    }

    /// The card's rank as printed on it ("A", "2", ..., "10", "J", "Q", "K").
    pub fn value(&self) -> (label: String)
        ensures
            label@ == rank_label(self.rank),
    {
        match self.rank {
            Rank::Ace => String::from_str("A"),
            Rank::Two => String::from_str("2"),
            Rank::Three => String::from_str("3"),
            Rank::Four => String::from_str("4"),
            Rank::Five => String::from_str("5"),
            Rank::Six => String::from_str("6"),
            Rank::Seven => String::from_str("7"),
            Rank::Eight => String::from_str("8"),
            Rank::Nine => String::from_str("9"),
            Rank::Ten => String::from_str("10"),
            Rank::Jack => String::from_str("J"),
            Rank::Queen => String::from_str("Q"),
            Rank::King => String::from_str("K"),
        }
    }

    /// The card's suit by name.
    pub fn suit_name(&self) -> (name: String)
        ensures
            name@ == suit_label(self.suit),
    {
        match self.suit {
            Suit::Hearts => String::from_str("Hearts"),
            Suit::Diamonds => String::from_str("Diamonds"),
            Suit::Clubs => String::from_str("Clubs"),
            Suit::Spades => String::from_str("Spades"),
        }
    }

    /// The card as shown to the players, such as "10 of Spades".
    pub fn to_text(&self) -> (text: String)
        ensures
            text@ == card_text(*self),
    {
        let mut text = self.value();
        text.append(" of ");
        let suit = self.suit_name();
        text.append(suit.as_str());
        text
    }
}

} // verus!
