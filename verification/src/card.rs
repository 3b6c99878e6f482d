//! Ranks, suits and cards.

use crate::chance::random_below;
use vstd::prelude::*;
use vstd::string::*;

verus! {

/// One of the four suits. Suits are only ever tested for equality.
#[derive(Debug, Clone, Copy, PartialEq, Eq, Hash, Structural)]
pub enum Suit {
    Spades,
    Hearts,
    Diamonds,
    Clubs,
}

/// One of the thirteen ranks, listed from the lowest to the highest.
#[derive(Debug, Clone, Copy, PartialEq, Eq, Hash, PartialOrd, Ord, Structural)]
pub enum Rank {
    Two,
    Three,
    Four,
    Five,
    Six,
    Seven,
    Eight,
    Nine,
    Ten,
    Jack,
    Queen,
    King,
    Ace,
}

/// A playing card.
#[derive(Debug, Clone, Copy, PartialEq, Eq, Hash, Structural)]
pub struct Card {
    pub rank: Rank,
    pub suit: Suit,
}

impl Suit {
    /// The suit with the given one-based number, if there is one.
    pub open spec fn of_number(num: int) -> Option<Suit> {
        if num == 1 {
            Some(Suit::Spades)
        } else if num == 2 {
            Some(Suit::Hearts)
        } else if num == 3 {
            Some(Suit::Diamonds)
        } else if num == 4 {
            Some(Suit::Clubs)
        } else {
            None
        }
    }

    /// The one-based number of a suit.
    pub open spec fn number(self) -> int {
        match self {
            Suit::Spades => 1,
            Suit::Hearts => 2,
            Suit::Diamonds => 3,
            Suit::Clubs => 4,
        }
    }

    /// The symbol a suit is printed as.
    pub open spec fn symbol(self) -> Seq<char> {
        match self {
            Suit::Spades => "\u{2660}"@,
            Suit::Hearts => "\u{2665}"@,
            Suit::Diamonds => "\u{2666}"@,
            Suit::Clubs => "\u{2663}"@,
        }
    }

    /// Spades is 1, Hearts 2, Diamonds 3 and Clubs 4; every other number names no suit.
    pub fn from_number(num: u8) -> (suit: Option<Suit>)
        ensures
            suit == Suit::of_number(num as int),
    {
        match num {
            1 => Some(Suit::Spades),
            2 => Some(Suit::Hearts),
            3 => Some(Suit::Diamonds),
            4 => Some(Suit::Clubs),
            _ => None,
        }
    }

    /// A suit picked uniformly at random.
    pub fn random() -> Suit {
        let pick = random_below(4);
        match Suit::from_number((pick + 1) as u8) {
            Some(suit) => suit,
            None => Suit::Clubs,
        }
    }

    /// The suit's symbol as text.
    pub fn to_string(&self) -> (text: String)
        ensures
            text@ == self.symbol(),
    {
        match self {
            Suit::Spades => String::from_str("\u{2660}"),
            Suit::Hearts => String::from_str("\u{2665}"),
            Suit::Diamonds => String::from_str("\u{2666}"),
            Suit::Clubs => String::from_str("\u{2663}"),
        }
    }
}

impl Rank {
    /// The numeric value of a rank: 2 for the Two up to 14 for the Ace.
    pub open spec fn spec_value(self) -> int {
        match self {
            Rank::Two => 2,
            Rank::Three => 3,
            Rank::Four => 4,
            Rank::Five => 5,
            Rank::Six => 6,
            Rank::Seven => 7,
            Rank::Eight => 8,
            Rank::Nine => 9,
            Rank::Ten => 10,
            Rank::Jack => 11,
            Rank::Queen => 12,
            Rank::King => 13,
            Rank::Ace => 14,
        }
    }

    /// The rank with the given value. Values outside 2..=14 are read as the Two.
    pub open spec fn of_value(v: int) -> Rank {
        if v == 14 {
            Rank::Ace
        } else if v == 13 {
            Rank::King
        } else if v == 12 {
            Rank::Queen
        } else if v == 11 {
            Rank::Jack
        } else if v == 10 {
            Rank::Ten
        } else if v == 9 {
            Rank::Nine
        } else if v == 8 {
            Rank::Eight
        } else if v == 7 {
            Rank::Seven
        } else if v == 6 {
            Rank::Six
        } else if v == 5 {
            Rank::Five
        } else if v == 4 {
            Rank::Four
        } else if v == 3 {
            Rank::Three
        } else {
            Rank::Two
        }
    }

    /// The rank with the given one-based number, where 1 is the Ace, 2 to 10 are
    /// the pip cards and 11, 12, 13 are Jack, Queen and King.
    pub open spec fn of_number(num: int) -> Option<Rank> {
        if num == 1 {
            Some(Rank::Ace)
        } else if 2 <= num <= 13 {
            Some(Rank::of_value(num))
        } else {
            None
        }
    }

    /// The one-based number of a rank: 1 for the Ace, else its value.
    pub open spec fn number(self) -> int {
        if self == Rank::Ace {
            1
        } else {
            self.spec_value()
        }
    }

    /// The label a rank is printed as.
    pub open spec fn label(self) -> Seq<char> {
        match self {
            Rank::Ace => "A"@,
            Rank::Two => "2"@,
            Rank::Three => "3"@,
            Rank::Four => "4"@,
            Rank::Five => "5"@,
            Rank::Six => "6"@,
            Rank::Seven => "7"@,
            Rank::Eight => "8"@,
            Rank::Nine => "9"@,
            Rank::Ten => "10"@,
            Rank::Jack => "J"@,
            Rank::Queen => "Q"@,
            Rank::King => "K"@,
        }
    }

    /// Reads a one-based rank number; numbers outside 1..=13 name no rank.
    pub fn from_number(num: u8) -> (rank: Option<Rank>)
        ensures
            rank == Rank::of_number(num as int),
    {
        match num {
            1 => Some(Rank::Ace),
            2 => Some(Rank::Two),
            3 => Some(Rank::Three),
            4 => Some(Rank::Four),
            5 => Some(Rank::Five),
            6 => Some(Rank::Six),
            7 => Some(Rank::Seven),
            8 => Some(Rank::Eight),
            9 => Some(Rank::Nine),
            10 => Some(Rank::Ten),
            11 => Some(Rank::Jack),
            12 => Some(Rank::Queen),
            13 => Some(Rank::King),
            _ => None,
        }
    }

    /// A rank picked uniformly at random.
    pub fn random() -> Rank {
        let pick = random_below(13);
        match Rank::from_number((pick + 1) as u8) {
            Some(rank) => rank,
            None => Rank::King,
        }
    }

    /// The value used to order ranks and to find runs: 2 up to 14, Ace high.
    pub fn value(&self) -> (v: u8)
        ensures
            v == self.spec_value(),
    {
        match self {
            Rank::Two => 2,
            Rank::Three => 3,
            Rank::Four => 4,
            Rank::Five => 5,
            Rank::Six => 6,
            Rank::Seven => 7,
            Rank::Eight => 8,
            Rank::Nine => 9,
            Rank::Ten => 10,
            Rank::Jack => 11,
            Rank::Queen => 12,
            Rank::King => 13,
            Rank::Ace => 14,
        }
    }

    /// The rank that has the given value.
    pub(crate) fn with_value(v: u8) -> (rank: Rank)
        requires
            2 <= v <= 14,
        ensures
            rank == Rank::of_value(v as int),
            rank.spec_value() == v,
    {
        match v {
            14 => Rank::Ace,
            13 => Rank::King,
            12 => Rank::Queen,
            11 => Rank::Jack,
            10 => Rank::Ten,
            9 => Rank::Nine,
            8 => Rank::Eight,
            7 => Rank::Seven,
            6 => Rank::Six,
            5 => Rank::Five,
            4 => Rank::Four,
            3 => Rank::Three,
            _ => Rank::Two,
        }
    }

    /// The rank's label as text.
    pub fn to_string(&self) -> (text: String)
        ensures
            text@ == self.label(),
    {
        match self {
            Rank::Ace => String::from_str("A"),
            Rank::Two => String::from_str("2"),
            Rank::Three => String::from_str("3"),
            Rank::Four => String::from_str("4"),
            Rank::Five => String::from_str("5"),
            Rank::Six => String::from_str("6"),
            Rank::Seven => String::from_str("7"),
            Rank::Eight => String::from_str("8"),
            Rank::Nine => String::from_str("9"),
            Rank::Ten => String::from_str("10"),
            Rank::Jack => String::from_str("J"),
            Rank::Queen => String::from_str("Q"),
            Rank::King => String::from_str("K"),
        }
    }
}

impl Card {
    /// The card named by a rank number and a suit number, if both name something.
    pub open spec fn of_numbers(rank_num: int, suit_num: int) -> Option<Card> {
        match (Rank::of_number(rank_num), Suit::of_number(suit_num)) {
            (Some(rank), Some(suit)) => Some(Card { rank, suit }),
            _ => None,
        }
    }

    /// What a card is printed as: the rank's label, then the suit's symbol.
    pub open spec fn label(self) -> Seq<char> {
        self.rank.label() + self.suit.symbol()
    }

    pub fn new(rank: Rank, suit: Suit) -> (card: Card)
        ensures
            card == (Card { rank, suit }),
    {
        Card { rank, suit }
    }

    /// Builds a card from a rank number in 1..=13 and a suit number in 1..=4.
    /// Any number out of range gives `None`.
    pub fn from_numbers(rank_num: u8, suit_num: u8) -> (card: Option<Card>)
        ensures
            card == Card::of_numbers(rank_num as int, suit_num as int),
            card is Some <==> 1 <= rank_num <= 13 && 1 <= suit_num <= 4,
    {
        match (Rank::from_number(rank_num), Suit::from_number(suit_num)) {
            (Some(rank), Some(suit)) => Some(Card::new(rank, suit)),
            _ => None,
        }
    }

    /// A card with a random rank and a random suit.
    pub fn random() -> Card {
        Card::new(Rank::random(), Suit::random())
    }

    /// The card as text, such as `A` followed by the spade symbol.
    pub fn to_string(&self) -> (text: String)
        ensures
            text@ == self.label(),
    {
        let mut text = self.rank.to_string();
        let suit = self.suit.to_string();
        text.append(suit.as_str());
        text
    }
}

/// Reading a card's own numbers gives the card back, and the numbers of every
/// card lie in 1..=13 and 1..=4.
pub proof fn lemma_card_numbers_round_trip(card: Card)
    ensures
        1 <= card.rank.number() <= 13,
        1 <= card.suit.number() <= 4,
        Card::of_numbers(card.rank.number(), card.suit.number()) == Some(card),
{
}

/// Numbers in range name a card that carries exactly those numbers; numbers
/// out of range name none.
pub proof fn lemma_numbers_card_round_trip(rank_num: int, suit_num: int)
    ensures
        1 <= rank_num <= 13 && 1 <= suit_num <= 4 ==> {
            &&& Card::of_numbers(rank_num, suit_num) is Some
            &&& Card::of_numbers(rank_num, suit_num)->0.rank.number() == rank_num
            &&& Card::of_numbers(rank_num, suit_num)->0.suit.number() == suit_num
        },
        !(1 <= rank_num <= 13 && 1 <= suit_num <= 4) ==> Card::of_numbers(rank_num, suit_num) is None,
{
}

} // verus!
