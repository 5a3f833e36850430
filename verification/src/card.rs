use vstd::prelude::*;

verus! {

/// The four suits of a standard deck.
#[derive(Debug, PartialEq, Eq, Structural, Clone)]
pub enum CardSuit {
    Diamond,
    Heart,
    Club,
    Spade,
}

/// Every suit, in the order in which `CardSuit::variants` lists them.
pub open spec fn all_suits() -> Seq<CardSuit> {
    seq![CardSuit::Diamond, CardSuit::Heart, CardSuit::Club, CardSuit::Spade]
}

/// The symbol a suit is shown as.
pub open spec fn suit_text(suit: CardSuit) -> Seq<char> {
    match suit {
        CardSuit::Heart => "♥"@,
        CardSuit::Diamond => "♦"@,
        CardSuit::Spade => "♠"@,
        CardSuit::Club => "♣"@,
    }
}

impl CardSuit {
    /// All suits, each once.
    pub fn variants() -> (suits: Vec<CardSuit>)
        ensures
            suits@ == all_suits(),
    {
        vec![CardSuit::Diamond, CardSuit::Heart, CardSuit::Club, CardSuit::Spade]
    }

    /// The number of suits.
    pub fn variant_count() -> (n: usize)
        ensures
            n == all_suits().len(),
    {
        4
    }

    /// The suit's symbol.
    pub fn to_string(&self) -> (text: String)
        ensures
            text@ == suit_text(*self),
    {
        match self {
            CardSuit::Heart => "♥".to_owned(),
            CardSuit::Diamond => "♦".to_owned(),
            CardSuit::Spade => "♠".to_owned(),
            CardSuit::Club => "♣".to_owned(),
        }
    }
}


/// The thirteen ranks of a standard deck.
#[derive(Debug, PartialEq, Eq, Structural, Clone)]
pub enum CardRank {
    Ace,
    Two,
    Three,
    Four,
    Five,
    Six,
    Seven,
    Eight,
    Nine,
    Ten,
    Jack,
    Queen,
    King,
}

/// Every rank, in the order in which `CardRank::all_variants` lists them.
pub open spec fn all_ranks() -> Seq<CardRank> {
    seq![
        CardRank::Ace,
        CardRank::Two,
        CardRank::Three,
        CardRank::Four,
        CardRank::Five,
        CardRank::Six,
        CardRank::Seven,
        CardRank::Eight,
        CardRank::Nine,
        CardRank::Ten,
        CardRank::Jack,
        CardRank::Queen,
        CardRank::King,
    ]
}

/// The word a rank is shown as.
pub open spec fn rank_text(rank: CardRank) -> Seq<char> {
    match rank {
        CardRank::Ace => "Ace"@,
        CardRank::Two => "Two"@,
        CardRank::Three => "Three"@,
        CardRank::Four => "Four"@,
        CardRank::Five => "Five"@,
        CardRank::Six => "Six"@,
        CardRank::Seven => "Seven"@,
        CardRank::Eight => "Eight"@,
        CardRank::Nine => "Nine"@,
        CardRank::Ten => "Ten"@,
        CardRank::Jack => "Jack"@,
        CardRank::Queen => "Queen"@,
        CardRank::King => "King"@,
    }
}

impl CardRank {
    /// All ranks, each once, from the ace up to the king.
    pub fn all_variants() -> (ranks: Vec<CardRank>)
        ensures
            ranks@ == all_ranks(),
    {
        vec![
            CardRank::Ace,
            CardRank::Two,
            CardRank::Three,
            CardRank::Four,
            CardRank::Five,
            CardRank::Six,
            CardRank::Seven,
            CardRank::Eight,
            CardRank::Nine,
            CardRank::Ten,
            CardRank::Jack,
            CardRank::Queen,
            CardRank::King,
        ]
    }

    /// The number of ranks.
    pub fn variant_count() -> (n: usize)
        ensures
            n == all_ranks().len(),
    {
        13
    }

    /// The rank's name.
    pub fn to_string(&self) -> (text: String)
        ensures
            text@ == rank_text(*self),
    {
        let word: &str = match self {
            CardRank::Ace => "Ace",
            CardRank::Two => "Two",
            CardRank::Three => "Three",
            CardRank::Four => "Four",
            CardRank::Five => "Five",
            CardRank::Six => "Six",
            CardRank::Seven => "Seven",
            CardRank::Eight => "Eight",
            CardRank::Nine => "Nine",
            CardRank::Ten => "Ten",
            CardRank::Jack => "Jack",
            CardRank::Queen => "Queen",
            CardRank::King => "King",
        };
        word.to_owned()
    }
}

/// A playing card: its suit and its rank.
#[derive(Debug, PartialEq, Eq, Structural, Clone)]
pub struct Card(pub CardSuit, pub CardRank);

/// How a card is shown: its rank, a space, its suit.
pub open spec fn card_text(card: Card) -> Seq<char> {
    rank_text(card.1) + " "@ + suit_text(card.0)
}

impl Card {
    /// The card as text, such as `Ace ♥`.
    pub fn to_string(&self) -> (text: String)
        ensures
            text@ == card_text(*self),
    {
        let mut text = self.1.to_string();
        text.append(" ");
        let suit = self.0.to_string();
        text.append(suit.as_str());
        text
    }
}

/// Each suit occurs exactly once in `all_suits`, and every suit occurs there.
pub proof fn lemma_suits_complete(suit: CardSuit)
    ensures
        all_suits().contains(suit),
        all_suits().no_duplicates(),
        all_suits().len() == 4,
{
    let s = all_suits();
    match suit {
        CardSuit::Diamond => assert(s[0] == suit),
        CardSuit::Heart => assert(s[1] == suit),
        CardSuit::Club => assert(s[2] == suit),
        CardSuit::Spade => assert(s[3] == suit),
    }
}

/// Each rank occurs exactly once in `all_ranks`, and every rank occurs there.
pub proof fn lemma_ranks_complete(rank: CardRank)
    ensures
        all_ranks().contains(rank),
        all_ranks().no_duplicates(),
        all_ranks().len() == 13,
{
    let s = all_ranks();
    match rank {
        CardRank::Ace => assert(s[0] == rank),
        CardRank::Two => assert(s[1] == rank),
        CardRank::Three => assert(s[2] == rank),
        CardRank::Four => assert(s[3] == rank),
        CardRank::Five => assert(s[4] == rank),
        CardRank::Six => assert(s[5] == rank),
        CardRank::Seven => assert(s[6] == rank),
        CardRank::Eight => assert(s[7] == rank),
        CardRank::Nine => assert(s[8] == rank),
        CardRank::Ten => assert(s[9] == rank),
        CardRank::Jack => assert(s[10] == rank),
        CardRank::Queen => assert(s[11] == rank),
        CardRank::King => assert(s[12] == rank),
    }
}

/// The face value of a rank, from the ace (1) up to the king (13), in the
/// order in which the ranks are declared.
pub open spec fn rank_value(rank: CardRank) -> nat {
    match rank {
        CardRank::Ace => 1,
        CardRank::Two => 2,
        CardRank::Three => 3,
        CardRank::Four => 4,
        CardRank::Five => 5,
        CardRank::Six => 6,
        CardRank::Seven => 7,
        CardRank::Eight => 8,
        CardRank::Nine => 9,
        CardRank::Ten => 10,
        CardRank::Jack => 11,
        CardRank::Queen => 12,
        CardRank::King => 13,
    }
}

/// The ranks are listed in ascending order, from the ace up to the king: the
/// rank at position `k` has face value `k + 1`.
pub proof fn lemma_ranks_ascending(k: int)
    requires
        0 <= k < 13,
    ensures
        all_ranks().len() == 13,
        rank_value(all_ranks()[k]) == k + 1,
{
}

/// Each rank is shown by its English name: the rank of face value `v` is
/// shown as the `v`-th of the names from "Ace" to "King".
pub proof fn lemma_rank_names(rank: CardRank)
    ensures
        rank_text(rank) == seq![
            "Ace"@,
            "Two"@,
            "Three"@,
            "Four"@,
            "Five"@,
            "Six"@,
            "Seven"@,
            "Eight"@,
            "Nine"@,
            "Ten"@,
            "Jack"@,
            "Queen"@,
            "King"@,
        ][rank_value(rank) - 1],
{
}

/// Distinct ranks are shown by distinct texts, and so are distinct suits.
pub proof fn lemma_texts_distinct(a: CardRank, b: CardRank, s: CardSuit, t: CardSuit)
    ensures
        rank_text(a) == rank_text(b) ==> a == b,
        suit_text(s) == suit_text(t) ==> s == t,
        suit_text(s).len() == 1,
        rank_text(a).len() >= 2,
{
    reveal_strlit("Ace");
    reveal_strlit("Two");
    reveal_strlit("Three");
    reveal_strlit("Four");
    reveal_strlit("Five");
    reveal_strlit("Six");
    reveal_strlit("Seven");
    reveal_strlit("Eight");
    reveal_strlit("Nine");
    reveal_strlit("Ten");
    reveal_strlit("Jack");
    reveal_strlit("Queen");
    reveal_strlit("King");
    reveal_strlit("♥");
    reveal_strlit("♦");
    reveal_strlit("♠");
    reveal_strlit("♣");
    if rank_text(a) == rank_text(b) {
        assert(rank_text(a)[0] == rank_text(b)[0]);
        assert(rank_text(a)[1] == rank_text(b)[1]);
    }
    if suit_text(s) == suit_text(t) {
        assert(suit_text(s)[0] == suit_text(t)[0]);
    }
}

/// Distinct cards are shown by distinct texts: the text of a card gives back
/// its rank (everything before the final space) and its suit (the last
/// symbol).
pub proof fn lemma_card_text_distinct(a: Card, b: Card)
    ensures
        card_text(a) == card_text(b) ==> a == b,
{
    lemma_texts_distinct(a.1, b.1, a.0, b.0);
    lemma_texts_distinct(b.1, a.1, b.0, a.0);
    if card_text(a) == card_text(b) {
        let ta = card_text(a);
        let tb = card_text(b);
        reveal_strlit(" ");
        assert(" "@.len() == 1);
        assert(ta.len() == rank_text(a.1).len() + 2);
        assert(tb.len() == rank_text(b.1).len() + 2);
        assert(rank_text(a.1).len() == rank_text(b.1).len());
        assert(ta.subrange(0, rank_text(a.1).len() as int) =~= rank_text(a.1));
        assert(tb.subrange(0, rank_text(b.1).len() as int) =~= rank_text(b.1));
        assert(ta.subrange(ta.len() - 1, ta.len() as int) =~= suit_text(a.0));
        assert(tb.subrange(tb.len() - 1, tb.len() as int) =~= suit_text(b.0));
    }
}

/// The suits are listed as diamonds, hearts, clubs, spades, each shown by
/// its own symbol.
pub proof fn lemma_suits_listed()
    ensures
        all_suits().len() == 4,
        all_suits()[0] == CardSuit::Diamond && suit_text(all_suits()[0]) == "♦"@,
        all_suits()[1] == CardSuit::Heart && suit_text(all_suits()[1]) == "♥"@,
        all_suits()[2] == CardSuit::Club && suit_text(all_suits()[2]) == "♣"@,
        all_suits()[3] == CardSuit::Spade && suit_text(all_suits()[3]) == "♠"@,
{
}

} // verus!
