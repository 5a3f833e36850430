use vstd::prelude::*;

use crate::card::{Card, card_text};
use crate::text::{decimal_string, decimal_text};

verus! {

/// A pile of cards; the first card is the top of the deck.
#[derive(Debug, PartialEq)]
pub struct Deck(Vec<Card>);

impl View for Deck {
    type V = Seq<Card>;

    /// The cards from the top of the deck to its bottom.
    closed spec fn view(&self) -> Seq<Card> {
        self.0@
    }
}

/// The cards after the first, each shown after a comma: `, Two ♦, Jack ♦`.
pub open spec fn listed_cards(cards: Seq<Card>) -> Seq<char>
    decreases cards.len(),
{
    if cards.len() == 0 {
        Seq::empty()
    } else {
        listed_cards(cards.drop_last()) + ", "@ + card_text(cards.last())
    }
}

/// How a deck is described.
pub open spec fn deck_text(cards: Seq<Card>) -> Seq<char> {
    if cards.len() == 0 {
        "Deck is empty."@
    } else if cards.len() == 1 {
        "Deck has just 1 card, the "@ + card_text(cards[0]) + "."@
    } else {
        "Deck has "@ + decimal_text(cards.len()) + " cards consisting of "@ + card_text(cards[0])
            + listed_cards(cards.subrange(1, cards.len() - 1)) + ", and "@ + card_text(
            cards.last(),
        ) + "."@
    }
}

impl Deck {
    /// A deck holding `cards`, the first of them on top.
    pub fn new(cards: Vec<Card>) -> (deck: Deck)
        ensures
            deck@ == cards@,
    {
        Deck(cards)
    }

    /// An empty deck with room for `capacity` cards.
    pub fn with_capacity(capacity: usize) -> (deck: Deck)
        ensures
            deck@ == Seq::<Card>::empty(),
    {
        Deck(Vec::with_capacity(capacity))
    }

    /// The top `number` cards, top first, without removing them; `None`
    /// when the deck holds fewer.
    pub fn peek_top(&self, number: usize) -> (top: Option<Vec<&Card>>)
        ensures
            number <= self@.len() <==> top is Some,
            top matches Some(cards) ==> cards@.len() == number && forall|i: int|
                0 <= i < number ==> *#[trigger] cards@[i] == self@[i],
    {
        if self.0.len() >= number {
            let mut cards: Vec<&Card> = Vec::with_capacity(number);
            let mut i: usize = 0;
            while i < number
                invariant
                    i <= number <= self@.len(),
                    cards@.len() == i,
                    forall|j: int| 0 <= j < i ==> *#[trigger] cards@[j] == self@[j],
                decreases number - i,
            {
                cards.push(&self.0[i]);
                i = i + 1;
            }
            Some(cards)
        } else {
            None
        }
    }

    /// Removes and returns the top card; `None` when the deck is empty.
    pub fn draw_top(&mut self) -> (card: Option<Card>)
        ensures
            old(self)@.len() == 0 ==> card is None && final(self)@ == old(self)@,
            old(self)@.len() > 0 ==> card == Some(old(self)@[0]) && final(self)@ == old(
                self,
            )@.drop_first(),
    {
        if self.0.is_empty() {
            None
        } else {
            Some(self.0.remove(0))
        }
    }

    /// Puts a card under the deck.
    pub fn add_to_bottom(&mut self, card: Card)
        ensures
            final(self)@ == old(self)@.push(card),
    {
        self.0.push(card)
    }

    /// Puts a card on top of the deck.
    pub fn add_to_top(&mut self, card: Card)
        ensures
            final(self)@ == seq![card] + old(self)@,
    {
        self.0.insert(0, card)
    }

    /// Describes the deck, such as `Deck has just 1 card, the Two ♦.`
    pub fn to_string(&self) -> (text: String)
        ensures
            text@ == deck_text(self@),
    {
        let n = self.0.len();
        if n == 0 {
            return "Deck is empty.".to_owned();
        }
        if n == 1 {
            let mut text = "Deck has just 1 card, the ".to_owned();
            text.append(self.0[0].to_string().as_str());
            text.append(".");
            return text;
        }
        let mut text = "Deck has ".to_owned();
        text.append(decimal_string(n).as_str());
        text.append(" cards consisting of ");
        text.append(self.0[0].to_string().as_str());
        let ghost head = text@;
        let mut i: usize = 1;
        while i < n - 1
            invariant
                n == self@.len(),
                n >= 2,
                1 <= i <= n - 1,
                text@ == head + listed_cards(self@.subrange(1, i as int)),
            decreases n - 1 - i,
        {
            text.append(", ");
            text.append(self.0[i].to_string().as_str());
            assert(self@.subrange(1, i + 1).drop_last() == self@.subrange(1, i as int));
            i = i + 1;
        }
        text.append(", and ");
        text.append(self.0[n - 1].to_string().as_str());
        text.append(".");
        text
    }
}

impl From<Vec<Card>> for Deck {
    /// A deck holding `cards`, the first of them on top.
    fn from(cards: Vec<Card>) -> (deck: Deck) {
        Deck(cards)
    }
}

impl vstd::std_specs::convert::FromSpecImpl<Vec<Card>> for Deck {
    open spec fn obeys_from_spec() -> bool {
        true
    }

    closed spec fn from_spec(cards: Vec<Card>) -> Deck {
        Deck(cards)
    }
}

/// A deck made from a list of cards holds exactly those cards, in order.
pub proof fn lemma_from_keeps_cards(cards: Vec<Card>)
    ensures
        <Deck as vstd::std_specs::convert::FromSpec<Vec<Card>>>::from_spec(cards)@ == cards@,
{
}

/// A card put on top of a deck is the next one drawn, and drawing it leaves
/// the deck as it was before.
pub proof fn lemma_add_to_top_then_draw(deck: Seq<Card>, card: Card)
    ensures
        (seq![card] + deck).len() > 0,
        (seq![card] + deck)[0] == card,
        (seq![card] + deck).drop_first() == deck,
{
    assert((seq![card] + deck).drop_first() =~= deck);
}

/// Putting a card under a deck that is not empty changes neither the card
/// drawn next nor the order of the cards after it; the new card comes out last.
pub proof fn lemma_add_to_bottom_then_draw(deck: Seq<Card>, card: Card)
    requires
        deck.len() > 0,
    ensures
        deck.push(card)[0] == deck[0],
        deck.push(card).drop_first() == deck.drop_first().push(card),
{
    assert(deck.push(card).drop_first() =~= deck.drop_first().push(card));
}

/// Drawing from the top gives the cards `peek_top` shows, in order: after
/// `i` draws the deck has lost exactly its first `i` cards, and the next card
/// drawn is the `i`-th one from the top.
pub proof fn lemma_draws_follow_peek(deck: Seq<Card>, i: int)
    requires
        0 <= i < deck.len(),
    ensures
        deck.skip(i).len() > 0,
        deck.skip(i)[0] == deck[i],
        deck.skip(i).drop_first() == deck.skip(i + 1),
{
    assert(deck.skip(i).drop_first() =~= deck.skip(i + 1));
}

/// How each card of a deck of `cards.len() >= 2` cards appears in its
/// description: the first card alone, each middle card after ", ", the last
/// card after ", and ".
pub open spec fn card_entries(cards: Seq<Card>) -> Seq<Seq<char>> {
    Seq::new(
        cards.len(),
        |i: int|
            if i == 0 {
                card_text(cards[i])
            } else if i == cards.len() - 1 {
                ", and "@ + card_text(cards[i])
            } else {
                ", "@ + card_text(cards[i])
            },
    )
}

proof fn lemma_entries_prefix(cards: Seq<Card>, k: int)
    requires
        cards.len() >= 2,
        1 <= k <= cards.len() - 1,
    ensures
        card_entries(cards).subrange(0, k).flatten_alt() == card_text(cards[0]) + listed_cards(
            cards.subrange(1, k),
        ),
    decreases k,
{
    let e = card_entries(cards);
    if k == 1 {
        assert(e.subrange(0, 1).drop_last() =~= Seq::<Seq<char>>::empty());
        assert(Seq::<Seq<char>>::empty().flatten_alt() =~= Seq::<char>::empty());
        assert(e.subrange(0, 1).last() == card_text(cards[0]));
        assert(listed_cards(cards.subrange(1, 1)) =~= Seq::<char>::empty());
        assert(cards.subrange(1, 1) =~= Seq::<Card>::empty());
        assert(e.subrange(0, 1).flatten_alt() =~= card_text(cards[0]));
    } else {
        lemma_entries_prefix(cards, k - 1);
        assert(e.subrange(0, k).drop_last() =~= e.subrange(0, k - 1));
        assert(cards.subrange(1, k).drop_last() =~= cards.subrange(1, k - 1));
        assert(e.subrange(0, k).flatten_alt() =~= card_text(cards[0]) + listed_cards(
            cards.subrange(1, k),
        ));
    }
}

/// A deck of two or more cards is described by its size, written in
/// decimal, and then every one of its cards from the top to the bottom, in
/// order: the first alone, the middle ones after ", ", the last after
/// ", and ", and a final ".".
pub proof fn lemma_deck_text_lists_every_card(cards: Seq<Card>)
    requires
        cards.len() >= 2,
    ensures
        card_entries(cards).len() == cards.len(),
        deck_text(cards) == "Deck has "@ + decimal_text(cards.len()) + " cards consisting of "@
            + card_entries(cards).flatten() + "."@,
{
    let n = cards.len() as int;
    let e = card_entries(cards);
    lemma_entries_prefix(cards, n - 1);
    e.lemma_flatten_and_flatten_alt_are_equivalent();
    assert(e.drop_last() =~= e.subrange(0, n - 1));
    assert(e.flatten_alt() =~= card_text(cards[0]) + listed_cards(cards.subrange(1, n - 1))
        + ", and "@ + card_text(cards.last()));
    assert(deck_text(cards) =~= "Deck has "@ + decimal_text(cards.len()) + " cards consisting of "@
        + e.flatten() + "."@);
}

} // verus!
