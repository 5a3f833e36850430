use poker::card::{Card, CardRank, CardSuit};
use poker::deck::Deck;

#[test]
fn test_deck_empty_display() {
    assert_eq!(Deck::new(Vec::new()).to_string(), "Deck is empty.".to_string(),)
}

#[test]
fn test_deck_full_display() {
    assert_eq!(
        Deck::new(vec![
            Card(CardSuit::Club, CardRank::Ace),
            Card(CardSuit::Club, CardRank::Eight),
            Card(CardSuit::Diamond, CardRank::Two),
            Card(CardSuit::Diamond, CardRank::Jack),
            Card(CardSuit::Spade, CardRank::Jack),
        ])
        .to_string(),
        "Deck has 5 cards consisting of Ace ♣, Eight ♣, Two ♦, Jack ♦, and Jack ♠.".to_string(),
    )
}

#[test]
fn test_deck_one_display() {
    assert_eq!(
        Deck::new(vec![Card(CardSuit::Diamond, CardRank::Two),]).to_string(),
        "Deck has just 1 card, the Two ♦.".to_string(),
    )
}

#[test]
fn two_card_deck_display() {
    assert_eq!(
        Deck::new(vec![
            Card(CardSuit::Heart, CardRank::Queen),
            Card(CardSuit::Spade, CardRank::King),
        ])
        .to_string(),
        "Deck has 2 cards consisting of Queen ♥, and King ♠.".to_string(),
    )
}

fn full_deck() -> Deck {
    let mut deck = Deck::with_capacity(CardSuit::variant_count() * CardRank::variant_count());
    for suit in CardSuit::variants() {
        for rank in CardRank::all_variants() {
            deck.add_to_bottom(Card(suit.clone(), rank.clone()))
        }
    }
    deck
}

#[test]
fn full_deck_has_fifty_two_cards() {
    let deck = full_deck();
    assert!(deck.peek_top(52).is_some());
    assert!(deck.peek_top(53).is_none());
    assert!(deck.to_string().starts_with("Deck has 52 cards consisting of Ace ♦, Two ♦"));
    assert!(deck.to_string().ends_with(", Queen ♠, and King ♠."));
}

#[test]
fn variants_list_each_suit_and_rank_once() {
    assert_eq!(
        CardSuit::variants(),
        vec![CardSuit::Diamond, CardSuit::Heart, CardSuit::Club, CardSuit::Spade]
    );
    assert_eq!(CardSuit::variant_count(), 4);
    assert_eq!(CardRank::all_variants().len(), CardRank::variant_count());
    assert_eq!(CardRank::variant_count(), 13);
    assert_eq!(CardRank::all_variants()[0], CardRank::Ace);
    assert_eq!(CardRank::all_variants()[12], CardRank::King);
}

#[test]
fn draw_top_takes_cards_from_the_top() {
    let mut deck = Deck::new(vec![
        Card(CardSuit::Heart, CardRank::Two),
        Card(CardSuit::Club, CardRank::Three),
    ]);
    assert_eq!(deck.draw_top(), Some(Card(CardSuit::Heart, CardRank::Two)));
    assert_eq!(deck.draw_top(), Some(Card(CardSuit::Club, CardRank::Three)));
    assert_eq!(deck.draw_top(), None);
    assert_eq!(deck, Deck::new(Vec::new()));
}

#[test]
fn add_to_top_then_draw_gives_the_card_back() {
    let start = vec![
        Card(CardSuit::Heart, CardRank::Two),
        Card(CardSuit::Club, CardRank::Three),
    ];
    let mut deck = Deck::new(start.clone());
    deck.add_to_top(Card(CardSuit::Spade, CardRank::Nine));
    assert_eq!(deck.draw_top(), Some(Card(CardSuit::Spade, CardRank::Nine)));
    assert_eq!(deck, Deck::new(start));
}

#[test]
fn add_to_bottom_comes_out_last() {
    let mut deck = Deck::from(vec![Card(CardSuit::Heart, CardRank::Two)]);
    deck.add_to_bottom(Card(CardSuit::Diamond, CardRank::Ten));
    assert_eq!(deck.draw_top(), Some(Card(CardSuit::Heart, CardRank::Two)));
    assert_eq!(deck.draw_top(), Some(Card(CardSuit::Diamond, CardRank::Ten)));
    assert_eq!(deck.draw_top(), None);
}

#[test]
fn peek_top_shows_without_removing() {
    let deck = Deck::new(vec![
        Card(CardSuit::Heart, CardRank::Two),
        Card(CardSuit::Club, CardRank::Three),
        Card(CardSuit::Spade, CardRank::Four),
    ]);
    let top = deck.peek_top(2).unwrap();
    assert_eq!(top.len(), 2);
    assert_eq!(*top[0], Card(CardSuit::Heart, CardRank::Two));
    assert_eq!(*top[1], Card(CardSuit::Club, CardRank::Three));
    assert_eq!(deck.peek_top(0).unwrap().len(), 0);
    assert!(deck.peek_top(4).is_none());
    assert!(deck.peek_top(3).is_some());
}

#[test]
fn cards_are_shown_as_rank_and_suit() {
    assert_eq!(Card(CardSuit::Club, CardRank::Queen).to_string(), "Queen ♣".to_string());
    assert_eq!(CardSuit::Diamond.to_string(), "♦".to_string());
    assert_eq!(CardRank::Seven.to_string(), "Seven".to_string());
}
