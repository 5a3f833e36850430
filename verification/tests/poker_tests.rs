use poker::poker::{
    Card, CardRank, CardSuit, Cashier, Chips, Deck, Hand, PlayResult, Player, PlayerMove,
    PlayerState,
};

fn test_chips(count: usize) -> Chips {
    Cashier::new(count).buy_chips(count).unwrap()
}

fn destroy_chips(chips: Chips) {
    Cashier::new(0).exchange_chips(chips);
}

fn clear_hand_chips(mut hand: Hand) {
    for (player, _state) in hand.players.iter_mut() {
        destroy_chips(player.chips.take_all())
    }
    destroy_chips(hand.pot.take_all())
}

fn s(s: &str) -> String {
    s.to_owned()
}

fn simple_deck() -> Deck {
    Deck::new(vec![
        Card(CardSuit::Heart, CardRank::Ace),
        Card(CardSuit::Diamond, CardRank::Ace),
        Card(CardSuit::Club, CardRank::Ace),
        Card(CardSuit::Spade, CardRank::Ace),
    ])
}

fn two_players() -> Vec<Player> {
    vec![
        Player {
            name: s("Will"),
            chips: test_chips(10),
        },
        Player {
            name: s("Jean"),
            chips: test_chips(2),
        },
    ]
}

#[test]
fn suits_display_as_icons_and_ranks_as_text() {
    assert_eq!("Ace ♥", Card(CardSuit::Heart, CardRank::Ace).to_string());
    assert_eq!("Ten ♦", Card(CardSuit::Diamond, CardRank::Ten).to_string());
    assert_eq!("Ace ♣", Card(CardSuit::Club, CardRank::Ace).to_string());
    assert_eq!("Jack ♠", Card(CardSuit::Spade, CardRank::Jack).to_string());
}

#[test]
fn new_hand_results_in_all_players_waiting_and_pot_of_zero() {
    let hand = Hand::new(
        vec![
            Player {
                name: s("Will"),
                chips: test_chips(10),
            },
            Player {
                name: s("Jean"),
                chips: test_chips(2),
            },
        ],
        simple_deck(),
    );

    assert_eq!(hand.pot.count(), 0);
    assert_eq!(hand.deck, simple_deck());
    assert_eq!(hand.players.len(), 2);
    for (_, state) in hand.players.iter() {
        assert_eq!(state, &PlayerState::WaitingToBeDealt);
    }

    clear_hand_chips(hand);
}

#[test]
fn deal_provides_cards_from_deck_and_sets_first_player_active() {
    let will = Player {
        name: s("Will"),
        chips: test_chips(10),
    };
    let mut hand = Hand::new(
        vec![
            will,
            Player {
                name: s("Jean"),
                chips: test_chips(2),
            },
        ],
        // Note: simple_deck just has some aces
        simple_deck(),
    );

    let simple_deck = simple_deck();
    let top_4 = simple_deck
        .peek_top(4)
        .expect("simple deck has more than 2");

    hand.deal();
    assert_eq!(
        hand.players.first().unwrap().1,
        PlayerState::Active(top_4[0].clone(), top_4[1].clone()),
    );
    assert_eq!(
        hand.players.last().unwrap().1,
        PlayerState::Active(top_4[2].clone(), top_4[3].clone()),
    );

    clear_hand_chips(hand);
}

#[test]
fn check_leaves_pot_untouched() {
    let mut hand = Hand::new(
        vec![
            Player {
                name: s("Will"),
                chips: test_chips(10),
            },
            Player {
                name: s("Jean"),
                chips: test_chips(2),
            },
        ],
        simple_deck(),
    );

    assert!(hand.play(PlayerMove::Check).is_ok(), "valid move");
    assert_eq!(hand.pot.count(), 0);

    clear_hand_chips(hand);
}

#[test]
fn bet_increases_the_pot() {
    let mut hand = Hand::new(
        vec![
            Player {
                name: s("Will"),
                chips: test_chips(10),
            },
            Player {
                name: s("Jean"),
                chips: test_chips(10), // <--- loser
            },
        ],
        simple_deck(),
    );

    let (next_player, _) = hand.players.first_mut().unwrap();
    let bet_3_chips = next_player.chips.take(3).expect("Will has enough chips");
    assert!(hand.play(PlayerMove::Bet(bet_3_chips)).is_ok(), "valid move");
    assert_eq!(hand.pot.count(), 3);

    clear_hand_chips(hand);
}

#[test]
fn raise_increases_the_pot() {
    let mut hand = Hand::new(
        vec![
            Player {
                name: s("Will"),
                chips: test_chips(14),
            },
            Player {
                name: s("Jean"),
                chips: test_chips(2), // <--- loser
            },
        ],
        simple_deck(),
    );

    let (next_player, _) = hand.players.first_mut().unwrap();
    let raise_3_chips = next_player.chips.take(3).expect("Will has enough chips");
    assert!(hand.play(PlayerMove::Raise(raise_3_chips)).is_ok(), "valid move");
    assert_eq!(hand.pot.count(), 3);

    clear_hand_chips(hand);
}

#[test]
fn fold_sets_the_player_state_to_folded() {
    let mut hand = Hand::new(
        vec![
            Player {
                name: s("Will"),
                chips: test_chips(10),
            },
            Player {
                name: s("Jean"),
                chips: test_chips(2), // <--- loser
            },
        ],
        simple_deck(),
    );

    hand.deal();
    assert!(hand.play(PlayerMove::Fold).is_ok(), "valid next move");
    assert_eq!(hand.players.first().unwrap().1, PlayerState::Folded);

    clear_hand_chips(hand);
}

#[test]
fn fold_returns_cards_to_the_bottom_and_last_player_wins() {
    let mut hand = Hand::new(two_players(), simple_deck());
    hand.deal();
    assert_eq!(hand.deck, Deck::new(Vec::new()));
    match hand.play(PlayerMove::Fold) {
        Ok(PlayResult::Continued) => {}
        _ => panic!("the turn passes to Jean"),
    }
    assert_eq!(hand.active, 1);
    assert_eq!(
        hand.deck,
        Deck::new(vec![
            Card(CardSuit::Heart, CardRank::Ace),
            Card(CardSuit::Diamond, CardRank::Ace),
        ])
    );
    match hand.play(PlayerMove::Check) {
        Ok(PlayResult::Winner(player)) => assert_eq!(player.name, "Jean"),
        _ => panic!("Jean is the only active player left"),
    }
    assert_eq!(hand.active, 1);
    clear_hand_chips(hand);
}

#[test]
fn folding_twice_or_before_the_deal_fails() {
    let mut hand = Hand::new(two_players(), simple_deck());
    match hand.play(PlayerMove::Fold) {
        Err(message) => assert_eq!(message, "Player was waiting to be dealt"),
        Ok(_) => panic!("nobody was dealt"),
    }
    assert_eq!(hand.players[0].1, PlayerState::Folded);
    assert_eq!(hand.active, 0);
    match hand.play(PlayerMove::Fold) {
        Err(message) => assert_eq!(message, "Player already folded"),
        Ok(_) => panic!("the player had folded"),
    }
    assert_eq!(hand.deck, simple_deck());
    clear_hand_chips(hand);
}

#[test]
fn turn_passes_round_the_table_skipping_folded_players() {
    let players = vec![
        Player { name: s("A"), chips: test_chips(1) },
        Player { name: s("B"), chips: test_chips(1) },
        Player { name: s("C"), chips: test_chips(1) },
    ];
    let deck = Deck::new(vec![
        Card(CardSuit::Heart, CardRank::Two),
        Card(CardSuit::Heart, CardRank::Three),
        Card(CardSuit::Heart, CardRank::Four),
        Card(CardSuit::Heart, CardRank::Five),
        Card(CardSuit::Heart, CardRank::Six),
        Card(CardSuit::Heart, CardRank::Seven),
        Card(CardSuit::Heart, CardRank::Eight),
    ]);
    let mut hand = Hand::new(players, deck);
    hand.deal();
    assert_eq!(
        hand.players[2].1,
        PlayerState::Active(
            Card(CardSuit::Heart, CardRank::Six),
            Card(CardSuit::Heart, CardRank::Seven)
        )
    );
    assert_eq!(hand.deck, Deck::new(vec![Card(CardSuit::Heart, CardRank::Eight)]));
    assert!(matches!(hand.play(PlayerMove::Check), Ok(PlayResult::Continued)));
    assert_eq!(hand.active, 1);
    assert!(matches!(hand.play(PlayerMove::Fold), Ok(PlayResult::Continued)));
    assert_eq!(hand.active, 2);
    assert!(matches!(hand.play(PlayerMove::Check), Ok(PlayResult::Continued)));
    assert_eq!(hand.active, 0);
    assert!(matches!(hand.play(PlayerMove::Bet(test_chips(4))), Ok(PlayResult::Continued)));
    assert_eq!(hand.active, 2);
    assert_eq!(hand.pot.count(), 4);
    assert_eq!(hand.pot.to_string(), "four chips");
    clear_hand_chips(hand);
}
