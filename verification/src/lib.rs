//! A game of poker: cards and decks, chips and the cashier that hands them
//! out, and the hands in which players bet, check, raise and fold.
pub mod card;
pub mod cashier;
pub mod deck;
pub mod poker;
pub mod text;
