# poker

A small poker library, verified with Verus.

- `src/card.rs`: suits, ranks and cards, and how they are shown as text.
- `src/cashier.rs`: stacks of chips and the cashier that hands them out;
  chips can only be split and merged, never copied.
- `src/deck.rs`: a deck of cards, drawn from the top.
- `src/poker.rs`: a hand of poker: dealing, and the moves of the player
  whose turn it is, with the turn passing round the table.
- `src/text.rs`: numbers written in decimal.

Every public function carries a contract over a mathematical view of the
types (a chip count, a sequence of cards, the multiset of cards in a hand).
The tests under `tests/` run the library on concrete values.
