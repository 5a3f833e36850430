use vstd::prelude::*;
use vstd::multiset::Multiset;

pub use crate::card::{Card, CardRank, CardSuit};
pub use crate::cashier::{Cashier, Chips};
pub use crate::deck::Deck;

verus! {

// Game related structures

/// Identifies a player at the table.
#[derive(Debug, PartialEq, Hash, Clone, Copy)]
pub struct PlayerID(usize);

/// A player: a name and the chips in front of them.
#[derive(Debug, PartialEq)]
pub struct Player {
    pub name: String,
    pub chips: Chips,
}

/// What the player whose turn it is does.
#[derive(Debug, PartialEq)]
pub enum PlayerMove {
    Fold,
    Check,
    Bet(Chips),
    Raise(Chips),
}

/// Where a player stands in the current hand.
#[derive(Debug, PartialEq, Eq, Structural, Clone)]
pub enum PlayerState {
    WaitingToBeDealt,
    Active(Card, Card),
    Folded,
}

impl PlayerState {
    /// Whether the player holds cards and is still in the hand.
    pub fn is_active(&self) -> (active: bool)
        ensures
            active == (*self is Active),
    {
        match self {
            PlayerState::Active(_, _) => true,
            _ => false,
        }
    }
}

/// A hand is one round/turn in the game.
pub struct Hand {
    /// The seat whose turn it is.
    pub active: usize,
    /// The players in seat order, each with their state in this hand.
    pub players: Vec<(Player, PlayerState)>,
    pub deck: Deck,
    pub pot: Chips,
}

/// What a move led to: the hand has a winner, or play goes on.
pub enum PlayResult<'a> {
    Winner(&'a Player),
    Continued,
}

/// The cards a player in `state` holds.
pub open spec fn hole_cards(state: PlayerState) -> Seq<Card> {
    match state {
        PlayerState::Active(first, second) => seq![first, second],
        _ => Seq::empty(),
    }
}

/// The cards held by the players, seat by seat.
pub open spec fn held_cards(seats: Seq<(Player, PlayerState)>) -> Seq<Card>
    decreases seats.len(),
{
    if seats.len() == 0 {
        Seq::empty()
    } else {
        held_cards(seats.drop_last()) + hole_cards(seats.last().1)
    }
}

/// How many seats onwards from `from` one goes to reach `to`, going round
/// the table of `n` seats.
pub open spec fn seats_after(from: int, to: int, n: int) -> int {
    if to > from {
        to - from
    } else {
        to + n - from
    }
}

/// `to` is the first seat after `from`, going round the table, whose player
/// is active.
pub open spec fn is_next_active(seats: Seq<(Player, PlayerState)>, from: int, to: int) -> bool {
    &&& 0 <= to < seats.len()
    &&& to != from
    &&& seats[to].1 is Active
    &&& forall|i: int|
        0 <= i < seats.len() && i != from && (#[trigger] seats[i]).1 is Active ==> seats_after(
            from,
            to,
            seats.len() as int,
        ) <= seats_after(from, i, seats.len() as int)
}

/// No player other than the one in seat `from` is active.
pub open spec fn no_other_active(seats: Seq<(Player, PlayerState)>, from: int) -> bool {
    forall|i: int| 0 <= i < seats.len() && i != from ==> !((#[trigger] seats[i]).1 is Active)
}

/// The cards held at a table split into seats is the cards held at the
/// first seats followed by those held at the rest.
proof fn lemma_held_cards_concat(a: Seq<(Player, PlayerState)>, b: Seq<(Player, PlayerState)>)
    ensures
        held_cards(a + b) == held_cards(a) + held_cards(b),
    decreases b.len(),
{
    if b.len() == 0 {
        assert(a + b =~= a);
        assert(held_cards(a) + held_cards(b) =~= held_cards(a));
    } else {
        assert((a + b).drop_last() =~= a + b.drop_last());
        lemma_held_cards_concat(a, b.drop_last());
        assert(held_cards(a + b) =~= held_cards(a) + held_cards(b));
    }
}

/// The cards held at a table: those before seat `i`, then those of seat `i`,
/// then those after it.
proof fn lemma_held_cards_at(seats: Seq<(Player, PlayerState)>, i: int)
    requires
        0 <= i < seats.len(),
    ensures
        held_cards(seats) == held_cards(seats.take(i)) + hole_cards(seats[i].1) + held_cards(
            seats.skip(i + 1),
        ),
{
    let one = seq![seats[i]];
    assert(seats =~= seats.take(i) + one + seats.skip(i + 1));
    lemma_held_cards_concat(seats.take(i) + one, seats.skip(i + 1));
    lemma_held_cards_concat(seats.take(i), one);
    assert(one.drop_last() =~= Seq::<(Player, PlayerState)>::empty());
    assert(held_cards(one.drop_last()) =~= Seq::<Card>::empty());
    assert(one.last() == seats[i]);
    assert(held_cards(one) =~= hole_cards(seats[i].1));
}

/// Nobody holds cards at a table where nobody is active.
proof fn lemma_held_cards_none(seats: Seq<(Player, PlayerState)>)
    requires
        forall|i: int| 0 <= i < seats.len() ==> !((#[trigger] seats[i]).1 is Active),
    ensures
        held_cards(seats) == Seq::<Card>::empty(),
    decreases seats.len(),
{
    if seats.len() > 0 {
        let last = seats.len() - 1;
        assert(!(seats[last].1 is Active));
        lemma_held_cards_none(seats.drop_last());
        assert(held_cards(seats) =~= Seq::<Card>::empty());
    }
}

/// Folding the player in seat `i` and putting their two cards under the deck
/// keeps the same cards in the hand.
proof fn lemma_fold_keeps_cards(
    before: Seq<(Player, PlayerState)>,
    after: Seq<(Player, PlayerState)>,
    i: int,
    deck: Seq<Card>,
)
    requires
        0 <= i < before.len(),
        before[i].1 is Active,
        after == before.update(i, (before[i].0, PlayerState::Folded)),
    ensures
        (held_cards(after) + deck.push(before[i].1->Active_0).push(before[i].1->Active_1)).to_multiset()
            == (held_cards(before) + deck).to_multiset(),
{
    broadcast use vstd::seq_lib::lemma_multiset_commutative;
    broadcast use vstd::multiset::group_multiset_axioms;

    lemma_held_cards_at(before, i);
    lemma_held_cards_at(after, i);
    assert(after.take(i) =~= before.take(i));
    assert(after.skip(i + 1) =~= before.skip(i + 1));
    let left = held_cards(before.take(i));
    let right = held_cards(before.skip(i + 1));
    let hole = hole_cards(before[i].1);
    assert(hole_cards(after[i].1) =~= Seq::<Card>::empty());
    assert(held_cards(after) =~= left + right);
    assert(held_cards(before) =~= left + hole + right);
    assert(deck.push(before[i].1->Active_0).push(before[i].1->Active_1) =~= deck + hole);
    let ms_after = (left + right + (deck + hole)).to_multiset();
    let ms_before = (left + hole + right + deck).to_multiset();
    assert(ms_after =~= left.to_multiset().add(right.to_multiset()).add(
        deck.to_multiset().add(hole.to_multiset()),
    ));
    assert(ms_before =~= left.to_multiset().add(hole.to_multiset()).add(right.to_multiset()).add(
        deck.to_multiset(),
    ));
    assert(ms_after =~= ms_before);
}

impl Hand {
    /// The seat whose turn it is.
    pub open spec fn current_seat(&self) -> (Player, PlayerState) {
        self.players@[self.active as int]
    }

    /// Every card in the hand, in the players' hands or in the deck.
    pub open spec fn all_cards(&self) -> Multiset<Card> {
        (held_cards(self.players@) + self.deck@).to_multiset()
    }

    /// Seats the players, all waiting to be dealt, with an empty pot; the
    /// first player is to act.
    pub fn new(players: Vec<Player>, deck: Deck) -> (hand: Hand)
        ensures
            hand.active == 0,
            hand.players@.len() == players@.len(),
            forall|i: int|
                0 <= i < players@.len() ==> #[trigger] hand.players@[i] == (
                    players@[i],
                    PlayerState::WaitingToBeDealt,
                ),
            hand.deck@ == deck@,
            hand.pot@ == 0,
            hand.all_cards() == deck@.to_multiset(),
    {
        let ghost people = players@;
        let mut seats: Vec<(Player, PlayerState)> = Vec::new();
        for player in it: players.into_iter()
            invariant
                it.seq() == people,
                seats@.len() == it.index(),
                forall|j: int|
                    0 <= j < it.index() ==> #[trigger] seats@[j] == (
                        people[j],
                        PlayerState::WaitingToBeDealt,
                    ),
        {
            seats.push((player, PlayerState::WaitingToBeDealt));
        }
        proof {
            lemma_held_cards_none(seats@);
            assert(held_cards(seats@) + deck@ =~= deck@);
        }
        Hand { active: 0, players: seats, pot: Chips::new(), deck }
    }

    /// Plays the move of the player whose turn it is, then passes the turn
    /// to the next active player round the table.
    ///
    /// A bet or a raise puts its chips into the pot; a check changes
    /// nothing; a fold marks the player as folded and returns their two
    /// cards to the bottom of the deck. Folding fails when the player holds
    /// no cards, though the player is still marked as folded. When no other
    /// player is active, the player who moved has won the hand.
    pub fn play<'a>(&'a mut self, next_player_move: PlayerMove) -> (result: Result<PlayResult<'a>, String>)
        requires
            old(self).active < old(self).players@.len(),
            next_player_move matches PlayerMove::Bet(chips) ==> old(self).pot@ + chips@ <= usize::MAX,
            next_player_move matches PlayerMove::Raise(chips) ==> old(self).pot@ + chips@ <= usize::MAX,
        ensures
            result is Err <==> (next_player_move is Fold && !(old(self).current_seat().1 is Active)),
            result matches Err(message) ==> (old(self).current_seat().1 is Folded ==> message@
                == "Player already folded"@) && (old(self).current_seat().1 is WaitingToBeDealt
                ==> message@ == "Player was waiting to be dealt"@),
            next_player_move is Fold ==> final(self).players@ == old(self).players@.update(
                old(self).active as int,
                (old(self).current_seat().0, PlayerState::Folded),
            ),
            !(next_player_move is Fold) ==> final(self).players@ == old(self).players@,
            match (next_player_move, old(self).current_seat().1) {
                (PlayerMove::Fold, PlayerState::Active(first, second)) => final(self).deck@ == old(
                    self,
                ).deck@.push(first).push(second),
                _ => final(self).deck@ == old(self).deck@,
            },
            match next_player_move {
                PlayerMove::Bet(chips) => final(self).pot@ == old(self).pot@ + chips@,
                PlayerMove::Raise(chips) => final(self).pot@ == old(self).pot@ + chips@,
                _ => final(self).pot@ == old(self).pot@,
            },
            result is Err ==> final(self).active == old(self).active,
            result matches Ok(PlayResult::Continued) ==> is_next_active(
                final(self).players@,
                old(self).active as int,
                final(self).active as int,
            ),
            result matches Ok(PlayResult::Winner(winner)) ==> *winner == old(self).current_seat().0
                && final(self).active == old(self).active,
            result is Ok ==> (result matches Ok(PlayResult::Winner(_)) <==> no_other_active(
                final(self).players@,
                old(self).active as int,
            )),
            final(self).all_cards() == old(self).all_cards(),
    {
        let ghost seats0 = self.players@;
        let ghost deck0 = self.deck@;
        let active = self.active;
        match next_player_move {
            PlayerMove::Bet(chips) => {
                self.pot.add(chips);
            },
            PlayerMove::Raise(chips) => {
                self.pot.add(chips);
            },
            PlayerMove::Check => {},
            PlayerMove::Fold => {
                let mut state = PlayerState::Folded;
                std::mem::swap(&mut self.players[active].1, &mut state);
                proof {
                    let after = self.players@;
                    lemma_held_cards_at(seats0, active as int);
                    lemma_held_cards_at(after, active as int);
                    assert(after.take(active as int) =~= seats0.take(active as int));
                    assert(after.skip(active + 1) =~= seats0.skip(active + 1));
                }
                match state {
                    PlayerState::Active(first, second) => {
                        self.deck.add_to_bottom(first);
                        self.deck.add_to_bottom(second);
                        proof {
                            lemma_fold_keeps_cards(seats0, self.players@, active as int, deck0);
                        }
                    },
                    PlayerState::Folded => {
                        return Err("Player already folded".to_owned());
                    },
                    PlayerState::WaitingToBeDealt => {
                        return Err("Player was waiting to be dealt".to_owned());
                    },
                }
            },
        }
        let ghost players1 = self.players@;
        let ghost deck1 = self.deck@;
        let ghost pot1 = self.pot;
        let n = self.players.len();
        let mut i: usize = active + 1;
        #[verifier::loop_isolation(false)]
        while i < n
            invariant
                self.players@ == players1,
                self.deck@ == deck1,
                self.pot == pot1,
                n == self.players@.len(),
                active == self.active,
                active < i <= n,
                forall|k: int| active < k < i ==> !((#[trigger] self.players@[k]).1 is Active),
            decreases n - i,
        {
            if self.players[i].1.is_active() {
                self.active = i;
                return Ok(PlayResult::Continued);
            }
            i = i + 1;
        }
        let mut j: usize = 0;
        #[verifier::loop_isolation(false)]
        while j < active
            invariant
                self.players@ == players1,
                self.deck@ == deck1,
                self.pot == pot1,
                n == self.players@.len(),
                active == self.active,
                active < n,
                j <= active,
                forall|k: int| active < k < n ==> !((#[trigger] self.players@[k]).1 is Active),
                forall|k: int| 0 <= k < j ==> !((#[trigger] self.players@[k]).1 is Active),
            decreases active - j,
        {
            if self.players[j].1.is_active() {
                self.active = j;
                return Ok(PlayResult::Continued);
            }
            j = j + 1;
        }
        Ok(PlayResult::Winner(&self.players[active].0))
    }

    /// Deals two cards from the top of the deck to each player in turn,
    /// seat by seat. Every player must be waiting to be dealt, and the deck
    /// must hold two cards for each of them.
    pub fn deal(&mut self)
        requires
            forall|i: int|
                0 <= i < old(self).players@.len() ==> (#[trigger] old(self).players@[i]).1
                    == PlayerState::WaitingToBeDealt,
            2 * old(self).players@.len() <= old(self).deck@.len(),
        ensures
            final(self).players@.len() == old(self).players@.len(),
            forall|i: int|
                0 <= i < old(self).players@.len() ==> #[trigger] final(self).players@[i] == (
                    old(self).players@[i].0,
                    PlayerState::Active(old(self).deck@[2 * i], old(self).deck@[2 * i + 1]),
                ),
            final(self).deck@ == old(self).deck@.skip(2 * old(self).players@.len() as int),
            final(self).active == old(self).active,
            final(self).pot == old(self).pot,
            final(self).all_cards() == old(self).all_cards(),
    {
        let ghost seats0 = self.players@;
        let ghost deck0 = self.deck@;
        proof {
            lemma_held_cards_none(seats0);
        }
        let n = self.players.len();
        let mut i: usize = 0;
        while i < n
            invariant
                n == seats0.len() == self.players@.len(),
                2 * n <= deck0.len(),
                i <= n,
                forall|k: int| 0 <= k < n ==> (#[trigger] seats0[k]).1 == PlayerState::WaitingToBeDealt,
                forall|k: int|
                    0 <= k < i ==> #[trigger] self.players@[k] == (
                        seats0[k].0,
                        PlayerState::Active(deck0[2 * k], deck0[2 * k + 1]),
                    ),
                forall|k: int| i <= k < n ==> #[trigger] self.players@[k] == seats0[k],
                self.deck@ == deck0.skip(2 * i),
                held_cards(self.players@) == deck0.take(2 * i),
                self.active == old(self).active,
                self.pot == old(self).pot,
            decreases n - i,
        {
            let ghost before = self.players@;
            let first = self.deck.draw_top().unwrap();
            let second = self.deck.draw_top().unwrap();
            self.players[i].1 = PlayerState::Active(first, second);
            proof {
                let after = self.players@;
                assert(after =~= before.update(i as int, (seats0[i as int].0, PlayerState::Active(first, second))));
                lemma_held_cards_at(before, i as int);
                lemma_held_cards_at(after, i as int);
                assert(after.take(i as int) =~= before.take(i as int));
                assert(after.skip(i + 1) =~= before.skip(i + 1));
                lemma_held_cards_none(before.skip(i + 1));
                assert(deck0.skip(2 * i).drop_first().drop_first() =~= deck0.skip(2 * i + 2));
                assert(first == deck0[2 * i]);
                assert(second == deck0[2 * i + 1]);
                assert(deck0.take(2 * i + 2) =~= deck0.take(2 * i) + seq![first, second]);
                assert(held_cards(after) =~= deck0.take(2 * i + 2));
            }
            i = i + 1;
        }
        proof {
            assert(deck0.take(2 * n as int) + deck0.skip(2 * n as int) =~= deck0);
            assert(held_cards(seats0) + deck0 =~= deck0);
        }
    }
}

// Structures for later stages of the game

/// A player's position relative to the dealer.
pub enum PlayerPosition {
    Button,
    SmallBlind,
    BigBlind,
}

/// The stages at which cards are dealt.
pub enum Deal {
    Hole,
    Flop,
    River,
    Turn,
}

/// The combinations a poker hand can make, with the cards that make them.
#[derive(Debug)]
pub enum HandValues<'a> {
    HighCard(&'a Card),
    Pair(&'a Card, &'a Card),
    TwoPairs((&'a Card, &'a Card), (&'a Card, &'a Card)),
    ThreeOfAKind(&'a Card, &'a Card, &'a Card),
    Straight(&'a Card, &'a Card, &'a Card, &'a Card, &'a Card),
    Flush(&'a Card, &'a Card, &'a Card, &'a Card, &'a Card),
    FullHouse(&'a Card, &'a Card, &'a Card, &'a Card, &'a Card),
    FourOfAKind(&'a Card, &'a Card, &'a Card, &'a Card),
    StraightFlush(&'a Card, &'a Card, &'a Card, &'a Card, &'a Card),
}

/// The combinations found among `cards`: for now, the first two cards as a
/// pair.
#[allow(dead_code)]
fn check_hand<'a>(cards: &'a [Card]) -> (values: Vec<HandValues<'a>>)
    requires
        cards@.len() >= 2,
    ensures
        values@.len() == 1,
        values@[0] matches HandValues::Pair(first, second) && *first == cards@[0] && *second
            == cards@[1],
{
    let first = &cards[0];
    let second = &cards[1];
    vec![HandValues::Pair(first, second)]
}

} // verus!
