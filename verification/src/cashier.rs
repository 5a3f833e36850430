use vstd::prelude::*;

use crate::text::{decimal_string, decimal_text, digits_value, is_digit, lemma_decimal_text_value};

verus! {

/// A stack of chips. There is no way to copy one, and the operations on
/// stacks only move chips from one stack to another. Dropping a stack that
/// still holds chips is not caught: its chips are simply gone.
#[derive(Debug, PartialEq, Eq, Structural, PartialOrd, Ord)]
pub struct Chips(usize);

/// Why chips could not be handed out.
#[derive(Debug, PartialEq, Eq, Structural)]
pub enum ChipsError {
    OutOfChips,
}

impl View for Chips {
    type V = nat;

    /// The number of chips in the stack.
    closed spec fn view(&self) -> nat {
        self.0 as nat
    }
}

/// The total number of chips held by a list of stacks.
pub open spec fn total_chips(stacks: Seq<Chips>) -> nat
    decreases stacks.len(),
{
    if stacks.len() == 0 {
        0
    } else {
        total_chips(stacks.drop_last()) + stacks.last()@
    }
}

/// How a number of chips is shown.
pub open spec fn chips_text(n: nat) -> Seq<char> {
    if n == 0 {
        "no chips"@
    } else if n == 1 {
        "one chip"@
    } else if n == 2 {
        "two chips"@
    } else if n == 3 {
        "three chips"@
    } else if n == 4 {
        "four chips"@
    } else if n == 5 {
        "five chips"@
    } else if n == 6 {
        "six chips"@
    } else if n == 7 {
        "seven chips"@
    } else if n == 8 {
        "eight chips"@
    } else if n == 9 {
        "nine chips"@
    } else if n == 10 {
        "ten chips"@
    } else if n == 20 {
        "twenty chips"@
    } else if n == 30 {
        "thirty chips"@
    } else if n == 40 {
        "forty chips"@
    } else if n == 50 {
        "fifty chips"@
    } else {
        decimal_text(n) + " chips"@
    }
}

impl Chips {
    /// Separates `count` chips from this stack into a stack of their own.
    /// Fails, and leaves the stack as it was, when it holds fewer than `count`.
    pub fn take(&mut self, count: usize) -> (taken: Result<Chips, ChipsError>)
        ensures
            old(self)@ < count ==> taken == Err::<Chips, ChipsError>(ChipsError::OutOfChips)
                && final(self)@ == old(self)@,
            count <= old(self)@ ==> taken is Ok && taken->Ok_0@ == count && final(self)@
                == old(self)@ - count,
    {
        if self.0 < count {
            return Err(ChipsError::OutOfChips);
        }
        self.0 = self.0 - count;
        Ok(Chips(count))
    }

    /// Moves every chip of this stack into a new stack, leaving this one empty.
    pub fn take_all(&mut self) -> (all: Chips)
        ensures
            all@ == old(self)@,
            final(self)@ == 0,
    {
        let all = Chips(self.0);
        self.0 = 0;
        all
    }

    /// Adds a stack of chips into this one, totalling their values.
    pub fn add(&mut self, chips: Chips)
        requires
            old(self)@ + chips@ <= usize::MAX,
        ensures
            final(self)@ == old(self)@ + chips@,
    {
        self.0 = self.0 + chips.0;
    }

    /// How many chips are in this stack.
    pub fn count(&self) -> (n: usize)
        ensures
            n == self@,
    {
        self.0
    }

    /// An empty stack.
    pub fn new() -> (chips: Chips)
        ensures
            chips@ == 0,
    {
        Chips(0)
    }

    /// Merges all the stacks into one.
    pub fn sum(stacks: Vec<Chips>) -> (total: Chips)
        requires
            total_chips(stacks@) <= usize::MAX,
        ensures
            total@ == total_chips(stacks@),
    {
        let ghost all = stacks@;
        let mut stacks = stacks;
        let mut total = Chips(0);
        while stacks.len() > 0
            invariant
                total@ + total_chips(stacks@) == total_chips(all),
                total_chips(all) <= usize::MAX,
            decreases stacks.len(),
        {
            let ghost before = stacks@;
            let chip_stack = stacks.pop().unwrap();
            assert(stacks@ == before.drop_last());
            total.add(chip_stack);
        }
        total
    }

    /// The stack as text, such as `three chips` or `12 chips`.
    pub fn to_string(&self) -> (text: String)
        ensures
            text@ == chips_text(self@),
    {
        let word: &str = match self.0 {
            0 => "no chips",
            1 => "one chip",
            2 => "two chips",
            3 => "three chips",
            4 => "four chips",
            5 => "five chips",
            6 => "six chips",
            7 => "seven chips",
            8 => "eight chips",
            9 => "nine chips",
            10 => "ten chips",
            20 => "twenty chips",
            30 => "thirty chips",
            40 => "forty chips",
            50 => "fifty chips",
            other => {
                let mut text = decimal_string(other);
                text.append(" chips");
                return text;
            },
        };
        word.to_owned()
    }
}

/// The bank that hands out chips.
pub struct Cashier(Chips);

impl View for Cashier {
    type V = nat;

    /// The number of chips the cashier can still hand out.
    closed spec fn view(&self) -> nat {
        self.0@
    }
}

impl Cashier {
    /// A cashier holding `amount_to_start` chips.
    pub fn new(amount_to_start: usize) -> (cashier: Cashier)
        ensures
            cashier@ == amount_to_start,
    {
        Cashier(Chips(amount_to_start))
    }

    /// Hands out `count` chips from the cashier's own stack; fails, and hands
    /// out nothing, when the cashier holds fewer.
    pub fn buy_chips(&mut self, count: usize) -> (bought: Result<Chips, ChipsError>)
        ensures
            old(self)@ < count ==> bought == Err::<Chips, ChipsError>(ChipsError::OutOfChips)
                && final(self)@ == old(self)@,
            count <= old(self)@ ==> bought is Ok && bought->Ok_0@ == count && final(self)@
                == old(self)@ - count,
    {
        self.0.take(count)
    }

    /// Takes chips back and takes them out of play; the cashier's own
    /// stack stays as it was.
    pub fn exchange_chips(&mut self, give_chips: Chips)
        ensures
            final(self)@ == old(self)@,
    {
        let mut give_chips = give_chips;
        give_chips.0 = 0;
    }
}

/// Merging stacks one after another gives the same total as merging them all
/// at once: the total of a list with one more stack is the total before plus
/// that stack.
pub proof fn lemma_total_chips_push(stacks: Seq<Chips>, more: Chips)
    ensures
        total_chips(stacks.push(more)) == total_chips(stacks) + more@,
{
    assert(stacks.push(more).drop_last() =~= stacks);
}

/// The total of a list of chip counts.
pub open spec fn sum_counts(counts: Seq<nat>) -> nat
    decreases counts.len(),
{
    if counts.len() == 0 {
        0
    } else {
        sum_counts(counts.drop_last()) + counts.last()
    }
}

/// A cashier never hands out more chips than it started with.
///
/// Over any run of calls on a cashier made by `Cashier::new(start)`,
/// `reserves[i]` is what the cashier holds before call `i` and `handed[i]`
/// what that call handed out: the count of the stack an `Ok` of `buy_chips`
/// returned, and 0 for a failed `buy_chips` or an `exchange_chips`. Each call
/// keeps the reserve left plus the chips handed out equal to the reserve
/// before, as their contracts state; so all the chips handed out, together
/// with what the cashier still holds, come to `start`.
pub proof fn lemma_cashier_never_overdraws(start: nat, reserves: Seq<nat>, handed: Seq<nat>)
    requires
        reserves.len() == handed.len() + 1,
        reserves[0] == start,
        forall|i: int| 0 <= i < handed.len() ==> reserves[i + 1] + #[trigger] handed[i] == reserves[i],
    ensures
        sum_counts(handed) + reserves.last() == start,
        sum_counts(handed) <= start,
    decreases handed.len(),
{
    if handed.len() > 0 {
        let n = handed.len() - 1;
        let shorter = handed.drop_last();
        assert forall|i: int| 0 <= i < shorter.len() implies reserves.drop_last()[i + 1]
            + #[trigger] shorter[i] == reserves.drop_last()[i] by {
            assert(handed[i] == shorter[i]);
        }
        lemma_cashier_never_overdraws(start, reserves.drop_last(), shorter);
        assert(reserves[n + 1] + handed[n] == reserves[n]);
    }
}

/// The counts that are shown as words rather than digits: 0 to 10, and the
/// tens from 20 to 50.
pub open spec fn shown_in_words(n: nat) -> bool {
    n <= 10 || n == 20 || n == 30 || n == 40 || n == 50
}

/// The counts shown in words are named by their English words.
pub proof fn lemma_chips_words(n: nat)
    ensures
        n <= 10 ==> chips_text(n) == seq![
            "no chips"@,
            "one chip"@,
            "two chips"@,
            "three chips"@,
            "four chips"@,
            "five chips"@,
            "six chips"@,
            "seven chips"@,
            "eight chips"@,
            "nine chips"@,
            "ten chips"@,
        ][n as int],
        n == 20 ==> chips_text(n) == "twenty chips"@,
        n == 30 ==> chips_text(n) == "thirty chips"@,
        n == 40 ==> chips_text(n) == "forty chips"@,
        n == 50 ==> chips_text(n) == "fifty chips"@,
{
}

/// Every other count is shown by its decimal digits followed by " chips".
pub proof fn lemma_chips_text_digits(n: nat)
    requires
        !shown_in_words(n),
    ensures
        chips_text(n).len() > 6,
        chips_text(n).subrange(chips_text(n).len() - 6, chips_text(n).len() as int) == " chips"@,
        forall|i: int|
            0 <= i < chips_text(n).len() - 6 ==> is_digit(#[trigger] chips_text(n)[i]),
        digits_value(chips_text(n).subrange(0, chips_text(n).len() - 6)) == n,
{
    reveal_strlit(" chips");
    lemma_decimal_text_value(n);
    let t = chips_text(n);
    let d = decimal_text(n);
    assert(t == d + " chips"@);
    assert(t.subrange(0, t.len() - 6) =~= d);
    assert(t.subrange(t.len() - 6, t.len() as int) =~= " chips"@);
}

/// Stacks with different counts are never shown with the same text.
pub proof fn lemma_chips_text_distinct(a: nat, b: nat)
    ensures
        chips_text(a) == chips_text(b) ==> a == b,
{
    reveal_strlit("no chips");
    reveal_strlit("one chip");
    reveal_strlit("two chips");
    reveal_strlit("three chips");
    reveal_strlit("four chips");
    reveal_strlit("five chips");
    reveal_strlit("six chips");
    reveal_strlit("seven chips");
    reveal_strlit("eight chips");
    reveal_strlit("nine chips");
    reveal_strlit("ten chips");
    reveal_strlit("twenty chips");
    reveal_strlit("thirty chips");
    reveal_strlit("forty chips");
    reveal_strlit("fifty chips");
    let ta = chips_text(a);
    let tb = chips_text(b);
    if ta == tb {
        if shown_in_words(a) && shown_in_words(b) {
            assert(ta.len() == tb.len());
            assert(ta[0] == tb[0]);
            assert(ta[1] == tb[1]);
        } else if !shown_in_words(a) && !shown_in_words(b) {
            lemma_chips_text_digits(a);
            lemma_chips_text_digits(b);
            assert(ta.subrange(0, ta.len() - 6) == tb.subrange(0, tb.len() - 6));
        } else if shown_in_words(a) {
            lemma_chips_text_digits(b);
            assert(is_digit(tb[0]));
            assert(!is_digit(ta[0]));
        } else {
            lemma_chips_text_digits(a);
            assert(is_digit(ta[0]));
            assert(!is_digit(tb[0]));
        }
    }
}

} // verus!
