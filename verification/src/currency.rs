//! Fixed-point money: an integer count of minor units.

use crate::summation::{lemma_seq_sum_prefix, seq_sum};
use vstd::prelude::*;
use vstd::string::StringExecFns;

verus! {

/// An amount of money, held as a whole number of minor units (cents).
#[derive(Debug, Clone, Copy, PartialEq, Eq, Hash, Structural)]
pub struct Currency(pub u32);

/// The character that stands for the digit `d`.
pub open spec fn digit_char(d: nat) -> char
    recommends
        d < 10,
{
    if d == 0 {
        '0'
    } else if d == 1 {
        '1'
    } else if d == 2 {
        '2'
    } else if d == 3 {
        '3'
    } else if d == 4 {
        '4'
    } else if d == 5 {
        '5'
    } else if d == 6 {
        '6'
    } else if d == 7 {
        '7'
    } else if d == 8 {
        '8'
    } else {
        '9'
    }
}

/// The digits of `n` in base ten, most significant first, without leading
/// zeros; zero is the single digit `0`.
pub open spec fn decimal(n: nat) -> Seq<char>
    decreases n,
{
    if n < 10 {
        seq![digit_char(n)]
    } else {
        decimal(n / 10).push(digit_char(n % 10))
    }
}

/// An amount as text: the major units, a dot, and the minor units that are
/// left over, each as a plain decimal number. The minor units are not padded
/// to two digits, so 1305 minor units read `13.5`.
pub open spec fn rendering(units: nat) -> Seq<char> {
    decimal(units / 100) + seq!['.'] + decimal(units % 100)
}

fn digit_str(d: u32) -> (text: &'static str)
    requires
        d < 10,
    ensures
        text@ == seq![digit_char(d as nat)],
{
    proof {
        reveal_strlit("0");
        reveal_strlit("1");
        reveal_strlit("2");
        reveal_strlit("3");
        reveal_strlit("4");
        reveal_strlit("5");
        reveal_strlit("6");
        reveal_strlit("7");
        reveal_strlit("8");
        reveal_strlit("9");
    }
    let text = if d == 0 {
        "0"
    } else if d == 1 {
        "1"
    } else if d == 2 {
        "2"
    } else if d == 3 {
        "3"
    } else if d == 4 {
        "4"
    } else if d == 5 {
        "5"
    } else if d == 6 {
        "6"
    } else if d == 7 {
        "7"
    } else if d == 8 {
        "8"
    } else {
        "9"
    };
    assert(text@ =~= seq![digit_char(d as nat)]);
    text
}

fn decimal_string(n: u32) -> (text: String)
    ensures
        text@ == decimal(n as nat),
    decreases n,
{
    if n < 10 {
        digit_str(n).to_owned()
    } else {
        let mut text = decimal_string(n / 10);
        text.append(digit_str(n % 10));
        assert(text@ =~= decimal(n as nat));
        text
    }
}

impl Currency {
    /// The amount of `units` minor units.
    pub fn new(units: u32) -> (amount: Currency)
        ensures
            amount.0 == units,
    {
        Currency(units)
    }

    /// The minor units of an amount, as the term it adds to a sum.
    pub open spec fn units() -> spec_fn(Currency) -> int {
        |amount: Currency| amount.0 as int
    }

    /// The minor units of all of `amounts` together.
    pub open spec fn total_units(amounts: Seq<Currency>) -> int {
        seq_sum(amounts, Self::units())
    }

    /// Adds up `amounts`, where the sum fits the currency.
    pub fn sum(amounts: &[Currency]) -> (total: Currency)
        requires
            Self::total_units(amounts@) <= u32::MAX,
        ensures
            total.0 == Self::total_units(amounts@),
    {
        let mut total: u32 = 0;
        let mut i: usize = 0;
        while i < amounts.len()
            invariant
                i <= amounts.len(),
                total == Self::total_units(amounts@.take(i as int)),
                Self::total_units(amounts@) <= u32::MAX,
            decreases amounts.len() - i,
        {
            proof {
                lemma_seq_sum_prefix(amounts@, Self::units(), i + 1);
                assert(amounts@.take(i + 1).drop_last() =~= amounts@.take(i as int));
            }
            total = total + amounts[i].0;
            i += 1;
        }
        assert(amounts@.take(i as int) =~= amounts@);
        Currency(total)
    }

    /// Adds up `amounts`. There is no sum where it does not fit the currency.
    pub fn checked_sum(amounts: &[Currency]) -> (total: Option<Currency>)
        ensures
            total is Some <==> Self::total_units(amounts@) <= u32::MAX,
            total matches Some(sum) ==> sum.0 == Self::total_units(amounts@),
    {
        let mut total: u32 = 0;
        let mut i: usize = 0;
        while i < amounts.len()
            invariant
                i <= amounts.len(),
                total == Self::total_units(amounts@.take(i as int)),
            decreases amounts.len() - i,
        {
            proof {
                lemma_seq_sum_prefix(amounts@, Self::units(), i + 1);
                assert(amounts@.take(i + 1).drop_last() =~= amounts@.take(i as int));
            }
            match total.checked_add(amounts[i].0) {
                Some(next) => {
                    total = next;
                },
                None => {
                    return None;
                },
            }
            i += 1;
        }
        assert(amounts@.take(i as int) =~= amounts@);
        Some(Currency(total))
    }

    /// The amount as text: see [`rendering`].
    pub fn display(&self) -> (text: String)
        ensures
            text@ == rendering(self.0 as nat),
    {
        let mut text = decimal_string(self.0 / 100);
        let minor = decimal_string(self.0 % 100);
        proof {
            reveal_strlit(".");
        }
        text.append(".");
        text.append(minor.as_str());
        assert(text@ =~= rendering(self.0 as nat));
        text
    }
}

} // verus!
