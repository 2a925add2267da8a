//! Numbers written in decimal digits.

use vstd::prelude::*;

verus! {

/// The digit for a number below ten.
pub open spec fn digit(value: nat) -> char {
    ((0x30 + value) as u8) as char
}

/// A number in decimal digits, without leading zeros.
pub open spec fn decimal(value: nat) -> Seq<char>
    decreases value,
{
    if value < 10 {
        seq![digit(value)]
    } else {
        decimal(value / 10).push(digit(value % 10))
    }
}

/// Appends `value` in decimal digits.
pub fn append_decimal(text: &mut String, value: u64)
    ensures
        final(text)@ == old(text)@ + decimal(value as nat),
    decreases value,
{
    if value >= 10 {
        append_decimal(text, value / 10);
    }
    let last: u8 = 0x30 + (value % 10) as u8;
    text.push(last as char);
}

/// Two numbers with the same digits are the same number.
pub proof fn lemma_decimal_is_injective(a: nat, b: nat)
    requires
        decimal(a) == decimal(b),
    ensures
        a == b,
    decreases a,
{
    lemma_decimal_len(a);
    lemma_decimal_len(b);
    if a >= 10 && b >= 10 {
        assert(decimal(a).drop_last() =~= decimal(a / 10));
        assert(decimal(b).drop_last() =~= decimal(b / 10));
        assert(decimal(a).last() == digit(a % 10));
        lemma_decimal_is_injective(a / 10, b / 10);
    } else if a < 10 && b < 10 {
        assert(decimal(a)[0] == digit(a));
    }
}

/// A number has one digit where it is below ten, and more where it is not.
pub proof fn lemma_decimal_len(value: nat)
    ensures
        value < 10 ==> decimal(value).len() == 1,
        value >= 10 ==> decimal(value).len() >= 2,
    decreases value,
{
    if value >= 10 {
        lemma_decimal_len(value / 10);
    }
}

} // verus!
