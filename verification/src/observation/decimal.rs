//! Writing numbers.

use vstd::arithmetic::power::pow;
use vstd::prelude::*;

verus! {

/// The decimal digits of a number, as bytes.
pub open spec fn digits(number: nat) -> Seq<u8>
    decreases number,
{
    if number < 10 {
        seq![(48 + number) as u8]
    } else {
        digits(number / 10).push((48 + number % 10) as u8)
    }
}

/// A number in decimal, with a sign where it is negative.
pub open spec fn decimal(number: int) -> Seq<u8> {
    if number < 0 {
        seq![45u8] + digits((-number) as nat)
    } else {
        digits(number as nat)
    }
}

/// Appends the digits of `number` to `target`.
pub fn append_digits(target: &mut Vec<u8>, number: u32)
    ensures
        final(target)@ == old(target)@ + digits(number as nat),
    decreases number,
{
    let ghost before = target@;
    if number >= 10 {
        append_digits(target, number / 10);
    }
    target.push(48 + (number % 10) as u8);
    assert(target@ =~= before + digits(number as nat));
}

/// Appends `number` in decimal to `target`.
pub fn append_decimal(target: &mut Vec<u8>, number: i32)
    ensures
        final(target)@ == old(target)@ + decimal(number as int),
{
    let ghost before = target@;
    if number < 0 {
        target.push(45);
        append_digits(target, (-(number as i64)) as u32);
    } else {
        append_digits(target, number as u32);
    }
    assert(target@ =~= before + decimal(number as int));
}

/// The number that `text` writes in decimal: each digit counts by the power of ten of its place.
pub open spec fn number_written(text: Seq<u8>) -> int
    decreases text.len(),
{
    if text.len() == 0 {
        0
    } else {
        (text[0] - 48) * pow(10, (text.len() - 1) as nat) + number_written(text.skip(1))
    }
}

proof fn lemma_one_more_digit(text: Seq<u8>, digit: u8)
    ensures
        number_written(text.push(digit)) == 10 * number_written(text) + (digit - 48),
    decreases text.len(),
{
    let longer = text.push(digit);
    if text.len() == 0 {
        reveal(pow);
        assert(longer.skip(1) =~= Seq::<u8>::empty());
        assert(pow(10, 0) == 1);
        assert(number_written(longer) == (longer[0] - 48) * pow(10, 0) + number_written(
            longer.skip(1),
        ));
        assert((digit - 48) * 1 == digit - 48);
    } else {
        let rest = text.skip(1);
        lemma_one_more_digit(rest, digit);
        assert(longer.skip(1) =~= rest.push(digit));
        let places = pow(10, (text.len() - 1) as nat);
        let head = text[0] - 48;
        assert(pow(10, text.len() as nat) == 10 * places) by {
            reveal(pow);
        }
        assert(longer[0] - 48 == head);
        assert(number_written(longer) == head * pow(10, text.len() as nat) + number_written(
            longer.skip(1),
        ));
        assert(number_written(text) == head * places + number_written(rest));
        assert(head * (10 * places) == 10 * (head * places)) by (nonlinear_arith);
    }
}

/// The digits of a number read back as that number: each is one of `0` to `9`, by their places
/// they add up to it, and none of them is a leading zero.
pub proof fn digits_read_back(number: nat)
    ensures
        digits(number).len() > 0,
        forall|i: int| 0 <= i < digits(number).len() ==> 48 <= #[trigger] digits(number)[i] <= 57,
        number_written(digits(number)) == number,
        digits(number).len() > 1 ==> digits(number)[0] != 48,
        number > 0 ==> digits(number)[0] != 48,
    decreases number,
{
    if number < 10 {
        let text = digits(number);
        assert(text == Seq::<u8>::empty().push((48 + number) as u8));
        lemma_one_more_digit(Seq::empty(), (48 + number) as u8);
        assert(number_written(Seq::<u8>::empty()) == 0);
    } else {
        let front = digits(number / 10);
        digits_read_back(number / 10);
        lemma_one_more_digit(front, (48 + number % 10) as u8);
        assert(digits(number)[0] == front[0]);
        assert forall|i: int| 0 <= i < digits(number).len() implies 48 <= #[trigger] digits(
            number,
        )[i] <= 57 by {
            if i < front.len() {
                assert(digits(number)[i] == front[i]);
            }
        }
    }
}

/// Different numbers have different digits.
pub proof fn different_numbers_are_written_differently(a: nat, b: nat)
    requires
        a != b,
    ensures
        digits(a) != digits(b),
{
    digits_read_back(a);
    digits_read_back(b);
}

/// A number in decimal reads back as that number: the digits of a number from zero on, and a sign
/// with the digits of the opposite number of a negative one. So different numbers differ.
pub proof fn decimals_read_back(number: int, other: int)
    ensures
        number >= 0 ==> {
            &&& number_written(decimal(number)) == number
            &&& forall|i: int|
                0 <= i < decimal(number).len() ==> 48 <= #[trigger] decimal(number)[i] <= 57
            &&& decimal(number).len() > 1 ==> decimal(number)[0] != 48
        },
        number < 0 ==> {
            &&& decimal(number).len() > 1
            &&& decimal(number)[0] == 45
            &&& number_written(decimal(number).skip(1)) == -number
            &&& forall|i: int|
                0 < i < decimal(number).len() ==> 48 <= #[trigger] decimal(number)[i] <= 57
            &&& decimal(number)[1] != 48
        },
        decimal(number) == decimal(other) ==> number == other,
{
    lemma_decimal(number);
    lemma_decimal(other);
}

proof fn lemma_decimal(number: int)
    ensures
        decimal(number).len() > 0,
        number >= 0 ==> number_written(decimal(number)) == number && forall|i: int|
            0 <= i < decimal(number).len() ==> 48 <= #[trigger] decimal(number)[i] <= 57,
        number >= 0 && decimal(number).len() > 1 ==> decimal(number)[0] != 48,
        number < 0 ==> {
            &&& decimal(number).len() > 1
            &&& decimal(number)[0] == 45
            &&& number_written(decimal(number).skip(1)) == -number
            &&& forall|i: int|
                0 < i < decimal(number).len() ==> 48 <= #[trigger] decimal(number)[i] <= 57
            &&& decimal(number)[1] != 48
        },
{
    if number < 0 {
        let text = digits((-number) as nat);
        digits_read_back((-number) as nat);
        assert(decimal(number).skip(1) =~= text);
        assert forall|i: int| 0 < i < decimal(number).len() implies 48 <= #[trigger] decimal(
            number,
        )[i] <= 57 by {
            assert(decimal(number)[i] == text[i - 1]);
        }
    } else {
        digits_read_back(number as nat);
    }
}

} // verus!
