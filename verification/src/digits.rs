//! Decimal digits and the numbers they denote.

use vstd::prelude::*;
use vstd::arithmetic::div_mod::lemma_fundamental_div_mod_converse;

verus! {

/// Ten to the power `n`.
pub open spec fn pow10(n: nat) -> nat
    decreases n,
{
    if n == 0 {
        1
    } else {
        10 * pow10((n - 1) as nat)
    }
}

/// The number that a sequence of decimal digits denotes, most significant digit first.
pub open spec fn number(digits: Seq<u8>) -> nat
    decreases digits.len(),
{
    if digits.len() == 0 {
        0
    } else {
        10 * number(digits.drop_last()) + digits.last() as nat
    }
}

/// Every element is a decimal digit, from 0 to 9.
pub open spec fn are_digits(digits: Seq<u8>) -> bool {
    forall|i: int| 0 <= i < digits.len() ==> #[trigger] digits[i] < 10
}

/// `c` is one of the ten ASCII digits.
pub open spec fn is_digit(c: char) -> bool {
    '0' <= c && c <= '9'
}

/// The value of the character `c` as a digit; 0 for any other character.
pub open spec fn digit_of(c: char) -> u8 {
    if is_digit(c) {
        (c as u8 - 48) as u8
    } else {
        0
    }
}

/// The character for the digit `d`.
pub open spec fn digit_char(d: nat) -> char {
    if d == 0 {
        '0'
    } else if d == 1 {
        '1'
    } else if d == 2 {
        '2'
    } else if d == 3 {
        '3'
    } else if d == 4 {
        '4'
    } else if d == 5 {
        '5'
    } else if d == 6 {
        '6'
    } else if d == 7 {
        '7'
    } else if d == 8 {
        '8'
    } else {
        '9'
    }
}

/// Every character of `text` is an ASCII digit.
pub open spec fn all_digits(text: Seq<char>) -> bool {
    forall|i: int| 0 <= i < text.len() ==> is_digit(#[trigger] text[i])
}

/// The digits that a text of digit characters holds.
pub open spec fn digits_of(text: Seq<char>) -> Seq<u8> {
    text.map_values(|c: char| digit_of(c))
}

/// The text of a sequence of digits.
pub open spec fn digits_text(digits: Seq<u8>) -> Seq<char> {
    digits.map_values(|d: u8| digit_char(d as nat))
}

/// The decimal text of `n`, without leading zeros: `0` for zero.
pub open spec fn nat_text(n: nat) -> Seq<char>
    decreases n,
{
    if n < 10 {
        seq![digit_char(n)]
    } else {
        nat_text(n / 10).push(digit_char(n % 10))
    }
}

/// The last `width` decimal digits of `n` as text, with leading zeros.
pub open spec fn padded_text(n: nat, width: nat) -> Seq<char>
    decreases width,
{
    if width == 0 {
        Seq::empty()
    } else {
        padded_text(n / 10, (width - 1) as nat).push(digit_char(n % 10))
    }
}

/// A power of ten is positive.
pub proof fn lemma_pow10_positive(n: nat)
    ensures
        pow10(n) > 0,
    decreases n,
{
    if n > 0 {
        lemma_pow10_positive((n - 1) as nat);
    }
}

/// Powers of ten multiply by adding their exponents.
pub proof fn lemma_pow10_adds(a: nat, b: nat)
    ensures
        pow10(a + b) == pow10(a) * pow10(b),
    decreases b,
{
    if b == 0 {
        assert(pow10(a) * 1 == pow10(a));
    } else {
        lemma_pow10_adds(a, (b - 1) as nat);
        assert(10 * (pow10(a) * pow10((b - 1) as nat)) == pow10(a) * (10 * pow10((b - 1) as nat)))
            by (nonlinear_arith);
    }
}

/// Ten to the third power is a thousand.
pub proof fn lemma_pow10_three()
    ensures
        pow10(3) == 1000,
{
    reveal_with_fuel(pow10, 4);
}

/// One more digit at the end: ten times the number, and the digit.
pub proof fn lemma_number_push(digits: Seq<u8>, d: u8)
    ensures
        number(digits.push(d)) == 10 * number(digits) + d,
{
    assert(digits.push(d).drop_last() =~= digits);
}

/// Digits written one after the other: the first number is shifted left by
/// the length of the second.
pub proof fn lemma_number_concat(a: Seq<u8>, b: Seq<u8>)
    ensures
        number(a + b) == number(a) * pow10(b.len()) + number(b),
    decreases b.len(),
{
    if b.len() == 0 {
        assert(number(a) * 1 == number(a));
    } else {
        let front = b.drop_last();
        lemma_number_concat(a, front);
        assert((a + b).drop_last() =~= a + front);
        assert(10 * (number(a) * pow10(front.len())) == number(a) * (10 * pow10(front.len())))
            by (nonlinear_arith);
    }
}

/// `n` digits denote a number below `10^n`.
pub proof fn lemma_number_bound(digits: Seq<u8>)
    requires
        are_digits(digits),
    ensures
        number(digits) < pow10(digits.len()),
    decreases digits.len(),
{
    if digits.len() > 0 {
        lemma_number_bound(digits.drop_last());
    }
}

/// Digits denote zero exactly when each of them is zero.
pub proof fn lemma_number_zero(digits: Seq<u8>)
    ensures
        number(digits) == 0 <==> forall|i: int| 0 <= i < digits.len() ==> digits[i] == 0,
    decreases digits.len(),
{
    if digits.len() > 0 {
        let front = digits.drop_last();
        lemma_number_zero(front);
        if number(digits) == 0 {
            assert forall|i: int| 0 <= i < digits.len() implies digits[i] == 0 by {
                if i < front.len() {
                    assert(front[i] == digits[i]);
                }
            }
        }
        if forall|i: int| 0 <= i < digits.len() ==> digits[i] == 0 {
            assert forall|i: int| 0 <= i < front.len() implies front[i] == 0 by {}
        }
    }
}

/// Cutting digits in two cuts their number in quotient and remainder.
pub proof fn lemma_number_split(digits: Seq<u8>, k: int)
    requires
        are_digits(digits),
        0 <= k <= digits.len(),
    ensures
        number(digits.take(k)) == number(digits) / pow10((digits.len() - k) as nat),
        number(digits.skip(k)) == number(digits) % pow10((digits.len() - k) as nat),
{
    let high = digits.take(k);
    let low = digits.skip(k);
    assert(digits =~= high + low);
    lemma_number_concat(high, low);
    lemma_number_bound(low);
    lemma_fundamental_div_mod_converse(
        number(digits) as int,
        pow10(low.len()) as int,
        number(high) as int,
        number(low) as int,
    );
}

/// Replacing one digit changes the number by the difference of the two
/// digits, at that digit's place.
pub proof fn lemma_number_update(digits: Seq<u8>, i: int, d: u8)
    requires
        0 <= i < digits.len(),
    ensures
        number(digits.update(i, d)) + digits[i] * pow10((digits.len() - 1 - i) as nat) == number(
            digits,
        ) + d * pow10((digits.len() - 1 - i) as nat),
{
    let place = pow10((digits.len() - 1 - i) as nat);
    let high = digits.take(i);
    let low = digits.skip(i + 1);
    let changed = digits.update(i, d);
    assert(digits =~= high.push(digits[i]) + low);
    assert(changed =~= high.push(d) + low);
    lemma_number_concat(high.push(digits[i]), low);
    lemma_number_concat(high.push(d), low);
    lemma_number_push(high, digits[i]);
    lemma_number_push(high, d);
    let h = number(high);
    assert((10 * h + d) * place + digits[i] * place == (10 * h + digits[i]) * place + d * place)
        by (nonlinear_arith);
}

/// Zeros in front change nothing.
pub proof fn lemma_number_leading_zeros(digits: Seq<u8>, k: int)
    requires
        0 <= k <= digits.len(),
        forall|i: int| 0 <= i < k ==> digits[i] == 0,
    ensures
        number(digits.skip(k)) == number(digits),
{
    let high = digits.take(k);
    assert(digits =~= high + digits.skip(k));
    lemma_number_concat(high, digits.skip(k));
    lemma_number_zero(high);
}

/// Digits that do not start with a needless zero are the text of their number.
pub proof fn lemma_digits_text_canonical(digits: Seq<u8>)
    requires
        are_digits(digits),
        digits.len() > 0,
        digits.len() > 1 ==> digits[0] != 0,
    ensures
        digits_text(digits) == nat_text(number(digits)),
    decreases digits.len(),
{
    let front = digits.drop_last();
    if digits.len() == 1 {
        assert(number(front) == 0);
    } else {
        lemma_digits_text_canonical(front);
        assert(number(front) > 0) by {
            lemma_number_zero(front);
        }
    }
}

/// Digits are the padded text of their number, at their own width.
pub proof fn lemma_digits_text_padded(digits: Seq<u8>)
    requires
        are_digits(digits),
    ensures
        digits_text(digits) == padded_text(number(digits), digits.len()),
    decreases digits.len(),
{
    if digits.len() > 0 {
        lemma_digits_text_padded(digits.drop_last());
    }
}

/// The text of a number holds digits only, and at least one.
pub proof fn lemma_nat_text_digits(n: nat)
    ensures
        nat_text(n).len() > 0,
        all_digits(nat_text(n)),
        number(digits_of(nat_text(n))) == n,
    decreases n,
{
    if n < 10 {
        assert(digits_of(nat_text(n)) =~= Seq::<u8>::empty().push(n as u8));
        lemma_number_push(Seq::empty(), n as u8);
    } else {
        lemma_nat_text_digits(n / 10);
        let front = nat_text(n / 10);
        let c = digit_char(n % 10);
        assert(digits_of(front.push(c)) =~= digits_of(front).push((n % 10) as u8));
        lemma_number_push(digits_of(front), (n % 10) as u8);
    }
}

/// Padded text holds `width` digits, which denote `n` below `10^width`.
pub proof fn lemma_padded_text_digits(n: nat, width: nat)
    ensures
        padded_text(n, width).len() == width,
        all_digits(padded_text(n, width)),
        number(digits_of(padded_text(n, width))) == n % pow10(width),
    decreases width,
{
    if width > 0 {
        let less = (width - 1) as nat;
        lemma_padded_text_digits(n / 10, less);
        let front = padded_text(n / 10, less);
        let c = digit_char(n % 10);
        assert(digits_of(front.push(c)) =~= digits_of(front).push((n % 10) as u8));
        lemma_number_push(digits_of(front), (n % 10) as u8);
        lemma_pow10_positive(less);
        let p = pow10(less);
        let q = (n / 10) / p;
        let r = (n / 10) % p;
        assert(n / 10 == q * p + r) by {
            vstd::arithmetic::div_mod::lemma_fundamental_div_mod((n / 10) as int, p as int);
            assert(p * q == q * p) by (nonlinear_arith);
        }
        assert(n == q * (10 * p) + (10 * r + n % 10)) by (nonlinear_arith)
            requires
                n / 10 == q * p + r,
                n == 10 * (n / 10) + n % 10,
        ;
        lemma_fundamental_div_mod_converse(
            n as int,
            (10 * p) as int,
            q as int,
            (10 * r + n % 10) as int,
        );
    }
}

} // verus!
