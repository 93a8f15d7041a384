//! Non-negative decimal numbers as mathematical values: which text denotes
//! one, how one is written, and how one is rounded to thousandths.

use vstd::prelude::*;
use vstd::arithmetic::div_mod::{lemma_fundamental_div_mod, lemma_fundamental_div_mod_converse};
use crate::digits::{
    all_digits, are_digits, digits_of, is_digit, lemma_nat_text_digits, lemma_number_bound,
    lemma_number_concat, lemma_padded_text_digits, lemma_pow10_adds, lemma_pow10_positive,
    lemma_pow10_three, nat_text, number, padded_text, pow10,
};

verus! {

/// The number `mantissa / 10^scale`.
pub struct Quantity {
    pub mantissa: nat,
    pub scale: nat,
}

/// `k` is where the integer part of `text` ends: at its first `'.'`, or at its
/// end where it holds none.
pub open spec fn splits_at(text: Seq<char>, k: int) -> bool {
    &&& 0 <= k <= text.len()
    &&& forall|i: int| 0 <= i < k ==> text[i] != '.'
    &&& k < text.len() ==> text[k] == '.'
}

/// Where the integer part of `text` ends.
pub open spec fn point_index(text: Seq<char>) -> int {
    choose|k: int| splits_at(text, k)
}

/// What stands before the first `'.'`.
pub open spec fn integer_part(text: Seq<char>) -> Seq<char> {
    text.subrange(0, point_index(text))
}

/// What stands behind the first `'.'`.
pub open spec fn fraction_part(text: Seq<char>) -> Seq<char> {
    if point_index(text) < text.len() {
        text.subrange(point_index(text) + 1, text.len() as int)
    } else {
        Seq::empty()
    }
}

/// Decimal text: ASCII digits with at most one `'.'` among them, and at least
/// one digit. The point may stand first or last (`.5`, `5.`).
pub open spec fn is_decimal(text: Seq<char>) -> bool {
    &&& all_digits(integer_part(text))
    &&& all_digits(fraction_part(text))
    &&& integer_part(text).len() + fraction_part(text).len() > 0
}

/// The number that decimal text denotes.
pub open spec fn decimal_of(text: Seq<char>) -> Quantity {
    Quantity {
        mantissa: number(digits_of(integer_part(text) + fraction_part(text))),
        scale: fraction_part(text).len(),
    }
}

/// What a piece of text measures: the number it denotes where it is decimal
/// text, and nothing (`None`, not a number) where it is not.
pub open spec fn measurement_of(text: Seq<char>) -> Option<Quantity> {
    if is_decimal(text) {
        Some(decimal_of(text))
    } else {
        None
    }
}

/// Every text has a place where its integer part ends.
pub proof fn lemma_split_exists(text: Seq<char>) -> (k: int)
    ensures
        splits_at(text, k),
    decreases text.len(),
{
    if text.len() == 0 {
        0
    } else {
        let front = text.drop_last();
        let k = lemma_split_exists(front);
        assert forall|i: int| 0 <= i < k implies text[i] != '.' by {
            assert(text[i] == front[i]);
        }
        if k < front.len() || text.last() == '.' {
            k
        } else {
            k + 1
        }
    }
}

/// The integer part ends in one place only.
pub proof fn lemma_split_unique(text: Seq<char>, k: int)
    requires
        splits_at(text, k),
    ensures
        point_index(text) == k,
{
}

/// Decimal text holds digits and points only.
pub proof fn lemma_decimal_chars(text: Seq<char>, i: int)
    requires
        is_decimal(text),
        0 <= i < text.len(),
    ensures
        is_digit(text[i]) || text[i] == '.',
{
    let k = lemma_split_exists(text);
    lemma_split_unique(text, k);
    if i < k {
        assert(integer_part(text)[i] == text[i]);
    } else if i > k {
        assert(fraction_part(text)[i - k - 1] == text[i]);
    }
}

/// Decimal text holds one point at most.
pub proof fn lemma_decimal_one_point(text: Seq<char>, i: int, j: int)
    requires
        is_decimal(text),
        0 <= i < text.len(),
        0 <= j < text.len(),
        text[i] == '.',
        text[j] == '.',
    ensures
        i == j,
{
    let k = lemma_split_exists(text);
    lemma_split_unique(text, k);
    if i > k {
        assert(fraction_part(text)[i - k - 1] == text[i]);
    }
    if j > k {
        assert(fraction_part(text)[j - k - 1] == text[j]);
    }
}

/// Decimal text, said without its two parts: every character is a digit or a
/// point, no two of them are points, and one of them is a digit.
pub open spec fn is_plain_decimal(text: Seq<char>) -> bool {
    &&& forall|i: int| 0 <= i < text.len() ==> is_digit(#[trigger] text[i]) || text[i] == '.'
    &&& forall|i: int, j: int|
        0 <= i < j < text.len() ==> !(#[trigger] text[i] == '.' && #[trigger] text[j] == '.')
    &&& exists|i: int| 0 <= i < text.len() && is_digit(#[trigger] text[i])
}

/// The two ways of saying what decimal text is agree.
pub proof fn lemma_decimal_is_plain(text: Seq<char>)
    ensures
        is_decimal(text) <==> is_plain_decimal(text),
{
    let k = lemma_split_exists(text);
    lemma_split_unique(text, k);
    let whole = integer_part(text);
    let places = fraction_part(text);
    if is_decimal(text) {
        assert forall|i: int| 0 <= i < text.len() implies is_digit(#[trigger] text[i]) || text[i]
            == '.' by {
            lemma_decimal_chars(text, i);
        }
        assert forall|i: int, j: int| 0 <= i < j < text.len() implies !(#[trigger] text[i] == '.'
            && #[trigger] text[j] == '.') by {
            if text[i] == '.' && text[j] == '.' {
                lemma_decimal_one_point(text, i, j);
            }
        }
        if whole.len() > 0 {
            assert(is_digit(whole[0]) && whole[0] == text[0]);
        } else {
            assert(is_digit(places[0]) && places[0] == text[k + 1]);
        }
    }
    if is_plain_decimal(text) {
        assert forall|i: int| 0 <= i < whole.len() implies is_digit(#[trigger] whole[i]) by {}
        assert forall|i: int| 0 <= i < places.len() implies is_digit(#[trigger] places[i]) by {}
    }
}

/// `n / d` rounded to the nearest whole number; where `n / d` lies halfway
/// between two, to the even one.
pub open spec fn round_half_even(n: nat, d: nat) -> nat
    recommends
        d > 0,
{
    let q = n / d;
    let r = n % d;
    if 2 * r < d {
        q
    } else if 2 * r > d {
        q + 1
    } else if q % 2 == 0 {
        q
    } else {
        q + 1
    }
}

impl Quantity {
    /// The number in decimal text: the whole part without leading zeros
    /// and, where the number has decimal places, a point and each of them.
    pub open spec fn text(self) -> Seq<char> {
        let whole = nat_text(self.mantissa / pow10(self.scale));
        if self.scale == 0 {
            whole
        } else {
            whole + seq!['.'] + padded_text(self.mantissa % pow10(self.scale), self.scale)
        }
    }

    /// The number in thousandths, rounded to the nearest whole one.
    pub open spec fn thousandths(self) -> nat {
        round_half_even(self.mantissa * 1000, pow10(self.scale))
    }

    /// The number rounded to three decimal places.
    pub open spec fn rounded(self) -> Quantity {
        Quantity { mantissa: self.thousandths(), scale: 3 }
    }

    /// `self` and `other` differ by half a thousandth at most.
    pub open spec fn within_half_thousandth(self, other: Quantity) -> bool {
        let a = self.mantissa * pow10(other.scale);
        let b = other.mantissa * pow10(self.scale);
        let unit = pow10(self.scale + other.scale);
        2000 * (a - b) <= unit && 2000 * (b - a) <= unit
    }
}

/// The text of a measurement with three decimal places; `NaN` where it is
/// not a number.
pub open spec fn measurement_text(measurement: Option<Quantity>) -> Seq<char> {
    match measurement {
        Some(quantity) => quantity.rounded().text(),
        None => seq!['N', 'a', 'N'],
    }
}

/// A number's text is decimal text, and denotes that number.
pub proof fn lemma_text_reads_back(quantity: Quantity)
    ensures
        is_decimal(quantity.text()),
        decimal_of(quantity.text()) == quantity,
        measurement_of(quantity.text()) == Some(quantity),
{
    let unit = pow10(quantity.scale);
    lemma_pow10_positive(quantity.scale);
    let whole = nat_text(quantity.mantissa / unit);
    let places = padded_text(quantity.mantissa % unit, quantity.scale);
    let text = quantity.text();
    lemma_nat_text_digits(quantity.mantissa / unit);
    lemma_padded_text_digits(quantity.mantissa % unit, quantity.scale);
    lemma_split_unique(text, whole.len() as int);
    assert(integer_part(text) =~= whole);
    assert(fraction_part(text) =~= if quantity.scale == 0 {
        Seq::<char>::empty()
    } else {
        places
    });
    if quantity.scale == 0 {
        assert(quantity.mantissa / 1 == quantity.mantissa);
    } else {
        assert(digits_of(whole + places) =~= digits_of(whole) + digits_of(places));
        lemma_number_concat(digits_of(whole), digits_of(places));
        vstd::arithmetic::div_mod::lemma_mod_twice(quantity.mantissa as int, unit as int);
        lemma_fundamental_div_mod(quantity.mantissa as int, unit as int);
        assert(unit * (quantity.mantissa / unit) == (quantity.mantissa / unit) * unit)
            by (nonlinear_arith);
    }
}

/// Rounding to three decimal places moves a number by half a thousandth at most.
pub proof fn lemma_rounded_is_near(quantity: Quantity)
    ensures
        quantity.within_half_thousandth(quantity.rounded()),
        quantity.rounded().within_half_thousandth(quantity),
{
    let n = quantity.mantissa * 1000;
    let d = pow10(quantity.scale);
    lemma_pow10_positive(quantity.scale);
    lemma_pow10_three();
    lemma_pow10_adds(quantity.scale, 3);
    lemma_pow10_adds(3, quantity.scale);
    lemma_fundamental_div_mod(n as int, d as int);
    let q = n / d;
    let r = n % d;
    let t = quantity.thousandths();
    let a = quantity.mantissa * pow10(3);
    let b = t * pow10(quantity.scale);
    if t == q {
        assert(a - b == r) by (nonlinear_arith)
            requires
                a == d * q + r,
                b == q * d,
        ;
    } else {
        assert(b - a == d - r) by (nonlinear_arith)
            requires
                a == d * q + r,
                b == (q + 1) * d,
        ;
    }
}

/// A number with three decimal places at most is its own rounding, but for
/// the places that are filled with zeros.
pub proof fn lemma_round_exact(mantissa: nat, scale: nat)
    requires
        scale <= 3,
    ensures
        round_half_even(mantissa * 1000, pow10(scale)) == mantissa * pow10((3 - scale) as nat),
{
    let d = pow10(scale);
    let fill = pow10((3 - scale) as nat);
    lemma_pow10_positive(scale);
    lemma_pow10_three();
    lemma_pow10_adds((3 - scale) as nat, scale);
    assert(mantissa * 1000 == (mantissa * fill) * d + 0) by (nonlinear_arith)
        requires
            1000 == fill * d,
    ;
    lemma_fundamental_div_mod_converse(
        (mantissa * 1000) as int,
        d as int,
        (mantissa * fill) as int,
        0,
    );
}

/// Whether the digits behind the first `kept` send the rounding up: they are
/// more than half a unit of the last kept digit, or exactly half and that
/// digit is odd.
pub open spec fn rounds_up(digits: Seq<u8>, kept: int) -> bool {
    let first = digits[kept];
    let rest = number(digits.skip(kept + 1));
    ||| first > 5
    ||| first == 5 && rest > 0
    ||| first == 5 && rest == 0 && digits[kept - 1] % 2 == 1
}

/// Rounding a number of more than three decimal places, digit by digit: keep
/// the digits up to the third place, and add one where the rest rounds up.
pub proof fn lemma_round_cut(digits: Seq<u8>, scale: nat)
    requires
        are_digits(digits),
        3 < scale <= digits.len(),
    ensures
        round_half_even(number(digits) * 1000, pow10(scale)) == number(
            digits.take(digits.len() - (scale - 3)),
        ) + if rounds_up(digits, digits.len() - (scale - 3)) {
            1nat
        } else {
            0nat
        },
{
    let cut = (scale - 3) as nat;
    let kept = digits.len() - cut;
    let high = digits.take(kept);
    let low = digits.skip(kept);
    let first = digits[kept];
    let rest = digits.skip(kept + 1);
    let q = number(high);
    let r = number(low);
    let half = pow10((cut - 1) as nat);
    let d = pow10(scale);

    lemma_pow10_three();
    lemma_pow10_adds(cut, 3);
    lemma_pow10_positive(scale);
    lemma_pow10_positive((cut - 1) as nat);

    assert(digits =~= high + low);
    lemma_number_concat(high, low);
    lemma_number_bound(low);
    assert(low =~= seq![first] + rest);
    lemma_number_concat(seq![first], rest);
    lemma_number_bound(rest);
    assert(number(seq![first]) == first) by {
        assert(seq![first].drop_last() =~= Seq::<u8>::empty());
        assert(number(Seq::<u8>::empty()) == 0);
    }
    let t = number(rest);

    assert(number(digits) * 1000 == q * d + r * 1000) by (nonlinear_arith)
        requires
            number(digits) == q * pow10(cut) + r,
            d == pow10(cut) * 1000,
    ;
    assert(r * 1000 < d) by (nonlinear_arith)
        requires
            r < pow10(cut),
            d == pow10(cut) * 1000,
    ;
    lemma_fundamental_div_mod_converse(
        (number(digits) * 1000) as int,
        d as int,
        q as int,
        (r * 1000) as int,
    );
    if first > 5 {
        assert(2 * (r * 1000) > d) by (nonlinear_arith)
            requires
                r == first * half + t,
                first >= 6,
                d == 10000 * half,
                half > 0,
        ;
    } else if first < 5 {
        assert(2 * (r * 1000) < d) by (nonlinear_arith)
            requires
                r == first * half + t,
                first <= 4,
                t < half,
                d == 10000 * half,
        ;
    } else {
        assert(r == 5 * half + t);
    }
}

} // verus!
