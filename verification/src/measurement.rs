//! Measurements as they are held at run time: decimal numbers of any length,
//! kept exactly as they were written, and the mark for what is not a number.

use vstd::prelude::*;
use vstd::string::StringExecFns;
use crate::decimal::{
    fraction_part, integer_part, is_decimal, lemma_decimal_chars, lemma_decimal_one_point,
    lemma_round_cut, lemma_round_exact, lemma_split_unique, measurement_of, measurement_text,
    rounds_up, splits_at, Quantity,
};
use crate::digits::{
    all_digits, are_digits, digit_char, digits_of, digits_text, is_digit,
    lemma_digits_text_canonical, lemma_digits_text_padded, lemma_number_leading_zeros,
    lemma_number_push, lemma_number_split, lemma_number_update, lemma_number_zero, number, pow10,
};

verus! {

/// The ASCII code of `.`.
const POINT: u8 = 46;

/// The ASCII code of `0`.
const ZERO: u8 = 48;

/// The ASCII code of `9`.
const NINE: u8 = 57;

/// The text of one digit.
fn digit_str(digit: u8) -> (text: &'static str)
    requires
        digit < 10,
    ensures
        text@ == seq![digit_char(digit as nat)],
{
    proof {
        reveal_strlit("0");
        reveal_strlit("1");
        reveal_strlit("2");
        reveal_strlit("3");
        reveal_strlit("4");
        reveal_strlit("5");
        reveal_strlit("6");
        reveal_strlit("7");
        reveal_strlit("8");
        reveal_strlit("9");
    }
    let text = match digit {
        0 => "0",
        1 => "1",
        2 => "2",
        3 => "3",
        4 => "4",
        5 => "5",
        6 => "6",
        7 => "7",
        8 => "8",
        _ => "9",
    };
    text
}

/// Append the digits from `from` up to `to` to `text`.
fn write_digits(text: &mut String, digits: &Vec<u8>, from: usize, to: usize)
    requires
        are_digits(digits@),
        from <= to <= digits@.len(),
    ensures
        final(text)@ == old(text)@ + digits_text(digits@.subrange(from as int, to as int)),
{
    let mut i: usize = from;
    while i < to
        invariant
            are_digits(digits@),
            from <= i <= to <= digits@.len(),
            text@ == old(text)@ + digits_text(digits@.subrange(from as int, i as int)),
        decreases to - i,
    {
        text.append(digit_str(digits[i]));
        i = i + 1;
    }
}

/// Add one to the number that `digits` denote. The first digit is not 9, so
/// the number keeps its length.
fn increment(digits: &mut Vec<u8>)
    requires
        are_digits(old(digits)@),
        old(digits)@.len() > 0,
        old(digits)@[0] != 9,
    ensures
        are_digits(final(digits)@),
        final(digits)@.len() == old(digits)@.len(),
        number(final(digits)@) == number(old(digits)@) + 1,
{
    let mut i: usize = digits.len() - 1;
    while digits[i] == 9
        invariant
            are_digits(digits@),
            digits@.len() == old(digits)@.len(),
            0 <= i < digits@.len(),
            digits@[0] != 9,
            number(digits@) + pow10((digits@.len() - 1 - i) as nat) == number(old(digits)@) + 1,
        decreases i,
    {
        proof {
            lemma_number_update(digits@, i as int, 0);
        }
        digits.set(i, 0);
        i = i - 1;
    }
    let up: u8 = digits[i] + 1;
    proof {
        lemma_number_update(digits@, i as int, up);
        let place = pow10((digits@.len() - 1 - i) as nat);
        assert(up * place == digits@[i as int] * place + place) by (nonlinear_arith)
            requires
                up == digits@[i as int] + 1,
        ;
    }
    digits.set(i, up);
}

/// A non-negative decimal number of any length: its digits, most significant
/// first, of which the last `scale` stand behind the decimal point.
#[derive(Debug)]
pub struct Decimal {
    digits: Vec<u8>,
    scale: usize,
}

impl View for Decimal {
    type V = Quantity;

    closed spec fn view(&self) -> Quantity {
        Quantity { mantissa: number(self.digits@), scale: self.scale as nat }
    }
}

impl Decimal {
    #[verifier::type_invariant]
    spec fn well_formed(&self) -> bool {
        &&& self.digits@.len() > 0
        &&& self.scale <= self.digits@.len()
        &&& forall|i: int| 0 <= i < self.digits@.len() ==> self.digits@[i] < 10
    }
}

impl Decimal {
    /// The number in decimal text, with every digit behind the point that it
    /// was written with. Before the point stands at least one digit, and no
    /// zero that is not needed.
    pub fn to_text(&self) -> (text: String)
        ensures
            text@ == self@.text(),
    {
        proof {
            use_type_invariant(self);
        }
        let n = self.digits.len();
        let whole = n - self.scale;
        proof {
            lemma_number_split(self.digits@, whole as int);
        }
        let mut text = String::new();
        if whole == 0 {
            proof {
                reveal_strlit("0");
            }
            text.append("0");
        } else {
            let mut start: usize = 0;
            while start + 1 < whole && self.digits[start] == 0
                invariant
                    start < whole <= self.digits@.len(),
                    forall|j: int| 0 <= j < start ==> self.digits@[j] == 0,
                decreases whole - start,
            {
                start = start + 1;
            }
            write_digits(&mut text, &self.digits, start, whole);
            proof {
                let shown = self.digits@.subrange(start as int, whole as int);
                lemma_digits_text_canonical(shown);
                lemma_number_leading_zeros(self.digits@.take(whole as int), start as int);
                assert(self.digits@.take(whole as int).skip(start as int) =~= shown);
            }
        }
        if self.scale > 0 {
            proof {
                reveal_strlit(".");
                lemma_digits_text_padded(self.digits@.skip(whole as int));
            }
            text.append(".");
            write_digits(&mut text, &self.digits, whole, n);
        }
        text
    }

    /// The number rounded to three decimal places. A number that lies halfway
    /// between two thousandths goes to the even one.
    pub fn rounded(&self) -> (rounded: Decimal)
        ensures
            rounded@ == self@.rounded(),
    {
        proof {
            use_type_invariant(self);
        }
        let n = self.digits.len();
        let kept: usize = if self.scale <= 3 {
            n
        } else {
            n - (self.scale - 3)
        };
        let mut digits: Vec<u8> = Vec::new();
        digits.push(0);
        assert(number(digits@) == 0) by {
            lemma_number_zero(digits@);
        }
        let mut i: usize = 0;
        while i < kept
            invariant
                i <= kept <= self.digits@.len(),
                are_digits(self.digits@),
                are_digits(digits@),
                digits@.len() == i + 1,
                digits@[0] == 0,
                number(digits@) == number(self.digits@.take(i as int)),
            decreases kept - i,
        {
            let digit = self.digits[i];
            proof {
                lemma_number_push(digits@, digit);
                lemma_number_push(self.digits@.take(i as int), digit);
                assert(self.digits@.take(i + 1) =~= self.digits@.take(i as int).push(digit));
            }
            digits.push(digit);
            i = i + 1;
        }
        if self.scale <= 3 {
            assert(self.digits@.take(n as int) =~= self.digits@);
            let mut places: usize = self.scale;
            proof {
                assert(number(self.digits@) * 1 == number(self.digits@));
            }
            while places < 3
                invariant
                    self.scale <= places <= 3,
                    are_digits(digits@),
                    digits@.len() == self.digits@.len() + 1 + places - self.scale,
                    number(digits@) == number(self.digits@) * pow10((places - self.scale) as nat),
                decreases 3 - places,
            {
                proof {
                    lemma_number_push(digits@, 0);
                    let filled = pow10((places - self.scale) as nat);
                    assert(10 * (number(self.digits@) * filled) == number(self.digits@) * (10
                        * filled)) by (nonlinear_arith);
                }
                digits.push(0);
                places = places + 1;
            }
            proof {
                lemma_round_exact(number(self.digits@), self.scale as nat);
            }
        } else {
            let first = self.digits[kept];
            let up = if first > 5 {
                true
            } else if first < 5 {
                false
            } else {
                let mut rest_is_zero = true;
                let mut j: usize = kept + 1;
                while j < n
                    invariant
                        kept < j <= n,
                        n == self.digits@.len(),
                        rest_is_zero <==> forall|k: int| kept < k < j ==> self.digits@[k] == 0,
                    decreases n - j,
                {
                    if self.digits[j] != 0 {
                        rest_is_zero = false;
                    }
                    j = j + 1;
                }
                proof {
                    let rest = self.digits@.skip(kept + 1);
                    lemma_number_zero(rest);
                    if !rest_is_zero {
                        let k = choose|k: int| kept < k < n && self.digits@[k] != 0;
                        assert(rest[k - kept - 1] == self.digits@[k]);
                    }
                }
                !rest_is_zero || self.digits[kept - 1] % 2 == 1
            };
            proof {
                lemma_round_cut(self.digits@, self.scale as nat);
            }
            if up {
                increment(&mut digits);
            }
        }
        Decimal { digits, scale: 3 }
    }
}

impl Clone for Decimal {
    fn clone(&self) -> (copy: Self)
        ensures
            copy@ == self@,
    {
        proof {
            use_type_invariant(self);
        }
        Decimal { digits: self.digits.clone(), scale: self.scale }
    }
}

/// One reported value: a number, or the mark that what was reported is no number.
#[derive(Debug)]
pub enum Measurement {
    Number(Decimal),
    NotANumber,
}

impl View for Measurement {
    type V = Option<Quantity>;

    open spec fn view(&self) -> Option<Quantity> {
        match self {
            Measurement::Number(decimal) => Some(decimal@),
            Measurement::NotANumber => None,
        }
    }
}

impl Clone for Measurement {
    fn clone(&self) -> (copy: Self)
        ensures
            copy@ == self@,
    {
        match self {
            Measurement::Number(decimal) => Measurement::Number(decimal.clone()),
            Measurement::NotANumber => Measurement::NotANumber,
        }
    }
}

impl Measurement {
    /// Read `text` as a decimal number: ASCII digits with at most one point
    /// among them, which may stand first or last. Every digit is kept. Any
    /// other text, the empty text and a lone point included, gives
    /// `NotANumber`.
    pub fn from_text(text: &str) -> (measurement: Measurement)
        ensures
            measurement@ == measurement_of(text@),
    {
        if !text.is_ascii() {
            proof {
                if is_decimal(text@) {
                    assert forall|i: int| 0 <= i < text@.len() implies '\0' <= #[trigger] text@[i]
                        <= '\u{7f}' by {
                        lemma_decimal_chars(text@, i);
                    }
                }
            }
            return Measurement::NotANumber;
        }
        let bytes = text.as_bytes();
        proof {
            vstd::string::is_ascii_spec_bytes(text);
        }
        let mut digits: Vec<u8> = Vec::new();
        let mut scale: usize = 0;
        let mut point: Option<usize> = None;
        let ghost mut consumed: Seq<char> = Seq::empty();
        let mut i: usize = 0;
        while i < bytes.len()
            invariant
                bytes@.len() == text@.len(),
                forall|j: int|
                    0 <= j < text@.len() ==> '\0' <= #[trigger] text@[j] <= '\u{7f}' && bytes@[j]
                        == text@[j] as u8,
                i <= bytes.len(),
                digits@ == digits_of(consumed),
                all_digits(consumed),
                match point {
                    Some(k) => {
                        &&& k < i
                        &&& splits_at(text@, k as int)
                        &&& consumed == text@.subrange(0, k as int) + text@.subrange(
                            k + 1,
                            i as int,
                        )
                        &&& scale == i - k - 1
                    },
                    None => {
                        &&& splits_at(text@.subrange(0, i as int), i as int)
                        &&& consumed == text@.subrange(0, i as int)
                        &&& scale == 0
                    },
                },
            decreases bytes.len() - i,
        {
            let byte = bytes[i];
            let ghost c = text@[i as int];
            if byte == POINT {
                match point {
                    Some(k) => {
                        proof {
                            if is_decimal(text@) {
                                lemma_decimal_one_point(text@, k as int, i as int);
                            }
                        }
                        return Measurement::NotANumber;
                    },
                    None => {
                        point = Some(i);
                        assert(splits_at(text@, i as int)) by {
                            assert forall|j: int| 0 <= j < i implies text@[j] != '.' by {
                                assert(text@.subrange(0, i as int)[j] == text@[j]);
                            }
                        }
                    },
                }
            } else if ZERO <= byte && byte <= NINE {
                digits.push(byte - ZERO);
                proof {
                    consumed = consumed.push(c);
                }
                if point.is_some() {
                    scale = scale + 1;
                }
            } else {
                proof {
                    if is_decimal(text@) {
                        lemma_decimal_chars(text@, i as int);
                    }
                }
                return Measurement::NotANumber;
            }
            i = i + 1;
        }
        proof {
            let whole = integer_part(text@);
            let places = fraction_part(text@);
            assert(text@.subrange(0, i as int) == text@);
            lemma_split_unique(
                text@,
                match point {
                    Some(k) => k as int,
                    None => i as int,
                },
            );
            assert forall|j: int| 0 <= j < whole.len() implies is_digit(#[trigger] whole[j]) by {
                assert(consumed[j] == whole[j]);
            }
            assert forall|j: int| 0 <= j < places.len() implies is_digit(#[trigger] places[j]) by {
                assert(consumed[whole.len() + j] == places[j]);
            }
        }
        if digits.len() == 0 {
            return Measurement::NotANumber;
        }
        Measurement::Number(Decimal { digits, scale })
    }

    /// Whether the measurement is a number.
    pub fn is_number(&self) -> (known: bool)
        ensures
            known == self@.is_some(),
    {
        match self {
            Measurement::Number(_) => true,
            Measurement::NotANumber => false,
        }
    }

    /// The measurement in decimal text with every digit that it holds; `NaN`
    /// where it is not a number.
    pub fn to_text(&self) -> (text: String)
        ensures
            text@ == match self@ {
                Some(quantity) => quantity.text(),
                None => seq!['N', 'a', 'N'],
            },
    {
        match self {
            Measurement::Number(decimal) => decimal.to_text(),
            Measurement::NotANumber => {
                proof {
                    reveal_strlit("NaN");
                }
                let text = "NaN".to_owned();
                text
            },
        }
    }

    /// The measurement in decimal text with three decimal places; `NaN` where
    /// it is not a number.
    pub fn to_rounded_text(&self) -> (text: String)
        ensures
            text@ == measurement_text(self@),
    {
        match self {
            Measurement::Number(decimal) => decimal.rounded().to_text(),
            Measurement::NotANumber => self.to_text(),
        }
    }
}

} // verus!
