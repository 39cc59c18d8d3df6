//! Strings that the text forms are put together from.

use vstd::prelude::*;
use vstd::arithmetic::div_mod::{
    lemma_fundamental_div_mod, lemma_fundamental_div_mod_converse, lemma_mod_equivalence,
    lemma_mod_self_0, lemma_small_mod,
};
use vstd::string::*;
use crate::binary64;
use crate::binary64::{le, less, less_equal, lt, magnitude, to_u32, truncated_u32};
use crate::consts::TEN_BITS;
use crate::decimal::Decimal;
use crate::notation::Token;
use crate::scale::{scale_term, short_scale_term, MAX_SCALE, MIN_SCALE};

verus! {

/// What a string is padded with: the fill string, or one space where the
/// fill string is empty.
pub open spec fn fill_unit(fill: Seq<char>) -> Seq<char> {
    if fill.len() == 0 {
        seq![' ']
    } else {
        fill
    }
}

/// How many characters a length is short of a need.
pub open spec fn missing(length: nat, need: nat) -> nat {
    if length < need {
        (need - length) as nat
    } else {
        0
    }
}

/// The unit, again and again, up to `length` characters.
pub open spec fn repeated(unit: Seq<char>, length: nat) -> Seq<char> {
    Seq::new(length, |i: int| unit[i % (unit.len() as int)])
}

/// What is put behind a string of `length` characters to pad it to
/// `max_length` characters: the fill, again and again, as many characters as
/// are missing. Nothing is missing from a string that is long enough.
pub open spec fn padding(length: nat, max_length: nat, fill: Seq<char>) -> Seq<char> {
    repeated(fill_unit(fill), missing(length, max_length))
}

/// A repeated unit, put behind itself, is the unit repeated twice as long,
/// where the length is a multiple of the unit's.
proof fn lemma_repeated_twice(unit: Seq<char>, length: nat)
    requires
        unit.len() > 0,
        length % unit.len() == 0,
    ensures
        repeated(unit, length) + repeated(unit, length) == repeated(unit, 2 * length),
        (2 * length) % unit.len() == 0,
{
    let n = unit.len() as int;
    let once = repeated(unit, length);
    let twice = repeated(unit, 2 * length);
    assert forall|i: int| 0 <= i < 2 * length implies #[trigger] (once + once)[i] == twice[i] by {
        if i >= length {
            lemma_mod_equivalence(i, i - length, n);
        }
    }
    assert(once + once =~= twice);
    lemma_fundamental_div_mod(length as int, n);
    let q = length as int / n;
    assert(2 * length == n * (2 * q)) by (nonlinear_arith)
        requires
            length == n * q,
    ;
    lemma_fundamental_div_mod_converse((2 * length) as int, n, 2 * q, 0);
}

/// The string, padded at its end with the fill string to `max_length`
/// characters. A string that is long enough comes back as it is. Lengths are
/// counted in characters, for the fill as for the string.
pub fn pad_end(string: String, max_length: u32, fill_string: String) -> (padded: String)
    ensures
        padded@ == string@ + padding(string@.len(), max_length as nat, fill_string@),
{
    let ghost unit = fill_unit(fill_string@);
    let length: usize = string.as_str().unicode_len();
    if length >= max_length as usize {
        assert(string@ + repeated(unit, 0) =~= string@);
        return string;
    }
    let need: usize = max_length as usize - length;
    let mut filled: String = fill_string;
    if filled.as_str().unicode_len() == 0 {
        proof {
            reveal_strlit(" ");
        }
        filled = String::from_str(" ");
        assert(filled@ =~= seq![' ']);
    }
    proof {
        assert(filled@ == unit);
        assert forall|i: int| 0 <= i < unit.len() implies #[trigger] unit[i] == unit[i % (
        unit.len() as int)] by {
            lemma_small_mod(i as nat, unit.len());
        }
        assert(filled@ =~= repeated(unit, unit.len()));
        lemma_mod_self_0(unit.len() as int);
    }
    while filled.as_str().unicode_len() < need
        invariant
            unit.len() > 0,
            filled@.len() > 0,
            filled@.len() % unit.len() == 0,
            filled@ == repeated(unit, filled@.len()),
        decreases missing(filled@.len(), need as nat),
    {
        proof {
            lemma_repeated_twice(unit, filled@.len());
        }
        let copy: String = filled.clone();
        filled = filled.concat(copy.as_str());
    }
    if filled.as_str().unicode_len() > need {
        let head: &str = filled.as_str().substring_char(0, need);
        assert(head@ =~= repeated(unit, need as nat));
        string.concat(head)
    } else {
        string.concat(filled.as_str())
    }
}

/// The characters without the decimal points among them.
pub open spec fn without_points(chars: Seq<char>) -> Seq<char>
    decreases chars.len(),
{
    if chars.len() == 0 {
        Seq::empty()
    } else if chars.last() == '.' {
        without_points(chars.drop_last())
    } else {
        without_points(chars.drop_last()).push(chars.last())
    }
}

/// A decimal point and `places` zeros, or nothing where `places` is zero.
pub open spec fn fraction_zeros(places: nat) -> Seq<char> {
    if places == 0 {
        Seq::empty()
    } else {
        seq!['.'] + Seq::new(places, |i: int| '0')
    }
}

/// The minus sign in front of a text, or nothing where it has none.
pub open spec fn minus_sign(text: Seq<char>) -> Seq<char> {
    if text.len() > 0 && text[0] == '-' {
        seq!['-']
    } else {
        Seq::empty()
    }
}

/// The text without a minus sign in front.
pub open spec fn unsigned_part(text: Seq<char>) -> Seq<char> {
    if text.len() > 0 && text[0] == '-' {
        text.drop_first()
    } else {
        text
    }
}

/// The word of a token.
pub open spec fn token_text(token: Token) -> Seq<char> {
    match token {
        Token::NotANumber => "NaN"@,
        Token::Infinity => "Infinity"@,
        Token::NegativeInfinity => "-Infinity"@,
        Token::Zero => "0"@,
    }
}

/// The text of a token in the exponential form with `places` decimal places:
/// its word, but a zero is written out as "0", its zeros, and "e+0".
pub open spec fn token_exponential(token: Token, places: nat) -> Seq<char> {
    match token {
        Token::Zero => "0"@ + fraction_zeros(places) + "e+0"@,
        _ => token_text(token),
    }
}

/// The text of a token in the fixed form with `places` decimal places: its
/// word, but a zero is written out with its zeros.
pub open spec fn token_fixed(token: Token, places: nat) -> Seq<char> {
    match token {
        Token::Zero => "0"@ + fraction_zeros(places),
        _ => token_text(token),
    }
}

/// The sign that is written before an exponent: a plus for an exponent that
/// is not below zero, nothing for one that brings its own minus.
pub open spec fn exponent_sign(exponent: u64) -> Seq<char> {
    if le(0, exponent) {
        seq!['+']
    } else {
        Seq::empty()
    }
}

/// What stands between a number and the name of its scale: a space, but
/// nothing before the empty name of `1000^0`.
pub open spec fn scale_gap(scale: int) -> Seq<char> {
    if scale == 0 {
        Seq::empty()
    } else {
        seq![' ']
    }
}

/// The text without its decimal points.
pub fn strip_points(text: &str) -> (r: String)
    ensures
        r@ == without_points(text@),
{
    let n: usize = text.unicode_len();
    let mut r: String = String::new();
    let mut i: usize = 0;
    assert(text@.subrange(0, 0) =~= Seq::<char>::empty());
    while i < n
        invariant
            n == text@.len(),
            i <= n,
            r@ == without_points(text@.subrange(0, i as int)),
        decreases n - i,
    {
        let c: char = text.get_char(i);
        proof {
            let next = text@.subrange(0, i + 1);
            assert(next.drop_last() =~= text@.subrange(0, i as int));
            assert(next.last() == c);
            assert(text@.subrange(i as int, i + 1) =~= seq![c]);
        }
        if c != '.' {
            r.append(text.substring_char(i, i + 1));
            assert(r@ =~= without_points(text@.subrange(0, i as int)).push(c));
        }
        i = i + 1;
    }
    assert(text@.subrange(0, n as int) =~= text@);
    r
}

/// A decimal point and `places` zeros, or nothing where `places` is zero.
pub fn zeros_after_point(places: u32) -> (r: String)
    ensures
        r@ == fraction_zeros(places as nat),
{
    if places == 0 {
        String::new()
    } else {
        proof {
            reveal_strlit(".");
            reveal_strlit("0");
        }
        let zeros: String = pad_end(String::new(), places, String::from_str("0"));
        let r: String = String::from_str(".").concat(zeros.as_str());
        assert(r@ =~= fraction_zeros(places as nat));
        r
    }
}

impl Token {
    /// The word of the token.
    pub fn text(&self) -> (r: &'static str)
        ensures
            r@ == token_text(*self),
    {
        match self {
            Token::NotANumber => "NaN",
            Token::Infinity => "Infinity",
            Token::NegativeInfinity => "-Infinity",
            Token::Zero => "0",
        }
    }

    /// The text of the token in the exponential form with `places` decimal places.
    pub fn to_exponential(&self, places: u32) -> (r: String)
        ensures
            r@ == token_exponential(*self, places as nat),
    {
        match self {
            Token::Zero => {
                let zeros: String = zeros_after_point(places);
                String::from_str("0").concat(zeros.as_str()).concat("e+0")
            },
            _ => String::from_str(self.text()),
        }
    }

    /// The text of the token in the fixed form with `places` decimal places.
    pub fn to_fixed(&self, places: u32) -> (r: String)
        ensures
            r@ == token_fixed(*self, places as nat),
    {
        match self {
            Token::Zero => {
                let zeros: String = zeros_after_point(places);
                String::from_str("0").concat(zeros.as_str())
            },
            _ => String::from_str(self.text()),
        }
    }
}

/// The scientific notation: the mantissa's text, an "e", a plus unless the
/// exponent is below zero, and the exponent's text.
pub fn scientific_text(mantissa_text: &str, exponent: u64, exponent_text: &str) -> (r: String)
    ensures
        r@ == mantissa_text@ + seq!['e'] + exponent_sign(exponent) + exponent_text@,
{
    proof {
        reveal_strlit("e");
        reveal_strlit("+");
        reveal_strlit("");
    }
    let sign: &str = if less_equal(0, exponent) {
        "+"
    } else {
        ""
    };
    let r: String = String::from_str(mantissa_text).concat("e").concat(sign).concat(exponent_text);
    assert(r@ =~= mantissa_text@ + seq!['e'] + exponent_sign(exponent) + exponent_text@);
    r
}

/// The padded notation: the mantissa's digits without the point, zeros up
/// to `length` digits, and `places` zeros behind a point. A minus sign stays
/// in front and is no digit.
pub fn padded_text(mantissa_text: &str, length: u32, places: u32) -> (r: String)
    ensures
        r@ == minus_sign(without_points(mantissa_text@)) + unsigned_part(
            without_points(mantissa_text@),
        ) + repeated(
            seq!['0'],
            missing(unsigned_part(without_points(mantissa_text@)).len(), length as nat),
        ) + fraction_zeros(places as nat),
{
    let digits: String = strip_points(mantissa_text);
    let n: usize = digits.as_str().unicode_len();
    proof {
        reveal_strlit("0");
        reveal_strlit("-");
        assert("0"@ =~= seq!['0']);
    }
    let negative: bool = n > 0 && digits.as_str().get_char(0) == '-';
    let zeros: String = zeros_after_point(places);
    if negative {
        let body: String = String::from_str(digits.as_str().substring_char(1, n));
        assert(body@ =~= digits@.drop_first());
        let whole: String = pad_end(body, length, String::from_str("0"));
        String::from_str("-").concat(whole.as_str()).concat(zeros.as_str())
    } else {
        let whole: String = pad_end(digits, length, String::from_str("0"));
        assert(minus_sign(digits@) + whole@ =~= whole@);
        whole.concat(zeros.as_str())
    }
}

/// The power of ten at which a mantissa with `whole_digits` digits before
/// the point is rounded for `places` decimal places: one digit stays before
/// the point, so the power is `places + 1 - whole_digits`, held within the
/// range of powers that can be taken.
pub open spec fn shift_for(places: u32, whole_digits: u32) -> int {
    if places + 1 - whole_digits > i32::MAX {
        i32::MAX as int
    } else if places + 1 - whole_digits < -i32::MAX {
        -(i32::MAX as int)
    } else {
        places + 1 - whole_digits
    }
}

/// The power of ten at which a mantissa with `whole_digits` digits before
/// the point is rounded for `places` decimal places, and the number of
/// decimal places of the rounded text: the power where it is above zero,
/// else none.
pub fn rounding_shift(places: u32, whole_digits: u32) -> (r: (i32, u32))
    ensures
        r.0 == shift_for(places, whole_digits),
        r.1 == if r.0 > 0 {
            r.0 as int
        } else {
            0
        },
{
    let wide: i64 = places as i64 + 1 - whole_digits as i64;
    let shift: i32 = if wide > i32::MAX as i64 {
        i32::MAX
    } else if wide < -(i32::MAX as i64) {
        -i32::MAX
    } else {
        wide as i32
    };
    let decimals: u32 = if shift > 0 {
        shift as u32
    } else {
        0
    };
    (shift, decimals)
}

/// How many digits stand before the point of a decimal in the fixed form:
/// the whole part of its exponent and one more, as far as a length can count.
pub open spec fn whole_digits_of(exponent: u64) -> int {
    if truncated_u32(exponent) >= u32::MAX {
        u32::MAX as int
    } else {
        truncated_u32(exponent) + 1
    }
}

/// Where the point stands in a text: the number of characters before the
/// first point, or all of them where the text has no point.
pub open spec fn point_at(text: Seq<char>) -> nat
    decreases text.len(),
{
    if text.len() == 0 || text[0] == '.' {
        0
    } else {
        1 + point_at(text.drop_first())
    }
}

/// How many digits stand before the point of a number's text, a minus sign
/// in front not counted.
pub open spec fn digits_before_point(text: Seq<char>) -> nat {
    (point_at(text) - minus_sign(text).len()) as nat
}

/// The point of a text stands where its first point is.
pub proof fn lemma_point_at(text: Seq<char>, i: int)
    requires
        0 <= i <= text.len(),
        forall|j: int| 0 <= j < i ==> text[j] != '.',
        i == text.len() || text[i] == '.',
    ensures
        point_at(text) == i,
    decreases i,
{
    if i > 0 {
        let rest = text.drop_first();
        assert forall|j: int| 0 <= j < i - 1 implies rest[j] != '.' by {
            assert(rest[j] == text[j + 1]);
        }
        lemma_point_at(rest, i - 1);
    }
}

impl Decimal {
    /// The padded notation of the decimal, given the text of its mantissa:
    /// the mantissa's digits without the point, filled with zeros up to as
    /// many digits as stand before the point of the value, which is the
    /// whole part of the exponent and one more; then `places` zeros behind a
    /// point. A minus sign stays in front and is no digit.
    pub fn to_fixed_padded(&self, mantissa_text: &str, places: u32) -> (r: String)
        ensures
            r@ == minus_sign(without_points(mantissa_text@)) + unsigned_part(
                without_points(mantissa_text@),
            ) + repeated(
                seq!['0'],
                missing(
                    unsigned_part(without_points(mantissa_text@)).len(),
                    whole_digits_of(self.exponent) as nat,
                ),
            ) + fraction_zeros(places as nat),
    {
        let whole: u32 = to_u32(self.exponent);
        let length: u32 = if whole == u32::MAX {
            u32::MAX
        } else {
            whole + 1
        };
        padded_text(mantissa_text, length, places)
    }

    /// The mantissa of the decimal was rounded up to ten for the exponential
    /// form: its absolute value is below ten, and the text of the rounded
    /// mantissa has two digits before the point.
    pub open spec fn rounded_to_ten(&self, mantissa_text: Seq<char>) -> bool {
        lt(magnitude(self.mantissa), TEN_BITS) && digits_before_point(mantissa_text) >= 2
    }

    /// The text of the mantissa in the exponential form with `places` decimal
    /// places, given the text of the rounded mantissa, and whether the
    /// exponent rises by one.
    ///
    /// One digit stands before the point. Where rounding brought a mantissa
    /// below ten up to ten, the text is a one with its zeros, under the sign
    /// of the rounded mantissa, and the exponent rises by one. Every other
    /// text stays as it is.
    pub fn exponential_mantissa(&self, mantissa_text: &str, places: u32) -> (r: (String, bool))
        ensures
            r.1 == self.rounded_to_ten(mantissa_text@),
            r.1 ==> r.0@ == minus_sign(mantissa_text@) + seq!['1'] + fraction_zeros(places as nat),
            !r.1 ==> r.0@ == mantissa_text@,
    {
        let n: usize = mantissa_text.unicode_len();
        let negative: bool = n > 0 && mantissa_text.get_char(0) == '-';
        let mut i: usize = 0;
        while i < n && mantissa_text.get_char(i) != '.'
            invariant
                n == mantissa_text@.len(),
                i <= n,
                forall|j: int| 0 <= j < i ==> mantissa_text@[j] != '.',
            decreases n - i,
        {
            i = i + 1;
        }
        proof {
            lemma_point_at(mantissa_text@, i as int);
        }
        let digits: usize = if negative {
            i - 1
        } else {
            i
        };
        if less(binary64::abs(self.mantissa), TEN_BITS) && digits >= 2 {
            proof {
                reveal_strlit("-");
                reveal_strlit("1");
                reveal_strlit("");
            }
            let sign: &str = if negative {
                "-"
            } else {
                ""
            };
            let zeros: String = zeros_after_point(places);
            let text: String = String::from_str(sign).concat("1").concat(zeros.as_str());
            assert(text@ =~= minus_sign(mantissa_text@) + seq!['1'] + fraction_zeros(
                places as nat,
            ));
            (text, true)
        } else {
            (String::from_str(mantissa_text), false)
        }
    }
}

/// The scaled notation: the number's text, a space, and the name of
/// `1000^scale`; the number alone where the scale is zero.
pub fn scaled_text(number_text: &str, scale: i32) -> (r: String)
    requires
        MIN_SCALE <= scale <= MAX_SCALE,
    ensures
        r@ == number_text@ + scale_gap(scale as int) + scale_term(scale as int),
{
    proof {
        reveal_strlit(" ");
        reveal_strlit("");
    }
    let gap: &str = if scale == 0 {
        ""
    } else {
        " "
    };
    let r: String = String::from_str(number_text).concat(gap).concat(short_scale_term(scale));
    assert(r@ =~= number_text@ + scale_gap(scale as int) + scale_term(scale as int));
    r
}

} // verus!
