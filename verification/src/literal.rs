//! The outer grammar of a decimal's text.
//!
//! A text is one of the three words "NaN", "Infinity" and "-Infinity", or a
//! mantissa and an exponent on the two sides of the first "e", or one plain
//! number. Reading the numbers themselves is the parsing of binary64 values,
//! which is not part of this crate.

use vstd::prelude::*;
use vstd::string::*;
use crate::binary64::lemma_order_by_key;
use crate::consts;
use crate::decimal::Decimal;
use crate::notation::Token;
use crate::text::token_text;

verus! {

/// What a text holds.
#[derive(Debug)]
pub enum Literal {
    /// One of the three words, as the decimal that it stands for.
    Word(Decimal),
    /// A mantissa and an exponent: the text before the first "e", and the
    /// text behind it.
    Scientific { mantissa: String, exponent: String },
    /// A text without an "e": one plain number.
    Plain,
}

/// The decimal that a word stands for: not a number for "NaN", the largest
/// value for "Infinity", the smallest for "-Infinity".
pub open spec fn word_value(text: Seq<char>) -> Option<Decimal> {
    if text == "NaN"@ {
        Some(consts::nan())
    } else if text == "Infinity"@ {
        Some(consts::max_value())
    } else if text == "-Infinity"@ {
        Some(consts::min_value())
    } else {
        None
    }
}

/// The text is `mantissa`, an "e" and `exponent`, and that "e" is its first.
pub open spec fn split_at_first_e(
    text: Seq<char>,
    mantissa: Seq<char>,
    exponent: Seq<char>,
) -> bool {
    text == mantissa + seq!['e'] + exponent && !mantissa.contains('e')
}

/// Whether two texts are the same.
fn same_text(a: &str, b: &str) -> (r: bool)
    ensures
        r == (a@ == b@),
{
    let x: String = String::from_str(a);
    let y: String = String::from_str(b);
    x.eq(&y)
}

/// Takes a text apart: a word, or the two sides of its first "e", or a plain number.
pub fn parse_literal(text: &str) -> (r: Literal)
    ensures
        match r {
            Literal::Word(d) => word_value(text@) == Some(d),
            Literal::Scientific { mantissa, exponent } => word_value(text@) is None
                && split_at_first_e(text@, mantissa@, exponent@),
            Literal::Plain => word_value(text@) is None && !text@.contains('e'),
        },
{
    if same_text(text, "NaN") {
        return Literal::Word(Decimal::nan());
    }
    if same_text(text, "Infinity") {
        return Literal::Word(Decimal::max_value());
    }
    if same_text(text, "-Infinity") {
        return Literal::Word(Decimal::min_value());
    }
    let n: usize = text.unicode_len();
    let mut i: usize = 0;
    while i < n
        invariant
            word_value(text@) is None,
            n == text@.len(),
            i <= n,
            forall|j: int| 0 <= j < i ==> text@[j] != 'e',
        decreases n - i,
    {
        if text.get_char(i) == 'e' {
            let mantissa: String = String::from_str(text.substring_char(0, i));
            let exponent: String = String::from_str(text.substring_char(i + 1, n));
            assert(text@ =~= mantissa@ + seq!['e'] + exponent@);
            assert(!mantissa@.contains('e')) by {
                if mantissa@.contains('e') {
                    let j = choose|j: int| 0 <= j < mantissa@.len() && mantissa@[j] == 'e';
                    assert(text@[j] == 'e');
                }
            }
            return Literal::Scientific { mantissa, exponent };
        }
        i = i + 1;
    }
    assert(!text@.contains('e')) by {
        if text@.contains('e') {
            let j = choose|j: int| 0 <= j < text@.len() && text@[j] == 'e';
            assert(text@[j] == 'e');
        }
    }
    Literal::Plain
}

/// The words are read back as they were written: the word of a token that
/// is no zero stands for a decimal that is written as that token.
pub proof fn law_words_round_trip(token: Token)
    requires
        token != Token::Zero,
    ensures
        word_value(token_text(token)) is Some,
        (word_value(token_text(token))->0).token() == Some(token),
{
    reveal_strlit("NaN");
    reveal_strlit("Infinity");
    reveal_strlit("-Infinity");
    assert("NaN"@.len() == 3 && "Infinity"@.len() == 8 && "-Infinity"@.len() == 9);
    lemma_order_by_key(consts::EXP_LIMIT, consts::EXP_LIMIT);
    lemma_order_by_key(0, consts::ONE_BITS);
    lemma_order_by_key(0, consts::NEG_ONE_BITS);
}

} // verus!
