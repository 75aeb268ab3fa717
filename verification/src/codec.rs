//! The text forms of the primitive types: booleans and unsigned integers.

use vstd::prelude::*;
use vstd::string::{is_ascii_spec_bytes, StringExecFns};

use crate::errors::{XmlReadError, XmlReadErrorView};
use crate::event::ElementName;

verus! {

/// The failure that reports `value` as no text of the type `data_type`.
pub open spec fn invalid_parse(
    value: Seq<char>,
    data_type: Seq<char>,
    element: Seq<char>,
) -> XmlReadErrorView {
    XmlReadErrorView::InvalidParseError { value, data_type, element }
}

/// The boolean that `text` stands for: `true` and `1` are true, `false` and
/// `0` are false, and no other text is a boolean.
pub open spec fn boolean_of(text: Seq<char>) -> Option<bool> {
    if text == seq!['t', 'r', 'u', 'e'] || text == seq!['1'] {
        Some(true)
    } else if text == seq!['f', 'a', 'l', 's', 'e'] || text == seq!['0'] {
        Some(false)
    } else {
        None
    }
}

/// The text that a boolean is written as.
pub open spec fn boolean_text(value: bool) -> Seq<char> {
    if value {
        seq!['t', 'r', 'u', 'e']
    } else {
        seq!['f', 'a', 'l', 's', 'e']
    }
}

/// Whether `c` is one of the ten decimal digits.
pub open spec fn is_digit(c: char) -> bool {
    '0' <= c <= '9'
}

/// The number that the digit `c` stands for.
pub open spec fn digit_of(c: char) -> nat {
    (c as nat - '0' as nat) as nat
}

/// The digit that stands for `d`, a number below ten.
pub open spec fn digit_char(d: nat) -> char {
    if d == 0 {
        '0'
    } else if d == 1 {
        '1'
    } else if d == 2 {
        '2'
    } else if d == 3 {
        '3'
    } else if d == 4 {
        '4'
    } else if d == 5 {
        '5'
    } else if d == 6 {
        '6'
    } else if d == 7 {
        '7'
    } else if d == 8 {
        '8'
    } else {
        '9'
    }
}

/// Whether `text` holds decimal digits only.
pub open spec fn all_digits(text: Seq<char>) -> bool {
    forall|i: int| 0 <= i < text.len() ==> is_digit(#[trigger] text[i])
}

/// The number that a run of decimal digits stands for, the first digit
/// being the most significant.
pub open spec fn digits_value(digits: Seq<char>) -> nat
    decreases digits.len(),
{
    if digits.len() == 0 {
        0
    } else {
        digits_value(digits.drop_last()) * 10 + digit_of(digits.last())
    }
}

/// The digits of `text`, without the plus sign that may precede them.
pub open spec fn unsigned_digits(text: Seq<char>) -> Seq<char> {
    if text.len() > 0 && text[0] == '+' {
        text.skip(1)
    } else {
        text
    }
}

/// The unsigned integer that `text` stands for: an optional plus sign, then
/// one or more decimal digits whose value fits in 32 bits. No other text is
/// an unsigned integer.
pub open spec fn unsigned_of(text: Seq<char>) -> Option<u32> {
    let digits = unsigned_digits(text);
    if digits.len() > 0 && all_digits(digits) && digits_value(digits) <= u32::MAX {
        Some(digits_value(digits) as u32)
    } else {
        None
    }
}

/// The decimal digits of `n`, without leading zeros.
pub open spec fn decimal(n: nat) -> Seq<char>
    decreases n,
{
    if n < 10 {
        seq![digit_char(n)]
    } else {
        decimal(n / 10) + seq![digit_char(n % 10)]
    }
}

/// The canonical text of a boolean.
pub fn boolean_str(value: bool) -> (text: &'static str)
    ensures
        text@ == boolean_text(value),
{
    proof {
        reveal_strlit("true");
        reveal_strlit("false");
    }
    if value {
        assert("true"@ =~= seq!['t', 'r', 'u', 'e']);
        "true"
    } else {
        assert("false"@ =~= seq!['f', 'a', 'l', 's', 'e']);
        "false"
    }
}

/// Parses the text of a boolean element. Any text but `true`, `1`, `false`
/// and `0` is reported as invalid for the type `xs:boolean`.
pub fn parse_boolean(value: String, element: &ElementName) -> (result: Result<bool, XmlReadError>)
    ensures
        match result {
            Ok(parsed) => boolean_of(value@) == Some(parsed),
            Err(error) => boolean_of(value@) is None && error@ == invalid_parse(
                value@,
                "xs:boolean"@,
                element@.display(),
            ),
        },
{
    proof {
        reveal_strlit("true");
        reveal_strlit("false");
        reveal_strlit("1");
        reveal_strlit("0");
        assert("true"@ =~= seq!['t', 'r', 'u', 'e']);
        assert("false"@ =~= seq!['f', 'a', 'l', 's', 'e']);
        assert("1"@ =~= seq!['1']);
        assert("0"@ =~= seq!['0']);
    }
    if value == String::from_str("true") || value == String::from_str("1") {
        Ok(true)
    } else if value == String::from_str("false") || value == String::from_str("0") {
        Ok(false)
    } else {
        Err(
            XmlReadError::InvalidParseError {
                value,
                data_type: String::from_str("xs:boolean"),
                element: element.to_string(),
            },
        )
    }
}

/// The value of a run of digits grows by one decimal place with each digit.
pub proof fn lemma_digits_value_step(digits: Seq<char>, count: int)
    requires
        0 <= count < digits.len(),
    ensures
        digits_value(digits.take(count + 1)) == digits_value(digits.take(count)) * 10 + digit_of(
            digits[count],
        ),
{
    assert(digits.take(count + 1).drop_last() =~= digits.take(count));
}

/// A prefix of a run of digits stands for no more than the whole run.
pub proof fn lemma_digits_value_prefix(digits: Seq<char>, count: int)
    requires
        0 <= count <= digits.len(),
        all_digits(digits),
    ensures
        digits_value(digits.take(count)) <= digits_value(digits),
    decreases digits.len() - count,
{
    if count == digits.len() {
        assert(digits.take(count) =~= digits);
    } else {
        lemma_digits_value_step(digits, count);
        lemma_digits_value_prefix(digits, count + 1);
    }
}

/// The decimal digits of a number are digits, and stand for that number.
pub proof fn lemma_decimal_value(n: nat)
    ensures
        decimal(n).len() > 0,
        all_digits(decimal(n)),
        digits_value(decimal(n)) == n,
    decreases n,
{
    let digits = decimal(n);
    if n < 10 {
        assert(digits.drop_last() =~= Seq::<char>::empty());
        assert(digits_value(digits.drop_last()) == 0);
        assert(digits.last() == digit_char(n));
        assert(digit_of(digit_char(n)) == n);
    } else {
        lemma_decimal_value(n / 10);
        assert(digits.drop_last() =~= decimal(n / 10));
        assert(digits.last() == digit_char(n % 10));
        assert(digit_of(digit_char(n % 10)) == n % 10);
        assert(digits_value(digits) == digits_value(decimal(n / 10)) * 10 + n % 10);
        assert forall|i: int| 0 <= i < digits.len() implies is_digit(#[trigger] digits[i]) by {
            if i < digits.len() - 1 {
                assert(digits[i] == decimal(n / 10)[i]);
            }
        }
    }
}

/// The decimal digits of an unsigned integer are read back as that integer.
pub proof fn lemma_unsigned_round_trip(n: u32)
    ensures
        unsigned_of(decimal(n as nat)) == Some(n),
{
    lemma_decimal_value(n as nat);
    let digits = decimal(n as nat);
    assert(is_digit(digits[0]));
}

/// The text of a boolean is read back as that boolean.
pub proof fn lemma_boolean_round_trip(value: bool)
    ensures
        boolean_of(boolean_text(value)) == Some(value),
{
    let text = boolean_text(value);
    if !value {
        assert(text[0] == 'f');
        assert(text.len() == 5);
    }
}

/// Parses an unsigned integer of 32 bits in decimal notation.
pub fn parse_decimal(text: &str) -> (result: Option<u32>)
    ensures
        result == unsigned_of(text@),
{
    if !text.is_ascii() {
        proof {
            let i = choose|i: int| 0 <= i < text@.len() && !('\0' <= #[trigger] text@[i] <= '\u{7f}');
            if text@.len() > 0 && text@[0] == '+' {
                assert(unsigned_digits(text@)[i - 1] == text@[i]);
            } else {
                assert(unsigned_digits(text@)[i] == text@[i]);
            }
        }
        return None;
    }
    let bytes = text.as_bytes();
    proof {
        is_ascii_spec_bytes(text);
    }
    let length = bytes.len();
    let start: usize = if length > 0 && bytes[0] == 43u8 {
        1
    } else {
        0
    };
    let ghost digits = unsigned_digits(text@);
    assert(digits =~= text@.skip(start as int));
    if start == length {
        return None;
    }
    let mut value: u64 = 0;
    let mut at: usize = start;
    assert(digits.take(0) =~= Seq::<char>::empty());
    while at < length
        invariant
            start <= at <= length,
            length == text@.len(),
            bytes@.len() == length,
            forall|j: int| 0 <= j < length ==> bytes@[j] == text@[j] as u8,
            forall|j: int| 0 <= j < length ==> '\0' <= #[trigger] text@[j] <= '\u{7f}',
            digits == text@.skip(start as int),
            digits == unsigned_digits(text@),
            all_digits(digits.take(at - start)),
            value == digits_value(digits.take(at - start)),
            value <= u32::MAX,
        decreases length - at,
    {
        let byte = bytes[at];
        let ghost c = text@[at as int];
        assert(c == digits[at - start]);
        assert(byte == c as u8);
        if byte < 48u8 || byte > 57u8 {
            assert(!is_digit(digits[at - start]));
            return None;
        }
        assert(is_digit(c));
        assert(digit_of(c) == byte - 48);
        value = value * 10 + (byte - 48u8) as u64;
        proof {
            lemma_digits_value_step(digits, at - start);
            assert forall|j: int| 0 <= j < at - start + 1 implies is_digit(
                #[trigger] digits.take(at - start + 1)[j],
            ) by {
                if j < at - start {
                    assert(digits.take(at - start)[j] == digits[j]);
                }
            }
        }
        if value > 0xffff_ffffu64 {
            proof {
                if all_digits(digits) {
                    lemma_digits_value_prefix(digits, at - start + 1);
                }
            }
            return None;
        }
        at += 1;
    }
    assert(digits.take(at - start) =~= digits);
    Some(value as u32)
}

/// The text of one decimal digit.
fn digit_str(digit: u32) -> (text: &'static str)
    requires
        digit < 10,
    ensures
        text@ == seq![digit_char(digit as nat)],
{
    proof {
        reveal_strlit("0");
        reveal_strlit("1");
        reveal_strlit("2");
        reveal_strlit("3");
        reveal_strlit("4");
        reveal_strlit("5");
        reveal_strlit("6");
        reveal_strlit("7");
        reveal_strlit("8");
        reveal_strlit("9");
    }
    let text = if digit == 0 {
        "0"
    } else if digit == 1 {
        "1"
    } else if digit == 2 {
        "2"
    } else if digit == 3 {
        "3"
    } else if digit == 4 {
        "4"
    } else if digit == 5 {
        "5"
    } else if digit == 6 {
        "6"
    } else if digit == 7 {
        "7"
    } else if digit == 8 {
        "8"
    } else {
        "9"
    };
    assert(text@ =~= seq![digit_char(digit as nat)]);
    text
}

/// Appends the decimal digits of `n` to `out`.
fn push_decimal(out: &mut String, n: u32)
    ensures
        final(out)@ == old(out)@ + decimal(n as nat),
    decreases n,
{
    if n >= 10 {
        push_decimal(out, n / 10);
    }
    out.append(digit_str(n % 10));
    assert(out@ =~= old(out)@ + decimal(n as nat));
}

/// The decimal digits of `n`.
pub fn format_decimal(n: u32) -> (text: String)
    ensures
        text@ == decimal(n as nat),
{
    let mut out = String::new();
    push_decimal(&mut out, n);
    assert(out@ =~= decimal(n as nat));
    out
}

/// Parses the text of an unsigned integer element. Text that is no unsigned
/// integer of 32 bits is reported as invalid for the type `xs:integer`.
pub fn parse_unsigned(value: String, element: &ElementName) -> (result: Result<u32, XmlReadError>)
    ensures
        match result {
            Ok(parsed) => unsigned_of(value@) == Some(parsed),
            Err(error) => unsigned_of(value@) is None && error@ == invalid_parse(
                value@,
                "xs:integer"@,
                element@.display(),
            ),
        },
{
    match parse_decimal(value.as_str()) {
        Some(parsed) => Ok(parsed),
        None => Err(
            XmlReadError::InvalidParseError {
                value,
                data_type: String::from_str("xs:integer"),
                element: element.to_string(),
            },
        ),
    }
}

} // verus!
