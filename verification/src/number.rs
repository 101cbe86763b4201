//! Decimal numbers as text.
use vstd::prelude::*;

use crate::text::chars_of;

verus! {

/// The decimal digits of `n`, without leading zeros.
pub open spec fn decimal(n: nat) -> Seq<char>
    decreases n,
{
    if n < 10 {
        seq![digit_char(n)]
    } else {
        decimal(n / 10).push(digit_char(n % 10))
    }
}

/// The character of a digit.
pub open spec fn digit_char(d: nat) -> char {
    ('0' as u32 + d) as char
}

/// Whether a character is a decimal digit.
pub open spec fn is_digit(c: char) -> bool {
    '0' <= c <= '9'
}

/// Whether two digits stand in a text at position `i`, and the number that they
/// make lies between `lo` and `hi`.
pub open spec fn is_two_digits_in(text: Seq<char>, i: int, lo: int, hi: int) -> bool {
    &&& is_digit(text[i]) && is_digit(text[i + 1])
    &&& lo <= 10 * digit_value(text[i]) + digit_value(text[i + 1]) <= hi
}

/// The value of a digit.
pub open spec fn digit_value(c: char) -> int {
    c as u32 - '0' as u32
}

/// The character of a digit.
fn digit(d: u64) -> (c: char)
    requires
        d < 10,
    ensures
        c == digit_char(d as nat),
{
    (48 + d as u8) as char
}

/// Appends the decimal digits of `n`.
pub fn push_decimal(out: &mut String, n: u64)
    ensures
        final(out)@ == old(out)@ + decimal(n as nat),
    decreases n,
{
    let ghost before = out@;
    if n >= 10 {
        push_decimal(out, n / 10);
    }
    out.push(digit(n % 10));
    assert(out@ =~= before + decimal(n as nat));
}

/// The decimal digits of `n`.
pub fn decimal_of(n: u64) -> (text: String)
    ensures
        text@ == decimal(n as nat),
{
    let mut text = String::new();
    push_decimal(&mut text, n);
    assert(text@ =~= decimal(n as nat));
    text
}

/// The two digits of a number below 100.
pub open spec fn two_digits(n: int) -> Seq<char> {
    seq![digit_char((n / 10) as nat), digit_char((n % 10) as nat)]
}

/// The last `width` decimal digits of a number, with leading zeros.
pub open spec fn padded(n: nat, width: nat) -> Seq<char>
    decreases width,
{
    if width == 0 {
        Seq::empty()
    } else {
        padded(n / 10, (width - 1) as nat).push(digit_char(n % 10))
    }
}

/// A number of hundredths, with two decimals.
pub open spec fn hundredths(n: int) -> Seq<char> {
    let magnitude = if n < 0 {
        -n
    } else {
        n
    };
    (if n < 0 {
        seq!['-']
    } else {
        seq![]
    }) + decimal((magnitude / 100) as nat) + seq!['.'] + two_digits(magnitude % 100)
}

/// Appends a number of hundredths, with two decimals.
pub fn push_hundredths(out: &mut String, n: i64)
    requires
        n > i64::MIN,
    ensures
        final(out)@ == old(out)@ + hundredths(n as int),
{
    let ghost before = out@;
    let magnitude: u64 = if n < 0 {
        (-n) as u64
    } else {
        n as u64
    };
    if n < 0 {
        out.push('-');
    }
    push_decimal(out, magnitude / 100);
    out.push('.');
    out.push(digit(magnitude % 100 / 10));
    out.push(digit(magnitude % 100 % 10));
    assert(out@ =~= before + hundredths(n as int));
}

/// A number of thousandths, with three decimals.
pub open spec fn thousandths(n: nat) -> Seq<char> {
    decimal(n / 1000) + seq!['.', digit_char(n % 1000 / 100)] + two_digits((n % 100) as int)
}

/// Appends a number of thousandths, with three decimals.
pub fn push_thousandths(out: &mut String, n: u64)
    ensures
        final(out)@ == old(out)@ + thousandths(n as nat),
{
    let ghost before = out@;
    push_decimal(out, n / 1000);
    out.push('.');
    out.push(digit(n % 1000 / 100));
    out.push(digit(n % 100 / 10));
    out.push(digit(n % 100 % 10));
    assert(out@ =~= before + thousandths(n as nat));
}

/// Why a text is no number.
#[derive(Debug, Clone, Copy, PartialEq, Eq, Structural)]
pub enum NumberError {
    /// There is no text.
    Empty,
    /// A character is no digit.
    InvalidDigit,
    /// The number is too large.
    TooLarge,
}

impl NumberError {
    /// What the error says.
    pub open spec fn says(self) -> Seq<char> {
        match self {
            NumberError::Empty => "cannot parse integer from empty string"@,
            NumberError::InvalidDigit => "invalid digit found in string"@,
            NumberError::TooLarge => "number too large to fit in target type"@,
        }
    }

    /// What the error says.
    pub fn message(&self) -> (text: String)
        ensures
            text@ == self.says(),
    {
        match self {
            NumberError::Empty => "cannot parse integer from empty string".to_owned(),
            NumberError::InvalidDigit => "invalid digit found in string".to_owned(),
            NumberError::TooLarge => "number too large to fit in target type".to_owned(),
        }
    }
}

/// The number whose digits are those of `acc` and then those of `digits`, as
/// long as it does not exceed `max`. The first character that cannot be taken
/// decides on the error.
pub open spec fn parse_digits(digits: Seq<char>, acc: int, max: int) -> Result<int, NumberError>
    decreases digits.len(),
{
    if digits.len() == 0 {
        Ok(acc)
    } else if !is_digit(digits.first()) {
        Err(NumberError::InvalidDigit)
    } else if acc * 10 + digit_value(digits.first()) > max {
        Err(NumberError::TooLarge)
    } else {
        parse_digits(digits.drop_first(), acc * 10 + digit_value(digits.first()), max)
    }
}

/// The number that a text stands for: digits, which a plus sign may stand
/// before.
pub open spec fn parsed(text: Seq<char>, max: int) -> Result<int, NumberError> {
    if text.len() == 0 {
        Err(NumberError::Empty)
    } else if text.first() == '+' && text.len() > 1 {
        parse_digits(text.drop_first(), 0, max)
    } else {
        parse_digits(text, 0, max)
    }
}

/// Reads a number of at most `max`.
pub fn parse_number(text: &str, max: u64) -> (number: Result<u64, NumberError>)
    ensures
        match number {
            Ok(n) => parsed(text@, max as int) == Ok::<int, NumberError>(n as int),
            Err(e) => parsed(text@, max as int) == Err::<int, NumberError>(e),
        },
{
    let chars = chars_of(text);
    if chars.len() == 0 {
        return Err(NumberError::Empty);
    }
    let mut i: usize = if chars[0] == '+' && chars.len() > 1 {
        1
    } else {
        0
    };
    let mut n: u64 = 0;
    assert(text@.skip(0) =~= text@);
    assert(text@.skip(1) =~= text@.drop_first());
    while i < chars.len()
        invariant
            chars@ == text@,
            i <= chars@.len(),
            n <= max,
            parsed(text@, max as int) == parse_digits(text@.skip(i as int), n as int, max as int),
        decreases chars@.len() - i,
    {
        let c: char = chars[i];
        let ghost rest = text@.skip(i as int);
        assert(rest.first() == c);
        assert(rest.drop_first() =~= text@.skip(i + 1));
        if !('0' <= c && c <= '9') {
            return Err(NumberError::InvalidDigit);
        }
        let d: u64 = (c as u32 - '0' as u32) as u64;
        if d > max || n > max / 10 || n * 10 > max - d {
            return Err(NumberError::TooLarge);
        }
        n = n * 10 + d;
        i += 1;
    }
    Ok(n)
}

proof fn lemma_parse_push(digits: Seq<char>, last: char, acc: int, max: int)
    ensures
        parse_digits(digits.push(last), acc, max) == match parse_digits(digits, acc, max) {
            Ok(v) => parse_digits(seq![last], v, max),
            Err(e) => Err(e),
        },
    decreases digits.len(),
{
    let more = digits.push(last);
    if digits.len() == 0 {
        assert(more =~= seq![last]);
    } else {
        assert(more.drop_first() =~= digits.drop_first().push(last));
        assert(more.first() == digits.first());
        lemma_parse_push(
            digits.drop_first(),
            last,
            acc * 10 + digit_value(digits.first()),
            max,
        );
    }
}

/// The digits of a number are read as that number.
pub proof fn lemma_decimal_parses(n: nat, max: int)
    requires
        n <= max,
    ensures
        parse_digits(decimal(n), 0, max) == Ok::<int, NumberError>(n as int),
        decimal(n).len() > 0,
        is_digit(decimal(n).first()),
    decreases n,
{
    reveal_with_fuel(parse_digits, 2);
    if n >= 10 {
        lemma_decimal_parses(n / 10, max);
        lemma_parse_push(decimal(n / 10), digit_char(n % 10), 0, max);
        let one = seq![digit_char(n % 10)];
        assert(one.drop_first() =~= Seq::empty());
    } else {
        assert(decimal(n).drop_first() =~= Seq::empty());
    }
}

/// A number consists of digits.
pub proof fn decimals_are_digits(n: nat, i: int)
    requires
        0 <= i < decimal(n).len(),
    ensures
        is_digit(decimal(n)[i]),
    decreases n,
{
    if n >= 10 && i < decimal(n).len() - 1 {
        decimals_are_digits(n / 10, i);
    }
}

/// Reading the digits of a number gives the number back.
pub proof fn decimal_reads_back(n: nat, max: int)
    requires
        n <= max,
    ensures
        parsed(decimal(n), max) == Ok::<int, NumberError>(n as int),
{
    lemma_decimal_parses(n, max);
}

proof fn lemma_parse_is_bounded(digits: Seq<char>, acc: int, max: int)
    requires
        0 <= acc <= max,
    ensures
        parse_digits(digits, acc, max) matches Ok(n) ==> {
            &&& 0 <= n <= max
            &&& forall|i: int| 0 <= i < digits.len() ==> '0' <= #[trigger] digits[i] <= '9'
        },
    decreases digits.len(),
{
    if digits.len() > 0 && is_digit(digits.first()) {
        let next = acc * 10 + digit_value(digits.first());
        if next <= max {
            let rest = digits.drop_first();
            lemma_parse_is_bounded(rest, next, max);
            if parse_digits(rest, next, max) is Ok {
                assert forall|i: int| 0 <= i < digits.len() implies '0' <= #[trigger] digits[i]
                    <= '9' by {
                    if i > 0 {
                        assert(digits[i] == rest[i - 1]);
                    }
                }
            }
        }
    }
}

/// A number is read digit by digit: one more digit behind a number multiplies it
/// by ten and adds the digit, as long as the largest number is not exceeded.
pub proof fn one_more_digit_counts_tenfold(text: Seq<char>, c: char, max: int)
    requires
        0 <= max,
        '0' <= c <= '9',
    ensures
        c as int - 48 <= max ==> parsed(seq![c], max) == Ok::<int, NumberError>(c as int - 48),
        parsed(text, max) matches Ok(n) ==> if 10 * n + (c as int - 48) <= max {
            parsed(text.push(c), max) == Ok::<int, NumberError>(10 * n + (c as int - 48))
        } else {
            parsed(text.push(c), max) == Err::<int, NumberError>(NumberError::TooLarge)
        },
{
    reveal_with_fuel(parse_digits, 2);
    let one = seq![c];
    assert(one.drop_first() =~= Seq::empty());
    if text.len() > 0 {
        if text.first() == '+' && text.len() > 1 {
            assert(text.push(c).drop_first() =~= text.drop_first().push(c));
            lemma_parse_push(text.drop_first(), c, 0, max);
        } else {
            lemma_parse_push(text, c, 0, max);
        }
    }
}

/// Only digits make a number, behind one plus sign at most, and none makes a
/// number that is too large.
pub proof fn only_digits_make_numbers(text: Seq<char>, max: int)
    requires
        0 <= max,
    ensures
        parsed(text, max) matches Ok(n) ==> {
            &&& 0 <= n <= max
            &&& text.len() > 0
            &&& text.last() != '+'
            &&& forall|i: int|
                0 <= i < text.len() ==> '0' <= #[trigger] text[i] <= '9' || (i == 0 && text[i]
                    == '+')
        },
{
    if text.len() > 0 {
        lemma_parse_is_bounded(text, 0, max);
        let rest = text.drop_first();
        lemma_parse_is_bounded(rest, 0, max);
        if text.first() == '+' && text.len() > 1 && parse_digits(rest, 0, max) is Ok {
            assert forall|i: int| 1 <= i < text.len() implies '0' <= #[trigger] text[i] <= '9' by {
                assert(text[i] == rest[i - 1]);
            }
        }
    }
}

/// A number is written with digits alone, and without zeros before them.
pub proof fn decimals_have_no_leading_zeros(n: nat)
    ensures
        forall|i: int| 0 <= i < decimal(n).len() ==> '0' <= #[trigger] decimal(n)[i] <= '9',
        n > 0 ==> decimal(n).first() != '0',
        n < 10 ==> decimal(n).len() == 1,
    decreases n,
{
    if n >= 10 {
        decimals_have_no_leading_zeros(n / 10);
    }
}

/// A number of hundredths reads as that number: what stands before the point
/// counts hundreds, the two digits behind it tens and ones, and a minus sign stands
/// before all where the number is negative, and only there.
pub proof fn hundredths_read_back(n: int, max: int)
    requires
        -max <= n <= max,
    ensures
        ({
            let text = hundredths(n);
            let digits = if n < 0 {
                text.drop_first()
            } else {
                text
            };
            let end = digits.len() as int;
            &&& text.first() == '-' <==> n < 0
            &&& end >= 4
            &&& digits[end - 3] == '.'
            &&& '0' <= digits[end - 2] <= '9'
            &&& '0' <= digits[end - 1] <= '9'
            &&& parsed(digits.take(end - 3), max) matches Ok(whole) && 100 * whole + 10 * (
            digits[end - 2] as int - 48) + (digits[end - 1] as int - 48) == if n < 0 {
                -n
            } else {
                n
            }
        }),
{
    let magnitude = if n < 0 {
        -n
    } else {
        n
    };
    let text = hundredths(n);
    let digits = if n < 0 {
        text.drop_first()
    } else {
        text
    };
    let whole = decimal((magnitude / 100) as nat);
    decimal_reads_back((magnitude / 100) as nat, max);
    lemma_decimal_parses((magnitude / 100) as nat, max);
    decimals_have_no_leading_zeros((magnitude / 100) as nat);
    assert(digits =~= whole + seq!['.'] + two_digits(magnitude % 100));
    assert(digits.take(digits.len() - 3) =~= whole);
    assert(text.first() == if n < 0 {
        '-'
    } else {
        whole[0]
    });
    lemma_two_digits(magnitude % 100);
    assert(digits[digits.len() - 2] == two_digits(magnitude % 100)[0]);
    assert(digits[digits.len() - 1] == two_digits(magnitude % 100)[1]);
}

proof fn lemma_two_digits(n: int)
    requires
        0 <= n < 100,
    ensures
        '0' <= two_digits(n)[0] <= '9',
        '0' <= two_digits(n)[1] <= '9',
        10 * (two_digits(n)[0] as int - 48) + (two_digits(n)[1] as int - 48) == n,
{
}

/// A number of thousandths reads as that number: what stands before the point
/// counts thousands, the three digits behind it hundreds, tens and ones.
pub proof fn thousandths_read_back(n: nat, max: int)
    requires
        n <= max,
    ensures
        ({
            let text = thousandths(n);
            let end = text.len() as int;
            &&& end >= 5
            &&& text[end - 4] == '.'
            &&& forall|i: int| end - 3 <= i < end ==> '0' <= #[trigger] text[i] <= '9'
            &&& parsed(text.take(end - 4), max) matches Ok(whole) && 1000 * whole + 100 * (
            text[end - 3] as int - 48) + 10 * (text[end - 2] as int - 48) + (text[end - 1] as int
                - 48) == n
        }),
{
    let text = thousandths(n);
    let whole = decimal(n / 1000);
    decimal_reads_back(n / 1000, max);
    lemma_decimal_parses(n / 1000, max);
    assert(text =~= whole + seq!['.', digit_char(n % 1000 / 100)] + two_digits((n % 100) as int));
    assert(text.take(text.len() - 4) =~= whole);
    lemma_two_digits((n % 100) as int);
    assert(text[text.len() - 3] == digit_char(n % 1000 / 100));
    assert(text[text.len() - 2] == two_digits((n % 100) as int)[0]);
    assert(text[text.len() - 1] == two_digits((n % 100) as int)[1]);
}

/// A number with leading zeros has as many digits as it is given, and reads as
/// that number where it has no more.
pub proof fn padded_numbers_read_back(n: nat, width: nat, max: int)
    requires
        n < vstd::arithmetic::power::pow(10, width),
        n <= max,
    ensures
        padded(n, width).len() == width,
        width > 0 ==> parsed(padded(n, width), max) == Ok::<int, NumberError>(n as int),
{
    lemma_padded(n, width, max);
    if width > 0 {
        assert(padded(n, width).first() != '+');
    }
}

proof fn lemma_padded(n: nat, width: nat, max: int)
    requires
        n < vstd::arithmetic::power::pow(10, width),
        n <= max,
    ensures
        padded(n, width).len() == width,
        width > 0 ==> is_digit(padded(n, width).first()),
        parse_digits(padded(n, width), 0, max) == Ok::<int, NumberError>(n as int),
    decreases width,
{
    reveal_with_fuel(parse_digits, 2);
    reveal(vstd::arithmetic::power::pow);
    if width > 0 {
        let fewer = (width - 1) as nat;
        assert(vstd::arithmetic::power::pow(10, width) == 10 * vstd::arithmetic::power::pow(
            10,
            fewer,
        ));
        lemma_padded(n / 10, fewer, max);
        lemma_parse_push(padded(n / 10, fewer), digit_char(n % 10), 0, max);
        let one = seq![digit_char(n % 10)];
        assert(one.drop_first() =~= Seq::empty());
    }
}

/// A plus sign before a number makes no difference, and is no number without one.
/// No text is no number either, and neither is one that begins otherwise.
pub proof fn a_plus_sign_makes_no_difference(text: Seq<char>, max: int)
    requires
        text.len() > 0,
        text.first() != '+',
    ensures
        parsed(seq!['+'] + text, max) == parsed(text, max),
        parsed(seq!['+'], max) == Err::<int, NumberError>(NumberError::InvalidDigit),
        parsed(Seq::empty(), max) == Err::<int, NumberError>(NumberError::Empty),
        text.first() < '0' || text.first() > '9' ==> parsed(text, max) == Err::<int, NumberError>(
            NumberError::InvalidDigit,
        ),
{
    assert((seq!['+'] + text).drop_first() =~= text);
}

/// Two digits make the number that they stand for.
pub proof fn two_digits_make_a_number(n: int, lo: int, hi: int)
    requires
        0 <= n < 100,
    ensures
        is_two_digits_in(two_digits(n), 0, lo, hi) <==> lo <= n <= hi,
{
    lemma_two_digits(n);
}

} // verus!
