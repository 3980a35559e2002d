//! Numbers as text: the digits of addresses, endpoints and lengths, written
//! and read.
use vstd::prelude::*;
use vstd::string::*;

verus! {

/// The digit that stands for `value`: a figure, or a small letter from ten on.
pub open spec fn digit_char(value: int) -> char {
    if value < 10 {
        (48 + value) as char
    } else {
        (87 + value) as char
    }
}

/// A number in decimal, without leading zeros.
pub open spec fn decimal(number: nat) -> Seq<char>
    decreases number,
{
    if number < 10 {
        seq![digit_char(number as int)]
    } else {
        decimal(number / 10).push(digit_char((number % 10) as int))
    }
}

/// An address: `0x` and four hexadecimal digits.
pub open spec fn short_address(address: u16) -> Seq<char> {
    seq![
        '0',
        'x',
        digit_char(address as int / 4096),
        digit_char(address as int / 256 % 16),
        digit_char(address as int / 16 % 16),
        digit_char(address as int % 16),
    ]
}

/// What a digit stands for, in any base up to sixteen; letters count large
/// or small.
pub open spec fn digit_value(digit: char) -> Option<nat> {
    if '0' as int <= digit as int <= '9' as int {
        Some((digit as int - '0' as int) as nat)
    } else if 'a' as int <= digit as int <= 'f' as int {
        Some((digit as int - 'a' as int + 10) as nat)
    } else if 'A' as int <= digit as int <= 'F' as int {
        Some((digit as int - 'A' as int + 10) as nat)
    } else {
        None
    }
}

/// At least one digit, and nothing but digits of this base.
pub open spec fn is_number(digits: Seq<char>, base: nat) -> bool {
    &&& digits.len() > 0
    &&& forall|i: int|
        0 <= i < digits.len() ==> (digit_value(#[trigger] digits[i]) matches Some(value) && value
            < base)
}

/// The number that digits of this base write.
pub open spec fn number_of(digits: Seq<char>, base: nat) -> nat
    decreases digits.len(),
{
    if digits.len() == 0 {
        0
    } else {
        number_of(digits.drop_last(), base) * base + digit_value(digits.last())->Some_0
    }
}

/// Text without the plus sign it may start with.
pub open spec fn without_plus(text: Seq<char>) -> Seq<char> {
    if text.len() > 0 && text[0] == '+' {
        text.skip(1)
    } else {
        text
    }
}

/// The number that text writes: digits, behind a plus sign or none, of a
/// number up to `most`. Anything else is no number.
pub open spec fn parsed(text: Seq<char>, base: nat, most: nat) -> Option<nat> {
    let digits = without_plus(text);
    if is_number(digits, base) && number_of(digits, base) <= most {
        Some(number_of(digits, base))
    } else {
        None
    }
}

/// The characters of a text.
pub(crate) fn chars_of(text: &str) -> (chars: Vec<char>)
    ensures
        chars@ == text@,
{
    let mut chars: Vec<char> = Vec::new();
    for c in rest: text.chars()
        invariant
            chars@ == text@.take(rest.index() as int),
            rest.seq() == text@,
    {
        chars.push(c);
    }
    chars
}

/// The one-character text of a digit.
fn digit_text(value: u8) -> (text: &'static str)
    requires
        value < 16,
    ensures
        text@ == seq![digit_char(value as int)],
{
    proof {
        reveal_strlit("0");
        reveal_strlit("1");
        reveal_strlit("2");
        reveal_strlit("3");
        reveal_strlit("4");
        reveal_strlit("5");
        reveal_strlit("6");
        reveal_strlit("7");
        reveal_strlit("8");
        reveal_strlit("9");
        reveal_strlit("a");
        reveal_strlit("b");
        reveal_strlit("c");
        reveal_strlit("d");
        reveal_strlit("e");
        reveal_strlit("f");
    }
    let text: &'static str = match value {
        0 => "0",
        1 => "1",
        2 => "2",
        3 => "3",
        4 => "4",
        5 => "5",
        6 => "6",
        7 => "7",
        8 => "8",
        9 => "9",
        10 => "a",
        11 => "b",
        12 => "c",
        13 => "d",
        14 => "e",
        _ => "f",
    };
    assert(text@ =~= seq![digit_char(value as int)]);
    text
}

/// Puts a number behind a text, in decimal.
pub(crate) fn push_decimal(text: &mut String, number: u64)
    ensures
        final(text)@ == old(text)@ + decimal(number as nat),
    decreases number,
{
    if number >= 10 {
        push_decimal(text, number / 10);
    }
    text.append(digit_text((number % 10) as u8));
    assert(text@ =~= old(text)@ + decimal(number as nat));
}

/// Puts an address behind a text: `0x` and four hexadecimal digits.
pub(crate) fn push_address(text: &mut String, address: u16)
    ensures
        final(text)@ == old(text)@ + short_address(address),
{
    proof {
        reveal_strlit("0x");
    }
    text.append("0x");
    text.append(digit_text((address / 4096) as u8));
    text.append(digit_text((address / 256 % 16) as u8));
    text.append(digit_text((address / 16 % 16) as u8));
    text.append(digit_text((address % 16) as u8));
    assert(text@ =~= old(text)@ + short_address(address));
}

/// What a digit stands for.
fn value_of(digit: char) -> (value: Option<u32>)
    ensures
        match value {
            Some(value) => value < 16 && digit_value(digit) == Some(value as nat),
            None => digit_value(digit) is None,
        },
{
    let code: u32 = digit as u32;
    if '0' as u32 <= code && code <= '9' as u32 {
        Some(code - '0' as u32)
    } else if 'a' as u32 <= code && code <= 'f' as u32 {
        Some(code - 'a' as u32 + 10)
    } else if 'A' as u32 <= code && code <= 'F' as u32 {
        Some(code - 'A' as u32 + 10)
    } else {
        None
    }
}

/// More digits never write a smaller number.
proof fn lemma_number_grows(digits: Seq<char>, base: nat, upto: int)
    requires
        0 <= upto <= digits.len(),
        base >= 1,
    ensures
        number_of(digits.take(upto), base) <= number_of(digits, base),
    decreases digits.len() - upto,
{
    if upto == digits.len() {
        assert(digits.take(upto) =~= digits);
    } else {
        let more = digits.take(upto + 1);
        assert(more.drop_last() =~= digits.take(upto));
        lemma_number_grows(digits, base, upto + 1);
        assert(number_of(digits.take(upto), base) * base >= number_of(digits.take(upto), base))
            by (nonlinear_arith)
            requires
                base >= 1,
        ;
    }
}

/// Reads a number up to `most` out of the characters from `start` to `end`.
pub(crate) fn parse_number(
    chars: &Vec<char>,
    start: usize,
    end: usize,
    base: u32,
    most: u32,
) -> (number: Option<u32>)
    requires
        start <= end <= chars@.len(),
        1 <= base <= 16,
        most <= 0xffff,
    ensures
        match number {
            Some(number) => parsed(
                chars@.subrange(start as int, end as int),
                base as nat,
                most as nat,
            ) == Some(number as nat),
            None => parsed(
                chars@.subrange(start as int, end as int),
                base as nat,
                most as nat,
            ) is None,
        },
{
    let ghost text = chars@.subrange(start as int, end as int);
    let ghost digits = without_plus(text);
    let first: usize = if start < end && chars[start] == '+' {
        start + 1
    } else {
        start
    };
    assert(digits =~= chars@.subrange(first as int, end as int));
    if first == end {
        return None;
    }
    let mut number: u32 = 0;
    let mut index: usize = first;
    while index < end
        invariant
            first <= index <= end <= chars@.len(),
            first < end,
            1 <= base <= 16,
            most <= 0xffff,
            text == chars@.subrange(start as int, end as int),
            digits == without_plus(text),
            digits == chars@.subrange(first as int, end as int),
            number == number_of(digits.take(index - first), base as nat),
            number <= most,
            forall|i: int|
                0 <= i < index - first ==> (digit_value(#[trigger] digits[i]) matches Some(value)
                    && value < base),
        decreases end - index,
    {
        let ghost upto = digits.take(index + 1 - first);
        assert(upto.drop_last() =~= digits.take(index - first));
        assert(upto.last() == digits[index - first]);
        assert(digits[index - first] == chars@[index as int]);
        match value_of(chars[index]) {
            None => {
                return None;
            },
            Some(value) => {
                if value >= base {
                    return None;
                }
                assert(number * base <= 0xffff * 16) by (nonlinear_arith)
                    requires
                        number <= 0xffff,
                        base <= 16,
                ;
                number = number * base + value;
                if number > most {
                    proof {
                        lemma_number_grows(digits, base as nat, index + 1 - first);
                    }
                    return None;
                }
            },
        }
        index = index + 1;
    }
    assert(digits.take(index - first) =~= digits);
    Some(number)
}

/// A digit that was written stands for what it was written for, and is no
/// sign and no separator.
proof fn lemma_digit_reads_back(value: int)
    requires
        0 <= value < 16,
    ensures
        digit_value(digit_char(value)) == Some(value as nat),
        digit_char(value) != '+',
        digit_char(value) != '/',
{
}

/// The digits of a number in decimal are digits, and write the number.
proof fn lemma_decimal_is_a_number(number: nat)
    ensures
        is_number(decimal(number), 10),
        number_of(decimal(number), 10) == number,
        decimal(number)[0] != '+',
    decreases number,
{
    let digits = decimal(number);
    lemma_digit_reads_back((number % 10) as int);
    if number < 10 {
        assert(digits.drop_last() =~= Seq::empty());
        assert(number_of(digits.drop_last(), 10) == 0);
    } else {
        lemma_decimal_is_a_number(number / 10);
        assert(digits.drop_last() =~= decimal(number / 10));
        assert forall|i: int| 0 <= i < digits.len() implies (digit_value(
            #[trigger] digits[i],
        ) matches Some(value) && value < 10) by {
            if i + 1 < digits.len() {
                assert(digits[i] == decimal(number / 10)[i]);
            }
        }
    }
}

/// A number written in decimal reads back, within any limit it keeps.
pub proof fn law_decimal_reads_back(number: nat, most: nat)
    requires
        number <= most,
    ensures
        parsed(decimal(number), 10, most) == Some(number),
{
    lemma_decimal_is_a_number(number);
}

/// An address that was written reads back.
pub proof fn law_address_reads_back(address: u16)
    ensures
        parsed(short_address(address).skip(2), 16, 0xffff) == Some(address as nat),
{
    let a = address as int;
    let digits = short_address(address).skip(2);
    lemma_digit_reads_back(a / 4096);
    lemma_digit_reads_back(a / 256 % 16);
    lemma_digit_reads_back(a / 16 % 16);
    lemma_digit_reads_back(a % 16);
    let three = digits.drop_last();
    let two = three.drop_last();
    let one = two.drop_last();
    assert(one.drop_last() =~= Seq::empty());
    assert(number_of(one.drop_last(), 16) == 0);
    assert(number_of(one, 16) == a / 4096);
    assert(number_of(two, 16) == a / 256);
    assert(number_of(three, 16) == a / 16);
    assert(number_of(digits, 16) == a);
    assert(without_plus(digits) == digits);
}

} // verus!
