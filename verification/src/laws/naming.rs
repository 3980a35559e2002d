//! Numbers as text, the nodes that paths name, and where a Stream came from.
use vstd::prelude::*;

use crate::error::ZigbeeError;
use crate::frame::Header;
use crate::node::{path_view, ZigbeeTransport};
use crate::radio::Radio;
use crate::target::{law_a_written_node_is_named, named, node_and_endpoint};
use crate::text::{
    decimal, digit_char, digit_value, is_number, law_address_reads_back, law_decimal_reads_back,
    number_of, parsed, short_address, without_plus,
};

verus! {

/// The sixteen digits in order.
pub open spec fn figures() -> Seq<char> {
    seq!['0', '1', '2', '3', '4', '5', '6', '7', '8', '9', 'a', 'b', 'c', 'd', 'e', 'f']
}

/// `0x` and the four hexadecimal digits of sixteen bits.
pub open spec fn address_text(address: u16) -> Seq<char> {
    seq![
        '0',
        'x',
        figures()[address as int / 4096],
        figures()[address as int / 256 % 16],
        figures()[address as int / 16 % 16],
        figures()[address as int % 16],
    ]
}

/// The one to three decimal digits of eight bits, without leading zeros.
pub open spec fn endpoint_text(endpoint: u8) -> Seq<char> {
    let e = endpoint as int;
    if e < 10 {
        seq![figures()[e]]
    } else if e < 100 {
        seq![figures()[e / 10], figures()[e % 10]]
    } else {
        seq![figures()[e / 100], figures()[e / 10 % 10], figures()[e % 10]]
    }
}

proof fn lemma_digit_is_a_figure(value: int)
    requires
        0 <= value < 16,
    ensures
        digit_char(value) == figures()[value],
{
}

/// Addresses and endpoints are written digit by digit.
pub proof fn law_numbers_are_written_digit_by_digit(address: u16, endpoint: u8)
    ensures
        short_address(address) == address_text(address),
        decimal(endpoint as nat) == endpoint_text(endpoint),
{
    let a = address as int;
    let e = endpoint as int;
    lemma_digit_is_a_figure(a / 4096);
    lemma_digit_is_a_figure(a / 256 % 16);
    lemma_digit_is_a_figure(a / 16 % 16);
    lemma_digit_is_a_figure(a % 16);
    lemma_digit_is_a_figure(e / 100);
    lemma_digit_is_a_figure(e / 10 % 10);
    lemma_digit_is_a_figure(e % 10);
    assert(short_address(address) =~= address_text(address));
    reveal_with_fuel(decimal, 4);
    assert(decimal(endpoint as nat) =~= endpoint_text(endpoint));
}

/// A number is written in decimal digit by digit: one digit by itself, and any
/// other behind those of the tens.
pub proof fn law_a_number_is_written_digit_by_digit(tens: nat, digit: nat)
    requires
        digit < 10,
    ensures
        decimal(digit) == seq![figures()[digit as int]],
        tens > 0 ==> decimal(10 * tens + digit) == decimal(tens).push(figures()[digit as int]),
{
    lemma_digit_is_a_figure(digit as int);
    assert((10 * tens + digit) / 10 == tens && (10 * tens + digit) % 10 == digit);
}

/// One digit is a number where it is a digit of the base, letters large or
/// small, and within the limit.
pub proof fn law_one_digit_is_its_value(digit: char, base: nat, most: nat)
    requires
        base <= 16,
    ensures
        digit_value(digit) == (if exists|v: int| 0 <= v < 16 && figures()[v] == digit {
            Some((choose|v: int| 0 <= v < 16 && figures()[v] == digit) as nat)
        } else if 'A' as int <= digit as int <= 'F' as int {
            Some((digit as int - 'A' as int + 10) as nat)
        } else {
            None
        }),
        parsed(seq![digit], base, most) == (match digit_value(digit) {
            Some(value) => if value < base && value <= most {
                Some(value)
            } else {
                None
            },
            None => None,
        }),
{
    let text = seq![digit];
    assert forall|v: int| 0 <= v < 16 implies digit_value(#[trigger] figures()[v]) == Some(
        v as nat,
    ) by {
        lemma_digit_is_a_figure(v);
    }
    if 48 <= digit as int <= 57 {
        lemma_digit_is_a_figure(digit as int - 48);
        assert(figures()[digit as int - 48] == digit);
    }
    if 97 <= digit as int <= 102 {
        lemma_digit_is_a_figure(digit as int - 87);
        assert(figures()[digit as int - 87] == digit);
    }
    if digit == '+' {
        assert(without_plus(text) =~= Seq::empty());
    } else {
        assert(without_plus(text) == text);
        assert(text.drop_last() =~= Seq::empty());
        assert(number_of(text.drop_last(), base) == 0);
        assert(0 * base == 0) by (nonlinear_arith);
        assert(text.last() == digit && text[0] == digit);
        if is_number(text, base) {
            assert(digit_value(text[0]) is Some);
        }
    }
}

/// A digit more makes the number the base times as large and adds the digit:
/// text that is no number, or one digit that is none, makes none, and neither
/// does a number that passes the limit.
pub proof fn law_a_digit_more_shifts_a_number(text: Seq<char>, digit: char, base: nat, most: nat)
    requires
        1 <= base <= 16,
        text.len() > 0,
        text != seq!['+'],
    ensures
        parsed(text.push(digit), base, most) == (match (
            parsed(text, base, most),
            digit_value(digit),
        ) {
            (Some(number), Some(value)) => if value < base && number * base + value <= most {
                Some(number * base + value)
            } else {
                None
            },
            _ => None,
        }),
{
    let more = text.push(digit);
    let digits = without_plus(text);
    if text[0] == '+' {
        assert(digits.len() > 0) by {
            if text.len() == 1 {
                assert(text =~= seq!['+']);
            }
        }
        assert(without_plus(more) =~= digits.push(digit));
    } else {
        assert(without_plus(more) =~= digits.push(digit));
    }
    let all = digits.push(digit);
    assert(all.drop_last() =~= digits);
    assert(all.last() == digit);
    let number = number_of(digits, base);
    assert(number * base >= number) by (nonlinear_arith)
        requires
            base >= 1,
    ;
    if is_number(digits, base) && digit_value(digit) is Some && digit_value(digit)->Some_0 < base {
        assert(is_number(all, base));
    }
    if is_number(all, base) {
        assert forall|i: int| 0 <= i < digits.len() implies (digit_value(
            #[trigger] digits[i],
        ) matches Some(value) && value < base) by {
            assert(all[i] == digits[i]);
        }
        assert(all[digits.len() as int] == digit);
    }
}

/// Nothing is no number, nor is a plus sign alone; before a number a plus
/// sign makes no difference, and a second one makes it none.
pub proof fn law_a_plus_sign_makes_no_difference(text: Seq<char>, base: nat, most: nat)
    requires
        base <= 16,
    ensures
        parsed(Seq::empty(), base, most) is None,
        text.len() > 0 && text[0] == '+' ==> parsed(seq!['+'] + text, base, most) is None,
        text.len() == 0 || text[0] != '+' ==> parsed(seq!['+'] + text, base, most) == parsed(
            text,
            base,
            most,
        ),
{
    let signed = seq!['+'] + text;
    assert(without_plus(signed) =~= text);
    if text.len() > 0 && text[0] == '+' {
        if is_number(text, base) {
            assert(digit_value(text[0]) is Some);
        }
    }
}

/// A path that writes an address in hexadecimal behind `0x`, a slash and an
/// endpoint in decimal names both where both are numbers that fit; without a
/// slash the endpoint is 1.
pub proof fn law_a_path_names_an_address_and_an_endpoint(
    path: &str,
    address: Seq<char>,
    endpoint: Seq<char>,
    result: Result<(u16, u8), ZigbeeError>,
)
    requires
        call_ensures(node_and_endpoint, (path,), result),
        !address.contains('/'),
        path@ == seq!['0', 'x'] + address + seq!['/'] + endpoint || path@ == seq!['0', 'x']
            + address && endpoint == seq!['1'],
    ensures
        match (parsed(address, 16, 0xffff), parsed(endpoint, 10, 0xff)) {
            (Some(a), Some(e)) => result matches Ok((node, end)) && node == a && end == e,
            _ => result matches Err(ZigbeeError::NotANode { path: refused }) && refused@ == path@,
        },
{
    let p = path@;
    let front = seq!['0', 'x'] + address;
    p.index_of_first_ensures('/');
    assert forall|i: int| 0 <= i < front.len() implies front[i] != '/' by {
        if i >= 2 {
            assert(front[i] == address[i - 2]);
        }
    }
    assert(front.skip(2) =~= address);
    if p == front + seq!['/'] + endpoint {
        let slash = front.len() as int;
        assert(p[slash] == '/');
        assert forall|i: int| 0 <= i < slash implies p[i] != '/' by {
            assert(p[i] == front[i]);
        }
        assert(p.contains('/'));
        assert(p.take(slash) =~= front);
        assert(p.skip(slash + 1) =~= endpoint);
    } else {
        assert(!p.contains('/'));
    }
}

/// A path that does not start with `0x`, or has its first slash before that
/// is over, names nothing and is refused.
pub proof fn law_a_path_starts_with_0x(path: &str, result: Result<(u16, u8), ZigbeeError>)
    requires
        call_ensures(node_and_endpoint, (path,), result),
        path@.len() < 2 || path@[0] != '0' || path@[1] != 'x',
    ensures
        result matches Err(ZigbeeError::NotANode { path: refused }) && refused@ == path@,
{
    path@.index_of_first_ensures('/');
}

/// A target's path addresses what it names, a target without one addresses
/// the sender's own destination, and what names nothing is refused.
pub proof fn law_a_target_addresses_what_its_path_names<R: Radio>(
    node: ZigbeeTransport<R>,
    path: Option<&str>,
    result: Result<(u16, u8), ZigbeeError>,
    own: (u16, u8),
    read: Result<(u16, u8), ZigbeeError>,
)
    requires
        call_ensures(ZigbeeTransport::<R>::addressee, (&node, path), result),
        call_ensures(ZigbeeTransport::<R>::own_destination, (&node,), own),
        path is Some ==> call_ensures(node_and_endpoint, (path->Some_0,), read),
    ensures
        path is None || path->Some_0@.len() == 0 ==> result == Ok::<(u16, u8), ZigbeeError>(own),
        path is Some && path->Some_0@.len() > 0 ==> match read {
            Ok(node) => result == Ok::<(u16, u8), ZigbeeError>(node),
            Err(_) => result matches Err(ZigbeeError::NotANode { path: refused }) && refused@
                == path->Some_0@,
        },
        own == (node@.destination, node@.endpoint),
{
}

/// A path that writes an address and an endpoint is addressed to exactly that
/// node and that endpoint, whatever the sender.
pub proof fn law_a_written_node_is_addressed<R: Radio>(
    node: ZigbeeTransport<R>,
    path: &str,
    address: u16,
    endpoint: u8,
    result: Result<(u16, u8), ZigbeeError>,
)
    requires
        call_ensures(ZigbeeTransport::<R>::addressee, (&node, Some(path)), result),
        path@ == address_text(address) + seq!['/'] + endpoint_text(endpoint),
    ensures
        result == Ok::<(u16, u8), ZigbeeError>((address, endpoint)),
{
    law_numbers_are_written_digit_by_digit(address, endpoint);
    law_a_written_node_is_named(address, endpoint);
    assert(path_view(Some(path)) == Some(path@));
}

/// An origin is written out: the radio's name, the address and the endpoint.
pub proof fn law_an_origin_is_written_out<R: Radio>(
    node: ZigbeeTransport<R>,
    address: u16,
    endpoint: u8,
    origin: String,
)
    requires
        call_ensures(ZigbeeTransport::<R>::origin, (&node, address, endpoint), origin),
    ensures
        origin@ == "zigbee://"@ + node@.radio.called() + "/"@ + address_text(address) + "/"@
            + endpoint_text(endpoint),
{
    law_numbers_are_written_digit_by_digit(address, endpoint);
}

/// Where a Stream with this header came from, written out: the radio's name,
/// its sender, its endpoint and its cluster.
pub open spec fn arrival_text(radio: Seq<char>, header: Header) -> Seq<char> {
    "zigbee://"@ + radio + "/"@ + address_text(header.source) + "/"@ + endpoint_text(
        header.endpoint,
    ) + "?cluster="@ + address_text(header.cluster)
}

/// Where a Stream came from is written out: its sender, its endpoint and its
/// cluster, behind the radio's name.
pub proof fn law_an_arrival_is_written_out<R: Radio>(
    node: ZigbeeTransport<R>,
    header: Header,
    arrival: String,
)
    requires
        call_ensures(ZigbeeTransport::<R>::arrival, (&node, &header), arrival),
    ensures
        arrival@ == arrival_text(node@.radio.called(), header),
{
    law_numbers_are_written_digit_by_digit(header.source, header.endpoint);
    law_numbers_are_written_digit_by_digit(header.cluster, header.endpoint);
}

proof fn lemma_same_text_has_same_parts(
    front: Seq<char>,
    source: (Seq<char>, Seq<char>),
    slash: Seq<char>,
    endpoint: (Seq<char>, Seq<char>),
    question: Seq<char>,
    cluster: (Seq<char>, Seq<char>),
)
    requires
        source.0.len() == source.1.len(),
        cluster.0.len() == cluster.1.len(),
        front + source.0 + slash + endpoint.0 + question + cluster.0 == front + source.1 + slash
            + endpoint.1 + question + cluster.1,
    ensures
        source.0 == source.1,
        endpoint.0 == endpoint.1,
        cluster.0 == cluster.1,
{
    let one = front + source.0 + slash + endpoint.0 + question + cluster.0;
    let two = front + source.1 + slash + endpoint.1 + question + cluster.1;
    assert(one.len() == two.len());
    assert(endpoint.0.len() == endpoint.1.len());
    let start = front.len() as int;
    let middle = start + source.0.len() + slash.len();
    let last = middle + endpoint.0.len();
    let end = last + question.len();
    assert(one.subrange(start, start + source.0.len()) =~= source.0);
    assert(two.subrange(start, start + source.0.len()) =~= source.1);
    assert(one.subrange(middle, last) =~= endpoint.0);
    assert(two.subrange(middle, last) =~= endpoint.1);
    assert(one.skip(end) =~= cluster.0);
    assert(two.skip(end) =~= cluster.1);
}

/// Different addresses are written differently, and so are different
/// endpoints.
pub proof fn law_numbers_are_told_apart(address: u16, other: u16, endpoint: u8, another: u8)
    ensures
        address_text(address) == address_text(other) ==> address == other,
        endpoint_text(endpoint) == endpoint_text(another) ==> endpoint == another,
{
    law_numbers_are_written_digit_by_digit(address, endpoint);
    law_numbers_are_written_digit_by_digit(other, another);
    law_address_reads_back(address);
    law_address_reads_back(other);
    law_decimal_reads_back(endpoint as nat, 0xff);
    law_decimal_reads_back(another as nat, 0xff);
}

/// What an arrival's path writes names the sender and the endpoint, and what
/// it writes of the cluster reads back.
pub proof fn law_an_arrival_reads_back(header: Header)
    ensures
        named(address_text(header.source) + seq!['/'] + endpoint_text(header.endpoint)) == Some(
            (header.source, header.endpoint),
        ),
        parsed(address_text(header.cluster).skip(2), 16, 0xffff) == Some(header.cluster as nat),
{
    law_numbers_are_written_digit_by_digit(header.source, header.endpoint);
    law_numbers_are_written_digit_by_digit(header.cluster, header.endpoint);
    law_a_written_node_is_named(header.source, header.endpoint);
    law_address_reads_back(header.cluster);
}

/// Streams over one radio that differ in sender, endpoint or cluster came
/// from different places.
pub proof fn law_arrivals_tell_senders_apart<R: Radio>(
    node: ZigbeeTransport<R>,
    header: Header,
    other: Header,
    arrival: String,
    another: String,
)
    requires
        call_ensures(ZigbeeTransport::<R>::arrival, (&node, &header), arrival),
        call_ensures(ZigbeeTransport::<R>::arrival, (&node, &other), another),
        header.source != other.source || header.endpoint != other.endpoint || header.cluster
            != other.cluster,
    ensures
        arrival@ != another@,
{
    law_an_arrival_is_written_out(node, header, arrival);
    law_an_arrival_is_written_out(node, other, another);
    if arrival@ == another@ {
        lemma_same_text_has_same_parts(
            "zigbee://"@ + node@.radio.called() + "/"@,
            (address_text(header.source), address_text(other.source)),
            "/"@,
            (endpoint_text(header.endpoint), endpoint_text(other.endpoint)),
            "?cluster="@,
            (address_text(header.cluster), address_text(other.cluster)),
        );
        law_numbers_are_told_apart(
            header.source,
            other.source,
            header.endpoint,
            other.endpoint,
        );
        law_numbers_are_told_apart(
            header.cluster,
            other.cluster,
            header.endpoint,
            other.endpoint,
        );
    }
}

} // verus!
