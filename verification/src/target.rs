//! Where a Stream is sent: the node and endpoint that a target's path names,
//! `0x0000/1`.
use vstd::prelude::*;

use crate::error::ZigbeeError;
use crate::text::{
    chars_of, decimal, is_number, law_address_reads_back, law_decimal_reads_back, number_of,
    parse_number, parsed, short_address, without_plus,
};

verus! {

/// The address and the endpoint that a path writes: it is parted at its first
/// slash, and without one the endpoint is 1.
pub open spec fn path_parts(path: Seq<char>) -> (Seq<char>, Seq<char>) {
    match path.index_of_first('/') {
        Some(slash) => (path.take(slash), path.skip(slash + 1)),
        None => (path, seq!['1']),
    }
}

/// The node and endpoint that a path names: a short address in hexadecimal
/// behind `0x`, and an endpoint in decimal.
pub open spec fn named(path: Seq<char>) -> Option<(u16, u8)> {
    let (address, endpoint) = path_parts(path);
    if address.len() >= 2 && address[0] == '0' && address[1] == 'x' {
        match (parsed(address.skip(2), 16, 0xffff), parsed(endpoint, 10, 0xff)) {
            (Some(address), Some(endpoint)) => Some((address as u16, endpoint as u8)),
            _ => None,
        }
    } else {
        None
    }
}

/// Where the first slash stands, or the length where there is none.
fn slash_of(chars: &Vec<char>) -> (slash: usize)
    ensures
        match chars@.index_of_first('/') {
            Some(index) => slash == index && slash < chars@.len(),
            None => slash == chars@.len(),
        },
{
    let mut index: usize = 0;
    proof {
        chars@.index_of_first_ensures('/');
    }
    while index < chars.len()
        invariant
            index <= chars@.len(),
            forall|i: int| 0 <= i < index ==> chars@[i] != '/',
            match chars@.index_of_first('/') {
                Some(first) => {
                    &&& 0 <= first < chars@.len()
                    &&& chars@[first] == '/'
                    &&& forall|j: int| 0 <= j < first ==> chars@[j] != '/'
                },
                None => !chars@.contains('/'),
            },
        decreases chars@.len() - index,
    {
        if chars[index] == '/' {
            return index;
        }
        index = index + 1;
    }
    index
}

/// The node and endpoint that a path names, refusing one that names none.
pub fn node_and_endpoint(path: &str) -> (result: Result<(u16, u8), ZigbeeError>)
    ensures
        match result {
            Ok(node) => named(path@) == Some(node),
            Err(error) => {
                &&& named(path@) is None
                &&& error matches ZigbeeError::NotANode { path: refused }
                &&& refused@ == path@
            },
        },
{
    let chars = chars_of(path);
    let slash = slash_of(&chars);
    let ghost (address, endpoint) = path_parts(path@);
    if slash >= 2 && chars[0] == '0' && chars[1] == 'x' {
        let node = parse_number(&chars, 2, slash, 16, 0xffff);
        let end: Option<u32> = if slash == chars.len() {
            assert(parsed(seq!['1'], 10, 0xff) == Some(1nat)) by {
                let one = seq!['1'];
                assert(without_plus(one) == one);
                assert(number_of(one.drop_last(), 10) == 0);
                assert(number_of(one, 10) == 1);
                assert(is_number(one, 10));
            }
            Some(1)
        } else {
            parse_number(&chars, slash + 1, chars.len(), 10, 0xff)
        };
        assert(chars@.subrange(2, slash as int) =~= address.skip(2));
        if slash < chars.len() {
            assert(chars@.subrange(slash + 1, chars@.len() as int) =~= endpoint);
        }
        if let (Some(node), Some(end)) = (node, end) {
            return Ok((node as u16, end as u8));
        }
    }
    Err(ZigbeeError::NotANode { path: path.to_owned() })
}

/// A path that writes a node's address and an endpoint names that node and
/// that endpoint.
pub proof fn law_a_written_node_is_named(address: u16, endpoint: u8)
    ensures
        named(short_address(address) + seq!['/'] + decimal(endpoint as nat)) == Some(
            (address, endpoint),
        ),
{
    let written = short_address(address);
    let digits = decimal(endpoint as nat);
    let path = written + seq!['/'] + digits;
    law_address_reads_back(address);
    law_decimal_reads_back(endpoint as nat, 0xff);
    path.index_of_first_ensures('/');
    assert(path[6] == '/');
    assert forall|i: int| 0 <= i < 6 implies path[i] != '/' by {
        assert(path[i] == written[i]);
    }
    assert(path.take(6) =~= written);
    assert(path.skip(7) =~= digits);
}

} // verus!
