//! Element numbers and the local websocket addresses derived from them.
//!
//! An element whose id is `id_<n>` talks over two local ports: on `61<nnn>`
//! the server sends updates to the page, on `62<nnn>` the page sends user
//! input to the server (`<nnn>` is `n` zero-padded to three digits).

use vstd::prelude::*;
use crate::text::{find, occurs_at, find_str, pad3, parse_u8, parse_u8_str, push_pad3, suffix_from};

verus! {

/// The two directions of an element's websocket.
#[derive(Clone, Copy, Debug, PartialEq, Eq, Structural)]
pub enum Direction {
    /// Updates from the server to the page (ports `61xxx`).
    ToPage,
    /// User input from the page to the server (ports `62xxx`).
    ToServer,
}

/// The number in an element id: what follows the first `id_`, read as a
/// `u8` (`id.split_once("id_")` then `parse::<u8>()`).
pub open spec fn id_number(id: Seq<char>) -> Option<u8> {
    match find(id, "id_"@) {
        Some(i) => parse_u8(id.skip(i + 3)),
        None => None,
    }
}

/// The number of the element with id `id`, if it has one.
pub fn element_number(id: &str) -> (r: Option<u8>)
    ensures
        r == id_number(id@),
{
    proof {
        reveal_strlit("id_");
    }
    match find_str(id, "id_") {
        Some(i) => {
            assert(occurs_at(id@, "id_"@, i as int));
            let _n = id.unicode_len();
            let rest = suffix_from(id, i + 3);
            parse_u8_str(rest.as_str())
        },
        None => None,
    }
}

/// The port of element `n` in direction `d`, as text: `61` or `62`, then
/// `n` zero-padded to three digits.
pub open spec fn port_text(d: Direction, n: u8) -> Seq<char> {
    match d {
        Direction::ToPage => "61"@ + pad3(n as nat),
        Direction::ToServer => "62"@ + pad3(n as nat),
    }
}

/// The local address the server listens on for element `n`.
pub open spec fn listen_addr(d: Direction, n: u8) -> Seq<char> {
    "127.0.0.1:"@ + port_text(d, n)
}

/// The websocket URL the page opens for element `n`.
pub open spec fn socket_url(d: Direction, n: u8) -> Seq<char> {
    "ws://"@ + listen_addr(d, n)
}

fn push_port(s: &mut String, d: Direction, n: u8)
    ensures
        final(s)@ == old(s)@ + port_text(d, n),
{
    match d {
        Direction::ToPage => s.append("61"),
        Direction::ToServer => s.append("62"),
    }
    push_pad3(s, n);
    assert(s@ == old(s)@ + port_text(d, n));
}

/// The local address the server listens on for element `n`
/// (`format!("127.0.0.1:61{:0>3}", n)` or the same with `62`).
pub fn listen_address(d: Direction, n: u8) -> (r: String)
    ensures
        r@ == listen_addr(d, n),
{
    let mut s = String::new();
    s.append("127.0.0.1:");
    push_port(&mut s, d, n);
    s
}

/// The websocket URL the page opens for element `n`
/// (`format!("ws://127.0.0.1:61{:0>3}", n)` or the same with `62`).
pub fn socket_address(d: Direction, n: u8) -> (r: String)
    ensures
        r@ == socket_url(d, n),
{
    let mut s = String::new();
    s.append("ws://");
    s.append("127.0.0.1:");
    push_port(&mut s, d, n);
    s
}

} // verus!
