//! The sockets of the machine on which something listens, out of the tables that
//! Linux keeps under `/proc/net`.
use vstd::prelude::*;
use vstd::string::*;
use crate::number::{decimal, decimal_text};
use crate::text::{
    chars_of, join, joined, lines, lines_of, lowered, split_first, split_once, text_eq, text_of,
    texts, to_lower, words, words_of,
};

verus! {

/// A socket on which something listens.
#[derive(Clone, Debug, PartialEq, Eq)]
pub struct ListeningSocket {
    pub protocol: String,
    pub address: String,
    pub port: u16,
}

/// What a listening socket says.
#[verifier::ext_equal]
pub struct SocketView {
    pub protocol: Seq<char>,
    pub address: Seq<char>,
    pub port: u16,
}

impl View for ListeningSocket {
    type V = SocketView;

    open spec fn view(&self) -> SocketView {
        SocketView { protocol: self.protocol@, address: self.address@, port: self.port }
    }
}

/// The views of a list of sockets.
pub open spec fn sockets_model(sockets: Seq<ListeningSocket>) -> Seq<SocketView> {
    sockets.map_values(|socket: ListeningSocket| socket@)
}

/// The value of a hexadecimal digit.
pub open spec fn hex_value(c: char) -> Option<nat> {
    if '0' <= c <= '9' {
        Some((c as int - 48) as nat)
    } else if 'a' <= c <= 'f' {
        Some((c as int - 87) as nat)
    } else if 'A' <= c <= 'F' {
        Some((c as int - 55) as nat)
    } else {
        None
    }
}

/// Whether a text consists of hexadecimal digits.
pub open spec fn is_hex(s: Seq<char>) -> bool {
    forall|i: int| 0 <= i < s.len() ==> hex_value(#[trigger] s[i]) is Some
}

/// The number of a text of hexadecimal digits.
pub open spec fn hex_number(s: Seq<char>) -> nat
    decreases s.len(),
{
    if s.len() == 0 {
        0
    } else {
        hex_number(s.drop_last()) * 16 + hex_value(s.last())->0
    }
}

/// The two digits of a byte in a row of digits.
pub open spec fn byte_at(s: Seq<char>, i: int) -> Seq<char> {
    s.subrange(2 * i, 2 * i + 2)
}

/// An address out of a table, as it is written. The table has each four bytes of
/// it as one number in hexadecimal, of which the last two digits are the first
/// byte.
pub open spec fn address_view(hex: Seq<char>) -> Option<Seq<char>> {
    if !is_hex(hex) {
        None
    } else if hex.len() == 8 {
        Some(
            joined(
                Seq::new(4, |i: int| decimal(hex_number(byte_at(hex, 3 - i)))),
                "."@,
            ),
        )
    } else if hex.len() == 32 {
        Some(
            joined(
                Seq::new(
                    8,
                    |i: int|
                        lowered(
                            byte_at(hex, i / 2 * 4 + 3 - i % 2 * 2) + byte_at(
                                hex,
                                i / 2 * 4 + 2 - i % 2 * 2,
                            ),
                        ),
                ),
                ":"@,
            ),
        )
    } else {
        None
    }
}

/// The state of a listening socket in a table: of TCP that it listens, of UDP that
/// it has no peer.
pub open spec fn listening_state(protocol: Seq<char>) -> Seq<char> {
    if "udp"@.is_prefix_of(protocol) {
        "07"@
    } else {
        "0A"@
    }
}

/// The listening socket in a row of a table, if the row is one of such a socket.
pub open spec fn socket_in(protocol: Seq<char>, row: Seq<char>) -> Option<SocketView> {
    let fields = words_of(row);
    if fields.len() > 3 && fields[3] == listening_state(protocol) {
        match split_first(fields[1], ':') {
            Some((address, port)) => match address_view(address) {
                Some(text) => if port.len() == 4 && is_hex(port) {
                    Some(
                        SocketView { protocol, address: text, port: hex_number(port) as u16 },
                    )
                } else {
                    None
                },
                None => None,
            },
            None => None,
        }
    } else {
        None
    }
}

/// The listening sockets in a table.
pub open spec fn sockets_in(protocol: Seq<char>, table: Seq<char>) -> Seq<SocketView> {
    lines_of(table).filter_map(|row: Seq<char>| socket_in(protocol, row))
}

fn digit_of(c: char) -> (value: Option<u32>)
    ensures
        match value {
            Some(v) => hex_value(c) == Some(v as nat) && v < 16,
            None => hex_value(c) is None,
        },
{
    if '0' <= c && c <= '9' {
        Some(c as u32 - 48)
    } else if 'a' <= c && c <= 'f' {
        Some(c as u32 - 87)
    } else if 'A' <= c && c <= 'F' {
        Some(c as u32 - 55)
    } else {
        None
    }
}

/// Whether characters are hexadecimal digits.
fn all_hex(chars: &[char]) -> (yes: bool)
    ensures
        yes == is_hex(chars@),
{
    let mut i: usize = 0;
    while i < chars.len()
        invariant
            i <= chars@.len(),
            forall|j: int| 0 <= j < i ==> hex_value(#[trigger] chars@[j]) is Some,
        decreases chars@.len() - i,
    {
        if digit_of(chars[i]).is_none() {
            assert(hex_value(chars@[i as int]) is None);
            return false;
        }
        i = i + 1;
    }
    true
}

/// The number of at most four hexadecimal digits.
fn hex_of(chars: &[char]) -> (value: u32)
    requires
        chars@.len() <= 4,
        is_hex(chars@),
    ensures
        value == hex_number(chars@),
        chars@.len() <= 2 ==> value < 256,
        value < 65536,
{
    let mut value: u32 = 0;
    let mut i: usize = 0;
    while i < chars.len()
        invariant
            i <= chars@.len() <= 4,
            is_hex(chars@),
            value == hex_number(chars@.take(i as int)),
            i == 0 ==> value < 1,
            i == 1 ==> value < 16,
            i == 2 ==> value < 256,
            i == 3 ==> value < 4096,
            i == 4 ==> value < 65536,
        decreases chars@.len() - i,
    {
        assert(chars@.take(i + 1).drop_last() =~= chars@.take(i as int));
        assert(chars@.take(i + 1).last() == chars@[i as int]);
        assert(hex_value(chars@[i as int]) is Some);
        let digit: u32 = match digit_of(chars[i]) {
            Some(d) => d,
            None => 0,
        };
        value = value * 16 + digit;
        i = i + 1;
    }
    assert(chars@.take(i as int) =~= chars@);
    value
}

/// An address out of a table, as it is written.
pub fn address_text(hex: &str) -> (text: Option<String>)
    ensures
        crate::config::opt_text(text) == address_view(hex@),
{
    let chars = chars_of(hex);
    if !all_hex(chars.as_slice()) {
        return None;
    }
    if chars.len() == 8 {
        let ghost all = Seq::new(4, |i: int| decimal(hex_number(byte_at(hex@, 3 - i))));
        let mut parts: Vec<String> = Vec::new();
        let mut i: usize = 0;
        while i < 4
            invariant
                i <= 4,
                chars@ == hex@,
                chars@.len() == 8,
                is_hex(hex@),
                all == Seq::new(4, |i: int| decimal(hex_number(byte_at(hex@, 3 - i)))),
                texts(parts@) == all.take(i as int),
            decreases 4 - i,
        {
            let ghost done = parts@;
            let at: usize = 2 * (3 - i);
            let byte = vstd::slice::slice_subrange(chars.as_slice(), at, at + 2);
            assert(byte@ =~= byte_at(hex@, 3 - i));
            assert(is_hex(byte@)) by {
                assert forall|j: int| 0 <= j < byte@.len() implies hex_value(
                    #[trigger] byte@[j],
                ) is Some by {
                    assert(byte@[j] == hex@[at + j]);
                }
            }
            parts.push(decimal_text(hex_of(byte) as u64));
            assert(texts(parts@) =~= texts(done).push(all[i as int]));
            assert(all.take(i + 1) =~= all.take(i as int).push(all[i as int]));
            i = i + 1;
        }
        assert(all.take(4) =~= all);
        Some(join(parts.as_slice(), "."))
    } else if chars.len() == 32 {
        let ghost all = Seq::new(
            8,
            |i: int|
                lowered(
                    byte_at(hex@, i / 2 * 4 + 3 - i % 2 * 2) + byte_at(
                        hex@,
                        i / 2 * 4 + 2 - i % 2 * 2,
                    ),
                ),
        );
        let mut parts: Vec<String> = Vec::new();
        let mut i: usize = 0;
        while i < 8
            invariant
                i <= 8,
                chars@ == hex@,
                chars@.len() == 32,
                all == Seq::new(
                    8,
                    |i: int|
                        lowered(
                            byte_at(hex@, i / 2 * 4 + 3 - i % 2 * 2) + byte_at(
                                hex@,
                                i / 2 * 4 + 2 - i % 2 * 2,
                            ),
                        ),
                ),
                texts(parts@) == all.take(i as int),
            decreases 8 - i,
        {
            let ghost done = parts@;
            let first: usize = i / 2 * 4 + 3 - i % 2 * 2;
            let second: usize = i / 2 * 4 + 2 - i % 2 * 2;
            let a = text_of(
                vstd::slice::slice_subrange(chars.as_slice(), 2 * first, 2 * first + 2),
            );
            let b = text_of(
                vstd::slice::slice_subrange(chars.as_slice(), 2 * second, 2 * second + 2),
            );
            let mut group = a.clone();
            group.append(b.as_str());
            parts.push(to_lower(group.as_str()));
            assert(texts(parts@) =~= texts(done).push(all[i as int]));
            assert(all.take(i + 1) =~= all.take(i as int).push(all[i as int]));
            i = i + 1;
        }
        assert(all.take(8) =~= all);
        Some(join(parts.as_slice(), ":"))
    } else {
        None
    }
}

/// The listening socket in a row of a table.
pub fn socket_of_row(protocol: &str, row: &str) -> (socket: Option<ListeningSocket>)
    ensures
        match socket {
            Some(s) => socket_in(protocol@, row@) == Some(s@),
            None => socket_in(protocol@, row@) is None,
        },
{
    let fields = words(row);
    assert(texts(fields@) == words_of(row@));
    if fields.len() <= 3 {
        return None;
    }
    assert(texts(fields@)[1] == fields@[1]@);
    assert(texts(fields@)[3] == fields@[3]@);
    let state = if crate::text::starts_with(protocol, "udp") {
        "07"
    } else {
        "0A"
    };
    if !text_eq(fields[3].as_str(), state) {
        return None;
    }
    match split_once(fields[1].as_str(), ':') {
        Some((address, port)) => match address_text(address.as_str()) {
            Some(text) => {
                let digits = chars_of(port.as_str());
                if digits.len() == 4 && all_hex(digits.as_slice()) {
                    let number: u32 = hex_of(digits.as_slice());
                    Some(
                        ListeningSocket {
                            protocol: protocol.to_owned(),
                            address: text,
                            port: number as u16,
                        },
                    )
                } else {
                    None
                }
            },
            None => None,
        },
        None => None,
    }
}

/// The listening sockets in a table.
pub fn listening_sockets(protocol: &str, table: &str) -> (sockets: Vec<ListeningSocket>)
    ensures
        sockets_model(sockets@) == sockets_in(protocol@, table@),
{
    let rows = lines(table);
    let ghost models = texts(rows@);
    let ghost f = |row: Seq<char>| socket_in(protocol@, row);
    let mut sockets: Vec<ListeningSocket> = Vec::new();
    let mut i: usize = 0;
    assert(sockets_model(sockets@) =~= models.take(0).filter_map(f));
    while i < rows.len()
        invariant
            i <= rows@.len(),
            models == texts(rows@),
            f == (|row: Seq<char>| socket_in(protocol@, row)),
            sockets_model(sockets@) == models.take(i as int).filter_map(f),
        decreases rows@.len() - i,
    {
        let ghost done = sockets@;
        proof {
            models.lemma_filter_map_take_succ(f, i as int);
        }
        assert(models[i as int] == rows@[i as int]@);
        match socket_of_row(protocol, rows[i].as_str()) {
            Some(socket) => {
                sockets.push(socket);
                assert(sockets_model(sockets@) =~= sockets_model(done).push(socket@));
            },
            None => {},
        }
        assert(sockets_model(sockets@) =~= models.take(i + 1).filter_map(f));
        i = i + 1;
    }
    assert(models.take(i as int) =~= models);
    sockets
}

} // verus!
