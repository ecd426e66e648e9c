//! The WebSocket side of the log stream: handshake and frames.
use vstd::prelude::*;
use vstd::string::*;
use vstd::utf8::*;
use crate::bytes::{be_bytes, be_round_trip, be_value, extend, push_be16, push_be64, utf8_bytes};

verus! {

/// The SHA-1 digest of bytes.
pub uninterp spec fn sha1_digest(bytes: Seq<u8>) -> Seq<u8>;

/// `sha1::Sha1::digest` computes the SHA-1 digest of bytes, which has 20 bytes.
#[verifier::external_body]
fn sha1(bytes: &[u8]) -> (digest: Vec<u8>)
    ensures
        digest@ == sha1_digest(bytes@),
        digest@.len() == 20,
{
    <sha1::Sha1 as sha1::Digest>::digest(bytes).to_vec()
}

/// The character of the standard base64 alphabet for a number below 64.
pub open spec fn base64_char(n: int) -> char {
    if n < 26 {
        (65 + n) as char
    } else if n < 52 {
        (97 + n - 26) as char
    } else if n < 62 {
        (48 + n - 52) as char
    } else if n == 62 {
        '+'
    } else {
        '/'
    }
}

/// Bytes in base64: four characters for each three bytes, padded with `=`.
pub open spec fn base64_text(bytes: Seq<u8>) -> Seq<char>
    decreases bytes.len(),
{
    if bytes.len() == 0 {
        Seq::empty()
    } else if bytes.len() == 1 {
        seq![
            base64_char(bytes[0] as int / 4),
            base64_char(bytes[0] as int % 4 * 16),
            '=',
            '=',
        ]
    } else if bytes.len() == 2 {
        seq![
            base64_char(bytes[0] as int / 4),
            base64_char(bytes[0] as int % 4 * 16 + bytes[1] as int / 16),
            base64_char(bytes[1] as int % 16 * 4),
            '=',
        ]
    } else {
        seq![
            base64_char(bytes[0] as int / 4),
            base64_char(bytes[0] as int % 4 * 16 + bytes[1] as int / 16),
            base64_char(bytes[1] as int % 16 * 4 + bytes[2] as int / 64),
            base64_char(bytes[2] as int % 64),
        ] + base64_text(bytes.skip(3))
    }
}

/// `base64::Engine::encode` with the `STANDARD` engine writes bytes in base64,
/// in the standard alphabet and padded.
#[verifier::external_body]
fn base64_encode(bytes: &[u8]) -> (text: String)
    ensures
        text@ == base64_text(bytes@),
{
    base64::Engine::encode(&base64::engine::general_purpose::STANDARD, bytes)
}

/// The answer to the key of a WebSocket handshake.
pub open spec fn accept_view(key: Seq<char>) -> Seq<char> {
    base64_text(
        sha1_digest(encode_utf8(key) + encode_utf8("258EAFA5-E914-47DA-95CA-C5AB0DC85B11"@)),
    )
}

/// The answer to the key of a WebSocket handshake.
pub fn websocket_accept(key: &str) -> (accept: String)
    ensures
        accept@ == accept_view(key@),
{
    let mut bytes = utf8_bytes(key);
    extend(&mut bytes, "258EAFA5-E914-47DA-95CA-C5AB0DC85B11".as_bytes());
    base64_encode(sha1(bytes.as_slice()).as_slice())
}

/// The response that accepts a WebSocket handshake.
pub open spec fn upgrade_view(key: Seq<char>) -> Seq<char> {
    "HTTP/1.1 101 Switching Protocols\r\nUpgrade: websocket\r\nConnection: Upgrade\r\nSec-WebSocket-Accept: "@
        + accept_view(key) + "\r\n\r\n"@
}

/// The response that accepts a WebSocket handshake.
pub fn upgrade_response(key: &str) -> (bytes: Vec<u8>)
    ensures
        bytes@ == encode_utf8(upgrade_view(key@)),
{
    let mut text =
        "HTTP/1.1 101 Switching Protocols\r\nUpgrade: websocket\r\nConnection: Upgrade\r\nSec-WebSocket-Accept: ".to_owned();
    text.append(websocket_accept(key).as_str());
    text.append("\r\n\r\n");
    utf8_bytes(text.as_str())
}

/// The length of a payload at the head of a frame: in one byte, in three or in
/// nine.
pub open spec fn length_bytes(n: nat) -> Seq<u8> {
    if n < 126 {
        seq![n as u8]
    } else if n <= u16::MAX {
        seq![126u8] + be_bytes(n, 2)
    } else {
        seq![127u8] + be_bytes(n, 8)
    }
}

/// An unmasked text frame.
pub open spec fn text_frame_view(payload: Seq<u8>) -> Seq<u8> {
    seq![0x81u8] + length_bytes(payload.len()) + payload
}

/// An unmasked text frame.
pub fn text_frame(payload: &str) -> (frame: Vec<u8>)
    ensures
        frame@ == text_frame_view(encode_utf8(payload@)),
{
    let bytes = payload.as_bytes();
    let n: usize = bytes.len();
    let mut frame: Vec<u8> = Vec::new();
    frame.push(0x81);
    if n < 126 {
        frame.push(n as u8);
    } else if n <= 65535 {
        frame.push(126);
        push_be16(&mut frame, n as u16);
    } else {
        frame.push(127);
        push_be64(&mut frame, n as u64);
    }
    assert(frame@ =~= seq![0x81u8] + length_bytes(n as nat));
    extend(&mut frame, bytes);
    frame
}

/// The payload of a close frame: the code, then the reason.
pub open spec fn close_payload(code: u16, reason: Seq<char>) -> Seq<u8> {
    be_bytes(code as nat, 2) + encode_utf8(reason)
}

/// An unmasked close frame. Its length byte holds the length modulo 256.
pub open spec fn close_frame_view(code: u16, reason: Seq<char>) -> Seq<u8> {
    let payload = close_payload(code, reason);
    seq![0x88u8, (payload.len() % 256) as u8] + payload
}

/// An unmasked close frame.
pub fn close_frame(code: u16, reason: &str) -> (frame: Vec<u8>)
    ensures
        frame@ == close_frame_view(code, reason@),
{
    let mut payload: Vec<u8> = Vec::new();
    push_be16(&mut payload, code);
    extend(&mut payload, reason.as_bytes());
    assert(payload@ =~= close_payload(code, reason@));
    let mut frame: Vec<u8> = Vec::new();
    frame.push(0x88);
    frame.push((payload.len() % 256) as u8);
    extend(&mut frame, payload.as_slice());
    assert(frame@ =~= close_frame_view(code, reason@));
    frame
}

/// The payload length that an unmasked frame tells.
pub open spec fn frame_length(frame: Seq<u8>) -> nat {
    if frame[1] < 126 {
        frame[1] as nat
    } else if frame[1] == 126 {
        be_value(frame.subrange(2, 4))
    } else {
        be_value(frame.subrange(2, 10))
    }
}

/// The position at which the payload of an unmasked frame begins.
pub open spec fn payload_start(frame: Seq<u8>) -> int {
    if frame[1] < 126 {
        2
    } else if frame[1] == 126 {
        4
    } else {
        10
    }
}

/// A text frame tells the length of its payload, and the payload is what remains
/// of the frame.
pub proof fn text_frame_carries_its_payload(payload: Seq<u8>)
    requires
        payload.len() <= u64::MAX,
    ensures
        ({
            let frame = text_frame_view(payload);
            &&& frame[0] == 0x81
            &&& frame_length(frame) == payload.len()
            &&& frame.skip(payload_start(frame)) == payload
        }),
{
    let frame = text_frame_view(payload);
    let n = payload.len();
    reveal(vstd::arithmetic::power::pow);
    if n < 126 {
        assert(frame[1] == n);
    } else if n <= u16::MAX {
        assert(vstd::arithmetic::power::pow(256, 2) == 0x10000) by {
            reveal_with_fuel(vstd::arithmetic::power::pow, 3);
        }
        be_round_trip(n, 2);
        assert(frame[1] == 126);
        assert(frame.subrange(2, 4) =~= be_bytes(n, 2));
    } else {
        assert(vstd::arithmetic::power::pow(256, 8) == 0x1_0000_0000_0000_0000) by {
            reveal_with_fuel(vstd::arithmetic::power::pow, 9);
        }
        be_round_trip(n, 8);
        assert(frame[1] == 127);
        assert(frame.subrange(2, 10) =~= be_bytes(n, 8));
    }
    assert(frame.skip(payload_start(frame)) =~= payload);
}

/// A close frame whose reason is short enough for a control frame tells the
/// length of its payload: the code, then the reason.
pub proof fn close_frame_carries_code_and_reason(code: u16, reason: Seq<char>)
    requires
        encode_utf8(reason).len() <= 123,
    ensures
        ({
            let frame = close_frame_view(code, reason);
            &&& frame[0] == 0x88
            &&& frame_length(frame) == close_payload(code, reason).len()
            &&& be_value(frame.subrange(2, 4)) == code
            &&& frame.skip(4) == encode_utf8(reason)
        }),
{
    let frame = close_frame_view(code, reason);
    assert(vstd::arithmetic::power::pow(256, 2) == 0x10000) by {
        reveal_with_fuel(vstd::arithmetic::power::pow, 3);
    }
    be_round_trip(code as nat, 2);
    assert(frame.subrange(2, 4) =~= be_bytes(code as nat, 2));
    assert(frame.skip(4) =~= encode_utf8(reason));
}

} // verus!
