//! What is read from a connection and what is sent back on it.
use vstd::prelude::*;
use vstd::string::*;
use vstd::utf8::*;
use crate::bytes::{be_bytes, lemma_encode_concat};
use crate::error::{ServerErrorView, server_error_text};
use crate::http::{
    HeadError, HeadView, RawHeadView, RequestView, ResponseView, content_length_view,
    decoded_headers, ends_head_at, first_header, head_end, head_ends_at_first_blank_line, head_in,
    head_view, header_view, pair_value, query_view, raw_head, read_view, response_bytes,
    status_text_view, wanted_view,
};
use crate::json_text::json_text;
use crate::logs::{LogStreamView, LogsAnswerView, asked_session, logs_answer_view};
use crate::number::{decimal, decimal_round_trip, unsigned_value};
use crate::runtime::{CoreErrorView, LogView, core_error_text, pushed};
use crate::session::{StateView, session_of_text};
use crate::text::{joined, lowered, split_first, trimmed, utf8_lossy};
use crate::text_laws::{joined_pieces_are_split, split_first_takes_apart};
use crate::tls::{KeyView, certs_view, key_view};
use crate::websocket::{
    accept_view, base64_text, close_frame_view, sha1_digest, text_frame_view, upgrade_view,
};

verus! {

/// The value of a header is that of the first header whose name differs from the
/// wanted one at most in the case of letters. Without such a header there is none.
pub proof fn header_is_found_in_any_case(
    headers: Seq<(Seq<char>, Seq<char>)>,
    name: Seq<char>,
    at: int,
)
    ensures
        0 <= at < headers.len() && lowered(headers[at].0) == lowered(name) && (forall|j: int|
            0 <= j < at ==> lowered((#[trigger] headers[j]).0) != lowered(name)) ==> header_view(
            headers,
            name,
        ) == Some(headers[at].1),
        (forall|j: int|
            0 <= j < headers.len() ==> lowered((#[trigger] headers[j]).0) != lowered(name))
            ==> header_view(headers, name) is None,
    decreases headers.len(),
{
    if headers.len() > 0 {
        let rest = headers.drop_first();
        if lowered(headers[0].0) != lowered(name) {
            assert(forall|j: int| 0 <= j < rest.len() ==> rest[j] == headers[j + 1]);
            header_is_found_in_any_case(rest, name, at - 1);
            if forall|j: int|
                0 <= j < headers.len() ==> lowered((#[trigger] headers[j]).0) != lowered(name) {
                assert forall|j: int| 0 <= j < rest.len() implies lowered(
                    (#[trigger] rest[j]).0,
                ) != lowered(name) by {
                    assert(rest[j] == headers[j + 1]);
                }
            }
            if 0 <= at < headers.len() && lowered(headers[at].0) == lowered(name) && (forall|
                j: int,
            |
                0 <= j < at ==> lowered((#[trigger] headers[j]).0) != lowered(name)) {
                assert(at > 0);
                assert forall|j: int| 0 <= j < at - 1 implies lowered((#[trigger] rest[j]).0)
                    != lowered(name) by {
                    assert(rest[j] == headers[j + 1]);
                }
            }
        } else if 0 <= at < headers.len() && (forall|j: int|
            0 <= j < at ==> lowered((#[trigger] headers[j]).0) != lowered(name)) {
            if at > 0 {
                assert(lowered(headers[0].0) != lowered(name));
            }
        }
    }
}

proof fn lemma_first_header(
    headers: Seq<(Seq<char>, Seq<char>)>,
    name: Seq<char>,
    at: int,
)
    ensures
        0 <= at < headers.len() && headers[at].0 == name && (forall|j: int|
            0 <= j < at ==> (#[trigger] headers[j]).0 != name) ==> first_header(headers, name)
            == Some(headers[at].1),
        (forall|j: int| 0 <= j < headers.len() ==> (#[trigger] headers[j]).0 != name)
            ==> first_header(headers, name) is None,
    decreases headers.len(),
{
    if headers.len() > 0 {
        let rest = headers.drop_first();
        if headers[0].0 != name {
            assert(forall|j: int| 0 <= j < rest.len() ==> rest[j] == headers[j + 1]);
            lemma_first_header(rest, name, at - 1);
            if forall|j: int| 0 <= j < headers.len() ==> (#[trigger] headers[j]).0 != name {
                assert forall|j: int| 0 <= j < rest.len() implies (#[trigger] rest[j]).0
                    != name by {
                    assert(rest[j] == headers[j + 1]);
                }
            }
            if 0 <= at < headers.len() && headers[at].0 == name && (forall|j: int|
                0 <= j < at ==> (#[trigger] headers[j]).0 != name) {
                assert(at > 0);
                assert forall|j: int| 0 <= j < at - 1 implies (#[trigger] rest[j]).0 != name by {
                    assert(rest[j] == headers[j + 1]);
                }
            }
        } else if 0 <= at < headers.len() && (forall|j: int|
            0 <= j < at ==> (#[trigger] headers[j]).0 != name) {
            if at > 0 {
                assert(headers[0].0 != name);
            }
        }
    }
}

/// A head has the method, the path and the headers of its parts, each header name
/// in small letters and each value as text.
pub proof fn head_keeps_its_parts(parts: RawHeadView, at: int)
    ensures
        ({
            let head = head_view(Ok(Some(parts)))->Ok_0;
            &&& head_view(Ok(Some(parts))) is Ok
            &&& parts.method is Some ==> head.method == parts.method->0
            &&& parts.method is None ==> head.method.len() == 0
            &&& parts.path is Some ==> head.path == parts.path->0
            &&& parts.path is None ==> head.path.len() == 0
            &&& head.headers.len() == parts.headers.len()
            &&& 0 <= at < parts.headers.len() ==> head.headers[at].0 == lowered(
                parts.headers[at].0,
            ) && head.headers[at].1 == utf8_lossy(parts.headers[at].1)
        }),
{
}

/// The content length is the number in the first header called `Content-Length`,
/// in any case of letters and with blanks around it; it is zero where that is no
/// number, and where there is no such header.
pub proof fn content_length_is_told_by_its_header(parts: RawHeadView, at: int, n: usize)
    requires
        head_view(Ok(Some(parts))) is Ok,
    ensures
        ({
            let head = head_view(Ok(Some(parts)))->Ok_0;
            let name = "content-length"@;
            let first = 0 <= at < parts.headers.len() && lowered(parts.headers[at].0) == name
                && (forall|j: int|
                0 <= j < at ==> lowered((#[trigger] parts.headers[j]).0) != name);
            let value = trimmed(utf8_lossy(parts.headers[at].1));
            &&& first && value == decimal(n as nat) ==> head.content_length == n
            &&& first && unsigned_value(value, usize::MAX as nat) is None ==> head.content_length
                == 0
            &&& (forall|j: int|
                0 <= j < parts.headers.len() ==> lowered((#[trigger] parts.headers[j]).0) != name)
                ==> head.content_length == 0
        }),
{
    let headers = decoded_headers(parts.headers);
    let name = "content-length"@;
    lemma_first_header(headers, name, at);
    decimal_round_trip(n as nat, usize::MAX as nat);
    if forall|j: int|
        0 <= j < parts.headers.len() ==> lowered((#[trigger] parts.headers[j]).0) != name {
        assert forall|j: int| 0 <= j < headers.len() implies (#[trigger] headers[j]).0 != name by {
            assert(headers[j].0 == lowered(parts.headers[j].0));
        }
    }
    if 0 <= at < parts.headers.len() && lowered(parts.headers[at].0) == name && (forall|j: int|
        0 <= j < at ==> lowered((#[trigger] parts.headers[j]).0) != name) {
        assert forall|j: int| 0 <= j < at implies (#[trigger] headers[j]).0 != name by {
            assert(headers[j].0 == lowered(parts.headers[j].0));
        }
    }
}

/// A head that is not complete, and each fault in a head, is told in words of its
/// own.
pub proof fn faulty_heads_are_told(error: HeadError)
    ensures
        head_view(Ok(None)) == Err::<HeadView, ServerErrorView>(
            ServerErrorView::Tls("request headers are incomplete"@),
        ),
        head_view(Err(error)) == Err::<HeadView, ServerErrorView>(
            ServerErrorView::Tls(
                match error {
                    HeadError::HeaderName => "invalid header name"@,
                    HeadError::HeaderValue => "invalid header value"@,
                    HeadError::NewLine => "invalid new line"@,
                    HeadError::Status => "invalid response status"@,
                    HeadError::Token => "invalid token"@,
                    HeadError::TooManyHeaders => "too many headers"@,
                    HeadError::Version => "invalid HTTP version"@,
                },
            ),
        ),
{
}

/// Carriage return and line feed stand twice in a row at a position.
pub open spec fn blank_line_at(bytes: Seq<u8>, at: int) -> bool {
    &&& 0 <= at
    &&& at + 4 <= bytes.len()
    &&& bytes.subrange(at, at + 4) == seq![13u8, 10u8, 13u8, 10u8]
}

proof fn lemma_blank_line(bytes: Seq<u8>, at: int)
    ensures
        blank_line_at(bytes, at) <==> ends_head_at(bytes, at),
{
    if 0 <= at && at + 4 <= bytes.len() {
        let part = bytes.subrange(at, at + 4);
        if blank_line_at(bytes, at) {
            assert(part[0] == 13 && part[1] == 10 && part[2] == 13 && part[3] == 10);
        }
        if ends_head_at(bytes, at) {
            assert(part =~= seq![13u8, 10u8, 13u8, 10u8]);
        }
    }
}

/// A request is read once its head is complete, that is behind the first blank
/// line, and as many bytes follow as its content length says: those are its body.
/// A connection that is closed before has sent what there is of the body. At most
/// 64 headers are read.
pub proof fn request_is_head_and_body(bytes: Seq<u8>, at: int, closed: bool)
    requires
        blank_line_at(bytes, at),
        forall|j: int| 0 <= j < at ==> !(#[trigger] blank_line_at(bytes, j)),
    ensures
        match head_view(raw_head(bytes.take(at + 4), 64)) {
            Ok(head) => {
                let length = head.content_length as int;
                let enough = bytes.len() >= at + 4 + length;
                match read_view(bytes, closed) {
                    Some(Ok(request)) => {
                        &&& enough || closed
                        &&& request.method == head.method
                        &&& request.path == head.path
                        &&& request.headers == head.headers
                        &&& enough ==> request.body == bytes.subrange(at + 4, at + 4 + length)
                        &&& !enough ==> request.body == bytes.skip(at + 4)
                    },
                    Some(Err(_)) => false,
                    None => !enough && !closed,
                }
            },
            Err(error) => read_view(bytes, closed) == Some(
                Err::<RequestView, ServerErrorView>(error),
            ),
        },
        ({
            let head = head_view(raw_head(bytes.take(at + 4), 64));
            head is Ok && at + 4 + head->Ok_0.content_length > bytes.len() ==> wanted_view(bytes)
                == at + 4 + head->Ok_0.content_length - bytes.len()
        }),
{
    head_ends_at_first_blank_line(bytes);
    lemma_blank_line(bytes, at);
    match head_end(bytes) {
        Some(end) => {
            lemma_blank_line(bytes, end);
            if end < at {
                assert(!blank_line_at(bytes, end));
            }
            assert(end == at);
        },
        None => {},
    }
    match head_view(raw_head(bytes.take(at + 4), 64)) {
        Ok(head) => {
            let length = head.content_length as int;
            let after = bytes.skip(at + 4);
            assert(head_in(bytes) == Ok::<HeadView, ServerErrorView>(head));
            if after.len() >= length {
                assert(after.take(length) =~= bytes.subrange(at + 4, at + 4 + length));
                assert(after.len() == length ==> after =~= bytes.subrange(
                    at + 4,
                    at + 4 + length,
                ));
            }
        },
        Err(_) => {},
    }
}

/// Bytes without a blank line are no request yet. A head of more than 65536 bytes
/// is refused, and so is a connection that is closed before its head is complete.
pub proof fn head_without_end_is_no_request(bytes: Seq<u8>, closed: bool)
    requires
        forall|j: int| !(#[trigger] blank_line_at(bytes, j)),
    ensures
        match read_view(bytes, closed) {
            Some(Ok(_)) => false,
            Some(Err(error)) => {
                &&& closed || bytes.len() > 65536
                &&& closed ==> error == ServerErrorView::Tls("connection closed before request"@)
                &&& !closed ==> error == ServerErrorView::Tls("request headers too large"@)
            },
            None => !closed && bytes.len() <= 65536,
        },
        wanted_view(bytes) == 1024,
{
    head_ends_at_first_blank_line(bytes);
    match head_end(bytes) {
        Some(end) => {
            lemma_blank_line(bytes, end);
            assert(!blank_line_at(bytes, end));
        },
        None => {},
    }
}

proof fn lemma_pairs(pairs: Seq<Seq<char>>, name: Seq<char>, at: int, value: Seq<char>)
    requires
        !name.contains('='),
        0 <= at < pairs.len(),
        pairs[at] == name + seq!['='] + value,
        forall|j: int| 0 <= j < at ==> !(name + seq!['=']).is_prefix_of(#[trigger] pairs[j]),
    ensures
        pair_value(pairs, name) == Some(value),
    decreases at,
{
    split_first_takes_apart(pairs[0], '=');
    if at == 0 {
        assert(split_first(pairs[0], '=') == Some((name, value)));
    } else {
        let rest = pairs.drop_first();
        match split_first(pairs[0], '=') {
            Some((key, other)) => {
                if key == name {
                    assert(pairs[0].take(name.len() as int + 1) =~= name + seq!['=']);
                    assert((name + seq!['=']).is_prefix_of(pairs[0]));
                }
            },
            None => {},
        }
        assert(rest[at - 1] == pairs[at]);
        assert forall|j: int| 0 <= j < at - 1 implies !(name + seq!['=']).is_prefix_of(
            #[trigger] rest[j],
        ) by {
            assert(rest[j] == pairs[j + 1]);
        }
        lemma_pairs(rest, name, at - 1, value);
    }
}

proof fn lemma_no_pairs(pairs: Seq<Seq<char>>, name: Seq<char>)
    requires
        !name.contains('='),
        forall|j: int|
            0 <= j < pairs.len() ==> !(name + seq!['=']).is_prefix_of(#[trigger] pairs[j]),
    ensures
        pair_value(pairs, name) is None,
    decreases pairs.len(),
{
    if pairs.len() > 0 {
        let rest = pairs.drop_first();
        split_first_takes_apart(pairs[0], '=');
        match split_first(pairs[0], '=') {
            Some((key, other)) => {
                if key == name {
                    assert(pairs[0].take(name.len() as int + 1) =~= name + seq!['=']);
                    assert((name + seq!['=']).is_prefix_of(pairs[0]));
                }
            },
            None => {},
        }
        assert forall|j: int| 0 <= j < rest.len() implies !(name + seq!['=']).is_prefix_of(
            #[trigger] rest[j],
        ) by {
            assert(rest[j] == pairs[j + 1]);
        }
        lemma_no_pairs(rest, name);
    }
}

/// A query parameter is found at any place among those behind the first question
/// mark of a path; of two with the same name the first counts.
pub proof fn query_param_is_found_at_any_place(
    base: Seq<char>,
    pairs: Seq<Seq<char>>,
    name: Seq<char>,
    value: Seq<char>,
    at: int,
)
    requires
        !base.contains('?'),
        !name.contains('='),
        forall|i: int| 0 <= i < pairs.len() ==> !(#[trigger] pairs[i]).contains('&'),
        0 <= at < pairs.len(),
        pairs[at] == name + seq!['='] + value,
        forall|j: int| 0 <= j < at ==> !(name + seq!['=']).is_prefix_of(#[trigger] pairs[j]),
    ensures
        query_view(base + seq!['?'] + joined(pairs, seq!['&']), name) == Some(value),
{
    let path = base + seq!['?'] + joined(pairs, seq!['&']);
    split_first_takes_apart(path, '?');
    assert(split_first(path, '?') == Some((base, joined(pairs, seq!['&']))));
    joined_pieces_are_split(pairs, '&');
    lemma_pairs(pairs, name, at, value);
}

/// A path without a question mark has no query parameters, and a parameter that
/// is not among those behind it is not found.
pub proof fn missing_query_param_is_not_found(
    base: Seq<char>,
    pairs: Seq<Seq<char>>,
    name: Seq<char>,
)
    requires
        !base.contains('?'),
        !name.contains('='),
        pairs.len() > 0,
        forall|i: int| 0 <= i < pairs.len() ==> !(#[trigger] pairs[i]).contains('&'),
        forall|j: int|
            0 <= j < pairs.len() ==> !(name + seq!['=']).is_prefix_of(#[trigger] pairs[j]),
    ensures
        query_view(base, name) is None,
        query_view(base + seq!['?'] + joined(pairs, seq!['&']), name) is None,
{
    split_first_takes_apart(base, '?');
    match split_first(base, '?') {
        Some((head, tail)) => {
            assert((head + seq!['?'] + tail)[head.len() as int] == '?');
        },
        None => {},
    }
    let path = base + seq!['?'] + joined(pairs, seq!['&']);
    split_first_takes_apart(path, '?');
    assert(split_first(path, '?') == Some((base, joined(pairs, seq!['&']))));
    joined_pieces_are_split(pairs, '&');
    lemma_no_pairs(pairs, name);
}

/// A response is a status line, three header lines, a blank line and the JSON
/// text of its body. The header tells the number of bytes of that text.
pub proof fn response_tells_status_and_length(response: ResponseView)
    ensures
        ({
            let body = json_text(response.body);
            let status = "HTTP/1.1 "@ + decimal(response.status as nat) + " "@ + status_text_view(
                response.status,
            );
            let length = "Content-Length: "@ + decimal(encode_utf8(body).len());
            let end = seq!['\r', '\n'];
            response_bytes(response) == encode_utf8(
                status + end + "Content-Type: application/json"@ + end + length + end
                    + "Connection: close"@ + end + end + body,
            )
        }),
{
    reveal_strlit("HTTP/1.1 ");
    reveal_strlit(" ");
    reveal_strlit("Content-Length: ");
    reveal_strlit("Content-Type: application/json");
    reveal_strlit("Connection: close");
    reveal_strlit("\r\nContent-Type: application/json\r\nContent-Length: ");
    reveal_strlit("\r\nConnection: close\r\n\r\n");
    let body = json_text(response.body);
    let n = encode_utf8(body).len();
    let status = "HTTP/1.1 "@ + decimal(response.status as nat) + " "@ + status_text_view(
        response.status,
    );
    let length = "Content-Length: "@ + decimal(n);
    let end = seq!['\r', '\n'];
    let head = status + end + "Content-Type: application/json"@ + end + length + end
        + "Connection: close"@ + end + end;
    assert(end + "Content-Type: application/json"@ + end + "Content-Length: "@
        =~= "\r\nContent-Type: application/json\r\nContent-Length: "@);
    assert(end + "Connection: close"@ + end + end =~= "\r\nConnection: close\r\n\r\n"@);
    assert(head =~= crate::http::response_head(response.status, n));
    assert(head + body =~= status + end + "Content-Type: application/json"@ + end + length + end
        + "Connection: close"@ + end + end + body);
}

/// Each status of a refusal has the words that belong to it, and any other status
/// is told as success.
pub proof fn statuses_have_their_words(status: u16)
    ensures
        status == 403 ==> status_text_view(status) == "Forbidden"@,
        status == 404 ==> status_text_view(status) == "Not Found"@,
        status == 405 ==> status_text_view(status) == "Method Not Allowed"@,
        status == 422 ==> status_text_view(status) == "Unprocessable Entity"@,
        status == 500 ==> status_text_view(status) == "Internal Server Error"@,
        status == 503 ==> status_text_view(status) == "Service Unavailable"@,
        status != 403 && status != 404 && status != 405 && status != 422 && status != 500 && status
            != 503 ==> status_text_view(status) == "OK"@,
{
}

/// A handshake is answered with the digest of the key and the fixed text of the
/// protocol, in base64, in the last header of the response.
pub proof fn handshake_is_answered_with_the_digest(key: Seq<char>)
    ensures
        accept_view(key) == base64_text(
            sha1_digest(encode_utf8(key + "258EAFA5-E914-47DA-95CA-C5AB0DC85B11"@)),
        ),
        ({
            let end = seq!['\r', '\n'];
            upgrade_view(key) == "HTTP/1.1 101 Switching Protocols"@ + end + "Upgrade: websocket"@
                + end + "Connection: Upgrade"@ + end + "Sec-WebSocket-Accept: "@ + accept_view(key)
                + end + end
        }),
{
    lemma_encode_concat(key, "258EAFA5-E914-47DA-95CA-C5AB0DC85B11"@);
    reveal_strlit("HTTP/1.1 101 Switching Protocols");
    reveal_strlit("Upgrade: websocket");
    reveal_strlit("Connection: Upgrade");
    reveal_strlit("Sec-WebSocket-Accept: ");
    reveal_strlit("\r\n\r\n");
    reveal_strlit(
        "HTTP/1.1 101 Switching Protocols\r\nUpgrade: websocket\r\nConnection: Upgrade\r\nSec-WebSocket-Accept: ",
    );
    let end = seq!['\r', '\n'];
    assert("HTTP/1.1 101 Switching Protocols"@ + end + "Upgrade: websocket"@ + end
        + "Connection: Upgrade"@ + end + "Sec-WebSocket-Accept: "@
        =~= "HTTP/1.1 101 Switching Protocols\r\nUpgrade: websocket\r\nConnection: Upgrade\r\nSec-WebSocket-Accept: "@);
    assert(end + end =~= "\r\n\r\n"@);
    assert(upgrade_view(key) =~= "HTTP/1.1 101 Switching Protocols"@ + end + "Upgrade: websocket"@
        + end + "Connection: Upgrade"@ + end + "Sec-WebSocket-Accept: "@ + accept_view(key) + end
        + end);
}

proof fn lemma_two_bytes(n: nat)
    requires
        n < 0x10000,
    ensures
        be_bytes(n, 2).len() == 2,
        be_bytes(n, 2)[0] as int * 256 + be_bytes(n, 2)[1] as int == n,
{
    reveal_with_fuel(be_bytes, 3);
}

proof fn lemma_eight_bytes(n: nat)
    requires
        n < 0x1_0000_0000_0000_0000,
    ensures
        be_bytes(n, 8).len() == 8,
        ({
            let b = be_bytes(n, 8);
            n == b[0] as int * 0x100_0000_0000_0000 + b[1] as int * 0x1_0000_0000_0000 + b[2] as int
                * 0x100_0000_0000 + b[3] as int * 0x1_0000_0000 + b[4] as int * 0x100_0000 + b[5] as int
                * 0x1_0000 + b[6] as int * 0x100 + b[7] as int
        }),
{
    reveal_with_fuel(be_bytes, 9);
}

/// A text frame has the first byte 0x81. A payload of less than 126 bytes has its
/// length in the next byte, one of less than 65536 in the two bytes behind 126, and
/// a longer one in the eight bytes behind 127, the highest byte first. The payload
/// follows, unmasked.
pub proof fn text_frame_tells_length_and_payload(payload: Seq<u8>)
    requires
        payload.len() <= u64::MAX,
    ensures
        ({
            let frame = text_frame_view(payload);
            let n = payload.len() as int;
            &&& frame[0] == 0x81
            &&& n < 126 ==> frame[1] == n && frame.skip(2) == payload
            &&& 126 <= n < 65536 ==> {
                &&& frame[1] == 126
                &&& frame[2] as int * 256 + frame[3] as int == n
                &&& frame.skip(4) == payload
            }
            &&& 65536 <= n ==> {
                &&& frame[1] == 127
                &&& n == frame[2] as int * 0x100_0000_0000_0000 + frame[3] as int
                    * 0x1_0000_0000_0000 + frame[4] as int * 0x100_0000_0000 + frame[5] as int
                    * 0x1_0000_0000 + frame[6] as int * 0x100_0000 + frame[7] as int * 0x1_0000
                    + frame[8] as int * 0x100 + frame[9] as int
                &&& frame.skip(10) == payload
            }
        }),
{
    let frame = text_frame_view(payload);
    let n = payload.len();
    if n < 126 {
        assert(frame.skip(2) =~= payload);
    } else if n < 65536 {
        lemma_two_bytes(n);
        assert(frame[2] == be_bytes(n, 2)[0]);
        assert(frame[3] == be_bytes(n, 2)[1]);
        assert(frame.skip(4) =~= payload);
    } else {
        lemma_eight_bytes(n);
        let b = be_bytes(n, 8);
        assert(frame[2] == b[0] && frame[3] == b[1] && frame[4] == b[2] && frame[5] == b[3]);
        assert(frame[6] == b[4] && frame[7] == b[5] && frame[8] == b[6] && frame[9] == b[7]);
        assert(frame.skip(10) =~= payload);
    }
}

/// A frame closes a connection with a code and a reason: the first byte is 0x88,
/// the next one the length, then come the code, its higher byte first, and the
/// reason.
pub open spec fn closes(frame: Seq<u8>, code: u16, reason: Seq<char>) -> bool {
    &&& frame.len() == 4 + encode_utf8(reason).len()
    &&& frame[0] == 0x88
    &&& frame[1] == 2 + encode_utf8(reason).len()
    &&& frame[2] as int * 256 + frame[3] as int == code
    &&& frame.skip(4) == encode_utf8(reason)
}

/// A close frame with a reason of at most 123 bytes has the layout of a control
/// frame.
pub proof fn close_frame_tells_code_and_reason(code: u16, reason: Seq<char>)
    requires
        encode_utf8(reason).len() <= 123,
    ensures
        closes(close_frame_view(code, reason), code, reason),
{
    let frame = close_frame_view(code, reason);
    lemma_two_bytes(code as nat);
    assert(frame[2] == be_bytes(code as nat, 2)[0]);
    assert(frame[3] == be_bytes(code as nat, 2)[1]);
    assert(frame.skip(4) =~= encode_utf8(reason));
}

/// A request for the log without a readable session id is answered with a close
/// frame of code 4400; one with another session id than that of the session with a
/// response of status 403; one without the key of a WebSocket handshake fails. Any
/// other is accepted: the handshake is answered, and a stream of that session
/// begins at the first line, at the interval that was asked for.
pub proof fn log_requests_are_answered(request: RequestView, session: Option<u128>, state: StateView)
    ensures
        ({
            let answer = logs_answer_view(request, session, state);
            let key = header_view(request.headers, "Sec-WebSocket-Key"@);
            &&& session is None ==> answer is Refuse && closes(
                answer->Refuse_0,
                4400,
                "session_id should be a valid UUID."@,
            )
            &&& session is Some && state.session_id != session ==> answer is Refuse && exists|
                refused: ResponseView,
            |
                {
                    &&& answer->Refuse_0 == #[trigger] response_bytes(refused)
                    &&& refused.status == 403
                    &&& refused.body.str_at("detail"@) == Some("Session ID mismatch."@)
                }
            &&& session is Some && state.session_id == session && key is None ==> answer
                == LogsAnswerView::Fail(ServerErrorView::Tls("Missing Sec-WebSocket-Key"@))
            &&& session is Some && state.session_id == session && key is Some ==> {
                &&& answer is Accept
                &&& answer->Accept_0 == encode_utf8(upgrade_view(key->0))
                &&& answer->Accept_1.session_id == session->0
                &&& answer->Accept_1.sent == 0
                &&& answer->Accept_2 == query_view(request.path, "interval"@)
            }
        }),
{
    reveal_strlit("session_id should be a valid UUID.");
    lemma_ascii_len("session_id should be a valid UUID."@);
    close_frame_tells_code_and_reason(4400, "session_id should be a valid UUID."@);
    reveal_strlit("Sec-WebSocket-Key");
    reveal_strlit("sec-websocket-key");
    assert(lowered("Sec-WebSocket-Key"@) =~= "sec-websocket-key"@);
    assert(lowered("sec-websocket-key"@) =~= "sec-websocket-key"@);
    lemma_header_same(request.headers, "Sec-WebSocket-Key"@, "sec-websocket-key"@);
    assert(response_bytes(crate::session::mismatch_view()) == response_bytes(
        crate::session::refusal_view(403, "Session ID mismatch."@),
    ));
}

proof fn lemma_ascii_len(s: Seq<char>)
    requires
        forall|i: int| 0 <= i < s.len() ==> '\0' <= #[trigger] s[i] <= '\u{7f}',
    ensures
        encode_utf8(s).len() == s.len(),
{
    assert(is_ascii_chars(s));
    is_ascii_chars_encode_utf8(s);
}

proof fn lemma_header_same(
    headers: Seq<(Seq<char>, Seq<char>)>,
    one: Seq<char>,
    other: Seq<char>,
)
    requires
        lowered(one) == lowered(other),
    ensures
        header_view(headers, one) == header_view(headers, other),
    decreases headers.len(),
{
    if headers.len() > 0 {
        lemma_header_same(headers.drop_first(), one, other);
    }
}

/// The session that a request for the log names is what the text of its query
/// parameter `session_id` is read as.
pub proof fn log_session_is_in_the_query(
    base: Seq<char>,
    pairs: Seq<Seq<char>>,
    text: Seq<char>,
    at: int,
)
    requires
        !base.contains('?'),
        forall|i: int| 0 <= i < pairs.len() ==> !(#[trigger] pairs[i]).contains('&'),
        0 <= at < pairs.len(),
        pairs[at] == "session_id="@ + text,
        forall|j: int| 0 <= j < at ==> !"session_id="@.is_prefix_of(#[trigger] pairs[j]),
    ensures
        asked_session(base + seq!['?'] + joined(pairs, seq!['&'])) == session_of_text(text),
        asked_session(base) is None,
{
    reveal_strlit("session_id=");
    reveal_strlit("session_id");
    assert("session_id="@ =~= "session_id"@ + seq!['=']);
    query_param_is_found_at_any_place(base, pairs, "session_id"@, text, at);
    split_first_takes_apart(base, '?');
    match split_first(base, '?') {
        Some((head, tail)) => {
            assert((head + seq!['?'] + tail)[head.len() as int] == '?');
        },
        None => {},
    }
}

/// A log stream ends with its session, by a close frame of code 1000. While the
/// session lasts it sends the lines that were added since its last turn and that
/// the log still holds, in one text frame with a line feed between two lines, and
/// then counts them as sent; without such lines it waits.
pub proof fn stream_sends_what_was_added(stream: LogStreamView, state: StateView)
    ensures
        ({
            let log = state.core.logs;
            let total = log.dropped + log.lines.len();
            let added = total - stream.sent;
            let (after, step) = stream.turn(state);
            let kept = log.lines.len() as int;
            &&& after.session_id == stream.session_id
            &&& state.session_id != Some(stream.session_id) ==> after == stream && step is Close
                && closes(step->Close_0, 1000, "Session ended."@)
            &&& state.session_id == Some(stream.session_id) && added <= 0 ==> after == stream
                && step is Wait
            &&& state.session_id == Some(stream.session_id) && added > 0 ==> {
                &&& after.sent == total
                &&& step is Send
                &&& step->Send_0 == text_frame_view(
                    encode_utf8(
                        joined(
                            log.lines.skip(
                                if added < kept {
                                    kept - added
                                } else {
                                    0
                                },
                            ),
                            seq!['\n'],
                        ),
                    ),
                )
            }
        }),
{
    reveal_strlit("Session ended.");
    lemma_ascii_len("Session ended."@);
    close_frame_tells_code_and_reason(1000, "Session ended."@);
    reveal_strlit("\n");
    assert("\n"@ =~= seq!['\n']);
    let log = state.core.logs;
    assert(log.lines.skip(0) =~= log.lines);
}

/// A log keeps its last 100 lines: a line comes last, and the oldest of 100 lines
/// leaves for it and is counted.
pub proof fn log_holds_a_hundred_lines(log: LogView, line: Seq<char>)
    requires
        log.lines.len() <= 100,
        log.dropped < 0xffff_ffff_ffff_0000,
    ensures
        ({
            let after = pushed(log, line);
            &&& after.lines.len() <= 100
            &&& after.lines.last() == line
            &&& log.lines.len() < 100 ==> after.lines.drop_last() == log.lines && after.dropped
                == log.dropped
            &&& log.lines.len() == 100 ==> after.lines.drop_last() == log.lines.skip(1)
                && after.dropped == log.dropped + 1
        }),
{
    let after = pushed(log, line);
    if log.lines.len() < 100 {
        assert(after.lines.drop_last() =~= log.lines);
    } else {
        assert(after.lines.drop_last() =~= log.lines.skip(1));
    }
}

/// An error is told by the message that it came with, or by what the core says.
pub proof fn errors_keep_their_message(message: Seq<char>, error: CoreErrorView)
    ensures
        server_error_text(ServerErrorView::Io(message)) == message,
        server_error_text(ServerErrorView::Tls(message)) == message,
        server_error_text(ServerErrorView::Core(error)) == core_error_text(error),
{
}

/// Certificates and a key are taken as they are read. What cannot be read is an
/// error with its message, and a file without a key is an error that names the
/// file.
pub proof fn keys_and_certificates_are_taken_as_read(
    certs: Seq<Seq<u8>>,
    key: KeyView,
    message: Seq<char>,
    path: Seq<char>,
)
    ensures
        certs_view(Ok(certs)) == Ok::<Seq<Seq<u8>>, ServerErrorView>(certs),
        certs_view(Err(message)) == Err::<Seq<Seq<u8>>, ServerErrorView>(
            ServerErrorView::Io(message),
        ),
        key_view(Ok(Some(key)), path) == Ok::<KeyView, ServerErrorView>(key),
        key_view(Err(message), path) == Err::<KeyView, ServerErrorView>(
            ServerErrorView::Io(message),
        ),
        key_view(Ok(None), path) is Err,
        server_error_text(key_view(Ok(None), path)->Err_0).skip(24) == path,
        server_error_text(key_view(Ok(None), path)->Err_0).take(24) == "No private key found in "@,
        key_view(Ok(None), path)->Err_0 is Tls,
{
    reveal_strlit("No private key found in ");
    let text = server_error_text(key_view(Ok(None), path)->Err_0);
    assert(text.skip(24) =~= path);
    assert(text.take(24) =~= "No private key found in "@);
}

/// The content length is the number in the first header of exactly the name
/// `content-length`, with blanks around it, and zero otherwise.
pub proof fn content_length_is_a_number_or_zero(
    headers: Seq<(Seq<char>, Seq<char>)>,
    at: int,
    n: usize,
)
    ensures
        ({
            let name = "content-length"@;
            let first = 0 <= at < headers.len() && headers[at].0 == name && (forall|j: int|
                0 <= j < at ==> (#[trigger] headers[j]).0 != name);
            let value = trimmed(headers[at].1);
            &&& first && value == decimal(n as nat) ==> content_length_view(headers) == n
            &&& first && unsigned_value(value, usize::MAX as nat) is None ==> content_length_view(
                headers,
            ) == 0
            &&& (forall|j: int| 0 <= j < headers.len() ==> (#[trigger] headers[j]).0 != name)
                ==> content_length_view(headers) == 0
        }),
{
    lemma_first_header(headers, "content-length"@, at);
    decimal_round_trip(n as nat, usize::MAX as nat);
}

} // verus!
