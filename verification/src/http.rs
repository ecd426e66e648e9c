//! HTTP requests and responses.
use vstd::prelude::*;
use vstd::string::*;
use vstd::utf8::*;
use crate::bytes::{extend, lemma_encode_concat, range, utf8_bytes};
use crate::error::{ServerError, ServerErrorView};
use crate::json::{Json, JsonView, is_plain};
use crate::json_text::{READ_DEPTH, json_text, parsed_json};
use crate::number::{
    decimal, decimal_text, is_digit, lemma_decimal_digits, parse_unsigned, unsigned_value,
};
use crate::text::{
    lossy_text, lowered, split, split_all, split_first, split_once, text_eq, texts, to_lower, trim,
    trimmed, utf8_lossy,
};

verus! {

/// How many bytes a request may send before its head ends.
pub const HEAD_LIMIT: usize = 65536;

/// How many headers a request may have.
pub const MAX_HEADERS: usize = 64;

/// A request.
#[derive(Debug)]
pub struct Request {
    pub method: String,
    pub path: String,
    pub headers: Vec<(String, String)>,
    pub body: Vec<u8>,
}

/// What a request says.
#[verifier::ext_equal]
pub struct RequestView {
    pub method: Seq<char>,
    pub path: Seq<char>,
    pub headers: Seq<(Seq<char>, Seq<char>)>,
    pub body: Seq<u8>,
}

/// The views of a list of headers.
pub open spec fn headers_model(headers: Seq<(String, String)>) -> Seq<(Seq<char>, Seq<char>)> {
    headers.map_values(|header: (String, String)| (header.0@, header.1@))
}

impl View for Request {
    type V = RequestView;

    open spec fn view(&self) -> RequestView {
        RequestView {
            method: self.method@,
            path: self.path@,
            headers: headers_model(self.headers@),
            body: self.body@,
        }
    }
}

/// A request up to its body.
#[derive(Debug)]
pub struct RequestHead {
    pub method: String,
    pub path: String,
    pub headers: Vec<(String, String)>,
    pub content_length: usize,
}

/// What the head of a request says.
#[verifier::ext_equal]
pub struct HeadView {
    pub method: Seq<char>,
    pub path: Seq<char>,
    pub headers: Seq<(Seq<char>, Seq<char>)>,
    pub content_length: nat,
}

impl View for RequestHead {
    type V = HeadView;

    open spec fn view(&self) -> HeadView {
        HeadView {
            method: self.method@,
            path: self.path@,
            headers: headers_model(self.headers@),
            content_length: self.content_length as nat,
        }
    }
}

/// The parts of a head as they were sent.
#[derive(Debug)]
pub struct RawHead {
    pub method: Option<String>,
    pub path: Option<String>,
    pub headers: Vec<(String, Vec<u8>)>,
}

/// What the parts of a head say.
#[verifier::ext_equal]
pub struct RawHeadView {
    pub method: Option<Seq<char>>,
    pub path: Option<Seq<char>>,
    pub headers: Seq<(Seq<char>, Seq<u8>)>,
}

impl View for RawHead {
    type V = RawHeadView;

    open spec fn view(&self) -> RawHeadView {
        RawHeadView {
            method: crate::config::opt_text(self.method),
            path: crate::config::opt_text(self.path),
            headers: self.headers@.map_values(|header: (String, Vec<u8>)| (header.0@, header.1@)),
        }
    }
}

/// `httparse::Error`, the reason why a head was not read.
#[verifier::external_type_specification]
#[verifier::external_body]
pub struct ExHttpError(httparse::Error);

/// Why a head was not read.
#[derive(Clone, Copy, Debug, PartialEq, Eq, Structural)]
pub enum HeadError {
    HeaderName,
    HeaderValue,
    NewLine,
    Status,
    Token,
    TooManyHeaders,
    Version,
}

/// What `httparse` reads out of the bytes of a head, with room for a number of
/// headers: the parts, nothing where the head is not complete, or the error.
pub uninterp spec fn raw_head(bytes: Seq<u8>, max_headers: nat) -> Result<
    Option<RawHeadView>,
    HeadError,
>;

/// The variant of an `httparse::Error`.
pub uninterp spec fn head_error(error: httparse::Error) -> HeadError;

/// `httparse::Request::parse` reads the head of a request.
#[verifier::external_body]
fn read_raw_head(bytes: &[u8], max_headers: usize) -> (raw: Result<
    Option<RawHead>,
    httparse::Error,
>)
    ensures
        match raw {
            Ok(Some(head)) => raw_head(bytes@, max_headers as nat) == Ok::<
                Option<RawHeadView>,
                HeadError,
            >(Some(head@)),
            Ok(None) => raw_head(bytes@, max_headers as nat) == Ok::<
                Option<RawHeadView>,
                HeadError,
            >(None),
            Err(e) => raw_head(bytes@, max_headers as nat) == Err::<
                Option<RawHeadView>,
                HeadError,
            >(head_error(e)),
        },
{
    let mut slots = vec![httparse::EMPTY_HEADER; max_headers];
    let mut parsed = httparse::Request::new(&mut slots);
    match parsed.parse(bytes)? {
        httparse::Status::Partial => Ok(None),
        httparse::Status::Complete(_) => Ok(Some(RawHead {
            method: parsed.method.map(str::to_owned),
            path: parsed.path.map(str::to_owned),
            headers: parsed.headers.iter().map(|h| (h.name.to_owned(), h.value.to_vec())).collect(),
        })),
    }
}

/// Tells the variants of `httparse::Error` apart.
#[verifier::external_body]
fn head_error_of(error: httparse::Error) -> (kind: HeadError)
    ensures
        kind == head_error(error),
{
    match error {
        httparse::Error::HeaderName => HeadError::HeaderName,
        httparse::Error::HeaderValue => HeadError::HeaderValue,
        httparse::Error::NewLine => HeadError::NewLine,
        httparse::Error::Status => HeadError::Status,
        httparse::Error::Token => HeadError::Token,
        httparse::Error::TooManyHeaders => HeadError::TooManyHeaders,
        httparse::Error::Version => HeadError::Version,
    }
}

/// The message of a head error.
pub open spec fn head_error_text(error: HeadError) -> Seq<char> {
    match error {
        HeadError::HeaderName => "invalid header name"@,
        HeadError::HeaderValue => "invalid header value"@,
        HeadError::NewLine => "invalid new line"@,
        HeadError::Status => "invalid response status"@,
        HeadError::Token => "invalid token"@,
        HeadError::TooManyHeaders => "too many headers"@,
        HeadError::Version => "invalid HTTP version"@,
    }
}

impl HeadError {
    /// The message of the error.
    pub fn message(&self) -> (text: &'static str)
        ensures
            text@ == head_error_text(*self),
    {
        match self {
            HeadError::HeaderName => "invalid header name",
            HeadError::HeaderValue => "invalid header value",
            HeadError::NewLine => "invalid new line",
            HeadError::Status => "invalid response status",
            HeadError::Token => "invalid token",
            HeadError::TooManyHeaders => "too many headers",
            HeadError::Version => "invalid HTTP version",
        }
    }
}

/// Whether the four bytes at a position are the blank line that ends a head.
pub open spec fn ends_head_at(bytes: Seq<u8>, i: int) -> bool {
    &&& 0 <= i
    &&& i + 4 <= bytes.len()
    &&& bytes[i] == 13
    &&& bytes[i + 1] == 10
    &&& bytes[i + 2] == 13
    &&& bytes[i + 3] == 10
}

/// The first position from `i` on at which a head ends.
pub open spec fn head_end_from(bytes: Seq<u8>, i: int) -> Option<int>
    decreases bytes.len() - i,
{
    if i + 4 > bytes.len() {
        None
    } else if ends_head_at(bytes, i) {
        Some(i)
    } else {
        head_end_from(bytes, i + 1)
    }
}

/// The position at which the head of a request ends.
pub open spec fn head_end(bytes: Seq<u8>) -> Option<int> {
    head_end_from(bytes, 0)
}

proof fn lemma_head_end_from(bytes: Seq<u8>, i: int)
    requires
        0 <= i,
    ensures
        match head_end_from(bytes, i) {
            Some(end) => i <= end && ends_head_at(bytes, end) && forall|j: int|
                i <= j < end ==> !ends_head_at(bytes, j),
            None => forall|j: int| i <= j ==> !ends_head_at(bytes, j),
        },
    decreases bytes.len() - i,
{
    if i + 4 <= bytes.len() && !ends_head_at(bytes, i) {
        lemma_head_end_from(bytes, i + 1);
    }
}

/// The head ends at the first blank line.
pub proof fn head_ends_at_first_blank_line(bytes: Seq<u8>)
    ensures
        match head_end(bytes) {
            Some(end) => ends_head_at(bytes, end) && forall|j: int|
                0 <= j < end ==> !ends_head_at(bytes, j),
            None => forall|j: int| !ends_head_at(bytes, j),
        },
{
    lemma_head_end_from(bytes, 0);
}

proof fn lemma_head_end_is(bytes: Seq<u8>, end: int)
    requires
        ends_head_at(bytes, end),
        forall|j: int| 0 <= j < end ==> !ends_head_at(bytes, j),
    ensures
        head_end(bytes) == Some(end),
{
    head_ends_at_first_blank_line(bytes);
}

/// Bytes that follow do not move the end of a head.
pub proof fn head_end_is_stable(bytes: Seq<u8>, more: Seq<u8>)
    requires
        head_end(bytes) is Some,
    ensures
        head_end(bytes + more) == head_end(bytes),
        (bytes + more).take(head_end(bytes)->0 + 4) == bytes.take(head_end(bytes)->0 + 4),
{
    head_ends_at_first_blank_line(bytes);
    let end = head_end(bytes)->0;
    assert forall|j: int| 0 <= j < end implies !ends_head_at(bytes + more, j) by {
        assert(!ends_head_at(bytes, j));
    }
    lemma_head_end_is(bytes + more, end);
    assert((bytes + more).take(end + 4) =~= bytes.take(end + 4));
}

/// The position at which the head of a request ends.
pub fn find_header_end(buffer: &[u8]) -> (found: Option<usize>)
    ensures
        match found {
            Some(i) => head_end(buffer@) == Some(i as int) && i + 4 <= buffer@.len(),
            None => head_end(buffer@) is None,
        },
{
    let n: usize = buffer.len();
    let mut i: usize = 0;
    while i < n && n - i >= 4
        invariant
            n == buffer@.len(),
            i <= n,
            head_end(buffer@) == head_end_from(buffer@, i as int),
        decreases n - i,
    {
        if buffer[i] == 13 && buffer[i + 1] == 10 && buffer[i + 2] == 13 && buffer[i + 3] == 10 {
            return Some(i);
        }
        i = i + 1;
    }
    None
}

/// The headers with names in small letters and values as text.
pub open spec fn decoded_headers(raw: Seq<(Seq<char>, Seq<u8>)>) -> Seq<(Seq<char>, Seq<char>)> {
    raw.map_values(
        |header: (Seq<char>, Seq<u8>)| (lowered(header.0), utf8_lossy(header.1)),
    )
}

/// The value of the first header of a name.
pub open spec fn first_header(headers: Seq<(Seq<char>, Seq<char>)>, name: Seq<char>) -> Option<
    Seq<char>,
>
    decreases headers.len(),
{
    if headers.len() == 0 {
        None
    } else if headers[0].0 == name {
        Some(headers[0].1)
    } else {
        first_header(headers.drop_first(), name)
    }
}

/// The content length that the headers give; zero where they give none.
pub open spec fn content_length_view(headers: Seq<(Seq<char>, Seq<char>)>) -> nat {
    match first_header(headers, "content-length"@) {
        Some(value) => match unsigned_value(trimmed(value), usize::MAX as nat) {
            Some(n) => n,
            None => 0,
        },
        None => 0,
    }
}

pub open spec fn text_or_empty(text: Option<Seq<char>>) -> Seq<char> {
    match text {
        Some(s) => s,
        None => Seq::empty(),
    }
}

/// The head that the parts give; none where it is not complete.
pub open spec fn head_view(raw: Result<Option<RawHeadView>, HeadError>) -> Result<
    HeadView,
    ServerErrorView,
> {
    match raw {
        Ok(Some(parts)) => Ok(
            HeadView {
                method: text_or_empty(parts.method),
                path: text_or_empty(parts.path),
                headers: decoded_headers(parts.headers),
                content_length: content_length_view(decoded_headers(parts.headers)),
            },
        ),
        Ok(None) => Err(ServerErrorView::Tls("request headers are incomplete"@)),
        Err(error) => Err(ServerErrorView::Tls(head_error_text(error))),
    }
}

/// The view of a head or of an error.
pub open spec fn head_outcome(head: Result<RequestHead, ServerError>) -> Result<
    HeadView,
    ServerErrorView,
> {
    match head {
        Ok(h) => Ok(h@),
        Err(error) => Err(error@),
    }
}

/// The position of the first header of a name.
fn position_of(headers: &Vec<(String, String)>, name: &str) -> (found: Option<usize>)
    ensures
        match found {
            Some(i) => i < headers@.len() && first_header(headers_model(headers@), name@) == Some(
                headers@[i as int].1@,
            ),
            None => first_header(headers_model(headers@), name@) is None,
        },
{
    let ghost models = headers_model(headers@);
    let mut i: usize = 0;
    assert(models.skip(0) =~= models);
    while i < headers.len()
        invariant
            i <= headers@.len(),
            models == headers_model(headers@),
            first_header(models, name@) == first_header(models.skip(i as int), name@),
        decreases headers@.len() - i,
    {
        assert(models.skip(i as int)[0] == models[i as int]);
        assert(models.skip(i as int).drop_first() =~= models.skip(i + 1));
        if text_eq(headers[i].0.as_str(), name) {
            return Some(i);
        }
        i = i + 1;
    }
    None
}

/// The content length that the headers give.
pub fn content_length(headers: &Vec<(String, String)>) -> (length: usize)
    ensures
        length == content_length_view(headers_model(headers@)),
{
    match position_of(headers, "content-length") {
        Some(i) => match parse_unsigned(trim(headers[i].1.as_str()).as_str(), usize::MAX as u64) {
            Some(n) => n as usize,
            None => 0,
        },
        None => 0,
    }
}

/// The view of the parts of a head, or of why there are none.
pub open spec fn parts_view(raw: Result<Option<RawHead>, HeadError>) -> Result<
    Option<RawHeadView>,
    HeadError,
> {
    match raw {
        Ok(Some(parts)) => Ok(Some(parts@)),
        Ok(None) => Ok(None),
        Err(error) => Err(error),
    }
}

/// The head that the parts give.
pub fn head_from_parts(raw: Result<Option<RawHead>, HeadError>) -> (head: Result<
    RequestHead,
    ServerError,
>)
    ensures
        head_outcome(head) == head_view(parts_view(raw)),
{
    match raw {
        Ok(Some(parts)) => {
            let ghost all = parts@.headers;
            let mut headers: Vec<(String, String)> = Vec::new();
            let mut i: usize = 0;
            assert(headers_model(headers@) =~= decoded_headers(all.take(0)));
            while i < parts.headers.len()
                invariant
                    i <= parts.headers@.len(),
                    all == parts@.headers,
                    headers_model(headers@) == decoded_headers(all.take(i as int)),
                decreases parts.headers@.len() - i,
            {
                let ghost done = headers@;
                let name = to_lower(parts.headers[i].0.as_str());
                let value = lossy_text(parts.headers[i].1.as_slice());
                headers.push((name, value));
                assert(headers_model(headers@) =~= headers_model(done).push((name@, value@)));
                assert(decoded_headers(all.take(i + 1)) =~= decoded_headers(all.take(i as int)).push(
                    (name@, value@),
                ));
                i = i + 1;
            }
            assert(all.take(i as int) =~= all);
            let length: usize = content_length(&headers);
            Ok(
                RequestHead {
                    method: match parts.method {
                        Some(method) => method,
                        None => String::new(),
                    },
                    path: match parts.path {
                        Some(path) => path,
                        None => String::new(),
                    },
                    headers,
                    content_length: length,
                },
            )
        },
        Ok(None) => Err(ServerError::Tls("request headers are incomplete".to_owned())),
        Err(error) => Err(ServerError::Tls(error.message().to_owned())),
    }
}

/// Reads the head of a request, which ends at a position.
pub fn parse_request_head(buffer: &[u8], header_end: usize) -> (head: Result<
    RequestHead,
    ServerError,
>)
    requires
        header_end + 4 <= buffer@.len(),
    ensures
        head_outcome(head) == head_view(
            raw_head(buffer@.take(header_end + 4), MAX_HEADERS as nat),
        ),
{
    let n: usize = buffer.len();
    let bytes = vstd::slice::slice_subrange(buffer, 0, header_end + 4);
    assert(bytes@ =~= buffer@.take(header_end + 4));
    match read_raw_head(bytes, MAX_HEADERS) {
        Ok(raw) => head_from_parts(Ok(raw)),
        Err(error) => head_from_parts(Err(head_error_of(error))),
    }
}

/// The value of a header, by its name in any case of letters.
pub open spec fn header_view(headers: Seq<(Seq<char>, Seq<char>)>, name: Seq<char>) -> Option<
    Seq<char>,
>
    decreases headers.len(),
{
    if headers.len() == 0 {
        None
    } else if lowered(headers[0].0) == lowered(name) {
        Some(headers[0].1)
    } else {
        header_view(headers.drop_first(), name)
    }
}

/// The value of a header, by its name in any case of letters.
pub fn header(request: &Request, name: &str) -> (value: Option<String>)
    ensures
        crate::config::opt_text(value) == header_view(request@.headers, name@),
{
    let ghost models = request@.headers;
    let wanted = to_lower(name);
    let mut i: usize = 0;
    assert(models.skip(0) =~= models);
    while i < request.headers.len()
        invariant
            i <= request.headers@.len(),
            models == headers_model(request.headers@),
            wanted@ == lowered(name@),
            header_view(models, name@) == header_view(models.skip(i as int), name@),
        decreases request.headers@.len() - i,
    {
        assert(models.skip(i as int)[0] == models[i as int]);
        assert(models.skip(i as int).drop_first() =~= models.skip(i + 1));
        if text_eq(to_lower(request.headers[i].0.as_str()).as_str(), wanted.as_str()) {
            return Some(request.headers[i].1.clone());
        }
        i = i + 1;
    }
    None
}

/// The value of the first pair of a name.
pub open spec fn pair_value(pairs: Seq<Seq<char>>, name: Seq<char>) -> Option<Seq<char>>
    decreases pairs.len(),
{
    if pairs.len() == 0 {
        None
    } else {
        match split_first(pairs[0], '=') {
            Some((key, value)) => if key == name {
                Some(value)
            } else {
                pair_value(pairs.drop_first(), name)
            },
            None => pair_value(pairs.drop_first(), name),
        }
    }
}

/// The value of a query parameter: of the first `name=value` after the first
/// question mark.
pub open spec fn query_view(path: Seq<char>, name: Seq<char>) -> Option<Seq<char>> {
    match split_first(path, '?') {
        Some((_, query)) => pair_value(split_all(query, '&'), name),
        None => None,
    }
}

/// The value of a query parameter.
pub fn query_param(path: &str, name: &str) -> (value: Option<String>)
    ensures
        crate::config::opt_text(value) == query_view(path@, name@),
{
    match split_once(path, '?') {
        Some((_, query)) => {
            let pairs = split(query.as_str(), '&');
            let ghost models = texts(pairs@);
            let mut i: usize = 0;
            assert(models.skip(0) =~= models);
            while i < pairs.len()
                invariant
                    i <= pairs@.len(),
                    models == texts(pairs@),
                    query_view(path@, name@) == pair_value(models, name@),
                    pair_value(models, name@) == pair_value(models.skip(i as int), name@),
                decreases pairs@.len() - i,
            {
                assert(models.skip(i as int)[0] == pairs@[i as int]@);
                assert(models.skip(i as int).drop_first() =~= models.skip(i + 1));
                match split_once(pairs[i].as_str(), '=') {
                    Some((key, value)) => {
                        if text_eq(key.as_str(), name) {
                            return Some(value);
                        }
                    },
                    None => {},
                }
                i = i + 1;
            }
            assert(models.skip(i as int) =~= Seq::empty());
            None
        },
        None => None,
    }
}

proof fn lemma_split_first_at(head: Seq<char>, c: char, tail: Seq<char>)
    requires
        !head.contains(c),
    ensures
        split_first(head + seq![c] + tail, c) == Some((head, tail)),
{
    let whole = head + seq![c] + tail;
    let n = head.len() as int;
    whole.index_of_first_ensures(c);
    assert(whole[n] == c);
    assert(whole.contains(c));
    let k = whole.index_of_first(c)->0;
    if k < n {
        assert(whole[k] == head[k]);
        assert(head.contains(c));
    }
    assert(k == n);
    assert(whole.take(n) =~= head);
    assert(whole.skip(n + 1) =~= tail);
}

/// The parameter of a path with one parameter is found: its value is what stands
/// after the equals sign.
pub proof fn only_query_param_is_found(base: Seq<char>, name: Seq<char>, value: Seq<char>)
    requires
        !base.contains('?'),
        !name.contains('='),
        !name.contains('&'),
        !value.contains('&'),
    ensures
        query_view(base + seq!['?'] + (name + seq!['='] + value), name) == Some(value),
{
    let pair = name + seq!['='] + value;
    lemma_split_first_at(base, '?', pair);
    lemma_split_first_at(name, '=', value);
    pair.index_of_first_ensures('&');
    if pair.contains('&') {
        let i = choose|i: int| 0 <= i < pair.len() && pair[i] == '&';
        if i < name.len() {
            assert(name[i] == '&');
        } else if i > name.len() {
            assert(value[i - name.len() - 1] == '&');
        }
    }
    assert(split_all(pair, '&') =~= seq![pair]);
    assert(split_all(pair, '&')[0] == pair);
}

/// The view of a request or of an error.
pub open spec fn request_outcome(request: Result<Request, ServerError>) -> Result<
    RequestView,
    ServerErrorView,
> {
    match request {
        Ok(r) => Ok(r@),
        Err(error) => Err(error@),
    }
}

/// The request of a head and of the bytes after it, of which the content length
/// says how many belong to it.
pub open spec fn request_of(head: HeadView, after: Seq<u8>) -> RequestView {
    RequestView {
        method: head.method,
        path: head.path,
        headers: head.headers,
        body: if after.len() > head.content_length {
            after.take(head.content_length as int)
        } else {
            after
        },
    }
}

/// The head in bytes in which it ends.
pub open spec fn head_in(bytes: Seq<u8>) -> Result<HeadView, ServerErrorView> {
    head_view(raw_head(bytes.take(head_end(bytes)->0 + 4), MAX_HEADERS as nat))
}

/// What the bytes that a connection sent so far are worth: nothing yet, or a
/// request, or an error. `closed` tells that no more bytes come.
pub open spec fn read_view(bytes: Seq<u8>, closed: bool) -> Option<
    Result<RequestView, ServerErrorView>,
> {
    match head_end(bytes) {
        Some(end) => match head_in(bytes) {
            Ok(head) => {
                let after = bytes.skip(end + 4);
                if closed || after.len() >= head.content_length {
                    Some(Ok(request_of(head, after)))
                } else {
                    None
                }
            },
            Err(error) => Some(Err(error)),
        },
        None => if closed {
            Some(Err(ServerErrorView::Tls("connection closed before request"@)))
        } else if bytes.len() > HEAD_LIMIT {
            Some(Err(ServerErrorView::Tls("request headers too large"@)))
        } else {
            None
        },
    }
}

/// How many bytes to read at most: what is missing of the body, and some more of
/// the head otherwise.
pub open spec fn wanted_view(bytes: Seq<u8>) -> int {
    match (head_end(bytes), head_in(bytes)) {
        (Some(end), Ok(head)) => if bytes.len() - (end + 4) < head.content_length {
            head.content_length - (bytes.len() - (end + 4))
        } else {
            1024
        },
        _ => 1024,
    }
}

/// Reads a request out of the chunks that a connection sends.
#[derive(Debug)]
pub struct RequestReader {
    buffer: Vec<u8>,
    head: Option<(usize, RequestHead)>,
}

impl View for RequestReader {
    type V = Seq<u8>;

    /// The bytes that were sent so far.
    closed spec fn view(&self) -> Seq<u8> {
        self.buffer@
    }
}

fn copy_headers(headers: &Vec<(String, String)>) -> (copy: Vec<(String, String)>)
    ensures
        headers_model(copy@) == headers_model(headers@),
{
    let mut copy: Vec<(String, String)> = Vec::new();
    let mut i: usize = 0;
    while i < headers.len()
        invariant
            i <= headers@.len(),
            headers_model(copy@) == headers_model(headers@.take(i as int)),
        decreases headers@.len() - i,
    {
        let ghost done = copy@;
        copy.push((headers[i].0.clone(), headers[i].1.clone()));
        let ghost entry = (headers@[i as int].0@, headers@[i as int].1@);
        assert(headers_model(copy@) =~= headers_model(done).push(entry));
        assert(headers_model(headers@.take(i + 1)) =~= headers_model(headers@.take(i as int)).push(
            entry,
        ));
        i = i + 1;
    }
    assert(headers@.take(i as int) =~= headers@);
    copy
}

/// The request of a head and of the bytes after it.
fn finish_request(head: &RequestHead, after: &[u8]) -> (request: Request)
    ensures
        request@ == request_of(head@, after@),
{
    let n: usize = after.len();
    let end: usize = if n > head.content_length {
        head.content_length
    } else {
        n
    };
    let body = range(after, 0, end);
    assert(body@ =~= request_of(head@, after@).body);
    Request {
        method: head.method.clone(),
        path: head.path.clone(),
        headers: copy_headers(&head.headers),
        body,
    }
}

impl RequestReader {
    #[verifier::type_invariant]
    spec fn head_fits(self) -> bool {
        match self.head {
            Some((end, head)) => {
                &&& head_end(self.buffer@) == Some(end as int)
                &&& end + 4 <= self.buffer@.len()
                &&& head_in(self.buffer@) == Ok::<HeadView, ServerErrorView>(head@)
            },
            None => head_end(self.buffer@) is None || head_in(self.buffer@) is Err,
        }
    }

    /// A reader to which nothing was sent.
    pub fn new() -> (reader: RequestReader)
        ensures
            reader@ == Seq::<u8>::empty(),
    {
        RequestReader { buffer: Vec::new(), head: None }
    }

    /// How many bytes to read at most.
    pub fn wanted(&self) -> (count: usize)
        ensures
            count == wanted_view(self@),
    {
        proof {
            use_type_invariant(self);
        }
        match &self.head {
            Some((end, head)) => {
                let n: usize = self.buffer.len();
                let body: usize = n - (*end + 4);
                if body < head.content_length {
                    head.content_length - body
                } else {
                    1024
                }
            },
            None => 1024,
        }
    }

    /// Takes the bytes that were read; no bytes mean that the connection was
    /// closed. What comes out depends on the bytes that were sent so far, however
    /// they were cut into chunks.
    pub fn feed(&mut self, chunk: &[u8]) -> (outcome: Option<Result<Request, ServerError>>)
        ensures
            final(self)@ == old(self)@ + chunk@,
            match outcome {
                Some(request) => read_view(old(self)@ + chunk@, chunk@.len() == 0) == Some(
                    request_outcome(request),
                ),
                None => read_view(old(self)@ + chunk@, chunk@.len() == 0) is None,
            },
    {
        proof {
            use_type_invariant(&*self);
        }
        let ghost before = self@;
        let mut taken = RequestReader { buffer: Vec::new(), head: None };
        std::mem::swap(&mut taken, self);
        let closed = chunk.len() == 0;
        let mut buffer = taken.buffer;
        extend(&mut buffer, chunk);
        let ghost total = buffer@;
        assert(total == before + chunk@);
        let found: Option<(usize, RequestHead)> = match taken.head {
            Some((end, head)) => {
                proof {
                    head_end_is_stable(before, chunk@);
                }
                Some((end, head))
            },
            None => match find_header_end(buffer.as_slice()) {
                Some(end) => match parse_request_head(buffer.as_slice(), end) {
                    Ok(head) => Some((end, head)),
                    Err(error) => {
                        *self = RequestReader { buffer, head: None };
                        return Some(Err(error));
                    },
                },
                None => None,
            },
        };
        match found {
            Some((end, head)) => {
                let n: usize = buffer.len();
                let after = vstd::slice::slice_subrange(buffer.as_slice(), end + 4, n);
                assert(after@ =~= total.skip(end + 4));
                let outcome = if closed || n - (end + 4) >= head.content_length {
                    Some(Ok(finish_request(&head, after)))
                } else {
                    None
                };
                *self = RequestReader { buffer, head: Some((end, head)) };
                outcome
            },
            None => {
                let n: usize = buffer.len();
                *self = RequestReader { buffer, head: None };
                if closed {
                    Some(
                        Err(ServerError::Tls("connection closed before request".to_owned())),
                    )
                } else if n > HEAD_LIMIT {
                    Some(Err(ServerError::Tls("request headers too large".to_owned())))
                } else {
                    None
                }
            },
        }
    }
}

/// A response.
#[derive(Debug)]
pub struct HttpResponse {
    pub status: u16,
    pub body: Json,
}

/// What a response says.
#[verifier::ext_equal]
pub struct ResponseView {
    pub status: u16,
    pub body: JsonView,
}

impl View for HttpResponse {
    type V = ResponseView;

    open spec fn view(&self) -> ResponseView {
        ResponseView { status: self.status, body: self.body@ }
    }
}

/// The words of a status.
pub open spec fn status_text_view(status: u16) -> Seq<char> {
    if status == 403 {
        "Forbidden"@
    } else if status == 404 {
        "Not Found"@
    } else if status == 405 {
        "Method Not Allowed"@
    } else if status == 422 {
        "Unprocessable Entity"@
    } else if status == 500 {
        "Internal Server Error"@
    } else if status == 503 {
        "Service Unavailable"@
    } else {
        "OK"@
    }
}

/// The status line of a response, without its line end.
pub open spec fn status_line(status: u16) -> Seq<char> {
    "HTTP/1.1 "@ + decimal(status as nat) + " "@ + status_text_view(status)
}

/// The head of a response with a body of a length in bytes.
pub open spec fn response_head(status: u16, length: nat) -> Seq<char> {
    status_line(status) + "\r\nContent-Type: application/json\r\nContent-Length: "@ + decimal(length)
        + "\r\nConnection: close\r\n\r\n"@
}

/// The bytes of a response.
pub open spec fn response_bytes(response: ResponseView) -> Seq<u8> {
    let body = json_text(response.body);
    encode_utf8(response_head(response.status, encode_utf8(body).len()) + body)
}

/// The text that follows the head in the bytes of a response.
pub open spec fn body_text(bytes: Seq<u8>) -> Seq<char> {
    decode_utf8(bytes.skip(head_end(bytes)->0 + 4))
}

fn status_text(status: u16) -> (text: &'static str)
    ensures
        text@ == status_text_view(status),
{
    if status == 403 {
        "Forbidden"
    } else if status == 404 {
        "Not Found"
    } else if status == 405 {
        "Method Not Allowed"
    } else if status == 422 {
        "Unprocessable Entity"
    } else if status == 500 {
        "Internal Server Error"
    } else if status == 503 {
        "Service Unavailable"
    } else {
        "OK"
    }
}

impl HttpResponse {
    /// A response with a JSON body.
    pub fn json(status: u16, body: Json) -> (response: HttpResponse)
        ensures
            response@ == (ResponseView { status, body: body@ }),
    {
        HttpResponse { status, body }
    }

    /// The bytes of the response. What follows the head is the text of the body,
    /// out of which a body without fractions that is not nested too deeply is read
    /// back.
    pub fn as_bytes(&self) -> (bytes: Vec<u8>)
        ensures
            bytes@ == response_bytes(self@),
            is_plain(self@.body, READ_DEPTH as nat) ==> parsed_json(body_text(bytes@)) == Ok::<
                JsonView,
                Seq<char>,
            >(self@.body),
    {
        proof {
            response_is_framed(self@);
            encode_utf8_decode_utf8(json_text(self@.body));
        }
        let body = self.body.to_text();
        let length: usize = body.as_str().as_bytes().len();
        let mut text = "HTTP/1.1 ".to_owned();
        text.append(decimal_text(self.status as u64).as_str());
        text.append(" ");
        text.append(status_text(self.status));
        text.append("\r\nContent-Type: application/json\r\nContent-Length: ");
        text.append(decimal_text(length as u64).as_str());
        text.append("\r\nConnection: close\r\n\r\n");
        text.append(body.as_str());
        utf8_bytes(text.as_str())
    }
}

/// A request that is complete stays what it is, whatever bytes follow it.
pub proof fn complete_request_is_final(bytes: Seq<u8>, more: Seq<u8>, closed: bool)
    requires
        read_view(bytes, false) matches Some(Ok(_)),
    ensures
        read_view(bytes + more, closed) == read_view(bytes, false),
{
    head_end_is_stable(bytes, more);
    head_ends_at_first_blank_line(bytes);
    let end = head_end(bytes)->0;
    let head = head_in(bytes)->Ok_0;
    let length = head.content_length as int;
    assert((bytes + more).skip(end + 4) =~= bytes.skip(end + 4) + more);
    assert((bytes.skip(end + 4) + more).take(length) =~= bytes.skip(end + 4).take(length));
    assert(bytes.skip(end + 4).len() == length ==> bytes.skip(end + 4).take(length) =~= bytes.skip(
        end + 4,
    ));
    assert(request_of(head, (bytes + more).skip(end + 4)) =~= request_of(head, bytes.skip(end + 4)));
}

/// The body of a request is never longer than its content length, and is just as
/// long unless the connection was closed before.
pub proof fn body_has_the_content_length(bytes: Seq<u8>, closed: bool)
    requires
        read_view(bytes, closed) matches Some(Ok(_)),
    ensures
        (read_view(bytes, closed)->0->Ok_0).body.len() <= head_in(bytes)->Ok_0.content_length,
        !closed ==> (read_view(bytes, closed)->0->Ok_0).body.len()
            == head_in(bytes)->Ok_0.content_length,
{
    head_ends_at_first_blank_line(bytes);
}

/// Whether a text is a line: not empty, of ASCII characters, without a carriage
/// return.
spec fn is_plain_line(line: Seq<char>) -> bool {
    &&& line.len() > 0
    &&& is_ascii_chars(line)
    &&& forall|i: int| 0 <= i < line.len() ==> #[trigger] line[i] != '\r'
}

proof fn lemma_plain_concat(a: Seq<char>, b: Seq<char>)
    requires
        is_plain_line(a),
        is_plain_line(b),
    ensures
        is_plain_line(a + b),
{
    assert forall|i: int| 0 <= i < (a + b).len() implies '\0' <= #[trigger] (a + b)[i]
        <= '\u{7f}' && (a + b)[i] != '\r' by {
        if i < a.len() {
            assert((a + b)[i] == a[i]);
        } else {
            assert((a + b)[i] == b[i - a.len()]);
        }
    }
}

proof fn lemma_plain_decimal(n: nat)
    ensures
        is_plain_line(decimal(n)),
{
    lemma_decimal_digits(n);
    assert forall|i: int| 0 <= i < decimal(n).len() implies '\0' <= #[trigger] decimal(n)[i]
        <= '\u{7f}' && decimal(n)[i] != '\r' by {
        assert(is_digit(decimal(n)[i]));
    }
}

proof fn lemma_plain_status(status: u16)
    ensures
        is_plain_line(status_line(status)),
{
    reveal_strlit("Forbidden");
    reveal_strlit("Not Found");
    reveal_strlit("Method Not Allowed");
    reveal_strlit("Unprocessable Entity");
    reveal_strlit("Internal Server Error");
    reveal_strlit("Service Unavailable");
    reveal_strlit("OK");
    reveal_strlit("HTTP/1.1 ");
    reveal_strlit(" ");
    assert(is_plain_line(status_text_view(status)));
    lemma_plain_decimal(status as nat);
    lemma_plain_concat("HTTP/1.1 "@, decimal(status as nat));
    lemma_plain_concat("HTTP/1.1 "@ + decimal(status as nat), " "@);
    lemma_plain_concat(
        "HTTP/1.1 "@ + decimal(status as nat) + " "@,
        status_text_view(status),
    );
}

spec fn crlf() -> Seq<char> {
    seq!['\r', '\n']
}

/// Four lines and a blank one.
spec fn four_lines(a: Seq<char>, b: Seq<char>, c: Seq<char>, d: Seq<char>) -> Seq<char> {
    a + crlf() + b + crlf() + c + crlf() + d + crlf() + crlf()
}

proof fn lemma_four_lines(a: Seq<char>, b: Seq<char>, c: Seq<char>, d: Seq<char>, i: int)
    requires
        is_plain_line(a),
        is_plain_line(b),
        is_plain_line(c),
        is_plain_line(d),
        0 <= i < four_lines(a, b, c, d).len() - 4,
    ensures
        !(four_lines(a, b, c, d)[i] == '\r' && four_lines(a, b, c, d)[i + 2] == '\r'),
{
    let all = four_lines(a, b, c, d);
    let ea = a.len() as int;
    let eb = ea + 2 + b.len();
    let ec = eb + 2 + c.len();
    let ed = ec + 2 + d.len();
    assert(all.len() == ed + 4);
    if i < ea {
        assert(all[i] == a[i]);
    } else if i == ea {
        assert(all[i + 2] == b[0]);
    } else if i == ea + 1 {
        assert(all[i] == '\n');
    } else if i < eb {
        assert(all[i] == b[i - ea - 2]);
    } else if i == eb {
        assert(all[i + 2] == c[0]);
    } else if i == eb + 1 {
        assert(all[i] == '\n');
    } else if i < ec {
        assert(all[i] == c[i - eb - 2]);
    } else if i == ec {
        assert(all[i + 2] == d[0]);
    } else if i == ec + 1 {
        assert(all[i] == '\n');
    } else {
        assert(all[i] == d[i - ec - 2]);
    }
}

proof fn lemma_ascii_four_lines(a: Seq<char>, b: Seq<char>, c: Seq<char>, d: Seq<char>)
    requires
        is_plain_line(a),
        is_plain_line(b),
        is_plain_line(c),
        is_plain_line(d),
    ensures
        is_ascii_chars(four_lines(a, b, c, d)),
{
    let all = four_lines(a, b, c, d);
    let ea = a.len() as int;
    let eb = ea + 2 + b.len();
    let ec = eb + 2 + c.len();
    let ed = ec + 2 + d.len();
    assert forall|i: int| 0 <= i < all.len() implies '\0' <= #[trigger] all[i] <= '\u{7f}' by {
        if i < ea {
            assert(all[i] == a[i]);
        } else if i < ea + 2 {
            assert(all[i] == crlf()[i - ea]);
        } else if i < eb {
            assert(all[i] == b[i - ea - 2]);
        } else if i < eb + 2 {
            assert(all[i] == crlf()[i - eb]);
        } else if i < ec {
            assert(all[i] == c[i - eb - 2]);
        } else if i < ec + 2 {
            assert(all[i] == crlf()[i - ec]);
        } else if i < ed {
            assert(all[i] == d[i - ec - 2]);
        } else if i < ed + 2 {
            assert(all[i] == crlf()[i - ed]);
        } else {
            assert(all[i] == crlf()[i - ed - 2]);
        }
    }
}

proof fn lemma_head_lines(status: u16, length: nat)
    ensures
        response_head(status, length) == four_lines(
            status_line(status),
            "Content-Type: application/json"@,
            "Content-Length: "@ + decimal(length),
            "Connection: close"@,
        ),
        is_plain_line("Content-Type: application/json"@),
        is_plain_line("Content-Length: "@),
        is_plain_line("Connection: close"@),
{
    reveal_strlit("\r\nContent-Type: application/json\r\nContent-Length: ");
    reveal_strlit("\r\nConnection: close\r\n\r\n");
    reveal_strlit("Content-Type: application/json");
    reveal_strlit("Content-Length: ");
    reveal_strlit("Connection: close");
    assert("\r\nContent-Type: application/json\r\nContent-Length: "@ =~= crlf()
        + "Content-Type: application/json"@ + crlf() + "Content-Length: "@);
    assert("\r\nConnection: close\r\n\r\n"@ =~= crlf() + "Connection: close"@ + crlf() + crlf());
    assert(response_head(status, length) =~= four_lines(
        status_line(status),
        "Content-Type: application/json"@,
        "Content-Length: "@ + decimal(length),
        "Connection: close"@,
    ));
}

/// The head of a response ends at its first blank line, and what follows is the
/// body, of as many bytes as the head says.
pub proof fn response_is_framed(response: ResponseView)
    ensures
        ({
            let bytes = response_bytes(response);
            let body = encode_utf8(json_text(response.body));
            let head = encode_utf8(response_head(response.status, body.len()));
            &&& bytes == head + body
            &&& head_end(bytes) == Some(head.len() - 4)
            &&& bytes.skip(head_end(bytes)->0 + 4) == body
            &&& bytes.len() - (head_end(bytes)->0 + 4) == body.len()
        }),
{
    let text = json_text(response.body);
    let body = encode_utf8(text);
    let head_text = response_head(response.status, body.len());
    let head = encode_utf8(head_text);
    let bytes = response_bytes(response);
    lemma_encode_concat(head_text, text);
    lemma_head_lines(response.status, body.len());
    lemma_plain_status(response.status);
    lemma_plain_decimal(body.len());
    lemma_plain_concat("Content-Length: "@, decimal(body.len()));
    let a = status_line(response.status);
    let b = "Content-Type: application/json"@;
    let c = "Content-Length: "@ + decimal(body.len());
    let d = "Connection: close"@;
    lemma_ascii_four_lines(a, b, c, d);
    is_ascii_chars_encode_utf8(head_text);
    let end = head.len() - 4;
    let n = head_text.len() as int;
    assert(head_text[n - 4] == '\r' && head_text[n - 3] == '\n' && head_text[n - 2] == '\r'
        && head_text[n - 1] == '\n');
    assert(bytes[end] == head[end] && bytes[end + 1] == head[end + 1] && bytes[end + 2] == head[end
        + 2] && bytes[end + 3] == head[end + 3]);
    assert(ends_head_at(bytes, end));
    assert forall|j: int| 0 <= j < end implies !ends_head_at(bytes, j) by {
        lemma_four_lines(a, b, c, d, j);
        assert(head[j] == head_text[j] as u8);
        assert(head[j + 2] == head_text[j + 2] as u8);
        assert(bytes[j] == head[j]);
        assert(bytes[j + 2] == head[j + 2]);
        if ends_head_at(bytes, j) {
            assert(head_text[j] as u8 == 13);
            assert('\0' <= head_text[j] <= '\u{7f}');
            assert(head_text[j] == '\r');
            assert('\0' <= head_text[j + 2] <= '\u{7f}');
            assert(head_text[j + 2] == '\r');
        }
    }
    lemma_head_end_is(bytes, end);
    assert(bytes.skip(end + 4) =~= body);
}

} // verus!
