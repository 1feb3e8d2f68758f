//! Queues.
use vstd::prelude::*;
use vstd::utf8::encode_utf8;

use crate::cli::{
    Globals, SqsQueueArg, SqsReceiveArgs, SqsSendArgs, SqsSubcommand, SqsUrlArgs,
};
use crate::client;
use crate::error::{told, AwlError, Failure};
use crate::json::{self, Fields, Json, JsonTree};
use crate::number;
use crate::output::{self, Output, Shown};
use crate::text;

verus! {

/// A pair of texts, such as a request parameter.
pub type Pair = (Seq<char>, Seq<char>);

/// A byte that stands for itself in a URL.
pub open spec fn unreserved(b: u8) -> bool {
    ||| 48 <= b <= 57
    ||| 65 <= b <= 90
    ||| 97 <= b <= 122
    ||| b == 45
    ||| b == 46
    ||| b == 95
    ||| b == 126
}

/// The upper-case character of a hexadecimal digit.
pub open spec fn upper_hex(d: nat) -> char {
    if d < 10 {
        (48 + d) as char
    } else {
        (55 + d) as char
    }
}

/// A byte in percent encoding.
pub open spec fn percent_byte(b: u8) -> Seq<char> {
    if unreserved(b) {
        seq![b as char]
    } else {
        seq!['%', upper_hex(b as nat / 16), upper_hex(b as nat % 16)]
    }
}

/// Bytes in percent encoding.
pub open spec fn percent_bytes(bytes: Seq<u8>) -> Seq<char>
    decreases bytes.len(),
{
    if bytes.len() == 0 {
        Seq::empty()
    } else {
        percent_bytes(bytes.drop_last()) + percent_byte(bytes.last())
    }
}

/// A text in percent encoding.
pub open spec fn percent(s: Seq<char>) -> Seq<char> {
    percent_bytes(encode_utf8(s))
}

/// `urlencoding::encode` keeps letters, digits, `-`, `.`, `_` and `~`, and writes
/// any other byte of the text's UTF-8 as `%` and two upper-case hexadecimal
/// digits.
#[verifier::external_body]
fn percent_encode(s: &str) -> (r: String)
    ensures
        r@ == percent(s@),
{
    urlencoding::encode(s).into_owned()
}

/// A character that percent encoding writes.
pub open spec fn url_safe(c: char) -> bool {
    ||| '0' <= c <= '9'
    ||| 'A' <= c <= 'Z'
    ||| 'a' <= c <= 'z'
    ||| c == '-'
    ||| c == '.'
    ||| c == '_'
    ||| c == '~'
    ||| c == '%'
}

/// Percent encoding writes no character that ends or parts a query: no space, no
/// line end, no `&` and no `=`.
pub proof fn law_percent_is_url_safe(s: Seq<char>, i: int)
    requires
        0 <= i < percent(s).len(),
    ensures
        url_safe(percent(s)[i]),
{
    lemma_percent_bytes_safe(encode_utf8(s), i);
}

proof fn lemma_percent_bytes_safe(bytes: Seq<u8>, i: int)
    requires
        0 <= i < percent_bytes(bytes).len(),
    ensures
        url_safe(percent_bytes(bytes)[i]),
    decreases bytes.len(),
{
    let head = percent_bytes(bytes.drop_last());
    if i < head.len() {
        lemma_percent_bytes_safe(bytes.drop_last(), i);
    }
}

/// Encoded bytes begin with the first of them.
proof fn lemma_first_byte(bytes: Seq<u8>)
    requires
        bytes.len() > 0,
    ensures
        percent_bytes(bytes) == percent_byte(bytes[0]) + percent_bytes(bytes.skip(1)),
    decreases bytes.len(),
{
    let rest = bytes.drop_last();
    let last = percent_byte(bytes.last());
    if rest.len() == 0 {
        assert(bytes.skip(1) =~= Seq::empty());
        assert(percent_bytes(rest) =~= Seq::empty());
        assert(percent_bytes(bytes) =~= percent_byte(bytes[0]) + percent_bytes(bytes.skip(1)));
    } else {
        lemma_first_byte(rest);
        assert(rest.skip(1) =~= bytes.skip(1).drop_last());
        assert(percent_byte(bytes[0]) + percent_bytes(rest.skip(1)) + last =~= percent_byte(
            bytes[0],
        ) + (percent_bytes(rest.skip(1)) + last));
    }
}

/// The encodings of two bytes at the start of one text are those of one byte.
proof fn lemma_same_byte(a: u8, b: u8, s: Seq<char>)
    requires
        percent_byte(a).is_prefix_of(s),
        percent_byte(b).is_prefix_of(s),
    ensures
        a == b,
{
    let x = percent_byte(a);
    let y = percent_byte(b);
    assert(s[0] == x[0] && s[0] == y[0]);
    if !unreserved(a) && !unreserved(b) {
        assert(s[1] == x[1] && s[1] == y[1]);
        assert(s[2] == x[2] && s[2] == y[2]);
    }
}

/// Encoded bytes tell what the bytes were.
proof fn lemma_percent_faithful(a: Seq<u8>, b: Seq<u8>)
    requires
        percent_bytes(a) == percent_bytes(b),
    ensures
        a == b,
    decreases a.len(),
{
    let whole = percent_bytes(a);
    if a.len() == 0 {
        assert(whole.len() == 0);
        if b.len() > 0 {
            lemma_first_byte(b);
            assert(percent_byte(b[0]).len() > 0);
            assert(false);
        }
        assert(a =~= b);
    } else if b.len() == 0 {
        lemma_first_byte(a);
        assert(percent_byte(a[0]).len() > 0);
        assert(percent_bytes(b).len() == 0);
        assert(false);
    } else {
        lemma_first_byte(a);
        lemma_first_byte(b);
        let x = percent_byte(a[0]);
        assert(x =~= whole.take(x.len() as int));
        assert(percent_byte(b[0]) =~= whole.take(percent_byte(b[0]).len() as int));
        lemma_same_byte(a[0], b[0], whole);
        assert(percent_bytes(a.skip(1)) =~= whole.skip(x.len() as int));
        assert(percent_bytes(b.skip(1)) =~= whole.skip(x.len() as int));
        lemma_percent_faithful(a.skip(1), b.skip(1));
        assert(a =~= seq![a[0]] + a.skip(1));
        assert(b =~= seq![b[0]] + b.skip(1));
    }
}

/// Percent encoding loses nothing: texts with one encoding are one text.
pub proof fn law_percent_is_faithful(a: Seq<char>, b: Seq<char>)
    requires
        percent(a) == percent(b),
    ensures
        a == b,
{
    lemma_percent_faithful(encode_utf8(a), encode_utf8(b));
    vstd::utf8::encode_utf8_decode_utf8(a);
    vstd::utf8::encode_utf8_decode_utf8(b);
}

/// `name=value` with both in percent encoding.
pub open spec fn query_part(pair: Pair) -> Seq<char> {
    percent(pair.0) + "="@ + percent(pair.1)
}

/// The query of a request: the version and then the parameters.
pub open spec fn query_text(params: Seq<Pair>) -> Seq<char> {
    text::joined(
        (seq![("Version"@, "2012-11-05"@)] + params).map_values(|pair: Pair| query_part(pair)),
        "&"@,
    )
}

/// Where an endpoint is reached.
#[derive(Debug)]
pub struct HttpEndpoint {
    pub host: String,
    pub host_header: String,
    pub port: u16,
    pub path: String,
}

/// The meaning of an `HttpEndpoint`.
pub struct Place {
    pub host: Seq<char>,
    pub host_header: Seq<char>,
    pub port: u16,
    pub path: Seq<char>,
}

impl View for HttpEndpoint {
    type V = Place;

    open spec fn view(&self) -> Place {
        Place {
            host: self.host@,
            host_header: self.host_header@,
            port: self.port,
            path: self.path@,
        }
    }
}

/// The host with its port, and the path, of what follows `http://`.
pub open spec fn host_and_path(rest: Seq<char>) -> Pair {
    match text::split_first(rest, "/"@) {
        Some((host_port, path)) => (host_port, "/"@ + path),
        None => (rest, Seq::empty()),
    }
}

/// Where an endpoint is reached: `http://`, a host, a port after the last colon
/// or else port 80, and a path.
pub open spec fn place_of(endpoint: Seq<char>) -> Result<Place, Failure> {
    match text::without_prefix(endpoint, "http://"@) {
        None => Err(
            Failure::Endpoint("local SQS query adapter only supports http:// endpoints"@),
        ),
        Some(rest) => {
            let (host_port, path) = host_and_path(rest);
            match text::split_last(host_port, ':') {
                None => Ok(Place { host: host_port, host_header: host_port, port: 80, path }),
                Some((host, port)) => match number::unsigned_value(port, u16::MAX as nat) {
                    Some(n) => Ok(
                        Place { host, host_header: host_port, port: n as u16, path },
                    ),
                    None => Err(
                        Failure::Endpoint(
                            "invalid SQS endpoint port in "@ + text::quoted(endpoint) + ": "@
                                + number::u16_complaint(port),
                        ),
                    ),
                },
            }
        },
    }
}

impl HttpEndpoint {
    /// Where an endpoint is reached.
    pub fn parse(endpoint: &str) -> (r: Result<HttpEndpoint, AwlError>)
        ensures
            told(r) == place_of(endpoint@),
    {
        let rest = match text::strip_prefix(endpoint, "http://") {
            Some(rest) => rest,
            None => {
                return Err(
                    AwlError::Endpoint {
                        message: "local SQS query adapter only supports http:// endpoints".to_owned(),
                    },
                );
            },
        };
        let (host_port, path): (&str, String) = match text::split_once(rest, "/") {
            Some((host_port, path)) => (host_port, "/".to_owned().concat(path)),
            None => {
                let none = String::new();
                assert(none@ =~= Seq::<char>::empty());
                (rest, none)
            },
        };
        let (host, port): (&str, u16) = match text::rsplit_once(host_port, ':') {
            Some((host, port)) => match number::parse_u16(port) {
                Ok(n) => (host, n),
                Err(error) => {
                    return Err(
                        AwlError::Endpoint {
                            message: "invalid SQS endpoint port in ".to_owned().concat(
                                text::quote(endpoint).as_str(),
                            ).concat(": ").concat(error.as_str()),
                        },
                    );
                },
            },
            None => (host_port, 80),
        };
        Ok(
            HttpEndpoint {
                host: host.to_owned(),
                host_header: host_port.to_owned(),
                port,
                path,
            },
        )
    }
}

/// An endpoint that was put together is reached where its parts say: the host holds
/// no slash, and the path is empty or begins with one.
pub proof fn law_endpoint_round_trip(host: Seq<char>, port: u16, path: Seq<char>)
    requires
        !host.contains('/'),
        path.len() == 0 || path[0] == '/',
    ensures
        place_of("http://"@ + host + seq![':'] + number::decimal(port as nat) + path) == Ok::<
            Place,
            Failure,
        >(
            Place {
                host,
                host_header: host + seq![':'] + number::decimal(port as nat),
                port,
                path,
            },
        ),
{
    reveal_strlit("http://");
    reveal_strlit("/");
    let digits = number::decimal(port as nat);
    let host_port = host + seq![':'] + digits;
    let rest = host_port + path;
    let endpoint = "http://"@ + host + seq![':'] + digits + path;
    number::lemma_decimal(port as nat);
    assert("/"@ =~= seq!['/']);
    assert(endpoint =~= "http://"@ + rest);
    assert(endpoint.skip("http://"@.len() as int) =~= rest);
    assert forall|i: int| 0 <= i < host_port.len() implies #[trigger] host_port[i] != '/' by {
        if i < host.len() {
            assert(host.contains(host[i]));
        } else if i > host.len() {
            assert(host_port[i] == digits[i - host.len() - 1]);
        }
    }
    if path.len() > 0 {
        assert(rest =~= host_port + seq!['/'] + path.skip(1));
        text::lemma_split_first(host_port, '/', path.skip(1));
        assert("/"@ + path.skip(1) =~= path);
    } else {
        assert(rest =~= host_port);
        text::lemma_find_from(rest, "/"@, 0);
        if let Some(i) = text::find_text(rest, "/"@) {
            assert(rest.subrange(i, i + 1)[0] == host_port[i]);
            assert(false);
        }
        assert(path =~= Seq::empty());
    }
    assert(host_and_path(rest) == (host_port, path));
    assert(!digits.contains(':'));
    text::lemma_split_last(host, ':', digits);
    assert('0' <= digits[0] <= '9');
    assert(number::without_plus(digits) == digits);
}

/// A request to be sent to a host.
#[derive(Debug)]
pub struct HttpRequest {
    pub host: String,
    pub port: u16,
    pub text: String,
}

/// The meaning of an `HttpRequest`.
pub struct Sent {
    pub host: Seq<char>,
    pub port: u16,
    pub text: Seq<char>,
}

impl View for HttpRequest {
    type V = Sent;

    open spec fn view(&self) -> Sent {
        Sent { host: self.host@, port: self.port, text: self.text@ }
    }
}

/// The request line's target.
pub open spec fn target(path: Seq<char>, query: Seq<char>) -> Seq<char> {
    if path.len() == 0 {
        "/?"@ + query
    } else {
        path + "?"@ + query
    }
}

/// The request that asks an endpoint with parameters.
pub open spec fn query_sent(endpoint: Seq<char>, params: Seq<Pair>) -> Result<Sent, Failure> {
    match place_of(endpoint) {
        Err(failure) => Err(failure),
        Ok(place) => Ok(
            Sent {
                host: place.host,
                port: place.port,
                text: "GET "@ + target(place.path, query_text(params)) + " HTTP/1.1\r\nHost: "@
                    + place.host_header + "\r\nConnection: close\r\n\r\n"@,
            },
        ),
    }
}

/// The request that asks an endpoint with parameters.
pub fn query_request(endpoint: &str, params: &Vec<(String, String)>) -> (r: Result<
    HttpRequest,
    AwlError,
>)
    ensures
        told(r) == query_sent(endpoint@, params.deep_view()),
{
    let parsed = match HttpEndpoint::parse(endpoint) {
        Ok(parsed) => parsed,
        Err(error) => return Err(error),
    };
    let query = query_of(params);
    let path = if parsed.path.as_str().is_empty() {
        "/?".to_owned().concat(query.as_str())
    } else {
        parsed.path.clone().concat("?").concat(query.as_str())
    };
    let request = "GET ".to_owned().concat(path.as_str()).concat(" HTTP/1.1\r\nHost: ").concat(
        parsed.host_header.as_str(),
    ).concat("\r\nConnection: close\r\n\r\n");
    Ok(HttpRequest { host: parsed.host, port: parsed.port, text: request })
}

/// The query of a request.
fn query_of(params: &Vec<(String, String)>) -> (r: String)
    ensures
        r@ == query_text(params.deep_view()),
{
    let mut parts: Vec<String> = Vec::new();
    parts.push(query_piece("Version", "2012-11-05"));
    let mut i: usize = 0;
    while i < params.len()
        invariant
            i <= params.len(),
            parts@.len() == i + 1,
            parts@[0]@ == query_part(("Version"@, "2012-11-05"@)),
            forall|j: int|
                0 < j <= i ==> (#[trigger] parts@[j])@ == query_part(
                    (params@[j - 1].0@, params@[j - 1].1@),
                ),
        decreases params.len() - i,
    {
        parts.push(query_piece(params[i].0.as_str(), params[i].1.as_str()));
        i += 1;
    }
    assert(parts.deep_view() =~= (seq![("Version"@, "2012-11-05"@)]
        + params.deep_view()).map_values(|pair: Pair| query_part(pair)));
    text::join(parts.as_slice(), "&")
}

/// `name=value` with both in percent encoding.
fn query_piece(name: &str, value: &str) -> (r: String)
    ensures
        r@ == query_part((name@, value@)),
{
    percent_encode(name).concat("=").concat(percent_encode(value).as_str())
}

/// What stands before the first line end.
pub open spec fn first_line(s: Seq<char>) -> Seq<char> {
    match text::split_first(s, "\n"@) {
        Some((line, _)) => line,
        None => s,
    }
}

/// What a response says: its body where the status line holds ` 200 `, and
/// otherwise a refusal with the body as its message.
pub open spec fn query_answer(response: Seq<char>) -> Result<Seq<char>, Failure> {
    match text::split_first(response, "\r\n\r\n"@) {
        None => Err(Failure::Endpoint("SQS query response was not valid HTTP"@)),
        Some((head, body)) => if text::find_text(first_line(head), " 200 "@) is Some {
            Ok(body)
        } else {
            Err(Failure::Aws(body))
        },
    }
}

/// What a response says.
pub fn query_response(response: &str) -> (r: Result<String, AwlError>)
    ensures
        told(r) == query_answer(response@),
{
    match text::split_once(response, "\r\n\r\n") {
        None => Err(
            AwlError::Endpoint { message: "SQS query response was not valid HTTP".to_owned() },
        ),
        Some((head, body)) => {
            let status = match text::split_once(head, "\n") {
                Some((line, _)) => line,
                None => head,
            };
            if text::contains(status, " 200 ") {
                Ok(body.to_owned())
            } else {
                Err(AwlError::Aws { message: body.to_owned() })
            }
        },
    }
}

/// A text with the five named XML escapes undone, `&amp;` last.
pub open spec fn unescaped(s: Seq<char>) -> Seq<char> {
    let a = text::replaced(s, "&lt;"@, "<"@);
    let b = text::replaced(a, "&gt;"@, ">"@);
    let c = text::replaced(b, "&quot;"@, "\""@);
    let d = text::replaced(c, "&apos;"@, "'"@);
    text::replaced(d, "&amp;"@, "&"@)
}

/// What the first `open` and the next `close` after it enclose, and what follows.
pub open spec fn enclosed(
    xml: Seq<char>,
    open_tag: Seq<char>,
    close_tag: Seq<char>,
) -> Option<Pair> {
    match text::split_first(xml, open_tag) {
        None => None,
        Some((_, rest)) => text::split_first(rest, close_tag),
    }
}

/// What follows an element is shorter than the text that holds it.
pub proof fn lemma_enclosed(xml: Seq<char>, open_tag: Seq<char>, close_tag: Seq<char>)
    requires
        open_tag.len() > 0,
    ensures
        enclosed(xml, open_tag, close_tag) matches Some(pair) ==> pair.1.len() < xml.len(),
{
    text::lemma_find_from(xml, open_tag, 0);
    if let Some((_, rest)) = text::split_first(xml, open_tag) {
        text::lemma_find_from(rest, close_tag, 0);
    }
}

/// The opening tag of a name.
pub open spec fn opening(tag: Seq<char>) -> Seq<char> {
    "<"@ + tag + ">"@
}

/// The closing tag of a name.
pub open spec fn closing(tag: Seq<char>) -> Seq<char> {
    "</"@ + tag + ">"@
}

/// The contents of all elements with a name, from the left.
pub open spec fn elements(xml: Seq<char>, tag: Seq<char>) -> Seq<Seq<char>>
    decreases xml.len(),
{
    proof {
        reveal_strlit("<");
        lemma_enclosed(xml, opening(tag), closing(tag));
    }
    match enclosed(xml, opening(tag), closing(tag)) {
        None => Seq::empty(),
        Some((inner, after)) => seq![inner] + elements(after, tag),
    }
}

/// The text in an element: without white space at its ends, and unescaped.
pub open spec fn element_text(inner: Seq<char>) -> Seq<char> {
    unescaped(text::blank_end(text::blank_start(inner)))
}

/// The text of the first element with a name.
pub open spec fn first_value(xml: Seq<char>, tag: Seq<char>) -> Option<Seq<char>> {
    match enclosed(xml, opening(tag), closing(tag)) {
        Some((inner, _)) => Some(element_text(inner)),
        None => None,
    }
}

/// The texts of all elements with a name.
pub open spec fn all_values(xml: Seq<char>, tag: Seq<char>) -> Seq<Seq<char>> {
    elements(xml, tag).map_values(|inner: Seq<char>| element_text(inner))
}

/// The place of a character among the escaped ones, in the order in which the
/// escapes are undone; five for a character that stands for itself.
pub open spec fn escape_rank(c: char) -> int {
    if c == '<' {
        0
    } else if c == '>' {
        1
    } else if c == '"' {
        2
    } else if c == '\'' {
        3
    } else if c == '&' {
        4
    } else {
        5
    }
}

/// The escape of a place, and the character that it stands for.
pub open spec fn escape_of(rank: int) -> Pair {
    if rank == 0 {
        ("&lt;"@, "<"@)
    } else if rank == 1 {
        ("&gt;"@, ">"@)
    } else if rank == 2 {
        ("&quot;"@, "\""@)
    } else if rank == 3 {
        ("&apos;"@, "'"@)
    } else {
        ("&amp;"@, "&"@)
    }
}

/// A character, escaped where its place is not below `level`.
pub open spec fn escaped_char(c: char, level: int) -> Seq<char> {
    if level <= escape_rank(c) < 5 {
        escape_of(escape_rank(c)).0
    } else {
        seq![c]
    }
}

/// A text with the characters escaped whose place is not below `level`.
pub open spec fn escaped_from(s: Seq<char>, level: int) -> Seq<char>
    decreases s.len(),
{
    if s.len() == 0 {
        Seq::empty()
    } else {
        escaped_char(s[0], level) + escaped_from(s.skip(1), level)
    }
}

/// A text as it is written in an element: with the five named XML escapes.
pub open spec fn escaped(s: Seq<char>) -> Seq<char> {
    escaped_from(s, 0)
}

/// The escapes are different texts that begin with an ampersand and hold no other.
proof fn lemma_escapes(rank: int)
    requires
        0 <= rank < 5,
    ensures
        escape_of(rank).0.len() >= 4,
        escape_of(rank).0[0] == '&',
        escape_of(rank).0.last() == ';',
        escape_of(rank).1.len() == 1,
        escape_rank(escape_of(rank).1[0]) == rank,
        forall|i: int|
            0 < i < escape_of(rank).0.len() ==> {
                &&& #[trigger] escape_of(rank).0[i] != '&'
                &&& escape_of(rank).0[i] != '<'
            },
        escape_of(rank).0[1] == if rank == 0 {
            'l'
        } else if rank == 1 {
            'g'
        } else if rank == 2 {
            'q'
        } else {
            'a'
        },
        rank == 3 ==> escape_of(rank).0[2] == 'p',
        rank == 4 ==> escape_of(rank).0[2] == 'm',
{
    reveal_strlit("&lt;");
    reveal_strlit("&gt;");
    reveal_strlit("&quot;");
    reveal_strlit("&apos;");
    reveal_strlit("&amp;");
    reveal_strlit("<");
    reveal_strlit(">");
    reveal_strlit("\"");
    reveal_strlit("'");
    reveal_strlit("&");
}

/// Another escape stays when one is undone.
proof fn lemma_escape_stays(rank: int, level: int, k: int, rest: Seq<char>)
    requires
        0 <= level < 5,
        0 <= rank < 5,
        rank != level,
        0 <= k <= escape_of(rank).0.len(),
    ensures
        text::replaced(
            escape_of(rank).0.skip(k) + rest,
            escape_of(level).0,
            escape_of(level).1,
        ) == escape_of(rank).0.skip(k) + text::replaced(
            rest,
            escape_of(level).0,
            escape_of(level).1,
        ),
    decreases escape_of(rank).0.len() - k,
{
    let (from, to) = escape_of(level);
    let name = escape_of(rank).0;
    let part = name.skip(k);
    let s = part + rest;
    lemma_escapes(rank);
    lemma_escapes(level);
    if k == name.len() {
        assert(s =~= rest);
        assert(part + text::replaced(rest, from, to) =~= text::replaced(rest, from, to));
    } else {
        assert(s[0] == name[k]);
        if text::occurs_at(s, from, 0) {
            let found = s.subrange(0, from.len() as int);
            assert(found[0] == from[0] && found[1] == from[1] && found[2] == from[2]);
            assert(s[0] == '&');
            assert(k == 0);
            assert(s[1] == name[1] && s[2] == name[2]);
            assert(false);
        }
        text::lemma_replaced_keeps(s, from, to);
        assert(s.skip(1) =~= name.skip(k + 1) + rest);
        lemma_escape_stays(rank, level, k + 1, rest);
        assert(seq![name[k]] + (name.skip(k + 1) + text::replaced(rest, from, to)) =~= part
            + text::replaced(rest, from, to));
    }
}

/// Undoing one escape leaves the text with the later ones.
proof fn lemma_undone(s: Seq<char>, level: int)
    requires
        0 <= level < 5,
    ensures
        text::replaced(escaped_from(s, level), escape_of(level).0, escape_of(level).1)
            == escaped_from(s, level + 1),
    decreases s.len(),
{
    let (from, to) = escape_of(level);
    lemma_escapes(level);
    if s.len() == 0 {
        text::lemma_find_from(Seq::empty(), from, 0);
    } else {
        let rest = escaped_from(s.skip(1), level);
        let rank = escape_rank(s[0]);
        lemma_undone(s.skip(1), level);
        if rank == level {
            text::lemma_replaced_takes(from, to, rest);
            assert(to =~= seq![s[0]]);
        } else if level < rank < 5 {
            lemma_escape_stays(rank, level, 0, rest);
            assert(escape_of(rank).0.skip(0) =~= escape_of(rank).0);
        } else {
            let all = seq![s[0]] + rest;
            if text::occurs_at(all, from, 0) {
                assert(all.subrange(0, from.len() as int)[0] == all[0]);
                assert(false);
            }
            text::lemma_replaced_keeps(all, from, to);
            assert(all.skip(1) =~= rest);
        }
    }
}

/// Without escapes a text is itself.
proof fn lemma_nothing_escaped(s: Seq<char>)
    ensures
        escaped_from(s, 5) == s,
    decreases s.len(),
{
    if s.len() > 0 {
        lemma_nothing_escaped(s.skip(1));
        assert(seq![s[0]] + s.skip(1) =~= s);
    } else {
        assert(s =~= Seq::empty());
    }
}

/// Unescaping gives back what was escaped.
pub proof fn law_unescape_undoes_escape(s: Seq<char>)
    ensures
        unescaped(escaped(s)) == s,
{
    lemma_undone(s, 0);
    lemma_undone(s, 1);
    lemma_undone(s, 2);
    lemma_undone(s, 3);
    lemma_undone(s, 4);
    lemma_nothing_escaped(s);
}

/// An escaped text holds no `<`, and it has no white space at its ends where the
/// text has none.
proof fn lemma_escaped(s: Seq<char>)
    ensures
        !escaped(s).contains('<'),
        (s.len() == 0) == (escaped(s).len() == 0),
        s.len() > 0 && !text::whitespace(s[0]) ==> !text::whitespace(escaped(s)[0]),
        s.len() > 0 && !text::whitespace(s.last()) ==> !text::whitespace(escaped(s).last()),
    decreases s.len(),
{
    if s.len() > 0 {
        let rest = s.skip(1);
        let first = escaped_char(s[0], 0);
        lemma_escaped(rest);
        if escape_rank(s[0]) < 5 {
            lemma_escapes(escape_rank(s[0]));
        }
        assert(first.len() > 0);
        assert forall|i: int| 0 <= i < escaped(s).len() implies #[trigger] escaped(s)[i] != '<' by {
            if i >= first.len() {
                let tail = escaped(rest);
                assert(escaped(s)[i] == tail[i - first.len()]);
                assert(tail.contains(tail[i - first.len()]));
            }
        }
        assert(escaped(s)[0] == first[0]);
        if rest.len() > 0 {
            assert(rest.last() == s.last());
            assert(escaped(s).last() == escaped(rest).last());
        } else {
            assert(escaped(s) =~= first);
            assert(s.last() == s[0]);
        }
    }
}

/// The first element of a text gives back what was written in it. What has white
/// space at its ends is left out: that is dropped.
pub proof fn law_element_is_read_back(tag: Seq<char>, s: Seq<char>, after: Seq<char>)
    requires
        s.len() > 0 ==> !text::whitespace(s[0]) && !text::whitespace(s.last()),
    ensures
        first_value(opening(tag) + escaped(s) + closing(tag) + after, tag) == Some(s),
{
    let xml = opening(tag) + escaped(s) + closing(tag) + after;
    let inner = escaped(s);
    let rest = inner + closing(tag) + after;
    let n = inner.len() as int;
    reveal_strlit("<");
    reveal_strlit("</");
    lemma_escaped(s);
    law_unescape_undoes_escape(s);
    assert(xml.subrange(0, opening(tag).len() as int) =~= opening(tag));
    assert(text::occurs_at(xml, opening(tag), 0));
    assert(xml.skip(opening(tag).len() as int) =~= rest);
    assert(rest.subrange(n, n + closing(tag).len()) =~= closing(tag));
    assert(text::occurs_at(rest, closing(tag), n));
    text::lemma_find_from(rest, closing(tag), 0);
    match text::find_text(rest, closing(tag)) {
        Some(i) => {
            if i < n {
                let found = rest.subrange(i, i + closing(tag).len());
                assert(found[0] == closing(tag)[0]);
                assert(inner[i] == '<');
                assert(inner.contains(inner[i]));
            }
            assert(i == n);
        },
        None => {},
    }
    assert(rest.take(n) =~= inner);
}

/// A name that can stand in a tag.
pub open spec fn is_tag(tag: Seq<char>) -> bool {
    &&& tag.len() > 0
    &&& !tag.contains('<')
    &&& !tag.contains('>')
    &&& !tag.contains('/')
}

/// A text without white space at its ends.
pub open spec fn has_no_blank_ends(s: Seq<char>) -> bool {
    s.len() > 0 ==> !text::whitespace(s[0]) && !text::whitespace(s.last())
}

/// An element with a text in it.
pub open spec fn element(tag: Seq<char>, s: Seq<char>) -> Seq<char> {
    opening(tag) + escaped(s) + closing(tag)
}

/// Elements with texts in them, one after another.
pub open spec fn element_list(fields: Seq<Pair>) -> Seq<char>
    decreases fields.len(),
{
    if fields.len() == 0 {
        Seq::empty()
    } else {
        element(fields[0].0, fields[0].1) + element_list(fields.skip(1))
    }
}

/// Names that can stand in tags, each with a text without white space at its ends.
pub open spec fn are_fields(fields: Seq<Pair>) -> bool {
    forall|i: int|
        0 <= i < fields.len() ==> is_tag((#[trigger] fields[i]).0) && has_no_blank_ends(
            fields[i].1,
        )
}

/// The text of the first field with a name.
pub open spec fn field_value(fields: Seq<Pair>, tag: Seq<char>) -> Option<Seq<char>>
    decreases fields.len(),
{
    if fields.len() == 0 {
        None
    } else if fields[0].0 == tag {
        Some(fields[0].1)
    } else {
        field_value(fields.skip(1), tag)
    }
}

/// A text splits at the first `needle` into what was put before and after it.
proof fn lemma_split_at(head: Seq<char>, needle: Seq<char>, tail: Seq<char>)
    requires
        forall|i: int|
            0 <= i < head.len() ==> !text::occurs_at(head + needle + tail, needle, i),
    ensures
        text::split_first(head + needle + tail, needle) == Some((head, tail)),
{
    let s = head + needle + tail;
    let n = head.len() as int;
    assert(s.subrange(n, n + needle.len()) =~= needle);
    assert(text::occurs_at(s, needle, n));
    text::lemma_find_from(s, needle, 0);
    match text::find_text(s, needle) {
        Some(i) => {
            if i < n {
                assert(!text::occurs_at(s, needle, i));
            }
            assert(i == n);
        },
        None => {},
    }
    assert(s.take(n) =~= head);
    assert(s.skip(n + needle.len()) =~= tail);
}

/// What follows the first `needle` is the same with more text in front in which
/// none begins.
proof fn lemma_split_later(head: Seq<char>, needle: Seq<char>, s: Seq<char>)
    requires
        forall|i: int| 0 <= i < head.len() ==> !text::occurs_at(head + s, needle, i),
    ensures
        match (text::split_first(head + s, needle), text::split_first(s, needle)) {
            (Some((_, a)), Some((_, b))) => a == b,
            (None, None) => true,
            _ => false,
        },
{
    let all = head + s;
    let n = head.len() as int;
    text::lemma_find_from(all, needle, 0);
    text::lemma_find_from(s, needle, 0);
    assert forall|i: int| 0 <= i implies text::occurs_at(all, needle, n + i)
        == #[trigger] text::occurs_at(s, needle, i) by {
        if i + needle.len() <= s.len() {
            assert(all.subrange(n + i, n + i + needle.len()) =~= s.subrange(
                i,
                i + needle.len(),
            ));
        }
    }
    match (text::find_text(all, needle), text::find_text(s, needle)) {
        (Some(i), Some(j)) => {
            assert(i >= n);
            assert(text::occurs_at(s, needle, i - n));
            assert(text::occurs_at(all, needle, n + j));
            assert(i == n + j);
            assert(all.skip(i + needle.len()) =~= s.skip(j + needle.len()));
        },
        (Some(i), None) => {
            assert(i >= n);
            assert(text::occurs_at(s, needle, i - n));
        },
        (None, Some(j)) => {
            assert(text::occurs_at(all, needle, n + j));
        },
        (None, None) => {},
    }
}

/// In an element, and whatever follows it, no tag of another name begins within
/// the element.
proof fn lemma_no_other_tag(tag: Seq<char>, s: Seq<char>, after: Seq<char>, other: Seq<char>)
    requires
        is_tag(tag),
        is_tag(other),
        tag != other,
    ensures
        forall|i: int|
            0 <= i < element(tag, s).len() ==> !text::occurs_at(
                element(tag, s) + after,
                opening(other),
                i,
            ) && !text::occurs_at(element(tag, s) + after, closing(other), i),
{
    reveal_strlit("<");
    reveal_strlit(">");
    reveal_strlit("</");
    let inner = escaped(s);
    let all = element(tag, s) + after;
    let n = opening(tag).len() as int;
    let m = n + inner.len();
    lemma_escaped(s);
    assert forall|i: int| 0 <= i < element(tag, s).len() && i != 0 && i != m implies all[i]
        != '<' by {
        if i < n - 1 {
            assert(all[i] == tag[i - 1]);
            assert(tag.contains(tag[i - 1]));
        } else if i < n {
            assert(all[i] == '>');
        } else if i < m {
            assert(all[i] == inner[i - n]);
            assert(inner.contains(inner[i - n]));
        } else if i == m + 1 {
            assert(all[i] == '/');
        } else if i < element(tag, s).len() - 1 {
            assert(all[i] == tag[i - m - 2]);
            assert(tag.contains(tag[i - m - 2]));
        } else {
            assert(all[i] == '>');
        }
    }
    assert(all.subrange(1, n) =~= tag + seq!['>']);
    assert(all.subrange(m + 2, m + 2 + tag.len() + 1) =~= tag + seq!['>']);
    assert(all[1] == tag[0] && tag.contains(tag[0]));
    assert(other.contains(other[0]));
    assert(all[m] == '<' && all[m + 1] == '/');
    assert forall|i: int| 0 <= i < element(tag, s).len() implies !text::occurs_at(
        all,
        opening(other),
        i,
    ) && !text::occurs_at(all, closing(other), i) by {
        if text::occurs_at(all, opening(other), i) {
            let found = all.subrange(i, i + opening(other).len());
            assert(found == opening(other));
            assert(opening(other)[0] == '<');
            assert(opening(other)[1] == other[0]);
            assert(found[0] == all[i]);
            assert(found[1] == all[i + 1]);
            assert(i == 0);
            assert(found.skip(1) =~= other + seq!['>']);
            assert(all.subrange(1, other.len() as int + 2) =~= other + seq!['>']);
            lemma_same_name(all, 1, tag, other);
        }
        if text::occurs_at(all, closing(other), i) {
            let found = all.subrange(i, i + closing(other).len());
            assert(found == closing(other));
            assert(closing(other)[0] == '<');
            assert(closing(other)[1] == '/');
            assert(found[0] == all[i]);
            assert(found[1] == all[i + 1]);
            assert(i == m);
            assert(found.skip(2) =~= other + seq!['>']);
            assert(all.subrange(m + 2, m + 2 + other.len() + 1) =~= other + seq!['>']);
            lemma_same_name(all, m + 2, tag, other);
        }
    }
}

/// One name stands before a `>` at one place.
proof fn lemma_same_name(s: Seq<char>, at: int, tag: Seq<char>, other: Seq<char>)
    requires
        is_tag(tag),
        is_tag(other),
        0 <= at,
        at + tag.len() + 1 <= s.len(),
        at + other.len() + 1 <= s.len(),
        s.subrange(at, at + tag.len() + 1) == tag + seq!['>'],
        s.subrange(at, at + other.len() + 1) == other + seq!['>'],
    ensures
        tag == other,
{
    let a = s.subrange(at, at + tag.len() + 1);
    let b = s.subrange(at, at + other.len() + 1);
    if tag.len() < other.len() {
        assert(a[tag.len() as int] == '>');
        assert(b[tag.len() as int] == other[tag.len() as int]);
        assert(other.contains(other[tag.len() as int]));
    } else if other.len() < tag.len() {
        assert(b[other.len() as int] == '>');
        assert(a[other.len() as int] == tag[other.len() as int]);
        assert(tag.contains(tag[other.len() as int]));
    } else {
        assert forall|i: int| 0 <= i < tag.len() implies tag[i] == other[i] by {
            assert(a[i] == tag[i]);
            assert(b[i] == other[i]);
        }
        assert(tag =~= other);
    }
}

/// Of elements that stand one after another the first with a name gives back
/// what was written in it.
pub proof fn law_fields_are_read_back(fields: Seq<Pair>, tag: Seq<char>)
    requires
        are_fields(fields),
        is_tag(tag),
    ensures
        first_value(element_list(fields), tag) == field_value(fields, tag),
    decreases fields.len(),
{
    let all = element_list(fields);
    if fields.len() == 0 {
        reveal_strlit("<");
        assert(text::find_text(all, opening(tag)) is None);
    } else {
        let (name, s) = fields[0];
        let rest = fields.skip(1);
        assert(is_tag(name) && has_no_blank_ends(s));
        if name == tag {
            law_element_is_read_back(tag, s, element_list(rest));
        } else {
            assert forall|i: int| 0 <= i < rest.len() implies is_tag((#[trigger] rest[i]).0)
                && has_no_blank_ends(rest[i].1) by {
                assert(is_tag(fields[i + 1].0));
            }
            law_fields_are_read_back(rest, tag);
            lemma_no_other_tag(name, s, element_list(rest), tag);
            lemma_split_later(element(name, s), opening(tag), element_list(rest));
        }
    }
}

/// No tag of another name begins within elements, whatever follows them.
proof fn lemma_no_tag_within(fields: Seq<Pair>, after: Seq<char>, other: Seq<char>)
    requires
        are_fields(fields),
        is_tag(other),
        forall|i: int| 0 <= i < fields.len() ==> (#[trigger] fields[i]).0 != other,
    ensures
        forall|i: int|
            0 <= i < element_list(fields).len() ==> !text::occurs_at(
                element_list(fields) + after,
                closing(other),
                i,
            ),
    decreases fields.len(),
{
    if fields.len() > 0 {
        let (name, s) = fields[0];
        let rest = fields.skip(1);
        let first = element(name, s);
        let tail = element_list(rest) + after;
        let all = element_list(fields) + after;
        assert(is_tag(name));
        assert forall|i: int| 0 <= i < rest.len() implies is_tag((#[trigger] rest[i]).0)
            && has_no_blank_ends(rest[i].1) && rest[i].0 != other by {
            assert(is_tag(fields[i + 1].0));
        }
        lemma_no_tag_within(rest, after, other);
        lemma_no_other_tag(name, s, tail, other);
        assert(all =~= first + tail);
        assert forall|i: int| 0 <= i < element_list(fields).len() implies !text::occurs_at(
            all,
            closing(other),
            i,
        ) by {
            let k = i - first.len();
            if k >= 0 && text::occurs_at(all, closing(other), i) {
                assert(tail.subrange(k, k + closing(other).len()) =~= all.subrange(
                    i,
                    i + closing(other).len(),
                ));
                assert(text::occurs_at(tail, closing(other), k));
            }
        }
    }
}

/// A text with the five named XML escapes undone.
pub fn unescape_xml(value: &str) -> (r: String)
    ensures
        r@ == unescaped(value@),
{
    proof {
        reveal_strlit("&lt;");
        reveal_strlit("&gt;");
        reveal_strlit("&quot;");
        reveal_strlit("&apos;");
        reveal_strlit("&amp;");
    }
    let a = text::replace(value, "&lt;", "<");
    let b = text::replace(a.as_str(), "&gt;", ">");
    let c = text::replace(b.as_str(), "&quot;", "\"");
    let d = text::replace(c.as_str(), "&apos;", "'");
    text::replace(d.as_str(), "&amp;", "&")
}

/// What the first element with a name encloses, and what follows it.
fn next_element<'a>(xml: &'a str, tag: &str) -> (r: Option<(&'a str, &'a str)>)
    ensures
        r.deep_view() == enclosed(xml@, opening(tag@), closing(tag@)),
        r matches Some(pair) ==> pair.1@.len() < xml@.len(),
{
    let open_tag = "<".to_owned().concat(tag).concat(">");
    let close_tag = "</".to_owned().concat(tag).concat(">");
    proof {
        reveal_strlit("<");
        lemma_enclosed(xml@, opening(tag@), closing(tag@));
    }
    match text::split_once(xml, open_tag.as_str()) {
        None => None,
        Some((_, rest)) => {
            let r = text::split_once(rest, close_tag.as_str());
            assert(r matches Some(pair) ==> r.deep_view() == Some((pair.0@, pair.1@)));
            r
        },
    }
}

/// The text in an element.
fn trimmed_text(inner: &str) -> (r: String)
    ensures
        r@ == element_text(inner@),
{
    unescape_xml(text::trim(inner))
}

/// The text of the first element with a name.
pub fn first_tag_value(xml: &str, tag: &str) -> (r: Option<String>)
    ensures
        r.deep_view() == first_value(xml@, tag@),
{
    match next_element(xml, tag) {
        None => None,
        Some((inner, _)) => Some(trimmed_text(inner)),
    }
}

/// The texts of all elements with a name.
pub fn tag_values(xml: &str, tag: &str) -> (r: Vec<String>)
    ensures
        r.deep_view() == all_values(xml@, tag@),
{
    let mut values: Vec<String> = Vec::new();
    let mut rest: &str = xml;
    assert(values.deep_view() + all_values(xml@, tag@) =~= all_values(xml@, tag@));
    loop
        invariant
            values.deep_view() + all_values(rest@, tag@) =~= all_values(xml@, tag@),
        decreases rest@.len(),
    {
        let ghost before = values.deep_view();
        match next_element(rest, tag) {
            None => {
                assert(all_values(rest@, tag@) =~= Seq::empty());
                assert(values.deep_view() =~= all_values(xml@, tag@));
                return values;
            },
            Some((inner, after)) => {
                values.push(trimmed_text(inner));
                assert(values.deep_view() =~= before.push(element_text(inner@)));
                assert(all_values(rest@, tag@) =~= seq![element_text(inner@)] + all_values(
                    after@,
                    tag@,
                ));
                rest = after;
            },
        }
    }
}

/// A message out of a queue.
#[derive(Debug)]
pub struct MessageRow {
    pub queue_url: String,
    pub message_id: Option<String>,
    pub receipt_handle: Option<String>,
    pub body: Option<String>,
}

/// The meaning of a `MessageRow`.
pub struct Message {
    pub queue_url: Seq<char>,
    pub message_id: Option<Seq<char>>,
    pub receipt_handle: Option<Seq<char>>,
    pub body: Option<Seq<char>>,
}

impl View for MessageRow {
    type V = Message;

    open spec fn view(&self) -> Message {
        Message {
            queue_url: self.queue_url@,
            message_id: self.message_id.deep_view(),
            receipt_handle: self.receipt_handle.deep_view(),
            body: self.body.deep_view(),
        }
    }
}

/// What messages mean, one by one.
pub open spec fn messages(rows: Seq<MessageRow>) -> Seq<Message> {
    rows.map_values(|row: MessageRow| row@)
}

impl Message {
    /// The record that is shown of a message.
    pub open spec fn tree(self) -> JsonTree {
        JsonTree::Object(
            map![
                "queue_url"@ => JsonTree::Text(self.queue_url),
                "message_id"@ => json::optional_text(self.message_id),
                "receipt_handle"@ => json::optional_text(self.receipt_handle),
                "body"@ => json::optional_text(self.body),
            ],
        )
    }
}

impl MessageRow {
    /// The record that is shown of a message.
    fn json(&self) -> (r: Json)
        ensures
            r.tree() == self@.tree(),
    {
        let mut row = Fields::new();
        row.insert("queue_url", Json::text(self.queue_url.as_str()));
        row.insert("message_id", Json::optional_string(&self.message_id));
        row.insert("receipt_handle", Json::optional_string(&self.receipt_handle));
        row.insert("body", Json::optional_string(&self.body));
        Json::Object(row)
    }
}

/// The message that a `Message` element holds.
pub open spec fn message_of(queue_url: Seq<char>, inner: Seq<char>) -> Message {
    Message {
        queue_url,
        message_id: first_value(inner, "MessageId"@),
        receipt_handle: first_value(inner, "ReceiptHandle"@),
        body: first_value(inner, "Body"@),
    }
}

/// The messages of a response.
pub open spec fn messages_of(queue_url: Seq<char>, xml: Seq<char>) -> Seq<Message> {
    elements(xml, "Message"@).map_values(|inner: Seq<char>| message_of(queue_url, inner))
}

/// Messages one after another, each with its fields as elements, and what
/// follows them.
pub open spec fn message_list(replies: Seq<Seq<Pair>>, after: Seq<char>) -> Seq<char>
    decreases replies.len(),
{
    if replies.len() == 0 {
        after
    } else {
        opening("Message"@) + element_list(replies[0]) + closing("Message"@) + message_list(
            replies.skip(1),
            after,
        )
    }
}

/// Fields of messages: none of them is named as a message is.
pub open spec fn are_replies(replies: Seq<Seq<Pair>>) -> bool {
    forall|i: int|
        0 <= i < replies.len() ==> are_fields(#[trigger] replies[i]) && field_value(
            replies[i],
            "Message"@,
        ) is None
}

/// The message that has fields.
pub open spec fn message_with(queue_url: Seq<char>, fields: Seq<Pair>) -> Message {
    Message {
        queue_url,
        message_id: field_value(fields, "MessageId"@),
        receipt_handle: field_value(fields, "ReceiptHandle"@),
        body: field_value(fields, "Body"@),
    }
}

/// The first opening tag of a message stands at the end of this text, where it is
/// put there.
pub open spec fn leads_to_messages(before: Seq<char>) -> bool {
    text::find_text(before + opening("Message"@), opening("Message"@)) == Some(
        before.len() as int,
    )
}

/// A field that a list does not have stands nowhere in it.
proof fn lemma_no_field(fields: Seq<Pair>, tag: Seq<char>)
    requires
        field_value(fields, tag) is None,
    ensures
        forall|i: int| 0 <= i < fields.len() ==> (#[trigger] fields[i]).0 != tag,
    decreases fields.len(),
{
    if fields.len() > 0 {
        let rest = fields.skip(1);
        lemma_no_field(rest, tag);
        assert forall|i: int| 0 <= i < fields.len() implies (#[trigger] fields[i]).0 != tag by {
            if i > 0 {
                assert(rest[i - 1] == fields[i]);
            }
        }
    }
}

proof fn lemma_message_tags()
    ensures
        is_tag("Message"@),
        is_tag("MessageId"@),
        is_tag("ReceiptHandle"@),
        is_tag("Body"@),
{
    reveal_strlit("Message");
    reveal_strlit("MessageId");
    reveal_strlit("ReceiptHandle");
    reveal_strlit("Body");
}

/// The contents of the messages that stand one after another.
#[verifier::spinoff_prover]
proof fn lemma_message_list(replies: Seq<Seq<Pair>>, after: Seq<char>)
    requires
        are_replies(replies),
        elements(after, "Message"@) == Seq::<Seq<char>>::empty(),
    ensures
        elements(message_list(replies, after), "Message"@) == replies.map_values(
            |fields: Seq<Pair>| element_list(fields),
        ),
    decreases replies.len(),
{
    let f = |fields: Seq<Pair>| element_list(fields);
    if replies.len() == 0 {
        assert(replies.map_values(f) =~= Seq::empty());
    } else {
        let tag = "Message"@;
        let rest = replies.skip(1);
        let fields = replies[0];
        let inner = element_list(fields);
        let tail = message_list(rest, after);
        let all = message_list(replies, after);
        lemma_message_tags();
        assert(are_fields(fields) && field_value(fields, tag) is None);
        assert forall|i: int| 0 <= i < rest.len() implies are_fields(#[trigger] rest[i])
            && field_value(rest[i], tag) is None by {
            assert(are_fields(replies[i + 1]));
        }
        lemma_message_list(rest, after);
        lemma_no_field(fields, tag);
        lemma_no_tag_within(fields, closing(tag) + tail, tag);
        assert(inner + closing(tag) + tail =~= inner + (closing(tag) + tail));
        lemma_split_at(inner, closing(tag), tail);
        assert(all =~= Seq::<char>::empty() + opening(tag) + (inner + closing(tag) + tail));
        lemma_split_at(Seq::empty(), opening(tag), inner + closing(tag) + tail);
        assert(enclosed(all, opening(tag), closing(tag)) == Some((inner, tail)));
        assert(elements(all, tag) == seq![inner] + elements(tail, tag));
        assert(replies.map_values(f) =~= seq![inner] + rest.map_values(f));
    }
}

/// Messages are read back as they were written: a response that holds them, with
/// their fields as elements with escaped texts, gives each message with its
/// fields, in order. Texts with white space at their ends are left out: that is
/// dropped.
pub proof fn law_messages_are_read_back(
    queue_url: Seq<char>,
    before: Seq<char>,
    replies: Seq<Seq<Pair>>,
    after: Seq<char>,
)
    requires
        replies.len() > 0,
        are_replies(replies),
        leads_to_messages(before),
        elements(after, "Message"@) == Seq::<Seq<char>>::empty(),
    ensures
        messages_of(queue_url, before + message_list(replies, after)) == replies.map_values(
            |fields: Seq<Pair>| message_with(queue_url, fields),
        ),
{
    let tag = "Message"@;
    let list = message_list(replies, after);
    let all = before + list;
    let f = |fields: Seq<Pair>| element_list(fields);
    let contents = replies.map_values(f);
    lemma_message_tags();
    lemma_message_list(replies, after);
    text::lemma_find_from(before + opening(tag), opening(tag), 0);
    assert forall|i: int| 0 <= i < before.len() implies !text::occurs_at(
        all,
        opening(tag),
        i,
    ) by {
        let lead = before + opening(tag);
        assert(!text::occurs_at(lead, opening(tag), i));
        assert(lead.subrange(i, i + opening(tag).len()) =~= all.subrange(
            i,
            i + opening(tag).len(),
        ));
    }
    lemma_split_later(before, opening(tag), list);
    assert(enclosed(all, opening(tag), closing(tag)) == enclosed(
        list,
        opening(tag),
        closing(tag),
    ));
    assert(elements(all, tag) == elements(list, tag));
    assert forall|i: int| 0 <= i < replies.len() implies message_of(
        queue_url,
        #[trigger] contents[i],
    ) == message_with(queue_url, replies[i]) by {
        assert(are_fields(replies[i]));
        law_fields_are_read_back(replies[i], "MessageId"@);
        law_fields_are_read_back(replies[i], "ReceiptHandle"@);
        law_fields_are_read_back(replies[i], "Body"@);
    }
    assert(messages_of(queue_url, all) =~= replies.map_values(
        |fields: Seq<Pair>| message_with(queue_url, fields),
    ));
}

/// The messages of a response.
pub fn message_rows(queue_url: &str, xml: &str) -> (r: Vec<MessageRow>)
    ensures
        messages(r@) == messages_of(queue_url@, xml@),
{
    let mut rows: Vec<MessageRow> = Vec::new();
    let mut rest: &str = xml;
    assert(messages(rows@) + messages_of(queue_url@, xml@) =~= messages_of(queue_url@, xml@));
    loop
        invariant
            messages(rows@) + messages_of(queue_url@, rest@) =~= messages_of(queue_url@, xml@),
        decreases rest@.len(),
    {
        let ghost before = messages(rows@);
        match next_element(rest, "Message") {
            None => {
                assert(messages_of(queue_url@, rest@) =~= Seq::empty());
                assert(messages(rows@) =~= messages_of(queue_url@, xml@));
                return rows;
            },
            Some((inner, after)) => {
                rows.push(
                    MessageRow {
                        queue_url: queue_url.to_owned(),
                        message_id: first_tag_value(inner, "MessageId"),
                        receipt_handle: first_tag_value(inner, "ReceiptHandle"),
                        body: first_tag_value(inner, "Body"),
                    },
                );
                assert(messages(rows@) =~= before.push(message_of(queue_url@, inner@)));
                assert(messages_of(queue_url@, rest@) =~= seq![message_of(queue_url@, inner@)]
                    + messages_of(queue_url@, after@));
                rest = after;
            },
        }
    }
}

/// The attributes that a list of elements gives: each with a name, and of two
/// with one name the later.
pub open spec fn attributes_in(inners: Seq<Seq<char>>) -> Map<Seq<char>, JsonTree>
    decreases inners.len(),
{
    if inners.len() == 0 {
        Map::empty()
    } else {
        let before = attributes_in(inners.drop_last());
        match first_value(inners.last(), "Name"@) {
            None => before,
            Some(name) => before.insert(
                name,
                JsonTree::Text(
                    match first_value(inners.last(), "Value"@) {
                        Some(value) => value,
                        None => Seq::empty(),
                    },
                ),
            ),
        }
    }
}

/// The attributes of a response.
pub fn attributes_from_xml(xml: &str) -> (r: Fields)
    ensures
        r.contents() == attributes_in(elements(xml@, "Attribute"@)),
{
    let ghost all = elements(xml@, "Attribute"@);
    let ghost mut done: int = 0;
    let mut attributes = Fields::new();
    let mut rest: &str = xml;
    assert(all.skip(0) =~= all);
    assert(all.take(0) =~= Seq::empty());
    loop
        invariant
            all == elements(xml@, "Attribute"@),
            0 <= done <= all.len(),
            elements(rest@, "Attribute"@) == all.skip(done),
            attributes.contents() == attributes_in(all.take(done)),
        decreases rest@.len(),
    {
        match next_element(rest, "Attribute") {
            None => {
                assert(all.skip(done).len() == 0);
                assert(all.take(done) =~= all);
                return attributes;
            },
            Some((inner, after)) => {
                proof {
                    assert(all.skip(done) == seq![inner@] + elements(after@, "Attribute"@));
                    assert(all.skip(done)[0] == inner@);
                    assert(all[done] == inner@);
                    assert(all.skip(done + 1) =~= all.skip(done).skip(1));
                    assert(elements(after@, "Attribute"@) =~= all.skip(done).skip(1));
                    assert(all.take(done + 1).drop_last() =~= all.take(done));
                    done = done + 1;
                }
                if let Some(name) = first_tag_value(inner, "Name") {
                    let value = match first_tag_value(inner, "Value") {
                        Some(value) => value,
                        None => {
                            let none = String::new();
                            assert(none@ =~= Seq::<char>::empty());
                            none
                        },
                    };
                    attributes.insert(name.as_str(), Json::Text(value));
                }
                rest = after;
            },
        }
    }
}

/// The receipt handles of messages, in order.
pub open spec fn handles(batch: Seq<Message>) -> Seq<Seq<char>>
    decreases batch.len(),
{
    if batch.len() == 0 {
        Seq::empty()
    } else {
        match batch[0].receipt_handle {
            Some(handle) => seq![handle] + handles(batch.skip(1)),
            None => handles(batch.skip(1)),
        }
    }
}

/// What a receiving command does next.
#[derive(Debug)]
pub enum ReceiveAction {
    /// Ask the queue for messages.
    Receive,
    /// Delete the message with this receipt handle.
    Delete(String),
    /// Show the result and end.
    Show(Output),
}

/// The meaning of a `ReceiveAction`.
pub enum Receiving {
    Receive,
    Delete(Seq<char>),
    Show(Shown),
}

impl View for ReceiveAction {
    type V = Receiving;

    open spec fn view(&self) -> Receiving {
        match self {
            ReceiveAction::Receive => Receiving::Receive,
            ReceiveAction::Delete(handle) => Receiving::Delete(handle@),
            ReceiveAction::Show(output) => Receiving::Show(output@),
        }
    }
}

/// A receiving command under way: what was received before, the messages that
/// came last, and how many of these are dealt with.
#[derive(Debug)]
pub struct ReceiveLoop<'a> {
    pub args: &'a SqsReceiveArgs,
    pub queue_url: String,
    pub rows: Vec<MessageRow>,
    pub batch: Vec<MessageRow>,
    pub settled: usize,
}

/// The meaning of a `ReceiveLoop`.
pub struct Progress {
    pub delete: bool,
    pub follow: bool,
    pub queue_url: Seq<char>,
    pub rows: Seq<Message>,
    pub batch: Seq<Message>,
    pub settled: nat,
}

impl<'a> View for ReceiveLoop<'a> {
    type V = Progress;

    open spec fn view(&self) -> Progress {
        Progress {
            delete: self.args.delete,
            follow: self.args.follow,
            queue_url: self.queue_url@,
            rows: messages(self.rows@),
            batch: messages(self.batch@),
            settled: self.settled as nat,
        }
    }
}

/// The records of messages.
pub open spec fn shown_messages(rows: Seq<Message>) -> Shown {
    Shown::Many(rows.map_values(|message: Message| message.tree()))
}

impl Progress {
    /// No more messages are dealt with than came.
    pub open spec fn well_formed(self) -> bool {
        self.settled <= self.batch.len()
    }

    /// Nothing received yet.
    pub open spec fn new(delete: bool, follow: bool, queue_url: Seq<char>) -> Progress {
        Progress {
            delete,
            follow,
            queue_url,
            rows: Seq::empty(),
            batch: Seq::empty(),
            settled: 0,
        }
    }

    /// What is done about the messages that are not dealt with: where messages
    /// are to be deleted, the first with a receipt handle is deleted; otherwise
    /// the batch joins what was received before, and is shown, or followed by
    /// another.
    pub open spec fn settle(self) -> (Progress, Receiving)
        decreases self.batch.len() - self.settled,
    {
        if self.delete && self.settled < self.batch.len() {
            match self.batch[self.settled as int].receipt_handle {
                Some(handle) => (
                    Progress { settled: self.settled + 1, ..self },
                    Receiving::Delete(handle),
                ),
                None => Progress { settled: self.settled + 1, ..self }.settle(),
            }
        } else {
            let after = Progress {
                rows: self.rows + self.batch,
                batch: Seq::empty(),
                settled: 0,
                ..self
            };
            (
                after,
                if self.follow {
                    Receiving::Receive
                } else {
                    Receiving::Show(shown_messages(after.rows))
                },
            )
        }
    }

    /// What is done when messages have come.
    pub open spec fn received(self, batch: Seq<Message>) -> (Progress, Receiving) {
        Progress { batch, settled: 0, ..self }.settle()
    }

    /// What is done from here on until the queue is asked again or the command
    /// ends, where every deletion succeeds.
    pub open spec fn actions(self) -> Seq<Receiving>
        recommends
            self.well_formed(),
        decreases self.batch.len() - self.settled,
    {
        proof {
            lemma_settle(self);
        }
        let (next, action) = self.settle();
        if action is Delete {
            seq![action] + next.actions()
        } else {
            seq![action]
        }
    }
}

/// `settle` gets on with the batch where it deletes.
pub proof fn lemma_settle(progress: Progress)
    ensures
        progress.settle().1 is Delete ==> {
            let next = progress.settle().0;
            &&& progress.settled < next.settled <= progress.batch.len()
            &&& next == (Progress { settled: next.settled, ..progress })
        },
        progress.settle().0.well_formed(),
    decreases progress.batch.len() - progress.settled,
{
    if progress.delete && progress.settled < progress.batch.len()
        && progress.batch[progress.settled as int].receipt_handle is None {
        lemma_settle(Progress { settled: progress.settled + 1, ..progress });
    }
}

/// A received batch is dealt with as a whole: where messages are to be deleted,
/// each message with a receipt handle is deleted once, in the order in which the
/// messages came, and otherwise none; then the queue is asked again where the
/// command follows it, and otherwise all messages so far are shown, in order.
pub proof fn law_batch_is_settled(progress: Progress, batch: Seq<Message>)
    ensures
        ({
            let deletions = if progress.delete {
                handles(batch).map_values(|handle: Seq<char>| Receiving::Delete(handle))
            } else {
                Seq::empty()
            };
            let last = if progress.follow {
                Receiving::Receive
            } else {
                Receiving::Show(shown_messages(progress.rows + batch))
            };
            (Progress { batch, settled: 0, ..progress }).actions() == deletions.push(last)
        }),
{
    let start = Progress { batch, settled: 0, ..progress };
    lemma_actions(start);
    assert(batch.skip(0) =~= batch);
}

proof fn lemma_actions(progress: Progress)
    requires
        progress.well_formed(),
    ensures
        progress.actions() == (if progress.delete {
            handles(progress.batch.skip(progress.settled as int)).map_values(
                |handle: Seq<char>| Receiving::Delete(handle),
            )
        } else {
            Seq::empty()
        }).push(
            if progress.follow {
                Receiving::Receive
            } else {
                Receiving::Show(shown_messages(progress.rows + progress.batch))
            },
        ),
    decreases progress.batch.len() - progress.settled,
{
    lemma_settle(progress);
    let rest = progress.batch.skip(progress.settled as int);
    let last = if progress.follow {
        Receiving::Receive
    } else {
        Receiving::Show(shown_messages(progress.rows + progress.batch))
    };
    let f = |handle: Seq<char>| Receiving::Delete(handle);
    if progress.delete && progress.settled < progress.batch.len() {
        let next = Progress { settled: progress.settled + 1, ..progress };
        assert(rest.skip(1) =~= progress.batch.skip(next.settled as int));
        assert(rest[0] == progress.batch[progress.settled as int]);
        lemma_actions(next);
        match rest[0].receipt_handle {
            Some(handle) => {
                let tail = handles(rest.skip(1));
                assert((seq![handle] + tail).map_values(f) =~= seq![f(handle)] + tail.map_values(f));
                assert(progress.actions() =~= seq![f(handle)] + next.actions());
            },
            None => {
                assert(progress.settle() == next.settle());
                assert(progress.actions() == next.actions());
            },
        }
    } else {
        if progress.delete {
            assert(rest.len() == 0);
            assert(handles(rest).map_values(f) =~= Seq::empty());
        }
        assert(progress.actions() =~= Seq::empty().push(last));
    }
}

/// The records of messages.
fn message_output(rows: &Vec<MessageRow>) -> (r: Output)
    ensures
        r@ == shown_messages(messages(rows@)),
{
    let mut out: Vec<Json> = Vec::new();
    let mut i: usize = 0;
    while i < rows.len()
        invariant
            i <= rows.len(),
            out@.len() == i,
            forall|j: int| 0 <= j < i ==> (#[trigger] out@[j]).tree() == rows@[j]@.tree(),
        decreases rows.len() - i,
    {
        out.push(rows[i].json());
        i += 1;
    }
    assert(json::trees(out@) =~= messages(rows@).map_values(|message: Message| message.tree()));
    Output::Many(out)
}

impl<'a> ReceiveLoop<'a> {
    /// Nothing received yet.
    pub fn new(args: &'a SqsReceiveArgs, queue_url: String) -> (r: ReceiveLoop<'a>)
        ensures
            r.args == args,
            r@ == Progress::new(args.delete, args.follow, queue_url@),
            r@.well_formed(),
    {
        let r = ReceiveLoop { args, queue_url, rows: Vec::new(), batch: Vec::new(), settled: 0 };
        assert(messages(r.rows@) =~= Seq::empty());
        assert(messages(r.batch@) =~= Seq::empty());
        r
    }

    /// What is done about the messages that are not dealt with.
    fn settle(&mut self) -> (r: ReceiveAction)
        requires
            old(self)@.well_formed(),
        ensures
            final(self).args == old(self).args,
            (final(self)@, r@) == old(self)@.settle(),
            final(self)@.well_formed(),
    {
        proof {
            lemma_settle(self@);
        }
        while self.args.delete && self.settled < self.batch.len()
            invariant
                self.args == old(self).args,
                self@.well_formed(),
                self@.settle() == old(self)@.settle(),
                old(self)@.settle().0.well_formed(),
            decreases self.batch@.len() - self.settled,
        {
            let at: usize = self.settled;
            let ghost before = self@;
            self.settled = at + 1;
            assert(before.batch[at as int] == self.batch@[at as int]@);
            assert(self@ == Progress { settled: before.settled + 1, ..before });
            if let Some(handle) = &self.batch[at].receipt_handle {
                return ReceiveAction::Delete(handle.clone());
            }
        }
        let ghost before = self@;
        self.rows.append(&mut self.batch);
        self.settled = 0;
        assert(messages(self.rows@) =~= before.rows + before.batch);
        assert(messages(self.batch@) =~= Seq::empty());
        if self.args.follow {
            ReceiveAction::Receive
        } else {
            ReceiveAction::Show(message_output(&self.rows))
        }
    }

    /// What is done when messages have come.
    pub fn received(&mut self, batch: Vec<MessageRow>) -> (r: ReceiveAction)
        ensures
            final(self).args == old(self).args,
            (final(self)@, r@) == old(self)@.received(messages(batch@)),
            final(self)@.well_formed(),
    {
        self.batch = batch;
        self.settled = 0;
        self.settle()
    }

    /// What is done when a deletion has succeeded.
    pub fn deleted(&mut self) -> (r: ReceiveAction)
        requires
            old(self)@.well_formed(),
        ensures
            final(self).args == old(self).args,
            (final(self)@, r@) == old(self)@.settle(),
            final(self)@.well_formed(),
    {
        self.settle()
    }
}

/// A command that works on one queue.
#[derive(Debug)]
pub enum QueueUse<'a> {
    Send(&'a SqsSendArgs),
    Receive(&'a SqsReceiveArgs),
    Purge(&'a SqsQueueArg),
    Attrs(&'a SqsQueueArg),
    Url(&'a SqsUrlArgs),
}

impl<'a> QueueUse<'a> {
    /// The queue as it was named.
    pub open spec fn queue(self) -> Seq<char> {
        match self {
            QueueUse::Send(args) => args.queue@,
            QueueUse::Receive(args) => args.queue@,
            QueueUse::Purge(args) => args.queue@,
            QueueUse::Attrs(args) => args.queue@,
            QueueUse::Url(args) => args.queue_name@,
        }
    }

    /// The queue as it was named.
    fn queue_text(&self) -> (r: &str)
        ensures
            r@ == self.queue(),
    {
        match self {
            QueueUse::Send(args) => args.queue.as_str(),
            QueueUse::Receive(args) => args.queue.as_str(),
            QueueUse::Purge(args) => args.queue.as_str(),
            QueueUse::Attrs(args) => args.queue.as_str(),
            QueueUse::Url(args) => args.queue_name.as_str(),
        }
    }
}

/// A query command under way.
#[derive(Debug)]
pub enum QueryRun<'a> {
    /// Waiting for the list of queues.
    Listing,
    /// Waiting for the URL of the queue.
    Resolving(QueueUse<'a>),
    /// Waiting for the body of the message.
    ReadingBody { args: &'a SqsSendArgs, queue_url: String },
    /// Waiting for the message to be taken.
    Sending { queue_url: String },
    /// Waiting for messages.
    Receiving(ReceiveLoop<'a>),
    /// Waiting for a message to be deleted.
    Deleting(ReceiveLoop<'a>),
    /// Waiting for the queue to be purged.
    Purging { queue_url: String },
    /// Waiting for the attributes of the queue.
    Attributes { queue_url: String },
    /// At its end.
    Finished,
}

/// The meaning of a `QueryRun`.
pub enum Phase<'a> {
    Listing,
    Resolving(QueueUse<'a>),
    ReadingBody(SqsSendArgs, Seq<char>),
    Sending(Seq<char>),
    Receiving(SqsReceiveArgs, Progress),
    Deleting(SqsReceiveArgs, Progress),
    Purging(Seq<char>),
    Attributes(Seq<char>),
    Finished,
}

impl<'a> View for QueryRun<'a> {
    type V = Phase<'a>;

    open spec fn view(&self) -> Phase<'a> {
        match self {
            QueryRun::Listing => Phase::Listing,
            QueryRun::Resolving(job) => Phase::Resolving(*job),
            QueryRun::ReadingBody { args, queue_url } => Phase::ReadingBody(**args, queue_url@),
            QueryRun::Sending { queue_url } => Phase::Sending(queue_url@),
            QueryRun::Receiving(progress) => Phase::Receiving(*progress.args, progress@),
            QueryRun::Deleting(progress) => Phase::Deleting(*progress.args, progress@),
            QueryRun::Purging { queue_url } => Phase::Purging(queue_url@),
            QueryRun::Attributes { queue_url } => Phase::Attributes(queue_url@),
            QueryRun::Finished => Phase::Finished,
        }
    }
}

/// What a query command does next.
#[derive(Debug)]
pub enum QueryAction {
    /// Ask the endpoint with these parameters.
    Request(Vec<(String, String)>),
    /// Read the body of the message from standard input.
    ReadBody,
    /// Show the result and end.
    Show(Output),
}

/// The meaning of a `QueryAction`.
pub enum Doing {
    Request(Seq<Pair>),
    ReadBody,
    Show(Shown),
}

impl View for QueryAction {
    type V = Doing;

    open spec fn view(&self) -> Doing {
        match self {
            QueryAction::Request(params) => Doing::Request(params.deep_view()),
            QueryAction::ReadBody => Doing::ReadBody,
            QueryAction::Show(output) => Doing::Show(output@),
        }
    }
}

/// A queue that is named by its URL.
pub open spec fn is_url(queue: Seq<char>) -> bool {
    "http://"@.is_prefix_of(queue) || "https://"@.is_prefix_of(queue)
}

/// A parameter, where it has a value.
pub open spec fn optional_param(name: Seq<char>, value: Option<Seq<char>>) -> Seq<Pair> {
    match value {
        Some(value) => seq![(name, value)],
        None => Seq::empty(),
    }
}

/// The decimal text of a number, where there is one.
pub open spec fn optional_number(value: Option<i32>) -> Option<Seq<char>> {
    match value {
        Some(n) => Some(number::signed_decimal(n as int)),
        None => None,
    }
}

/// The parameters of the first `n` message attributes, numbered from 1.
pub open spec fn attribute_params(attributes: Seq<Pair>, n: nat) -> Seq<Pair>
    decreases n,
{
    if n == 0 {
        Seq::empty()
    } else {
        let prefix = "MessageAttribute."@ + number::decimal(n);
        attribute_params(attributes, (n - 1) as nat) + seq![
            (prefix + ".Name"@, attributes[n - 1].0),
            (prefix + ".Value.DataType"@, "String"@),
            (prefix + ".Value.StringValue"@, attributes[n - 1].1),
        ]
    }
}

/// The parameters that list queues.
pub open spec fn list_params(prefix: Option<Seq<char>>) -> Seq<Pair> {
    seq![("Action"@, "ListQueues"@)] + optional_param("QueueNamePrefix"@, prefix)
}

/// The parameters that ask for the URL of a queue.
pub open spec fn resolve_params(queue: Seq<char>) -> Seq<Pair> {
    seq![("Action"@, "GetQueueUrl"@), ("QueueName"@, queue)]
}

/// The parameters that send a message.
pub open spec fn send_params(
    args: SqsSendArgs,
    queue_url: Seq<char>,
    body: Seq<char>,
) -> Seq<Pair> {
    seq![("Action"@, "SendMessage"@), ("QueueUrl"@, queue_url), ("MessageBody"@, body)]
        + optional_param("DelaySeconds"@, optional_number(args.delay)) + optional_param(
        "MessageGroupId"@,
        args.group_id.deep_view(),
    ) + optional_param("MessageDeduplicationId"@, args.dedup_id.deep_view()) + attribute_params(
        args.attribute.deep_view(),
        args.attribute@.len(),
    )
}

/// The parameters that ask for messages.
pub open spec fn receive_params(args: SqsReceiveArgs, queue_url: Seq<char>) -> Seq<Pair> {
    seq![
        ("Action"@, "ReceiveMessage"@),
        ("QueueUrl"@, queue_url),
        ("MaxNumberOfMessages"@, number::signed_decimal(args.max as int)),
        ("WaitTimeSeconds"@, number::signed_decimal(args.wait as int)),
    ] + optional_param("VisibilityTimeout"@, optional_number(args.visibility))
}

/// The parameters that delete a message.
pub open spec fn delete_params(queue_url: Seq<char>, handle: Seq<char>) -> Seq<Pair> {
    seq![("Action"@, "DeleteMessage"@), ("QueueUrl"@, queue_url), ("ReceiptHandle"@, handle)]
}

/// The parameters that purge a queue.
pub open spec fn purge_params(queue_url: Seq<char>) -> Seq<Pair> {
    seq![("Action"@, "PurgeQueue"@), ("QueueUrl"@, queue_url)]
}

/// The parameters that ask for the attributes of a queue.
pub open spec fn attributes_params(queue_url: Seq<char>) -> Seq<Pair> {
    seq![
        ("Action"@, "GetQueueAttributes"@),
        ("QueueUrl"@, queue_url),
        ("AttributeName"@, "All"@),
    ]
}

/// The record of a queue.
pub open spec fn queue_tree(queue_url: Seq<char>) -> JsonTree {
    JsonTree::Object(map!["queue_url"@ => JsonTree::Text(queue_url)])
}

/// The records of queues.
pub open spec fn queue_list(urls: Seq<Seq<char>>) -> Shown {
    Shown::Many(urls.map_values(|url: Seq<char>| queue_tree(url)))
}

/// The record of a message that was sent.
pub open spec fn sent_tree(
    queue_url: Seq<char>,
    message_id: Option<Seq<char>>,
    md5: Option<Seq<char>>,
) -> JsonTree {
    JsonTree::Object(
        map![
            "queue_url"@ => JsonTree::Text(queue_url),
            "message_id"@ => json::optional_text(message_id),
            "md5_of_body"@ => json::optional_text(md5),
        ],
    )
}

/// The record of a purged queue.
pub open spec fn purged_tree(queue_url: Seq<char>) -> JsonTree {
    JsonTree::Object(
        map!["queue_url"@ => JsonTree::Text(queue_url), "purged"@ => JsonTree::Bool(true)],
    )
}

/// The record of a queue's attributes.
pub open spec fn attributes_tree(
    queue_url: Seq<char>,
    attributes: Map<Seq<char>, JsonTree>,
) -> JsonTree {
    JsonTree::Object(
        map![
            "queue_url"@ => JsonTree::Text(queue_url),
            "attributes"@ => JsonTree::Object(attributes),
        ],
    )
}

/// The record of a queue's URL.
pub open spec fn url_tree(queue_name: Seq<char>, queue_url: Seq<char>) -> JsonTree {
    JsonTree::Object(
        map![
            "queue_name"@ => JsonTree::Text(queue_name),
            "queue_url"@ => JsonTree::Text(queue_url),
        ],
    )
}

/// How a command on a queue goes on when the queue's URL is known.
pub open spec fn proceeding<'a>(job: QueueUse<'a>, queue_url: Seq<char>) -> (Phase<'a>, Doing) {
    match job {
        QueueUse::Send(args) => if args.body@ == "-"@ {
            (Phase::ReadingBody(*args, queue_url), Doing::ReadBody)
        } else {
            (
                Phase::Sending(queue_url),
                Doing::Request(send_params(*args, queue_url, args.body@)),
            )
        },
        QueueUse::Receive(args) => (
            Phase::Receiving(*args, Progress::new(args.delete, args.follow, queue_url)),
            Doing::Request(receive_params(*args, queue_url)),
        ),
        QueueUse::Purge(_) => (
            Phase::Purging(queue_url),
            Doing::Request(purge_params(queue_url)),
        ),
        QueueUse::Attrs(_) => (
            Phase::Attributes(queue_url),
            Doing::Request(attributes_params(queue_url)),
        ),
        QueueUse::Url(args) => (
            Phase::Finished,
            Doing::Show(Shown::One(url_tree(args.queue_name@, queue_url))),
        ),
    }
}

/// How a command on a queue begins: a queue that is not named by its URL is
/// looked up.
pub open spec fn resolving<'a>(job: QueueUse<'a>) -> (Phase<'a>, Doing) {
    if is_url(job.queue()) {
        proceeding(job, job.queue())
    } else {
        (Phase::Resolving(job), Doing::Request(resolve_params(job.queue())))
    }
}

/// How a command begins.
pub open spec fn beginning<'a>(command: &'a SqsSubcommand) -> (Phase<'a>, Doing) {
    match command {
        SqsSubcommand::Ls(args) => (
            Phase::Listing,
            Doing::Request(list_params(args.prefix.deep_view())),
        ),
        SqsSubcommand::Send(args) => resolving(QueueUse::Send(args)),
        SqsSubcommand::Receive(args) => resolving(QueueUse::Receive(args)),
        SqsSubcommand::Purge(args) => resolving(QueueUse::Purge(args)),
        SqsSubcommand::Attrs(args) => resolving(QueueUse::Attrs(args)),
        SqsSubcommand::Url(args) => resolving(QueueUse::Url(args)),
    }
}

/// How a receiving command goes on.
pub open spec fn receiving<'a>(args: SqsReceiveArgs, step: (Progress, Receiving)) -> (
    Phase<'a>,
    Doing,
) {
    match step.1 {
        Receiving::Receive => (
            Phase::Receiving(args, step.0),
            Doing::Request(receive_params(args, step.0.queue_url)),
        ),
        Receiving::Delete(handle) => (
            Phase::Deleting(args, step.0),
            Doing::Request(delete_params(step.0.queue_url, handle)),
        ),
        Receiving::Show(shown) => (Phase::Finished, Doing::Show(shown)),
    }
}

impl<'a> Phase<'a> {
    /// How a command goes on when an answer has come: the body of a response, or
    /// what was read.
    pub open spec fn next(self, answer: Seq<char>) -> (Phase<'a>, Doing) {
        match self {
            Phase::Listing => (
                Phase::Finished,
                Doing::Show(queue_list(all_values(answer, "QueueUrl"@))),
            ),
            Phase::Resolving(job) => proceeding(
                job,
                match first_value(answer, "QueueUrl"@) {
                    Some(url) => url,
                    None => job.queue(),
                },
            ),
            Phase::ReadingBody(args, queue_url) => (
                Phase::Sending(queue_url),
                Doing::Request(send_params(args, queue_url, answer)),
            ),
            Phase::Sending(queue_url) => (
                Phase::Finished,
                Doing::Show(
                    Shown::One(
                        sent_tree(
                            queue_url,
                            first_value(answer, "MessageId"@),
                            first_value(answer, "MD5OfMessageBody"@),
                        ),
                    ),
                ),
            ),
            Phase::Receiving(args, progress) => receiving(
                args,
                progress.received(messages_of(progress.queue_url, answer)),
            ),
            Phase::Deleting(args, progress) => receiving(args, progress.settle()),
            Phase::Purging(queue_url) => (
                Phase::Finished,
                Doing::Show(Shown::One(purged_tree(queue_url))),
            ),
            Phase::Attributes(queue_url) => (
                Phase::Finished,
                Doing::Show(
                    Shown::One(
                        attributes_tree(
                            queue_url,
                            attributes_in(elements(answer, "Attribute"@)),
                        ),
                    ),
                ),
            ),
            Phase::Finished => (Phase::Finished, Doing::Show(Shown::Empty)),
        }
    }

    /// A command that receives deals with no more messages than came.
    pub open spec fn well_formed(self) -> bool {
        match self {
            Phase::Receiving(_, progress) => progress.well_formed(),
            Phase::Deleting(_, progress) => progress.well_formed(),
            _ => true,
        }
    }
}

/// Adds a parameter.
fn add_param(params: &mut Vec<(String, String)>, name: &str, value: &str)
    ensures
        final(params).deep_view() == old(params).deep_view().push((name@, value@)),
{
    params.push((name.to_owned(), value.to_owned()));
    assert(params.deep_view() =~= old(params).deep_view().push((name@, value@)));
}

/// Adds a parameter where it has a value.
fn add_optional(params: &mut Vec<(String, String)>, name: &str, value: &Option<String>)
    ensures
        final(params).deep_view() == old(params).deep_view() + optional_param(
            name@,
            value.deep_view(),
        ),
{
    if let Some(value) = value {
        add_param(params, name, value.as_str());
    }
    assert(params.deep_view() =~= old(params).deep_view() + optional_param(
        name@,
        value.deep_view(),
    ));
}

/// The decimal text of a number, where there is one.
fn number_param(value: Option<i32>) -> (r: Option<String>)
    ensures
        r.deep_view() == optional_number(value),
{
    match value {
        Some(n) => Some(number::i64_text(n as i64)),
        None => None,
    }
}

/// No parameters.
fn no_params() -> (r: Vec<(String, String)>)
    ensures
        r.deep_view() == Seq::<Pair>::empty(),
{
    let r: Vec<(String, String)> = Vec::new();
    assert(r.deep_view() =~= Seq::<Pair>::empty());
    r
}

/// Adds the parameters of the message attributes, numbered from 1.
fn add_attributes(params: &mut Vec<(String, String)>, attributes: &Vec<(String, String)>)
    ensures
        final(params).deep_view() == old(params).deep_view() + attribute_params(
            attributes.deep_view(),
            attributes@.len(),
        ),
{
    let ghost before = params.deep_view();
    let mut i: usize = 0;
    assert(before + attribute_params(attributes.deep_view(), 0) =~= before);
    while i < attributes.len()
        invariant
            i <= attributes.len(),
            params.deep_view() == before + attribute_params(attributes.deep_view(), i as nat),
        decreases attributes.len() - i,
    {
        let prefix = "MessageAttribute.".to_owned().concat(
            number::u64_text(i as u64 + 1).as_str(),
        );
        add_param(params, prefix.clone().concat(".Name").as_str(), attributes[i].0.as_str());
        add_param(params, prefix.clone().concat(".Value.DataType").as_str(), "String");
        add_param(
            params,
            prefix.clone().concat(".Value.StringValue").as_str(),
            attributes[i].1.as_str(),
        );
        proof {
            let all = attributes.deep_view();
            assert(all[i as int] == (attributes@[i as int].0@, attributes@[i as int].1@));
            assert(before + attribute_params(all, (i + 1) as nat) =~= params.deep_view());
        }
        i += 1;
    }
}

/// The parameters that send a message.
fn send_request(args: &SqsSendArgs, queue_url: &str, body: &str) -> (r: Vec<(String, String)>)
    ensures
        r.deep_view() == send_params(*args, queue_url@, body@),
{
    let mut params = no_params();
    add_param(&mut params, "Action", "SendMessage");
    add_param(&mut params, "QueueUrl", queue_url);
    add_param(&mut params, "MessageBody", body);
    assert(params.deep_view() =~= seq![
        ("Action"@, "SendMessage"@),
        ("QueueUrl"@, queue_url@),
        ("MessageBody"@, body@),
    ]);
    add_optional(&mut params, "DelaySeconds", &number_param(args.delay));
    add_optional(&mut params, "MessageGroupId", &args.group_id);
    add_optional(&mut params, "MessageDeduplicationId", &args.dedup_id);
    add_attributes(&mut params, &args.attribute);
    params
}

/// The parameters that ask for messages.
fn receive_request(args: &SqsReceiveArgs, queue_url: &str) -> (r: Vec<(String, String)>)
    ensures
        r.deep_view() == receive_params(*args, queue_url@),
{
    let mut params = no_params();
    add_param(&mut params, "Action", "ReceiveMessage");
    add_param(&mut params, "QueueUrl", queue_url);
    add_param(&mut params, "MaxNumberOfMessages", number::i64_text(args.max as i64).as_str());
    add_param(&mut params, "WaitTimeSeconds", number::i64_text(args.wait as i64).as_str());
    assert(params.deep_view() =~= seq![
        ("Action"@, "ReceiveMessage"@),
        ("QueueUrl"@, queue_url@),
        ("MaxNumberOfMessages"@, number::signed_decimal(args.max as int)),
        ("WaitTimeSeconds"@, number::signed_decimal(args.wait as int)),
    ]);
    add_optional(&mut params, "VisibilityTimeout", &number_param(args.visibility));
    params
}

/// The records of queues.
pub fn queue_rows(urls: &Vec<String>) -> (r: Output)
    ensures
        r@ == queue_list(urls.deep_view()),
{
    let mut rows: Vec<Json> = Vec::new();
    let mut i: usize = 0;
    while i < urls.len()
        invariant
            i <= urls.len(),
            rows@.len() == i,
            forall|j: int| 0 <= j < i ==> (#[trigger] rows@[j]).tree() == queue_tree(urls@[j]@),
        decreases urls.len() - i,
    {
        let mut row = Fields::new();
        row.insert("queue_url", Json::text(urls[i].as_str()));
        rows.push(Json::Object(row));
        i += 1;
    }
    assert(json::trees(rows@) =~= urls.deep_view().map_values(|url: Seq<char>| queue_tree(url)));
    Output::Many(rows)
}

/// The record of a message that was sent.
pub fn send_row(queue_url: &str, message_id: &Option<String>, md5_of_body: &Option<String>) -> (r:
    Output)
    ensures
        r@ == Shown::One(
            sent_tree(queue_url@, message_id.deep_view(), md5_of_body.deep_view()),
        ),
{
    let mut row = Fields::new();
    row.insert("queue_url", Json::text(queue_url));
    row.insert("message_id", Json::optional_string(message_id));
    row.insert("md5_of_body", Json::optional_string(md5_of_body));
    Output::One(Json::Object(row))
}

/// The record of a purged queue.
pub fn purge_row(queue_url: &str) -> (r: Output)
    ensures
        r@ == Shown::One(purged_tree(queue_url@)),
{
    let mut row = Fields::new();
    row.insert("queue_url", Json::text(queue_url));
    row.insert("purged", Json::Bool(true));
    Output::One(Json::Object(row))
}

/// The record of a queue's attributes.
pub fn attributes_row(queue_url: &str, attributes: Fields) -> (r: Output)
    ensures
        r@ == Shown::One(attributes_tree(queue_url@, attributes.contents())),
{
    let mut row = Fields::new();
    row.insert("queue_url", Json::text(queue_url));
    row.insert("attributes", Json::Object(attributes));
    Output::One(Json::Object(row))
}

/// The record of a queue's URL.
pub fn url_row(queue_name: &str, queue_url: &str) -> (r: Output)
    ensures
        r@ == Shown::One(url_tree(queue_name@, queue_url@)),
{
    let mut row = Fields::new();
    row.insert("queue_name", Json::text(queue_name));
    row.insert("queue_url", Json::text(queue_url));
    Output::One(Json::Object(row))
}

/// The URL of a queue that is named by it.
pub fn direct_url(queue: &str) -> (r: Option<String>)
    ensures
        r.deep_view() == (if is_url(queue@) {
            Some(queue@)
        } else {
            None
        }),
{
    if text::starts_with(queue, "http://") || text::starts_with(queue, "https://") {
        Some(queue.to_owned())
    } else {
        None
    }
}

/// Whether the body of a message is to be read from standard input.
pub fn body_is_read(body: &str) -> (r: bool)
    ensures
        r == (body@ == "-"@),
{
    text::same(body, "-")
}

impl<'a> QueryRun<'a> {
    /// How a command begins.
    pub fn start(command: &'a SqsSubcommand) -> (r: (QueryRun<'a>, QueryAction))
        ensures
            (r.0@, r.1@) == beginning(command),
            r.0@.well_formed(),
    {
        match command {
            SqsSubcommand::Ls(args) => {
                let mut params = no_params();
                add_param(&mut params, "Action", "ListQueues");
                assert(params.deep_view() =~= seq![("Action"@, "ListQueues"@)]);
                add_optional(&mut params, "QueueNamePrefix", &args.prefix);
                (QueryRun::Listing, QueryAction::Request(params))
            },
            SqsSubcommand::Send(args) => QueryRun::resolve_queue(QueueUse::Send(args)),
            SqsSubcommand::Receive(args) => QueryRun::resolve_queue(QueueUse::Receive(args)),
            SqsSubcommand::Purge(args) => QueryRun::resolve_queue(QueueUse::Purge(args)),
            SqsSubcommand::Attrs(args) => QueryRun::resolve_queue(QueueUse::Attrs(args)),
            SqsSubcommand::Url(args) => QueryRun::resolve_queue(QueueUse::Url(args)),
        }
    }

    /// How a command on a queue begins.
    pub fn resolve_queue(job: QueueUse<'a>) -> (r: (QueryRun<'a>, QueryAction))
        ensures
            (r.0@, r.1@) == resolving(job),
            r.0@.well_formed(),
    {
        match direct_url(job.queue_text()) {
            Some(url) => QueryRun::proceed(job, url),
            None => {
                let mut params = no_params();
                add_param(&mut params, "Action", "GetQueueUrl");
                add_param(&mut params, "QueueName", job.queue_text());
                assert(params.deep_view() =~= resolve_params(job.queue()));
                (QueryRun::Resolving(job), QueryAction::Request(params))
            },
        }
    }

    /// How a command on a queue goes on when the queue's URL is known.
    fn proceed(job: QueueUse<'a>, queue_url: String) -> (r: (QueryRun<'a>, QueryAction))
        ensures
            (r.0@, r.1@) == proceeding(job, queue_url@),
            r.0@.well_formed(),
    {
        match job {
            QueueUse::Send(args) => {
                if body_is_read(args.body.as_str()) {
                    (QueryRun::ReadingBody { args, queue_url }, QueryAction::ReadBody)
                } else {
                    let params = send_request(args, queue_url.as_str(), args.body.as_str());
                    (QueryRun::Sending { queue_url }, QueryAction::Request(params))
                }
            },
            QueueUse::Receive(args) => {
                let params = receive_request(args, queue_url.as_str());
                (
                    QueryRun::Receiving(ReceiveLoop::new(args, queue_url)),
                    QueryAction::Request(params),
                )
            },
            QueueUse::Purge(_) => {
                let mut params = no_params();
                add_param(&mut params, "Action", "PurgeQueue");
                add_param(&mut params, "QueueUrl", queue_url.as_str());
                assert(params.deep_view() =~= purge_params(queue_url@));
                (QueryRun::Purging { queue_url }, QueryAction::Request(params))
            },
            QueueUse::Attrs(_) => {
                let mut params = no_params();
                add_param(&mut params, "Action", "GetQueueAttributes");
                add_param(&mut params, "QueueUrl", queue_url.as_str());
                add_param(&mut params, "AttributeName", "All");
                assert(params.deep_view() =~= attributes_params(queue_url@));
                (QueryRun::Attributes { queue_url }, QueryAction::Request(params))
            },
            QueueUse::Url(args) => (
                QueryRun::Finished,
                QueryAction::Show(url_row(args.queue_name.as_str(), queue_url.as_str())),
            ),
        }
    }

    /// How a receiving command goes on.
    fn receive(progress: ReceiveLoop<'a>, action: ReceiveAction) -> (r: (
        QueryRun<'a>,
        QueryAction,
    ))
        requires
            progress@.well_formed(),
        ensures
            (r.0@, r.1@) == receiving::<'a>(*progress.args, (progress@, action@)),
            r.0@.well_formed(),
    {
        match action {
            ReceiveAction::Receive => {
                let params = receive_request(progress.args, progress.queue_url.as_str());
                (QueryRun::Receiving(progress), QueryAction::Request(params))
            },
            ReceiveAction::Delete(handle) => {
                let mut params = no_params();
                add_param(&mut params, "Action", "DeleteMessage");
                add_param(&mut params, "QueueUrl", progress.queue_url.as_str());
                add_param(&mut params, "ReceiptHandle", handle.as_str());
                assert(params.deep_view() =~= delete_params(progress.queue_url@, handle@));
                (QueryRun::Deleting(progress), QueryAction::Request(params))
            },
            ReceiveAction::Show(output) => (QueryRun::Finished, QueryAction::Show(output)),
        }
    }

    /// How a command goes on when an answer has come.
    pub fn next(self, answer: &str) -> (r: (QueryRun<'a>, QueryAction))
        requires
            !(self is Finished),
            self@.well_formed(),
        ensures
            (r.0@, r.1@) == self@.next(answer@),
            r.0@.well_formed(),
    {
        match self {
            QueryRun::Listing => (
                QueryRun::Finished,
                QueryAction::Show(queue_rows(&tag_values(answer, "QueueUrl"))),
            ),
            QueryRun::Resolving(job) => {
                let url = match first_tag_value(answer, "QueueUrl") {
                    Some(url) => url,
                    None => job.queue_text().to_owned(),
                };
                QueryRun::proceed(job, url)
            },
            QueryRun::ReadingBody { args, queue_url } => {
                let params = send_request(args, queue_url.as_str(), answer);
                (QueryRun::Sending { queue_url }, QueryAction::Request(params))
            },
            QueryRun::Sending { queue_url } => (
                QueryRun::Finished,
                QueryAction::Show(
                    send_row(
                        queue_url.as_str(),
                        &first_tag_value(answer, "MessageId"),
                        &first_tag_value(answer, "MD5OfMessageBody"),
                    ),
                ),
            ),
            QueryRun::Receiving(progress) => {
                let mut progress = progress;
                let batch = message_rows(progress.queue_url.as_str(), answer);
                let action = progress.received(batch);
                QueryRun::receive(progress, action)
            },
            QueryRun::Deleting(progress) => {
                let mut progress = progress;
                let action = progress.deleted();
                QueryRun::receive(progress, action)
            },
            QueryRun::Purging { queue_url } => (
                QueryRun::Finished,
                QueryAction::Show(purge_row(queue_url.as_str())),
            ),
            QueryRun::Attributes { queue_url } => (
                QueryRun::Finished,
                QueryAction::Show(attributes_row(queue_url.as_str(), attributes_from_xml(answer))),
            ),
            QueryRun::Finished => (QueryRun::Finished, QueryAction::Show(Output::Empty)),
        }
    }
}

/// The query interface of an endpoint.
#[derive(Debug)]
pub struct QuerySqs {
    pub endpoint: String,
}

impl QuerySqs {
    /// The query interface of an endpoint.
    pub fn new(endpoint: String) -> (r: QuerySqs)
        ensures
            r.endpoint == endpoint,
    {
        QuerySqs { endpoint }
    }

    /// How a command begins on this interface.
    pub fn run<'a>(&self, command: &'a SqsSubcommand) -> (r: (QueryRun<'a>, QueryAction))
        ensures
            (r.0@, r.1@) == beginning(command),
            r.0@.well_formed(),
    {
        QueryRun::start(command)
    }

    /// The request that asks the endpoint with parameters.
    pub fn request(&self, params: &Vec<(String, String)>) -> (r: Result<HttpRequest, AwlError>)
        ensures
            told(r) == query_sent(self.endpoint@, params.deep_view()),
    {
        query_request(self.endpoint.as_str(), params)
    }
}

/// The endpoint at which the query interface is used: that of the command line,
/// or else of `AWS_ENDPOINT_URL_SQS`, or else of `AWS_ENDPOINT_URL`. The two
/// variables' values are given.
pub fn endpoint_for_sqs(
    globals: &Globals,
    service_value: Option<String>,
    general_value: Option<String>,
) -> (r: Option<String>)
    ensures
        r.deep_view() == client::first_of(
            globals.endpoint_url.deep_view(),
            client::first_of(service_value.deep_view(), general_value.deep_view()),
        ),
{
    client::endpoint_for(globals, service_value, general_value)
}

/// The attributes of a message by name: of two with one name the later.
pub fn message_attributes(pairs: &Vec<(String, String)>) -> (r: Fields)
    ensures
        r.contents() == json::text_fields(pairs.deep_view()),
{
    Fields::of_texts(pairs)
}

/// The URL of a queue that was looked up by name; the answer may hold none.
pub fn resolved_url(queue: &str, answer: Option<String>) -> (r: Result<String, AwlError>)
    ensures
        told(r) == (match answer {
            Some(url) => Ok(url@),
            None => Err(
                Failure::NotFound(
                    "queue "@ + text::quoted(queue@) + " resolved without a queue URL"@,
                ),
            ),
        }),
{
    match answer {
        Some(url) => Ok(url),
        None => Err(
            AwlError::NotFound {
                message: "queue ".to_owned().concat(text::quote(queue).as_str()).concat(
                    " resolved without a queue URL",
                ),
            },
        ),
    }
}

/// A command on a queue that is named by its URL does not look it up.
pub proof fn law_url_is_not_looked_up<'a>(job: QueueUse<'a>)
    requires
        is_url(job.queue()),
    ensures
        !(resolving(job).0 is Resolving),
        resolving(job).1 != Doing::Request(resolve_params(job.queue())),
{
    reveal_strlit("GetQueueUrl");
    reveal_strlit("SendMessage");
    reveal_strlit("ReceiveMessage");
    reveal_strlit("PurgeQueue");
    reveal_strlit("GetQueueAttributes");
    let other = resolve_params(job.queue());
    assert(other[0].1.len() == 11);
    if let Doing::Request(params) = resolving(job).1 {
        assert(params[0].1.len() != 11 || params[0].1[0] != other[0].1[0]);
    }
}

/// Sending to a queue named by its URL, with the body on the command line, takes
/// one request, and the answer's record is shown.
pub proof fn law_send_takes_one_request<'a>(args: &'a SqsSendArgs, answer: Seq<char>)
    requires
        is_url(args.queue@),
        args.body@ != "-"@,
    ensures
        ({
            let (phase, doing) = resolving(QueueUse::Send(args));
            &&& doing == Doing::Request(send_params(*args, args.queue@, args.body@))
            &&& phase.next(answer).0 is Finished
            &&& phase.next(answer).1 == Doing::Show(
                Shown::One(
                    sent_tree(
                        args.queue@,
                        first_value(answer, "MessageId"@),
                        first_value(answer, "MD5OfMessageBody"@),
                    ),
                ),
            )
        }),
{
}

/// The body of a message is among the parameters that send it.
proof fn lemma_body_is_sent<'a>(send: &'a SqsSendArgs, queue_url: Seq<char>)
    requires
        send.body@ != "-"@,
    ensures
        proceeding(QueueUse::Send(send), queue_url).1 matches Doing::Request(params)
            && params.contains(("MessageBody"@, send.body@)),
{
    let params = send_params(*send, queue_url, send.body@);
    assert(params[2] == ("MessageBody"@, send.body@));
}

/// The record of a message shows its body.
proof fn lemma_shown_body(message: Message, body: Seq<char>)
    requires
        message.body == Some(body),
    ensures
        message.tree()->Object_0["body"@] == JsonTree::Text(body),
{
}

/// How a command stands when answers have come, one after another.
pub open spec fn carried_on<'a>(step: (Phase<'a>, Doing), answers: Seq<Seq<char>>) -> (
    Phase<'a>,
    Doing,
)
    decreases answers.len(),
{
    if answers.len() == 0 {
        step
    } else {
        carried_on(step.0.next(answers[0]), answers.skip(1))
    }
}

/// How many messages are deleted of those that came.
pub open spec fn deletions(receive: SqsReceiveArgs, batch: Seq<Message>) -> nat {
    if receive.delete {
        handles(batch).len()
    } else {
        0
    }
}

/// When each deletion was answered, all messages are shown.
proof fn lemma_shown_at_last(
    receive: SqsReceiveArgs,
    progress: Progress,
    done: Seq<Seq<char>>,
)
    requires
        progress.well_formed(),
        progress.delete == receive.delete,
        !progress.follow,
        done.len() == deletions(receive, progress.batch.skip(progress.settled as int)),
    ensures
        carried_on(receiving(receive, progress.settle()), done).1 == Doing::Show(
            shown_messages(progress.rows + progress.batch),
        ),
    decreases progress.batch.len() - progress.settled,
{
    let rest = progress.batch.skip(progress.settled as int);
    if progress.delete && progress.settled < progress.batch.len() {
        let next = Progress { settled: progress.settled + 1, ..progress };
        assert(rest.skip(1) =~= progress.batch.skip(next.settled as int));
        assert(rest[0] == progress.batch[progress.settled as int]);
        match rest[0].receipt_handle {
            Some(handle) => {
                assert(progress.settle() == (next, Receiving::Delete(handle)));
                lemma_shown_at_last(receive, next, done.skip(1));
            },
            None => {
                assert(progress.settle() == next.settle());
                lemma_shown_at_last(receive, next, done);
            },
        }
    } else if progress.delete {
        assert(rest.len() == 0);
    }
}

/// Where the queue answers a request for messages, the command that asked deletes
/// the messages where it is to, and when that was answered too, it shows all of
/// them in order, as they were written.
pub proof fn law_received_messages_are_shown<'a>(
    receive: &'a SqsReceiveArgs,
    queue_url: Seq<char>,
    before: Seq<char>,
    replies: Seq<Seq<Pair>>,
    after: Seq<char>,
    done: Seq<Seq<char>>,
)
    requires
        !receive.follow,
        replies.len() > 0,
        are_replies(replies),
        leads_to_messages(before),
        elements(after, "Message"@) == Seq::<Seq<char>>::empty(),
        done.len() == deletions(
            *receive,
            replies.map_values(|fields: Seq<Pair>| message_with(queue_url, fields)),
        ),
    ensures
        carried_on(
            proceeding(QueueUse::Receive(receive), queue_url),
            seq![before + message_list(replies, after)] + done,
        ).1 == Doing::Show(
            shown_messages(
                replies.map_values(|fields: Seq<Pair>| message_with(queue_url, fields)),
            ),
        ),
{
    let answer = before + message_list(replies, after);
    let written = replies.map_values(|fields: Seq<Pair>| message_with(queue_url, fields));
    let start = proceeding(QueueUse::Receive(receive), queue_url);
    let progress = start.0->Receiving_1;
    let came = Progress { batch: written, settled: 0, ..progress };
    assert(messages_of(queue_url, answer) == written) by {
        law_messages_are_read_back(queue_url, before, replies, after);
    }
    assert(written.skip(0) =~= written);
    assert(progress.rows + written =~= written);
    lemma_shown_at_last(*receive, came, done);
    lemma_first_answer(start, answer, done);
}

/// A first answer is dealt with before those that follow it.
proof fn lemma_first_answer<'a>(step: (Phase<'a>, Doing), answer: Seq<char>, rest: Seq<Seq<char>>)
    ensures
        carried_on(step, seq![answer] + rest) == carried_on(step.0.next(answer), rest),
{
    assert((seq![answer] + rest).skip(1) =~= rest);
}

/// A body that is sent comes back: it is what the request to send hands over, and
/// where the queue answers a request for messages with one that has that body,
/// the command that asked ends by showing a message with that body at its place.
/// A body with white space at its ends is left out: that is dropped.
pub proof fn law_sent_body_comes_back<'a>(
    send: &'a SqsSendArgs,
    receive: &'a SqsReceiveArgs,
    queue_url: Seq<char>,
    before: Seq<char>,
    replies: Seq<Seq<Pair>>,
    after: Seq<char>,
    done: Seq<Seq<char>>,
    place: int,
)
    requires
        send.body@ != "-"@,
        !receive.follow,
        are_replies(replies),
        leads_to_messages(before),
        elements(after, "Message"@) == Seq::<Seq<char>>::empty(),
        done.len() == deletions(
            *receive,
            replies.map_values(|fields: Seq<Pair>| message_with(queue_url, fields)),
        ),
        0 <= place < replies.len(),
        field_value(replies[place], "Body"@) == Some(send.body@),
    ensures
        proceeding(QueueUse::Send(send), queue_url).1 matches Doing::Request(params)
            && params.contains(("MessageBody"@, send.body@)),
        carried_on(
            proceeding(QueueUse::Receive(receive), queue_url),
            seq![before + message_list(replies, after)] + done,
        ).1 matches Doing::Show(Shown::Many(rows)) && rows.len() == replies.len()
            && rows[place]->Object_0["body"@] == JsonTree::Text(send.body@),
{
    law_received_messages_are_shown(receive, queue_url, before, replies, after, done);
    lemma_body_is_sent(send, queue_url);
    let written = replies.map_values(|fields: Seq<Pair>| message_with(queue_url, fields));
    let rows = written.map_values(|message: Message| message.tree());
    assert(written[place] == message_with(queue_url, replies[place]));
    assert(rows[place] == written[place].tree());
    lemma_shown_body(written[place], send.body@);
}

/// The fields of the message that a queue keeps of a request to send, with the
/// name and the receipt handle that the queue gives it.
pub open spec fn kept_message(params: Seq<Pair>, id: Seq<char>, handle: Seq<char>) -> Seq<Pair> {
    seq![
        ("MessageId"@, id),
        ("ReceiptHandle"@, handle),
        ("Body"@, field_value(params, "MessageBody"@)->Some_0),
    ]
}

/// A message makes its way through a queue: where a queue that was empty keeps
/// the message of a request to send, and answers a request for messages with the
/// one that it keeps, the command that asked ends by showing that message alone,
/// with the body that was sent. A body with white space at its ends is left out:
/// that is dropped.
pub proof fn law_queue_hands_on_what_was_sent<'a>(
    send: &'a SqsSendArgs,
    receive: &'a SqsReceiveArgs,
    queue_url: Seq<char>,
    id: Seq<char>,
    handle: Seq<char>,
    before: Seq<char>,
    after: Seq<char>,
    done: Seq<Seq<char>>,
)
    requires
        send.body@ != "-"@,
        has_no_blank_ends(send.body@),
        has_no_blank_ends(id),
        has_no_blank_ends(handle),
        !receive.follow,
        leads_to_messages(before),
        elements(after, "Message"@) == Seq::<Seq<char>>::empty(),
        done.len() == if receive.delete {
            1nat
        } else {
            0nat
        },
    ensures
        proceeding(QueueUse::Send(send), queue_url).1 matches Doing::Request(params) && carried_on(
            proceeding(QueueUse::Receive(receive), queue_url),
            seq![before + message_list(seq![kept_message(params, id, handle)], after)] + done,
        ).1 == Doing::Show(
            shown_messages(
                seq![
                    Message {
                        queue_url,
                        message_id: Some(id),
                        receipt_handle: Some(handle),
                        body: Some(send.body@),
                    },
                ],
            ),
        ),
{
    let params = send_params(*send, queue_url, send.body@);
    let fields = kept_message(params, id, handle);
    let replies = seq![fields];
    let message = Message {
        queue_url,
        message_id: Some(id),
        receipt_handle: Some(handle),
        body: Some(send.body@),
    };
    lemma_sent_field(*send, queue_url);
    lemma_kept_fields(params, id, handle);
    assert(message_with(queue_url, fields) == message);
    let written = replies.map_values(|fields: Seq<Pair>| message_with(queue_url, fields));
    assert(written =~= seq![message]);
    assert(deletions(*receive, written) == done.len()) by {
        assert(written.skip(1) =~= Seq::empty());
        assert(handles(written) =~= seq![handle] + handles(written.skip(1)));
    }
    law_received_messages_are_shown(receive, queue_url, before, replies, after, done);
}

/// The parameter that holds the body of a message that is sent.
proof fn lemma_sent_field(send: SqsSendArgs, queue_url: Seq<char>)
    ensures
        field_value(send_params(send, queue_url, send.body@), "MessageBody"@) == Some(send.body@),
{
    let params = send_params(send, queue_url, send.body@);
    reveal_strlit("Action");
    reveal_strlit("QueueUrl");
    reveal_strlit("MessageBody");
    assert("Action"@.len() == 6 && "QueueUrl"@.len() == 8 && "MessageBody"@.len() == 11);
    assert(params[0].0 == "Action"@ && params[1].0 == "QueueUrl"@);
    assert(params[2] == ("MessageBody"@, send.body@));
    assert(params.skip(1)[0] == params[1]);
    assert(params.skip(1).skip(1)[0] == params[2]);
    assert(field_value(params.skip(1).skip(1), "MessageBody"@) == Some(send.body@));
    assert(field_value(params.skip(1), "MessageBody"@) == Some(send.body@));
}

/// The fields of a message that a queue keeps.
proof fn lemma_kept_fields(params: Seq<Pair>, id: Seq<char>, handle: Seq<char>)
    requires
        has_no_blank_ends(id),
        has_no_blank_ends(handle),
        has_no_blank_ends(field_value(params, "MessageBody"@)->Some_0),
    ensures
        ({
            let fields = kept_message(params, id, handle);
            &&& are_fields(fields)
            &&& field_value(fields, "Message"@) is None
            &&& field_value(fields, "MessageId"@) == Some(id)
            &&& field_value(fields, "ReceiptHandle"@) == Some(handle)
            &&& field_value(fields, "Body"@) == Some(field_value(params, "MessageBody"@)->Some_0)
        }),
{
    let fields = kept_message(params, id, handle);
    lemma_message_tags();
    reveal_strlit("Message");
    reveal_strlit("MessageId");
    reveal_strlit("ReceiptHandle");
    reveal_strlit("Body");
    assert("Message"@.len() == 7 && "MessageId"@.len() == 9 && "ReceiptHandle"@.len() == 13
        && "Body"@.len() == 4);
    reveal_with_fuel(field_value, 4);
    assert(fields.skip(1)[0] == fields[1]);
    assert(fields.skip(1).skip(1)[0] == fields[2]);
    assert(fields.skip(1).skip(1).skip(1).len() == 0);
}

/// Among parameters there is exactly one with a name, and this is its value.
pub open spec fn has_one(params: Seq<Pair>, name: Seq<char>, value: Seq<char>) -> bool {
    exists|i: int|
        0 <= i < params.len() && #[trigger] params[i] == (name, value) && forall|j: int|
            0 <= j < params.len() && (#[trigger] params[j]).0 == name ==> j == i
}

/// Among parameters there is none with a name.
pub open spec fn has_none(params: Seq<Pair>, name: Seq<char>) -> bool {
    forall|j: int| 0 <= j < params.len() ==> (#[trigger] params[j]).0 != name
}

/// The one value of a name among parameters is no other.
pub proof fn law_has_one_value(params: Seq<Pair>, name: Seq<char>, a: Seq<char>, b: Seq<char>)
    requires
        has_one(params, name, a),
        has_one(params, name, b),
    ensures
        a == b,
        !has_none(params, name),
{
    let i = choose|i: int|
        0 <= i < params.len() && #[trigger] params[i] == (name, a) && forall|j: int|
            0 <= j < params.len() && (#[trigger] params[j]).0 == name ==> j == i;
    let k = choose|k: int|
        0 <= k < params.len() && #[trigger] params[k] == (name, b) && forall|j: int|
            0 <= j < params.len() && (#[trigger] params[j]).0 == name ==> j == k;
    assert(params[k].0 == name);
}

/// What is added under other names leaves the one value of a name.
proof fn lemma_has_one_more(
    params: Seq<Pair>,
    more: Seq<Pair>,
    name: Seq<char>,
    value: Seq<char>,
)
    requires
        has_none(more, name),
    ensures
        has_one(params, name, value) ==> has_one(params + more, name, value),
        has_none(params, name) ==> has_none(params + more, name),
{
    let all = params + more;
    if has_one(params, name, value) {
        let i = choose|i: int|
            0 <= i < params.len() && #[trigger] params[i] == (name, value) && forall|j: int|
                0 <= j < params.len() && (#[trigger] params[j]).0 == name ==> j == i;
        assert(all[i] == (name, value));
        assert forall|j: int| 0 <= j < all.len() && (#[trigger] all[j]).0 == name implies j
            == i by {
            if j < params.len() {
                assert(params[j].0 == name);
            } else {
                assert(more[j - params.len()].0 != name);
            }
        }
    }
    if has_none(params, name) {
        assert forall|j: int| 0 <= j < all.len() implies (#[trigger] all[j]).0 != name by {
            if j < params.len() {
                assert(params[j].0 != name);
            } else {
                assert(more[j - params.len()].0 != name);
            }
        }
    }
}

/// What is added under a name that there was not is its one value.
proof fn lemma_has_one_new(params: Seq<Pair>, name: Seq<char>, value: Option<Seq<char>>)
    requires
        has_none(params, name),
    ensures
        match value {
            Some(s) => has_one(params + optional_param(name, value), name, s),
            None => has_none(params + optional_param(name, value), name),
        },
{
    let all = params + optional_param(name, value);
    if let Some(s) = value {
        let i = params.len() as int;
        assert(all[i] == (name, s));
        assert forall|j: int| 0 <= j < all.len() && (#[trigger] all[j]).0 == name implies j
            == i by {
            if j < params.len() {
                assert(params[j].0 != name);
            }
        }
    } else {
        assert(all =~= params);
    }
}

/// A parameter that may be missing has no other name.
proof fn lemma_optional_param(name: Seq<char>, value: Option<Seq<char>>, other: Seq<char>)
    requires
        name != other,
    ensures
        has_none(optional_param(name, value), other),
{
}

/// The parameters of attributes have names of their own.
proof fn lemma_attribute_names(attributes: Seq<Pair>, n: nat, name: Seq<char>)
    requires
        n <= attributes.len(),
        !"MessageAttribute."@.is_prefix_of(name),
    ensures
        has_none(attribute_params(attributes, n), name),
    decreases n,
{
    if n > 0 {
        lemma_attribute_names(attributes, (n - 1) as nat, name);
        let head = "MessageAttribute."@;
        let prefix = head + number::decimal(n);
        let before = attribute_params(attributes, (n - 1) as nat);
        let all = attribute_params(attributes, n);
        assert(head.is_prefix_of(prefix + ".Name"@));
        assert(head.is_prefix_of(prefix + ".Value.DataType"@));
        assert(head.is_prefix_of(prefix + ".Value.StringValue"@));
        assert forall|j: int| 0 <= j < all.len() implies (#[trigger] all[j]).0 != name by {
            if j < before.len() {
                assert(before[j].0 != name);
            }
        }
    }
}

/// The names of the parameters differ.
proof fn lemma_param_names()
    ensures
        "Action"@ != "QueueUrl"@,
        "Action"@ != "MessageBody"@,
        "QueueUrl"@ != "MessageBody"@,
        "MaxNumberOfMessages"@ != "WaitTimeSeconds"@,
        "Action"@ != "MaxNumberOfMessages"@,
        "Action"@ != "WaitTimeSeconds"@,
        "Action"@ != "VisibilityTimeout"@,
        "QueueUrl"@ != "MaxNumberOfMessages"@,
        "QueueUrl"@ != "WaitTimeSeconds"@,
        "QueueUrl"@ != "VisibilityTimeout"@,
        "MaxNumberOfMessages"@ != "VisibilityTimeout"@,
        "WaitTimeSeconds"@ != "VisibilityTimeout"@,
        "Action"@ != "ReceiptHandle"@,
        "QueueUrl"@ != "ReceiptHandle"@,
        "Action"@ != "DelaySeconds"@,
        "QueueUrl"@ != "DelaySeconds"@,
        "MessageBody"@ != "DelaySeconds"@,
        "Action"@ != "MessageGroupId"@,
        "QueueUrl"@ != "MessageGroupId"@,
        "MessageBody"@ != "MessageGroupId"@,
        "DelaySeconds"@ != "MessageGroupId"@,
        "Action"@ != "MessageDeduplicationId"@,
        "QueueUrl"@ != "MessageDeduplicationId"@,
        "MessageBody"@ != "MessageDeduplicationId"@,
        "DelaySeconds"@ != "MessageDeduplicationId"@,
        "MessageGroupId"@ != "MessageDeduplicationId"@,
        "Action"@ != "QueueName"@,
        "Action"@ != "QueueNamePrefix"@,
        "Action"@ != "AttributeName"@,
        "QueueUrl"@ != "AttributeName"@,
        !"MessageAttribute."@.is_prefix_of("Action"@),
        !"MessageAttribute."@.is_prefix_of("QueueUrl"@),
        !"MessageAttribute."@.is_prefix_of("MessageBody"@),
        !"MessageAttribute."@.is_prefix_of("DelaySeconds"@),
        !"MessageAttribute."@.is_prefix_of("MessageGroupId"@),
        !"MessageAttribute."@.is_prefix_of("MessageDeduplicationId"@),
{
    reveal_strlit("Action");
    reveal_strlit("QueueUrl");
    reveal_strlit("MessageBody");
    reveal_strlit("MaxNumberOfMessages");
    reveal_strlit("WaitTimeSeconds");
    reveal_strlit("VisibilityTimeout");
    reveal_strlit("ReceiptHandle");
    reveal_strlit("DelaySeconds");
    reveal_strlit("MessageGroupId");
    reveal_strlit("MessageDeduplicationId");
    reveal_strlit("QueueName");
    reveal_strlit("QueueNamePrefix");
    reveal_strlit("AttributeName");
    reveal_strlit("MessageAttribute.");
    assert("Action"@.len() == 6);
    assert("QueueUrl"@.len() == 8);
    assert("MessageBody"@.len() == 11);
    assert("MaxNumberOfMessages"@.len() == 19);
    assert("WaitTimeSeconds"@.len() == 15);
    assert("VisibilityTimeout"@.len() == 17);
    assert("ReceiptHandle"@.len() == 13);
    assert("DelaySeconds"@.len() == 12);
    assert("MessageGroupId"@.len() == 14);
    assert("MessageDeduplicationId"@.len() == 22);
    assert("QueueName"@.len() == 9);
    assert("QueueNamePrefix"@.len() == 15);
    assert("AttributeName"@.len() == 13);
    assert("MessageAttribute."@.len() == 17);
    assert("WaitTimeSeconds"@[0] != "QueueNamePrefix"@[0]);
    assert("VisibilityTimeout"@[0] != "MessageAttribute."@[0]);
    assert("ReceiptHandle"@[0] != "AttributeName"@[0]);
    assert("MessageDeduplicationId"@[7] != "MessageAttribute."@[7]);
}

/// A request for messages asks for what the command line does: for its queue, and
/// with exactly one limit on their number, one time to wait and, where one was
/// given, one time to hide them, each read back as the number that was given.
pub proof fn law_receive_request_asks_for_its_limits(args: SqsReceiveArgs, queue_url: Seq<char>)
    ensures
        ({
            let params = receive_params(args, queue_url);
            let limit = number::signed_decimal(args.max as int);
            let wait = number::signed_decimal(args.wait as int);
            &&& has_one(params, "Action"@, "ReceiveMessage"@)
            &&& has_one(params, "QueueUrl"@, queue_url)
            &&& has_one(params, "MaxNumberOfMessages"@, limit)
            &&& number::signed_value(limit, i32::MIN as int, i32::MAX as int) == Some(
                args.max as int,
            )
            &&& has_one(params, "WaitTimeSeconds"@, wait)
            &&& number::signed_value(wait, i32::MIN as int, i32::MAX as int) == Some(
                args.wait as int,
            )
            &&& match args.visibility {
                Some(n) => {
                    let hide = number::signed_decimal(n as int);
                    &&& has_one(params, "VisibilityTimeout"@, hide)
                    &&& number::signed_value(hide, i32::MIN as int, i32::MAX as int) == Some(
                        n as int,
                    )
                },
                None => has_none(params, "VisibilityTimeout"@),
            }
        }),
{
    let limit = number::signed_decimal(args.max as int);
    let wait = number::signed_decimal(args.wait as int);
    number::law_decimal_is_read_back(args.max as int, i32::MIN as int, i32::MAX as int);
    number::law_decimal_is_read_back(args.wait as int, i32::MIN as int, i32::MAX as int);
    if let Some(n) = args.visibility {
        number::law_decimal_is_read_back(n as int, i32::MIN as int, i32::MAX as int);
    }
    lemma_param_names();
    let first = seq![
        ("Action"@, "ReceiveMessage"@),
        ("QueueUrl"@, queue_url),
        ("MaxNumberOfMessages"@, limit),
        ("WaitTimeSeconds"@, wait),
    ];
    let hide = optional_number(args.visibility);
    assert(first[0] == ("Action"@, "ReceiveMessage"@));
    assert(has_one(first, "Action"@, "ReceiveMessage"@));
    assert(first[1] == ("QueueUrl"@, queue_url));
    assert(has_one(first, "QueueUrl"@, queue_url));
    assert(first[2] == ("MaxNumberOfMessages"@, limit));
    assert(has_one(first, "MaxNumberOfMessages"@, limit));
    assert(first[3] == ("WaitTimeSeconds"@, wait));
    assert(has_one(first, "WaitTimeSeconds"@, wait));
    lemma_optional_param("VisibilityTimeout"@, hide, "Action"@);
    lemma_optional_param("VisibilityTimeout"@, hide, "QueueUrl"@);
    lemma_optional_param("VisibilityTimeout"@, hide, "MaxNumberOfMessages"@);
    lemma_optional_param("VisibilityTimeout"@, hide, "WaitTimeSeconds"@);
    let more = optional_param("VisibilityTimeout"@, hide);
    lemma_has_one_more(first, more, "Action"@, "ReceiveMessage"@);
    lemma_has_one_more(first, more, "QueueUrl"@, queue_url);
    lemma_has_one_more(first, more, "MaxNumberOfMessages"@, limit);
    lemma_has_one_more(first, more, "WaitTimeSeconds"@, wait);
    lemma_has_one_new(first, "VisibilityTimeout"@, hide);
}

/// Requests for messages with different limits, or different times to wait,
/// differ.
pub proof fn law_limits_make_requests_differ(
    a: SqsReceiveArgs,
    b: SqsReceiveArgs,
    queue_url: Seq<char>,
)
    requires
        receive_params(a, queue_url) == receive_params(b, queue_url),
    ensures
        a.max == b.max,
        a.wait == b.wait,
        a.visibility == b.visibility,
{
    law_receive_request_asks_for_its_limits(a, queue_url);
    law_receive_request_asks_for_its_limits(b, queue_url);
    let params = receive_params(a, queue_url);
    law_has_one_value(
        params,
        "MaxNumberOfMessages"@,
        number::signed_decimal(a.max as int),
        number::signed_decimal(b.max as int),
    );
    law_has_one_value(
        params,
        "WaitTimeSeconds"@,
        number::signed_decimal(a.wait as int),
        number::signed_decimal(b.wait as int),
    );
    if let (Some(m), Some(n)) = (a.visibility, b.visibility) {
        law_has_one_value(
            params,
            "VisibilityTimeout"@,
            number::signed_decimal(m as int),
            number::signed_decimal(n as int),
        );
    } else if let Some(m) = a.visibility {
        law_has_one_value(
            params,
            "VisibilityTimeout"@,
            number::signed_decimal(m as int),
            number::signed_decimal(m as int),
        );
    } else if let Some(n) = b.visibility {
        law_has_one_value(
            params,
            "VisibilityTimeout"@,
            number::signed_decimal(n as int),
            number::signed_decimal(n as int),
        );
    }
}

/// A request to send hands over what the command line says: the queue and the
/// body, and each of the delay, the group and the name against duplicates exactly
/// where it was given.
pub proof fn law_send_request_says_the_message(
    args: SqsSendArgs,
    queue_url: Seq<char>,
    body: Seq<char>,
)
    ensures
        ({
            let params = send_params(args, queue_url, body);
            &&& has_one(params, "Action"@, "SendMessage"@)
            &&& has_one(params, "QueueUrl"@, queue_url)
            &&& has_one(params, "MessageBody"@, body)
            &&& match args.delay {
                Some(n) => has_one(params, "DelaySeconds"@, number::signed_decimal(n as int)),
                None => has_none(params, "DelaySeconds"@),
            }
            &&& match args.group_id {
                Some(s) => has_one(params, "MessageGroupId"@, s@),
                None => has_none(params, "MessageGroupId"@),
            }
            &&& match args.dedup_id {
                Some(s) => has_one(params, "MessageDeduplicationId"@, s@),
                None => has_none(params, "MessageDeduplicationId"@),
            }
        }),
{
    lemma_param_names();
    let a = seq![("Action"@, "SendMessage"@), ("QueueUrl"@, queue_url), ("MessageBody"@, body)];
    let delay = optional_number(args.delay);
    let group = args.group_id.deep_view();
    let dedup = args.dedup_id.deep_view();
    let x = optional_param("DelaySeconds"@, delay);
    let y = optional_param("MessageGroupId"@, group);
    let z = optional_param("MessageDeduplicationId"@, dedup);
    let w = attribute_params(args.attribute.deep_view(), args.attribute@.len());
    assert(a[0] == ("Action"@, "SendMessage"@));
    assert(has_one(a, "Action"@, "SendMessage"@));
    assert(a[1] == ("QueueUrl"@, queue_url));
    assert(has_one(a, "QueueUrl"@, queue_url));
    assert(a[2] == ("MessageBody"@, body));
    assert(has_one(a, "MessageBody"@, body));
    lemma_kept_through(a, x, y, z, w, "Action"@, "SendMessage"@);
    lemma_kept_through(a, x, y, z, w, "QueueUrl"@, queue_url);
    lemma_kept_through(a, x, y, z, w, "MessageBody"@, body);
    let none = Seq::<Pair>::empty();
    lemma_attribute_names(args.attribute.deep_view(), args.attribute@.len(), "DelaySeconds"@);
    lemma_attribute_names(args.attribute.deep_view(), args.attribute@.len(), "MessageGroupId"@);
    lemma_attribute_names(
        args.attribute.deep_view(),
        args.attribute@.len(),
        "MessageDeduplicationId"@,
    );
    lemma_attribute_names(args.attribute.deep_view(), args.attribute@.len(), "Action"@);
    lemma_attribute_names(args.attribute.deep_view(), args.attribute@.len(), "QueueUrl"@);
    lemma_attribute_names(args.attribute.deep_view(), args.attribute@.len(), "MessageBody"@);
    lemma_has_one_new(a, "DelaySeconds"@, delay);
    let d = if delay is Some {
        delay->Some_0
    } else {
        none_text()
    };
    lemma_has_one_more(a + x, y, "DelaySeconds"@, d);
    lemma_has_one_more(a + x + y, z, "DelaySeconds"@, d);
    lemma_has_one_more(a + x + y + z, w, "DelaySeconds"@, d);
    lemma_has_one_more(a, x, "MessageGroupId"@, none_text());
    lemma_has_one_new(a + x, "MessageGroupId"@, group);
    let g = if group is Some {
        group->Some_0
    } else {
        none_text()
    };
    lemma_has_one_more(a + x + y, z, "MessageGroupId"@, g);
    lemma_has_one_more(a + x + y + z, w, "MessageGroupId"@, g);
    lemma_has_one_more(a, x, "MessageDeduplicationId"@, none_text());
    lemma_has_one_more(a + x, y, "MessageDeduplicationId"@, none_text());
    lemma_has_one_new(a + x + y, "MessageDeduplicationId"@, dedup);
    let e = if dedup is Some {
        dedup->Some_0
    } else {
        none_text()
    };
    lemma_has_one_more(a + x + y + z, w, "MessageDeduplicationId"@, e);
}

/// The empty text.
spec fn none_text() -> Seq<char> {
    Seq::empty()
}

/// A parameter is kept through those that are added under other names.
proof fn lemma_kept_through(
    a: Seq<Pair>,
    x: Seq<Pair>,
    y: Seq<Pair>,
    z: Seq<Pair>,
    w: Seq<Pair>,
    name: Seq<char>,
    value: Seq<char>,
)
    ensures
        has_one(a, name, value) && has_none(x, name) && has_none(y, name) && has_none(z, name)
            && has_none(w, name) ==> has_one(a + x + y + z + w, name, value),
{
    if has_none(x, name) && has_none(y, name) && has_none(z, name) && has_none(w, name) {
        lemma_has_one_more(a, x, name, value);
        lemma_has_one_more(a + x, y, name, value);
        lemma_has_one_more(a + x + y, z, name, value);
        lemma_has_one_more(a + x + y + z, w, name, value);
    }
}

/// A request to send carries each attribute of the message: under its number, from
/// one on, its name and its text.
pub proof fn law_send_request_carries_attributes(
    args: SqsSendArgs,
    queue_url: Seq<char>,
    body: Seq<char>,
    i: int,
)
    requires
        0 <= i < args.attribute@.len(),
    ensures
        ({
            let params = send_params(args, queue_url, body);
            let prefix = "MessageAttribute."@ + number::decimal((i + 1) as nat);
            &&& params.contains((prefix + ".Name"@, args.attribute@[i].0@))
            &&& params.contains((prefix + ".Value.StringValue"@, args.attribute@[i].1@))
            &&& params.contains((prefix + ".Value.DataType"@, "String"@))
        }),
{
    let params = send_params(args, queue_url, body);
    let all = attribute_params(args.attribute.deep_view(), args.attribute@.len());
    lemma_attribute_at(args.attribute.deep_view(), args.attribute@.len(), i);
    let prefix = "MessageAttribute."@ + number::decimal((i + 1) as nat);
    let n = params.len() - all.len();
    assert(params.skip(n) =~= all);
    assert(args.attribute.deep_view()[i] == (args.attribute@[i].0@, args.attribute@[i].1@));
    assert forall|pair: Pair| all.contains(pair) implies #[trigger] params.contains(pair) by {
        let k = choose|k: int| 0 <= k < all.len() && all[k] == pair;
        assert(params[n + k] == pair);
    }
}

proof fn lemma_attribute_at(attributes: Seq<Pair>, n: nat, i: int)
    requires
        0 <= i < n,
        n <= attributes.len(),
    ensures
        ({
            let prefix = "MessageAttribute."@ + number::decimal((i + 1) as nat);
            let all = attribute_params(attributes, n);
            &&& all.contains((prefix + ".Name"@, attributes[i].0))
            &&& all.contains((prefix + ".Value.StringValue"@, attributes[i].1))
            &&& all.contains((prefix + ".Value.DataType"@, "String"@))
        }),
    decreases n,
{
    let all = attribute_params(attributes, n);
    let before = attribute_params(attributes, (n - 1) as nat);
    let m = before.len() as int;
    if i == n - 1 {
        let prefix = "MessageAttribute."@ + number::decimal(n);
        assert(all[m] == (prefix + ".Name"@, attributes[i].0));
        assert(all[m + 1] == (prefix + ".Value.DataType"@, "String"@));
        assert(all[m + 2] == (prefix + ".Value.StringValue"@, attributes[i].1));
    } else {
        lemma_attribute_at(attributes, (n - 1) as nat, i);
        assert forall|pair: Pair| before.contains(pair) implies #[trigger] all.contains(pair) by {
            let k = choose|k: int| 0 <= k < before.len() && before[k] == pair;
            assert(all[k] == pair);
        }
    }
}

/// The other requests say what they ask for: the action, and the queue or what
/// else it is about.
pub proof fn law_requests_say_their_action(queue_url: Seq<char>, handle: Seq<char>)
    ensures
        has_one(delete_params(queue_url, handle), "Action"@, "DeleteMessage"@),
        has_one(delete_params(queue_url, handle), "QueueUrl"@, queue_url),
        has_one(delete_params(queue_url, handle), "ReceiptHandle"@, handle),
        has_one(purge_params(queue_url), "Action"@, "PurgeQueue"@),
        has_one(purge_params(queue_url), "QueueUrl"@, queue_url),
        has_one(attributes_params(queue_url), "Action"@, "GetQueueAttributes"@),
        has_one(attributes_params(queue_url), "QueueUrl"@, queue_url),
        has_one(attributes_params(queue_url), "AttributeName"@, "All"@),
        has_one(resolve_params(handle), "Action"@, "GetQueueUrl"@),
        has_one(resolve_params(handle), "QueueName"@, handle),
        has_one(list_params(None), "Action"@, "ListQueues"@),
        has_none(list_params(None), "QueueNamePrefix"@),
        has_one(list_params(Some(handle)), "Action"@, "ListQueues"@),
        has_one(list_params(Some(handle)), "QueueNamePrefix"@, handle),
{
    lemma_param_names();
    let delete = delete_params(queue_url, handle);
    assert(delete[0].0 == "Action"@ && delete[1].0 == "QueueUrl"@ && delete[2].0
        == "ReceiptHandle"@);
    let purge = purge_params(queue_url);
    assert(purge[0].0 == "Action"@ && purge[1].0 == "QueueUrl"@);
    let attributes = attributes_params(queue_url);
    assert(attributes[0].0 == "Action"@ && attributes[1].0 == "QueueUrl"@ && attributes[2].0
        == "AttributeName"@);
    let resolve = resolve_params(handle);
    assert(resolve[0].0 == "Action"@ && resolve[1].0 == "QueueName"@);
    let list = list_params(Some(handle));
    assert(list[0].0 == "Action"@ && list[1].0 == "QueueNamePrefix"@);
    assert(list_params(None)[0].0 == "Action"@);
}

/// Each command makes the request that it is for, at the URL of its queue; and a
/// command that follows a queue goes on asking in the same way.
pub proof fn law_commands_make_their_requests<'a>(
    receive: &'a SqsReceiveArgs,
    purge: &'a SqsQueueArg,
    url: &'a SqsUrlArgs,
    queue_url: Seq<char>,
    progress: Progress,
    handle: Seq<char>,
)
    ensures
        proceeding(QueueUse::Receive(receive), queue_url).1 == Doing::Request(
            receive_params(*receive, queue_url),
        ),
        receiving(*receive, (progress, Receiving::Receive)).1 == Doing::Request(
            receive_params(*receive, progress.queue_url),
        ),
        receiving(*receive, (progress, Receiving::Delete(handle))).1 == Doing::Request(
            delete_params(progress.queue_url, handle),
        ),
        proceeding(QueueUse::Purge(purge), queue_url).1 == Doing::Request(purge_params(queue_url)),
        proceeding(QueueUse::Attrs(purge), queue_url).1 == Doing::Request(
            attributes_params(queue_url),
        ),
        proceeding(QueueUse::Url(url), queue_url).1 matches Doing::Show(Shown::One(tree))
            && tree is Object && tree->Object_0["queue_url"@] == JsonTree::Text(queue_url),
        proceeding(QueueUse::Receive(receive), queue_url).0 matches Phase::Receiving(args, begun)
            && args == *receive && begun.delete == receive.delete && begun.follow == receive.follow
            && begun.queue_url == queue_url && begun.rows.len() == 0,
{
}

/// A queue that is named by its name is looked up first, and the command goes on
/// with the URL that the answer gives, or with the name where it gives none.
pub proof fn law_name_is_looked_up<'a>(job: QueueUse<'a>, url: Seq<char>, after: Seq<char>)
    requires
        !is_url(job.queue()),
        has_no_blank_ends(url),
    ensures
        resolving(job).1 == Doing::Request(resolve_params(job.queue())),
        resolving(job).0.next(opening("QueueUrl"@) + escaped(url) + closing("QueueUrl"@) + after)
            == proceeding(job, url),
        resolving(job).0.next(Seq::empty()) == proceeding(job, job.queue()),
{
    law_element_is_read_back("QueueUrl"@, url, after);
    reveal_strlit("<");
    assert(text::find_text(Seq::<char>::empty(), opening("QueueUrl"@)) is None);
}

/// A body of a single dash is read from the input, and what was read is what is
/// sent; any other body is sent as it is.
pub proof fn law_dash_reads_the_body<'a>(
    args: &'a SqsSendArgs,
    queue_url: Seq<char>,
    read: Seq<char>,
)
    ensures
        args.body@ == "-"@ ==> {
            &&& proceeding(QueueUse::Send(args), queue_url).1 is ReadBody
            &&& proceeding(QueueUse::Send(args), queue_url).0.next(read).1 == Doing::Request(
                send_params(*args, queue_url, read),
            )
        },
        args.body@ != "-"@ ==> proceeding(QueueUse::Send(args), queue_url).1 == Doing::Request(
            send_params(*args, queue_url, args.body@),
        ),
{
}

/// What a URL of a queue is: it begins with either scheme.
pub proof fn law_url_has_a_scheme(rest: Seq<char>)
    ensures
        is_url("http://"@ + rest),
        is_url("https://"@ + rest),
        rest.len() == 0 || rest[0] != 'h' ==> !is_url(rest),
{
    reveal_strlit("http://");
    reveal_strlit("https://");
    assert("http://"@.is_prefix_of("http://"@ + rest));
    assert("https://"@.is_prefix_of("https://"@ + rest));
    if "http://"@.is_prefix_of(rest) {
        assert("http://"@[0] == rest[0]);
    }
    if "https://"@.is_prefix_of(rest) {
        assert("https://"@[0] == rest[0]);
    }
}

/// Two queries that are the same text have the same parameters.
pub proof fn law_query_is_faithful(a: Seq<Pair>, b: Seq<Pair>)
    requires
        query_text(a) == query_text(b),
    ensures
        a == b,
{
    let f = |pair: Pair| query_part(pair);
    let first = seq![("Version"@, "2012-11-05"@)];
    let x = (first + a).map_values(f);
    let y = (first + b).map_values(f);
    reveal_strlit("&");
    assert("&"@ =~= seq!['&']);
    assert forall|i: int| 0 <= i < x.len() implies !(#[trigger] x[i]).contains('&') by {
        lemma_part_is_safe((first + a)[i]);
    }
    assert forall|i: int| 0 <= i < y.len() implies !(#[trigger] y[i]).contains('&') by {
        lemma_part_is_safe((first + b)[i]);
    }
    text::law_joined_is_faithful(x, y, '&');
    assert(a.len() == b.len());
    assert forall|i: int| 0 <= i < a.len() implies a[i] == b[i] by {
        assert(x[i + 1] == query_part(a[i]));
        assert(y[i + 1] == query_part(b[i]));
        lemma_part_is_faithful(a[i], b[i]);
    }
    assert(a =~= b);
}

/// A part of a query holds no character that parts others.
proof fn lemma_part_is_safe(pair: Pair)
    ensures
        !query_part(pair).contains('&'),
        !percent(pair.0).contains('='),
{
    reveal_strlit("=");
    let part = query_part(pair);
    let n = percent(pair.0).len() as int;
    assert forall|i: int| 0 <= i < part.len() implies #[trigger] part[i] != '&' by {
        if i < n {
            law_percent_is_url_safe(pair.0, i);
        } else if i > n {
            law_percent_is_url_safe(pair.1, i - n - 1);
        }
    }
    assert forall|i: int| 0 <= i < n implies #[trigger] percent(pair.0)[i] != '=' by {
        law_percent_is_url_safe(pair.0, i);
    }
}

proof fn lemma_part_is_faithful(a: Pair, b: Pair)
    requires
        query_part(a) == query_part(b),
    ensures
        a == b,
{
    reveal_strlit("=");
    assert("="@ =~= seq!['=']);
    lemma_part_is_safe(a);
    lemma_part_is_safe(b);
    text::lemma_split_first(percent(a.0), '=', percent(a.1));
    text::lemma_split_first(percent(b.0), '=', percent(b.1));
    law_percent_is_faithful(a.0, b.0);
    law_percent_is_faithful(a.1, b.1);
}

/// A query is sent to the host and port of its endpoint, as a request for the
/// endpoint's path with the query after it.
pub proof fn law_query_is_sent_to_its_endpoint(
    host: Seq<char>,
    port: u16,
    path: Seq<char>,
    params: Seq<Pair>,
)
    requires
        !host.contains('/'),
    ensures
        ({
            let endpoint = "http://"@ + host + ":"@ + number::decimal(port as nat) + "/"@ + path;
            let line = "GET "@ + "/"@ + path + "?"@ + query_text(params) + " HTTP/1.1\r\n"@;
            &&& query_sent(endpoint, params) matches Ok(sent)
            &&& sent.host == host
            &&& sent.port == port
            &&& line.is_prefix_of(sent.text)
            &&& (line + "Host: "@ + host + ":"@ + number::decimal(port as nat)
                + "\r\n"@).is_prefix_of(sent.text)
        }),
{
    let digits = number::decimal(port as nat);
    let endpoint = "http://"@ + host + ":"@ + digits + "/"@ + path;
    reveal_strlit("/");
    reveal_strlit(":");
    assert(":"@ =~= seq![':']);
    assert(("/"@ + path)[0] == '/');
    law_endpoint_round_trip(host, port, "/"@ + path);
    assert("http://"@ + host + seq![':'] + digits + ("/"@ + path) =~= endpoint);
    reveal_strlit(" HTTP/1.1\r\n");
    reveal_strlit(" HTTP/1.1\r\nHost: ");
    reveal_strlit("Host: ");
    reveal_strlit("\r\n");
    reveal_strlit("\r\nConnection: close\r\n\r\n");
    assert(" HTTP/1.1\r\nHost: "@ =~= " HTTP/1.1\r\n"@ + "Host: "@);
    assert("\r\nConnection: close\r\n\r\n"@ =~= "\r\n"@
        + "\r\nConnection: close\r\n\r\n"@.skip(2));
    let sent = query_sent(endpoint, params)->Ok_0;
    let line = "GET "@ + "/"@ + path + "?"@ + query_text(params) + " HTTP/1.1\r\n"@;
    let second = line + "Host: "@ + host + ":"@ + digits + "\r\n"@;
    assert(sent.text =~= second + "\r\nConnection: close\r\n\r\n"@.skip(2));
}

/// An answer is its body: what follows the head of a response, all of it, and it
/// is a success exactly where the first line of the head says so.
pub proof fn law_answer_is_the_body(head: Seq<char>, body: Seq<char>)
    requires
        forall|i: int|
            0 <= i < head.len() ==> !text::occurs_at(
                head + "\r\n\r\n"@ + body,
                "\r\n\r\n"@,
                i,
            ),
    ensures
        query_answer(head + "\r\n\r\n"@ + body) == (if text::find_text(
            first_line(head),
            " 200 "@,
        ) is Some {
            Ok::<Seq<char>, Failure>(body)
        } else {
            Err(Failure::Aws(body))
        }),
{
    lemma_split_at(head, "\r\n\r\n"@, body);
}

/// The first line of a text is what stands before its first line break.
pub proof fn law_first_line(line: Seq<char>, rest: Seq<char>)
    requires
        !line.contains('\n'),
    ensures
        first_line(line + "\n"@ + rest) == line,
        first_line(line) == line,
{
    reveal_strlit("\n");
    assert("\n"@ =~= seq!['\n']);
    text::lemma_split_first(line, '\n', rest);
    text::lemma_find_from(line, "\n"@, 0);
    if let Some(i) = text::find_text(line, "\n"@) {
        assert(line.subrange(i, i + 1)[0] == '\n');
        assert(line.contains(line[i]));
    }
}

/// Attributes are read back as they were written: each with its name and its
/// value, and of two with one name the later.
pub proof fn law_attribute_is_read_back(
    before: Seq<Seq<char>>,
    name: Seq<char>,
    value: Seq<char>,
    other: Seq<char>,
)
    requires
        has_no_blank_ends(name),
        has_no_blank_ends(value),
    ensures
        ({
            let inner = element_list(seq![("Name"@, name), ("Value"@, value)]);
            let all = attributes_in(before.push(inner));
            &&& all.contains_key(name)
            &&& all[name] == JsonTree::Text(value)
            &&& other != name ==> (all.contains_key(other) <==> attributes_in(
                before,
            ).contains_key(other))
            &&& other != name && all.contains_key(other) ==> all[other] == attributes_in(
                before,
            )[other]
        }),
{
    let fields = seq![("Name"@, name), ("Value"@, value)];
    reveal_strlit("Name");
    reveal_strlit("Value");
    assert("Name"@.len() == 4 && "Value"@.len() == 5);
    assert(is_tag("Name"@));
    assert(is_tag("Value"@));
    assert(are_fields(fields));
    law_fields_are_read_back(fields, "Name"@);
    law_fields_are_read_back(fields, "Value"@);
    assert(field_value(fields, "Name"@) == Some(name));
    assert(fields.skip(1)[0] == ("Value"@, value));
    assert(field_value(fields.skip(1), "Value"@) == Some(value));
    assert(field_value(fields, "Value"@) == Some(value));
    let inner = element_list(fields);
    assert(before.push(inner).drop_last() =~= before);
}

/// A listing shows the URL of each queue, in order.
pub proof fn law_queues_are_listed(urls: Seq<Seq<char>>, i: int)
    requires
        0 <= i < urls.len(),
    ensures
        queue_list(urls) matches Shown::Many(rows) && rows.len() == urls.len() && output::shows(
            rows[i],
            "queue_url"@,
            urls[i],
        ),
{
    let fields = queue_tree(urls[i])->Object_0;
    output::lemma_shows(fields, "queue_url"@);
}

/// Where the queue answers a request to send, the record tells the message and
/// the checksum that it gave it.
pub proof fn law_sent_record_tells_the_answer<'a>(
    queue_url: Seq<char>,
    id: Seq<char>,
    md5: Seq<char>,
)
    requires
        has_no_blank_ends(id),
        has_no_blank_ends(md5),
    ensures
        ({
            let answer = element_list(seq![("MD5OfMessageBody"@, md5), ("MessageId"@, id)]);
            &&& Phase::<'a>::Sending(queue_url).next(answer).1 matches Doing::Show(Shown::One(tree))
            &&& output::shows(tree, "queue_url"@, queue_url)
            &&& output::shows(tree, "message_id"@, id)
            &&& output::shows(tree, "md5_of_body"@, md5)
        }),
{
    lemma_answer_to_send(id, md5);
    law_sent_row_shows_it(queue_url, Some(id), Some(md5));
}

/// What is read of the answer to a request to send.
proof fn lemma_answer_to_send(id: Seq<char>, md5: Seq<char>)
    requires
        has_no_blank_ends(id),
        has_no_blank_ends(md5),
    ensures
        ({
            let answer = element_list(seq![("MD5OfMessageBody"@, md5), ("MessageId"@, id)]);
            &&& first_value(answer, "MessageId"@) == Some(id)
            &&& first_value(answer, "MD5OfMessageBody"@) == Some(md5)
        }),
{
    let fields = seq![("MD5OfMessageBody"@, md5), ("MessageId"@, id)];
    assert("MD5OfMessageBody"@ != "MessageId"@ && is_tag("MD5OfMessageBody"@)) by {
        reveal_strlit("MD5OfMessageBody");
        reveal_strlit("MessageId");
        assert("MD5OfMessageBody"@.len() == 16 && "MessageId"@.len() == 9);
    }
    lemma_message_tags();
    assert(are_fields(fields));
    law_fields_are_read_back(fields, "MD5OfMessageBody"@);
    law_fields_are_read_back(fields, "MessageId"@);
    assert(fields.skip(1)[0] == ("MessageId"@, id));
    assert(field_value(fields.skip(1), "MessageId"@) == Some(id));
    assert(field_value(fields, "MessageId"@) == Some(id));
}

/// The record of a message that was sent shows the queue, the message and its checksum.
pub proof fn law_sent_row_shows_it(
    queue_url: Seq<char>,
    id: Option<Seq<char>>,
    md5: Option<Seq<char>>,
)
    ensures
        output::shows(sent_tree(queue_url, id, md5), "queue_url"@, queue_url),
        output::shows(sent_tree(queue_url, id, md5), "message_id"@, output::written_text(id)),
        output::shows(sent_tree(queue_url, id, md5), "md5_of_body"@, output::written_text(md5)),
{
    reveal_strlit("queue_url");
    reveal_strlit("message_id");
    reveal_strlit("md5_of_body");
    assert("queue_url"@.len() == 9);
    assert("message_id"@.len() == 10);
    assert("md5_of_body"@.len() == 11);
    let fields = sent_tree(queue_url, id, md5)->Object_0;
    output::lemma_shows(fields, "queue_url"@);
    output::lemma_shows(fields, "message_id"@);
    output::lemma_shows(fields, "md5_of_body"@);
}

/// The record of a message shows the queue, its name, its receipt handle and its body.
pub proof fn law_message_row_shows_it(message: Message)
    ensures
        output::shows(message.tree(), "queue_url"@, message.queue_url),
        output::shows(message.tree(), "message_id"@, output::written_text(message.message_id)),
        output::shows(
            message.tree(),
            "receipt_handle"@,
            output::written_text(message.receipt_handle),
        ),
        output::shows(message.tree(), "body"@, output::written_text(message.body)),
{
    reveal_strlit("queue_url");
    reveal_strlit("message_id");
    reveal_strlit("receipt_handle");
    reveal_strlit("body");
    assert("queue_url"@.len() == 9);
    assert("message_id"@.len() == 10);
    assert("receipt_handle"@.len() == 14);
    assert("body"@.len() == 4);
    let fields = message.tree()->Object_0;
    output::lemma_shows(fields, "queue_url"@);
    output::lemma_shows(fields, "message_id"@);
    output::lemma_shows(fields, "receipt_handle"@);
    output::lemma_shows(fields, "body"@);
}

/// The record of a purged queue shows the queue and that it was purged.
pub proof fn law_purged_row_shows_it(queue_url: Seq<char>)
    ensures
        output::shows(purged_tree(queue_url), "queue_url"@, queue_url),
        output::shows(purged_tree(queue_url), "purged"@, "true"@),
{
    reveal_strlit("queue_url");
    reveal_strlit("purged");
    assert("queue_url"@.len() == 9);
    assert("purged"@.len() == 6);
    let fields = purged_tree(queue_url)->Object_0;
    output::lemma_shows(fields, "queue_url"@);
    output::lemma_shows(fields, "purged"@);
}

/// The record of a queue that was looked up shows its name and its URL.
pub proof fn law_url_row_shows_it(name: Seq<char>, url: Seq<char>)
    ensures
        output::shows(url_tree(name, url), "queue_name"@, name),
        output::shows(url_tree(name, url), "queue_url"@, url),
{
    reveal_strlit("queue_name");
    reveal_strlit("queue_url");
    assert("queue_name"@.len() == 10);
    assert("queue_url"@.len() == 9);
    let fields = url_tree(name, url)->Object_0;
    output::lemma_shows(fields, "queue_name"@);
    output::lemma_shows(fields, "queue_url"@);
}

/// An endpoint without a port is reached at the port of its scheme.
pub proof fn law_endpoint_without_port(host: Seq<char>, path: Seq<char>)
    requires
        !host.contains('/'),
        !host.contains(':'),
    ensures
        place_of("http://"@ + host + "/"@ + path) matches Ok(place) && place.host == host
            && place.port == 80 && place.path == "/"@ + path,
{
    reveal_strlit("/");
    assert("/"@ =~= seq!['/']);
    let endpoint = "http://"@ + host + "/"@ + path;
    let rest = host + seq!['/'] + path;
    assert(endpoint =~= "http://"@ + rest);
    assert("http://"@.is_prefix_of(endpoint));
    assert(endpoint.skip("http://"@.len() as int) =~= rest);
    text::lemma_split_first(host, '/', path);
    lemma_no_colon(host, host.len() as int);
}

proof fn lemma_no_colon(s: Seq<char>, end: int)
    requires
        0 <= end <= s.len(),
        !s.contains(':'),
    ensures
        text::rfind_below(s, ':', end) is None,
    decreases end,
{
    if end > 0 {
        assert(s.contains(s[end - 1]));
        lemma_no_colon(s, end - 1);
    }
}

/// An endpoint of another scheme cannot be used.
pub proof fn law_endpoint_needs_its_scheme(endpoint: Seq<char>)
    requires
        !"http://"@.is_prefix_of(endpoint),
    ensures
        place_of(endpoint) matches Err(Failure::Endpoint(_)),
{
}

/// All elements with a name are read back, in order.
pub proof fn law_all_elements_are_read_back(tag: Seq<char>, texts: Seq<Seq<char>>)
    requires
        is_tag(tag),
        forall|i: int| 0 <= i < texts.len() ==> has_no_blank_ends(#[trigger] texts[i]),
    ensures
        all_values(element_list(texts.map_values(|s: Seq<char>| (tag, s))), tag) == texts,
    decreases texts.len(),
{
    let f = |s: Seq<char>| (tag, s);
    let fields = texts.map_values(f);
    let all = element_list(fields);
    if texts.len() == 0 {
        reveal_strlit("<");
        assert(text::find_text(all, opening(tag)) is None);
        assert(all_values(all, tag) =~= texts);
    } else {
        let rest = texts.skip(1);
        let inner = escaped(texts[0]);
        let tail = element_list(rest.map_values(f));
        assert forall|i: int| 0 <= i < rest.len() implies has_no_blank_ends(
            #[trigger] rest[i],
        ) by {
            assert(has_no_blank_ends(texts[i + 1]));
        }
        law_all_elements_are_read_back(tag, rest);
        assert(fields.skip(1) =~= rest.map_values(f));
        assert(all == element(tag, texts[0]) + tail);
        lemma_first_element(tag, texts[0], tail);
        assert(enclosed(all, opening(tag), closing(tag)) == Some((inner, tail)));
        let g = |inner: Seq<char>| element_text(inner);
        assert(elements(all, tag) == seq![inner] + elements(tail, tag));
        assert(all_values(all, tag) =~= seq![element_text(inner)] + all_values(tail, tag));
        assert(has_no_blank_ends(texts[0]));
        lemma_text_in_element(texts[0]);
        assert(seq![texts[0]] + rest =~= texts);
    }
}

/// The first element of a text is the one that it begins with.
proof fn lemma_first_element(tag: Seq<char>, s: Seq<char>, after: Seq<char>)
    ensures
        enclosed(element(tag, s) + after, opening(tag), closing(tag)) == Some((escaped(s), after)),
{
    reveal_strlit("<");
    reveal_strlit("</");
    let inner = escaped(s);
    let rest = inner + closing(tag) + after;
    let all = element(tag, s) + after;
    lemma_escaped(s);
    assert(all =~= Seq::<char>::empty() + opening(tag) + rest);
    lemma_split_at(Seq::empty(), opening(tag), rest);
    assert forall|i: int| 0 <= i < inner.len() implies !text::occurs_at(
        rest,
        closing(tag),
        i,
    ) by {
        if text::occurs_at(rest, closing(tag), i) {
            let found = rest.subrange(i, i + closing(tag).len());
            assert(found == closing(tag));
            assert(found[0] == closing(tag)[0]);
            assert(closing(tag)[0] == '<');
            assert(inner[i] == '<');
            assert(inner.contains(inner[i]));
        }
    }
    lemma_split_at(inner, closing(tag), after);
}

/// The text of an element is what was escaped in it.
proof fn lemma_text_in_element(s: Seq<char>)
    requires
        has_no_blank_ends(s),
    ensures
        element_text(escaped(s)) == s,
{
    lemma_escaped(s);
    law_unescape_undoes_escape(s);
}

/// A listing shows each queue that the answer names, in order.
pub proof fn law_listing_shows_each_queue<'a>(urls: Seq<Seq<char>>)
    requires
        forall|i: int| 0 <= i < urls.len() ==> has_no_blank_ends(#[trigger] urls[i]),
    ensures
        Phase::<'a>::Listing.next(
            element_list(urls.map_values(|url: Seq<char>| ("QueueUrl"@, url))),
        ).1 == Doing::Show(queue_list(urls)),
{
    reveal_strlit("QueueUrl");
    assert(is_tag("QueueUrl"@));
    law_all_elements_are_read_back("QueueUrl"@, urls);
}

/// The record of a queue's attributes shows the queue, and each attribute under its
/// name.
pub proof fn law_attributes_row_shows_it(
    queue_url: Seq<char>,
    attributes: Map<Seq<char>, JsonTree>,
)
    ensures
        output::shows(attributes_tree(queue_url, attributes), "queue_url"@, queue_url),
        attributes_tree(queue_url, attributes)->Object_0["attributes"@] == JsonTree::Object(
            attributes,
        ),
{
    reveal_strlit("queue_url");
    reveal_strlit("attributes");
    assert("queue_url"@.len() == 9 && "attributes"@.len() == 10);
    output::lemma_shows(attributes_tree(queue_url, attributes)->Object_0, "queue_url"@);
}

/// A text without a character to be escaped is read as it is, and each escape stands
/// for its character.
#[verifier::spinoff_prover]
#[verifier::rlimit(40)]
pub proof fn law_escapes_stand_for_their_characters(s: Seq<char>)
    requires
        !s.contains('<'),
        !s.contains('>'),
        !s.contains('"'),
        !s.contains('\''),
        !s.contains('&'),
    ensures
        unescaped(s) == s,
        unescaped(s + "&lt;"@) == s + "<"@,
        unescaped(s + "&gt;"@) == s + ">"@,
        unescaped(s + "&quot;"@) == s + "\""@,
        unescaped(s + "&apos;"@) == s + "'"@,
        unescaped(s + "&amp;"@) == s + "&"@,
{
    reveal_strlit("<");
    reveal_strlit(">");
    reveal_strlit("\"");
    reveal_strlit("'");
    reveal_strlit("&");
    assert(is_plain(s)) by {
        reveal(is_plain);
        assert forall|i: int| 0 <= i < s.len() implies escape_rank(#[trigger] s[i]) == 5 by {
            assert(s.contains(s[i]));
        }
    }
    lemma_plain_escape(s, 0);
    law_unescape_undoes_escape(s);
    lemma_one_escape(s, '<');
    lemma_one_escape(s, '>');
    lemma_one_escape(s, '"');
    lemma_one_escape(s, '\'');
    lemma_one_escape(s, '&');
    assert(s + "<"@ =~= s.push('<'));
    assert(s + ">"@ =~= s.push('>'));
    assert(s + "\""@ =~= s.push('"'));
    assert(s + "'"@ =~= s.push('\''));
    assert(s + "&"@ =~= s.push('&'));
}

/// A text without a character to be escaped.
#[verifier::opaque]
spec fn is_plain(s: Seq<char>) -> bool {
    forall|i: int| 0 <= i < s.len() ==> escape_rank(#[trigger] s[i]) == 5
}

/// An escape after a plain text stands for its character.
proof fn lemma_one_escape(s: Seq<char>, c: char)
    requires
        is_plain(s),
        0 <= escape_rank(c) < 5,
    ensures
        unescaped(s + escape_of(escape_rank(c)).0) == s.push(c),
{
    lemma_escaped_end(s, c);
    law_unescape_undoes_escape(s.push(c));
}

proof fn lemma_plain_escape(s: Seq<char>, level: int)
    requires
        is_plain(s),
    ensures
        escaped_from(s, level) == s,
    decreases s.len(),
{
    reveal(is_plain);
    if s.len() > 0 {
        lemma_plain_escape(s.skip(1), level);
        assert(seq![s[0]] + s.skip(1) =~= s);
    } else {
        assert(escaped_from(s, level) =~= s);
    }
}

/// A character to be escaped at the end of a plain text.
proof fn lemma_escaped_end(s: Seq<char>, c: char)
    requires
        is_plain(s),
        0 <= escape_rank(c) < 5,
    ensures
        escaped(s.push(c)) == s + escape_of(escape_rank(c)).0,
    decreases s.len(),
{
    reveal(is_plain);
    let all = s.push(c);
    if s.len() > 0 {
        lemma_escaped_end(s.skip(1), c);
        assert(all.skip(1) =~= s.skip(1).push(c));
        assert(seq![s[0]] + (s.skip(1) + escape_of(escape_rank(c)).0) =~= s + escape_of(
            escape_rank(c),
        ).0);
    } else {
        assert(all.skip(1) =~= Seq::<char>::empty());
        assert(escaped_from(all.skip(1), 0) =~= Seq::empty());
        assert(escaped(all) =~= s + escape_of(escape_rank(c)).0);
    }
}

/// A letter or a digit stands for itself in a query, and a space is written by its
/// number.
pub proof fn law_letters_stand_for_themselves(c: char)
    requires
        'a' <= c <= 'z' || 'A' <= c <= 'Z' || '0' <= c <= '9',
    ensures
        percent_byte(c as u8) == seq![c],
        percent_byte(32) == seq!['%', '2', '0'],
        percent_byte(38) == seq!['%', '2', '6'],
        percent_byte(255) == seq!['%', 'F', 'F'],
{
}

/// A request to an endpoint without a path is for its root.
pub proof fn law_query_without_a_path(host: Seq<char>, port: u16, params: Seq<Pair>)
    requires
        !host.contains('/'),
    ensures
        query_sent("http://"@ + host + ":"@ + number::decimal(port as nat), params) matches Ok(sent)
            && sent.host == host && sent.port == port && ("GET /?"@ + query_text(
            params,
        )).is_prefix_of(sent.text),
{
    let digits = number::decimal(port as nat);
    let none = Seq::<char>::empty();
    let endpoint = "http://"@ + host + ":"@ + digits;
    reveal_strlit(":");
    assert(":"@ =~= seq![':']);
    law_endpoint_round_trip(host, port, none);
    assert("http://"@ + host + seq![':'] + digits + none =~= endpoint);
    reveal_strlit("GET ");
    reveal_strlit("/?");
    reveal_strlit("GET /?");
    let sent = query_sent(endpoint, params)->Ok_0;
    let head = "GET /?"@ + query_text(params);
    assert("GET "@ + ("/?"@ + query_text(params)) =~= head);
    assert(head =~= sent.text.subrange(0, head.len() as int));
}

} // verus!
