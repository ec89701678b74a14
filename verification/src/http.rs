//! A small reading of HTTP: the start line names a route, a header names
//! the client, and an answer is a status line.

use crate::clock::NANOS_PER_SEC;
use crate::decimal::{
    decimal, lemma_decimal_digits, lemma_decimal_round_trip, parse_usize, push_decimal, read_usize,
};
use crate::limiter::LimitError;
use crate::server::{Gateway, Route, Server};
use crate::text::{
    chars_of, fields, has_prefix, is_word, lemma_fields_after_space, lemma_fields_after_word,
    same_chars, split_fields, views,
};
use vstd::prelude::*;
use vstd::std_specs::convert::{FromSpecImpl, TryFromSpecImpl};
use vstd::string::{StrSliceExecFns, StringExecFns};

verus! {

/// A request that was understood.
#[derive(Debug, PartialEq, Eq)]
pub struct HttpRequest {
    /// The route that the start line asks for.
    pub route: Route,
    /// The token of the client that sent the request.
    pub auth_token: String,
}

/// Why a request is not served. Each variant stands for one status code.
#[derive(Clone, Copy, Debug, PartialEq, Eq, Structural)]
pub enum HttpError {
    /// 400: the start line does not have three fields.
    InvalidFormat,
    /// 401: no header carries a bearer token.
    Unauthorized,
    /// 404: the path is none that the gateway serves.
    NotFound,
    /// 405: the path is served, but not with this method.
    MethodNotAllowed,
    /// 429: the client is rate limited. The value is the time in
    /// nanoseconds after which it should try again; the client is told in
    /// whole seconds, in the `Retry-After` header.
    TooManyRequests(u64),
}

/// The error that tells a client of a tracker's refusal: it carries the
/// same time to wait.
pub open spec fn refusal(error: LimitError) -> HttpError {
    match error {
        LimitError::Timeout(retry_duration) => HttpError::TooManyRequests(retry_duration),
    }
}

impl From<LimitError> for HttpError {
    fn from(value: LimitError) -> (error: HttpError) {
        match value {
            LimitError::Timeout(retry_duration) => HttpError::TooManyRequests(retry_duration),
        }
    }
}

impl FromSpecImpl<LimitError> for HttpError {
    open spec fn obeys_from_spec() -> bool {
        true
    }

    open spec fn from_spec(value: LimitError) -> HttpError {
        refusal(value)
    }
}

/// The route that a request with the given method and path asks for.
///
/// The two fixed paths are matched as a whole. A path that goes on after
/// `/vault/items/` names an item if what follows writes a number that a
/// `usize` holds; as a number holds no `/`, such a path has exactly four
/// segments. Every path is served with one method only, and a path that is
/// not served is reported whatever the method.
pub open spec fn route_of(method: Seq<char>, path: Seq<char>) -> Result<Route, HttpError> {
    if path == "/vault"@ {
        if method == "POST"@ {
            Ok(Route::Vault)
        } else {
            Err(HttpError::MethodNotAllowed)
        }
    } else if path == "/vault/items"@ {
        if method == "GET"@ {
            Ok(Route::Items)
        } else {
            Err(HttpError::MethodNotAllowed)
        }
    } else if "/vault/items/"@.is_prefix_of(path) {
        match parse_usize(path.skip("/vault/items/"@.len() as int)) {
            Some(id) => if method == "PUT"@ {
                Ok(Route::Id(id))
            } else {
                Err(HttpError::MethodNotAllowed)
            },
            None => Err(HttpError::NotFound),
        }
    } else {
        Err(HttpError::NotFound)
    }
}

/// The route that a start line asks for. The line has three fields: the
/// method, the path and the version of the protocol, which is not looked at.
pub open spec fn classify(line: Seq<char>) -> Result<Route, HttpError> {
    let parts = fields(line);
    if parts.len() != 3 {
        Err(HttpError::InvalidFormat)
    } else {
        route_of(parts[0], parts[1])
    }
}

/// The method that `route` is served with.
pub open spec fn method_of(route: Route) -> Seq<char> {
    match route {
        Route::Vault => "POST"@,
        Route::Items => "GET"@,
        Route::Id(_) => "PUT"@,
    }
}

/// The path that `route` is served at.
pub open spec fn path_of(route: Route) -> Seq<char> {
    match route {
        Route::Vault => "/vault"@,
        Route::Items => "/vault/items"@,
        Route::Id(id) => "/vault/items/"@ + decimal(id as nat),
    }
}

/// The start line that asks for `route`: its method, its path and the
/// version of the protocol, with one space between them.
pub open spec fn start_line(route: Route) -> Seq<char> {
    method_of(route) + seq![' '] + path_of(route) + seq![' '] + "HTTP/1.1"@
}

/// Reads the start line of a request as one of the routes.
impl TryFrom<&str> for Route {
    type Error = HttpError;

    fn try_from(value: &str) -> (result: Result<Route, HttpError>)
        ensures
            result == classify(value@),
    {
        let line = chars_of(value);
        let parts = split_fields(&line);
        if parts.len() != 3 {
            return Err(HttpError::InvalidFormat);
        }
        assert(views(parts@)[0] == parts@[0]@);
        assert(views(parts@)[1] == parts@[1]@);
        let method = &parts[0];
        let path = &parts[1];
        let vault = chars_of("/vault");
        let items = chars_of("/vault/items");
        let item_prefix = chars_of("/vault/items/");
        if same_chars(path, &vault) {
            if same_chars(method, &chars_of("POST")) {
                Ok(Route::Vault)
            } else {
                Err(HttpError::MethodNotAllowed)
            }
        } else if same_chars(path, &items) {
            if same_chars(method, &chars_of("GET")) {
                Ok(Route::Items)
            } else {
                Err(HttpError::MethodNotAllowed)
            }
        } else if has_prefix(path, &item_prefix) {
            match read_usize(path, item_prefix.len()) {
                Some(id) => if same_chars(method, &chars_of("PUT")) {
                    Ok(Route::Id(id))
                } else {
                    Err(HttpError::MethodNotAllowed)
                },
                None => Err(HttpError::NotFound),
            }
        } else {
            Err(HttpError::NotFound)
        }
    }
}

impl TryFromSpecImpl<&str> for Route {
    open spec fn obeys_try_from_spec() -> bool {
        true
    }

    open spec fn try_from_spec(value: &str) -> Result<Route, HttpError> {
        classify(value@)
    }
}

/// The token of a header line that carries one: what follows
/// `Authorization: Bearer `, be it empty.
pub open spec fn bearer_token(line: Seq<char>) -> Option<Seq<char>> {
    if "Authorization: Bearer "@.is_prefix_of(line) {
        Some(line.skip("Authorization: Bearer "@.len() as int))
    } else {
        None
    }
}

/// The token of the first of `lines` that carries one.
pub open spec fn first_bearer_token(lines: Seq<Seq<char>>) -> Option<Seq<char>>
    decreases lines.len(),
{
    if lines.len() == 0 {
        None
    } else {
        match bearer_token(lines[0]) {
            Some(token) => Some(token),
            None => first_bearer_token(lines.skip(1)),
        }
    }
}

/// What the lines of a request ask for: the route of the first line and the
/// token of the first header that carries one. A start line that names no
/// route is reported before a missing token.
pub open spec fn parse(lines: Seq<Seq<char>>) -> Result<(Route, Seq<char>), HttpError> {
    if lines.len() == 0 {
        Err(HttpError::InvalidFormat)
    } else {
        match classify(lines[0]) {
            Ok(route) => match first_bearer_token(lines.skip(1)) {
                Some(token) => Ok((route, token)),
                None => Err(HttpError::Unauthorized),
            },
            Err(error) => Err(error),
        }
    }
}

/// The texts of `lines`.
pub open spec fn texts(lines: Seq<String>) -> Seq<Seq<char>> {
    lines.map_values(|line: String| line@)
}

/// What a request that was read, or the error in its place, says in terms
/// of `parse`: the route and the text of the token.
pub open spec fn request_view(result: Result<HttpRequest, HttpError>) -> Result<
    (Route, Seq<char>),
    HttpError,
> {
    match result {
        Ok(request) => Ok((request.route, request.auth_token@)),
        Err(error) => Err(error),
    }
}

/// Reads the lines of a request: the start line, then the headers.
pub fn parse_request(request_lines: Vec<String>) -> (result: Result<HttpRequest, HttpError>)
    ensures
        parse(texts(request_lines@)) == request_view(result),
{
    let ghost lines = texts(request_lines@);
    if request_lines.len() == 0 {
        return Err(HttpError::InvalidFormat);
    }
    assert(lines[0] == request_lines@[0]@);
    let route = match Route::try_from(request_lines[0].as_str()) {
        Ok(route) => route,
        Err(error) => { return Err(error); },
    };
    let prefix = chars_of("Authorization: Bearer ");
    let mut i: usize = 1;
    while i < request_lines.len()
        invariant
            1 <= i <= request_lines.len(),
            lines == texts(request_lines@),
            prefix@ == "Authorization: Bearer "@,
            classify(lines[0]) == Ok::<Route, HttpError>(route),
            first_bearer_token(lines.skip(1)) == first_bearer_token(lines.skip(i as int)),
        decreases request_lines.len() - i,
    {
        let header = request_lines[i].as_str();
        let line = chars_of(header);
        assert(lines.skip(i as int)[0] == line@);
        if has_prefix(&line, &prefix) {
            let token = header.substring_char(prefix.len(), line.len()).to_owned();
            assert(token@ == line@.skip(prefix@.len() as int));
            return Ok(HttpRequest { route, auth_token: token });
        }
        assert(lines.skip(i as int).skip(1) == lines.skip(i + 1));
        i += 1;
    }
    Err(HttpError::Unauthorized)
}

/// What a gateway in state `gateway` answers at `now` to the lines of a
/// request: what stands in the way of reading them, or else what the
/// tracker of the route says to the client.
pub open spec fn answer(gateway: Gateway, lines: Seq<Seq<char>>, now: nat) -> Result<
    (),
    HttpError,
> {
    match parse(lines) {
        Ok((route, token)) => match gateway.verdict(route, token, now) {
            Ok(()) => Ok(()),
            Err(error) => Err(refusal(error)),
        },
        Err(error) => Err(error),
    }
}

/// The gateway after it has answered the lines of a request at `now`. A
/// request that cannot be read leaves every window as it was.
pub open spec fn after_request(gateway: Gateway, lines: Seq<Seq<char>>, now: nat) -> Gateway {
    match parse(lines) {
        Ok((route, token)) => gateway.after(route, token, now),
        Err(_) => gateway,
    }
}

/// Answers the lines of one request at the time `now`: reads them, and
/// where they name a route and a client, lets the gateway decide. The
/// gateway's clock is not read.
pub fn serve_at(server: &mut Server, request_lines: Vec<String>, now: u64) -> (response: Result<
    (),
    HttpError,
>)
    ensures
        response == answer(old(server)@, texts(request_lines@), now as nat),
        final(server)@ == after_request(old(server)@, texts(request_lines@), now as nat),
        final(server).latest() == old(server).latest(),
{
    match parse_request(request_lines) {
        Ok(request) => match server.handle_request_at(request.route, request.auth_token, now) {
            Ok(()) => Ok(()),
            Err(error) => Err(HttpError::from(error)),
        },
        Err(error) => Err(error),
    }
}

/// Answers the lines of one request at the present time. The gateway's
/// clock is read once the lines have named a route and a client, and the
/// time is no less than the one that the gateway read before; for lines
/// that cannot be read, the clock is left alone.
pub fn serve(server: &mut Server, request_lines: Vec<String>) -> (response: Result<(), HttpError>)
    ensures
        old(server).latest() <= final(server).latest(),
        parse(texts(request_lines@)) is Err ==> final(server).latest() == old(server).latest(),
        response == answer(old(server)@, texts(request_lines@), final(server).latest() as nat),
        final(server)@ == after_request(
            old(server)@,
            texts(request_lines@),
            final(server).latest() as nat,
        ),
{
    match parse_request(request_lines) {
        Ok(request) => match server.handle_request(request.route, request.auth_token) {
            Ok(()) => Ok(()),
            Err(error) => Err(HttpError::from(error)),
        },
        Err(error) => Err(error),
    }
}

/// The status line, and the header where there is one, that answers a
/// request. A rate limited client is told after how many whole seconds to
/// try again.
pub open spec fn response_text(response: Result<(), HttpError>) -> Seq<char> {
    match response {
        Ok(()) => "HTTP/1.1 200 OK\r\n\r\n"@,
        Err(HttpError::InvalidFormat) => "HTTP/1.1 400 Bad Request\r\n\r\n"@,
        Err(HttpError::Unauthorized) => "HTTP/1.1 401 Unauthorized\r\n\r\n"@,
        Err(HttpError::NotFound) => "HTTP/1.1 404 Not Found\r\n\r\n"@,
        Err(HttpError::MethodNotAllowed) => "HTTP/1.1 405 Method Not Allowed\r\n\r\n"@,
        Err(HttpError::TooManyRequests(retry_duration)) => {
            "HTTP/1.1 429 Too Many Requests\r\nRetry-After: "@ + decimal(
                (retry_duration / NANOS_PER_SEC) as nat,
            ) + "\r\n"@
        },
    }
}

/// Writes the answer to a request.
pub fn format_response(response: Result<(), HttpError>) -> (text: String)
    ensures
        text@ == response_text(response),
{
    match response {
        Ok(()) => "HTTP/1.1 200 OK\r\n\r\n".to_owned(),
        Err(HttpError::InvalidFormat) => "HTTP/1.1 400 Bad Request\r\n\r\n".to_owned(),
        Err(HttpError::Unauthorized) => "HTTP/1.1 401 Unauthorized\r\n\r\n".to_owned(),
        Err(HttpError::NotFound) => "HTTP/1.1 404 Not Found\r\n\r\n".to_owned(),
        Err(HttpError::MethodNotAllowed) => "HTTP/1.1 405 Method Not Allowed\r\n\r\n".to_owned(),
        Err(HttpError::TooManyRequests(retry_duration)) => {
            let mut text = "HTTP/1.1 429 Too Many Requests\r\nRetry-After: ".to_owned();
            push_decimal(&mut text, retry_duration / NANOS_PER_SEC);
            text.append("\r\n");
            text
        },
    }
}

/// The method and the path of a route are words, and so is the version of
/// the protocol.
proof fn lemma_start_line_words(route: Route)
    ensures
        is_word(method_of(route)),
        is_word(path_of(route)),
        is_word("HTTP/1.1"@),
{
    reveal_strlit("POST");
    reveal_strlit("GET");
    reveal_strlit("PUT");
    reveal_strlit("/vault");
    reveal_strlit("/vault/items");
    reveal_strlit("/vault/items/");
    reveal_strlit("HTTP/1.1");
    if let Route::Id(id) = route {
        lemma_decimal_digits(id as nat);
    }
}

/// The start line of a route is classified as that route, an item with its
/// very id.
pub proof fn lemma_classify_round_trip(route: Route)
    ensures
        classify(start_line(route)) == Ok::<Route, HttpError>(route),
{
    let method = method_of(route);
    let path = path_of(route);
    let version = "HTTP/1.1"@;
    let none = Seq::<char>::empty();
    lemma_start_line_words(route);
    assert(fields(start_line(route)) == seq![method, path, version]) by {
        let after_path = seq![' '] + (version + none);
        let after_method = seq![' '] + (path + after_path);
        assert(start_line(route) == method + after_method);
        lemma_fields_after_word(version, none);
        lemma_fields_after_space(' ', version + none);
        lemma_fields_after_word(path, after_path);
        lemma_fields_after_space(' ', path + after_path);
        lemma_fields_after_word(method, after_method);
    }
    assert(route_of(method, path) == Ok::<Route, HttpError>(route)) by {
        reveal_strlit("/vault");
        reveal_strlit("/vault/items");
        reveal_strlit("/vault/items/");
        if let Route::Id(id) = route {
            let prefix = "/vault/items/"@;
            lemma_decimal_round_trip(id as nat);
            assert(prefix.is_prefix_of(path));
            assert(path.skip(prefix.len() as int) == decimal(id as nat));
        }
    }
}

/// How often `/` occurs in `path`. The segments of a path are one more.
pub open spec fn slashes(path: Seq<char>) -> nat
    decreases path.len(),
{
    if path.len() == 0 {
        0
    } else if path.last() == '/' {
        slashes(path.drop_last()) + 1
    } else {
        slashes(path.drop_last())
    }
}

/// The `/` of two texts in a row are those of the one and those of the
/// other.
proof fn lemma_slashes_add(left: Seq<char>, right: Seq<char>)
    ensures
        slashes(left + right) == slashes(left) + slashes(right),
    decreases right.len(),
{
    if right.len() == 0 {
        assert(left + right == left);
    } else {
        assert((left + right).drop_last() == left + right.drop_last());
        lemma_slashes_add(left, right.drop_last());
    }
}

/// A text in which no character is `/` holds none.
proof fn lemma_no_slashes(text: Seq<char>)
    requires
        forall|i: int| 0 <= i < text.len() ==> #[trigger] text[i] != '/',
    ensures
        slashes(text) == 0,
    decreases text.len(),
{
    if text.len() > 0 {
        lemma_no_slashes(text.drop_last());
    }
}

/// A path that names an item has exactly three `/`, and so four segments:
/// an empty one, `vault`, `items` and the id.
pub proof fn lemma_item_path_has_four_segments(method: Seq<char>, path: Seq<char>)
    requires
        route_of(method, path) matches Ok(Route::Id(_)),
    ensures
        slashes(path) == 3,
{
    let prefix = "/vault/items/"@;
    let last = path.skip(prefix.len() as int);
    reveal_strlit("/vault/items/");
    assert(path == prefix + last);
    lemma_slashes_add(prefix, last);
    assert(slashes(prefix) == 3) by {
        assert(prefix == seq!['/'] + seq!['v', 'a', 'u', 'l', 't'] + seq!['/'] + seq![
            'i',
            't',
            'e',
            'm',
            's',
        ] + seq!['/']);
        lemma_no_slashes(seq!['v', 'a', 'u', 'l', 't']);
        lemma_no_slashes(seq!['i', 't', 'e', 'm', 's']);
        lemma_slashes_add(seq!['/'], seq!['v', 'a', 'u', 'l', 't']);
        lemma_slashes_add(seq!['/'] + seq!['v', 'a', 'u', 'l', 't'], seq!['/']);
        lemma_slashes_add(
            seq!['/'] + seq!['v', 'a', 'u', 'l', 't'] + seq!['/'],
            seq!['i', 't', 'e', 'm', 's'],
        );
        lemma_slashes_add(
            seq!['/'] + seq!['v', 'a', 'u', 'l', 't'] + seq!['/'] + seq!['i', 't', 'e', 'm', 's'],
            seq!['/'],
        );
        assert(seq!['/'].drop_last() == Seq::<char>::empty());
        assert(slashes(Seq::<char>::empty()) == 0);
        assert(slashes(seq!['/']) == 1);
    }
    assert(slashes(last) == 0) by {
        let digits = if last.len() > 0 && last[0] == '+' {
            last.skip(1)
        } else {
            last
        };
        assert forall|i: int| 0 <= i < last.len() implies #[trigger] last[i] != '/' by {
            if last[0] == '+' && i > 0 {
                assert(last[i] == digits[i - 1]);
            }
        }
        lemma_no_slashes(last);
    }
}

} // verus!
