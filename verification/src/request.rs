//! The request line, the methods that are served, the parsed request and
//! its answer, and the answers to what is turned away.

use crate::fields::FieldMap;
use crate::headers::keep_alive_requested;
use crate::headers::wants_keep_alive;
use crate::helpers::build_response;
use crate::helpers::response_text;
use crate::text::split_whitespace;
use crate::text::str_eq;
use crate::text::tokens;
use crate::url::parse_query_params;
use crate::url::path_of;
use crate::url::split_target;
use crate::url::target_params;
use vstd::prelude::*;
use vstd::string::StringExecFns;

verus! {

/// The methods that are served.
#[derive(Clone, Copy, Debug, PartialEq, Eq, Structural)]
pub enum Method {
    Get,
    Post,
    Put,
    Delete,
}

/// Why a connection or a request is turned away. Each reason has its own
/// response, after which the connection is closed.
#[derive(Clone, Copy, Debug, PartialEq, Eq, Structural)]
pub enum Rejection {
    /// The client is over its quota.
    RateLimited,
    /// The request line does not consist of exactly three tokens.
    MalformedRequestLine,
    /// The version token is not the supported one.
    UnsupportedVersion,
    /// The method token names no method that is served.
    UnsupportedMethod,
}

/// The three tokens of a request line.
#[derive(Debug, PartialEq, Eq)]
pub struct RequestLine {
    pub method: String,
    pub target: String,
    pub version: String,
}

/// The three tokens of a request line, as character sequences.
pub struct RequestLineView {
    pub method: Seq<char>,
    pub target: Seq<char>,
    pub version: Seq<char>,
}

impl View for RequestLine {
    type V = RequestLineView;

    open spec fn view(&self) -> RequestLineView {
        RequestLineView { method: self.method@, target: self.target@, version: self.version@ }
    }
}

/// A request that will be answered: a served method, the path without its
/// query string, the version, the headers and the query parameters.
pub struct ParsedRequest {
    pub method: Method,
    pub path: String,
    pub version: String,
    pub headers: FieldMap,
    pub query: FieldMap,
}

/// A parsed request over character sequences and mappings.
pub struct ParsedRequestView {
    pub method: Method,
    pub path: Seq<char>,
    pub version: Seq<char>,
    pub headers: Map<Seq<char>, Seq<char>>,
    pub query: Map<Seq<char>, Seq<char>>,
}

impl View for ParsedRequest {
    type V = ParsedRequestView;

    open spec fn view(&self) -> ParsedRequestView {
        ParsedRequestView {
            method: self.method,
            path: self.path@,
            version: self.version@,
            headers: self.headers@,
            query: self.query@,
        }
    }
}

impl ParsedRequestView {
    /// Whether the connection stays open after this request is answered.
    pub open spec fn keep_alive(self) -> bool {
        wants_keep_alive(self.headers)
    }

    /// The response to this request: the status of its method, a body that
    /// names its path, and the keep-alive decision.
    pub open spec fn response(self) -> Seq<char> {
        response_text(
            status_text(self.method),
            acknowledgement_text(self.method, self.path),
            self.keep_alive(),
        )
    }
}

/// The one protocol version that is served.
pub open spec fn supported_version() -> Seq<char> {
    "HTTP/1.1"@
}

/// The method that a token names, if it names one.
pub open spec fn method_of(token: Seq<char>) -> Option<Method> {
    if token == "GET"@ {
        Some(Method::Get)
    } else if token == "POST"@ {
        Some(Method::Post)
    } else if token == "PUT"@ {
        Some(Method::Put)
    } else if token == "DELETE"@ {
        Some(Method::Delete)
    } else {
        None
    }
}

/// The status with which a request of the given method is answered.
pub open spec fn status_text(method: Method) -> Seq<char> {
    match method {
        Method::Get => "200 OK"@,
        Method::Post => "201 Created"@,
        Method::Put => "200 OK"@,
        Method::Delete => "200 OK"@,
    }
}

/// The words that open the body of the answer to a request of the given
/// method; the path follows them.
pub open spec fn acknowledgement_prefix(method: Method) -> Seq<char> {
    match method {
        Method::Get => "GET request for: "@,
        Method::Post => "POST request to: "@,
        Method::Put => "PUT request for: "@,
        Method::Delete => "DELETE request for: "@,
    }
}

/// The body of the answer to a request of the given method for `path`.
pub open spec fn acknowledgement_text(method: Method, path: Seq<char>) -> Seq<char> {
    acknowledgement_prefix(method) + path
}

/// The response sent for each reason to turn a client away.
pub open spec fn rejection_text(rejection: Rejection) -> Seq<char> {
    match rejection {
        Rejection::RateLimited => response_text(
            "429 Too Many Requests"@,
            "You have exceeded the rate limit. Please try again later."@,
            false,
        ),
        Rejection::MalformedRequestLine => "HTTP/1.1 400 Bad Request\r\nContent-Length: 0\r\n\r\n"@,
        Rejection::UnsupportedVersion => "HTTP/1.1 505 HTTP Version Not Supported\r\nContent-Length: 0\r\n\r\n"@,
        Rejection::UnsupportedMethod => response_text(
            "405 Method Not Allowed"@,
            Seq::<char>::empty(),
            false,
        ),
    }
}

/// What a request line is read as: its three whitespace-separated tokens
/// when there are exactly three and the third is the supported version;
/// otherwise the reason to turn the request away.
pub open spec fn parsed_request_line(line: Seq<char>) -> Result<RequestLineView, Rejection> {
    let words = tokens(line);
    if words.len() != 3 {
        Err(Rejection::MalformedRequestLine)
    } else if words[2] != supported_version() {
        Err(Rejection::UnsupportedVersion)
    } else {
        Ok(RequestLineView { method: words[0], target: words[1], version: words[2] })
    }
}

/// The request made of a request line and the headers that followed it: the
/// target is cut at its first `?` into the path and the query string, and the
/// query string is read into parameters. A method token that names no served
/// method turns the request away.
pub open spec fn assembled(line: RequestLineView, headers: Map<Seq<char>, Seq<char>>) -> Result<
    ParsedRequestView,
    Rejection,
> {
    match method_of(line.method) {
        Some(method) => Ok(
            ParsedRequestView {
                method,
                path: path_of(line.target),
                version: line.version,
                headers,
                query: target_params(line.target),
            },
        ),
        None => Err(Rejection::UnsupportedMethod),
    }
}

impl Method {
    /// The method that `token` names. Tokens are case-sensitive.
    pub fn from_token(token: &str) -> (method: Option<Method>)
        ensures
            method == method_of(token@),
    {
        if str_eq(token, "GET") {
            Some(Method::Get)
        } else if str_eq(token, "POST") {
            Some(Method::Post)
        } else if str_eq(token, "PUT") {
            Some(Method::Put)
        } else if str_eq(token, "DELETE") {
            Some(Method::Delete)
        } else {
            None
        }
    }

    /// The status with which a request of this method is answered.
    pub fn status(&self) -> (status: &'static str)
        ensures
            status@ == status_text(*self),
    {
        match self {
            Method::Get => "200 OK",
            Method::Post => "201 Created",
            Method::Put => "200 OK",
            Method::Delete => "200 OK",
        }
    }

    /// The body of the answer to a request of this method for `path`.
    pub fn acknowledge(&self, path: &str) -> (body: String)
        ensures
            body@ == acknowledgement_text(*self, path@),
    {
        let prefix = match self {
            Method::Get => "GET request for: ",
            Method::Post => "POST request to: ",
            Method::Put => "PUT request for: ",
            Method::Delete => "DELETE request for: ",
        };
        let mut body = String::from_str(prefix);
        body.append(path);
        body
    }
}

impl Rejection {
    /// The response sent for this rejection.
    pub fn response(&self) -> (text: String)
        ensures
            text@ == rejection_text(*self),
    {
        match self {
            Rejection::RateLimited => build_response(
                "429 Too Many Requests",
                "You have exceeded the rate limit. Please try again later.",
                false,
            ),
            Rejection::MalformedRequestLine => String::from_str(
                "HTTP/1.1 400 Bad Request\r\nContent-Length: 0\r\n\r\n",
            ),
            Rejection::UnsupportedVersion => String::from_str(
                "HTTP/1.1 505 HTTP Version Not Supported\r\nContent-Length: 0\r\n\r\n",
            ),
            Rejection::UnsupportedMethod => {
                let text = build_response("405 Method Not Allowed", "", false);
                proof {
                    reveal_strlit("");
                }
                text
            },
        }
    }
}

impl ParsedRequest {
    /// Puts a request together from its request line and its headers.
    pub fn assemble(line: RequestLine, headers: FieldMap) -> (request: Result<
        ParsedRequest,
        Rejection,
    >)
        ensures
            match request {
                Ok(parsed) => assembled(line@, headers@) == Ok::<ParsedRequestView, Rejection>(
                    parsed@,
                ),
                Err(rejection) => assembled(line@, headers@) == Err::<
                    ParsedRequestView,
                    Rejection,
                >(rejection),
            },
    {
        match Method::from_token(line.method.as_str()) {
            Some(method) => {
                let (path, query) = split_target(line.target.as_str());
                let params = match query {
                    Some(text) => parse_query_params(text.as_str()),
                    None => FieldMap::new(),
                };
                Ok(
                    ParsedRequest {
                        method,
                        path,
                        version: line.version,
                        headers,
                        query: params,
                    },
                )
            },
            None => Err(Rejection::UnsupportedMethod),
        }
    }

    /// Tells whether the connection stays open after this request is
    /// answered.
    pub fn keep_alive(&self) -> (keep: bool)
        ensures
            keep == self@.keep_alive(),
    {
        keep_alive_requested(&self.headers)
    }

    /// The response to this request.
    pub fn response(&self) -> (text: String)
        ensures
            text@ == self@.response(),
    {
        let body = self.method.acknowledge(self.path.as_str());
        build_response(self.method.status(), body.as_str(), self.keep_alive())
    }
}

/// Reads a request line: exactly three whitespace-separated tokens, the
/// third being the supported version.
pub fn parse_request_line(line: &str) -> (parsed: Result<RequestLine, Rejection>)
    ensures
        match parsed {
            Ok(request) => parsed_request_line(line@) == Ok::<RequestLineView, Rejection>(
                request@,
            ),
            Err(rejection) => parsed_request_line(line@) == Err::<RequestLineView, Rejection>(
                rejection,
            ),
        },
{
    let mut words = split_whitespace(line);
    if words.len() != 3 {
        return Err(Rejection::MalformedRequestLine);
    }
    let version = words.pop().unwrap();
    let target = words.pop().unwrap();
    let method = words.pop().unwrap();
    if !str_eq(version.as_str(), "HTTP/1.1") {
        return Err(Rejection::UnsupportedVersion);
    }
    Ok(RequestLine { method, target, version })
}

} // verus!
