//! Assembly of a response from a status line, a body and the keep-alive flag.

use crate::text::byte_len;
use crate::text::decimal;
use crate::text::push_decimal;
use vstd::prelude::*;
use vstd::string::StringExecFns;

verus! {

/// The `Connection` header line that announces whether the connection stays
/// open after the response.
pub open spec fn connection_header(keep_alive: bool) -> Seq<char> {
    if keep_alive {
        "Connection: keep-alive"@
    } else {
        "Connection: close"@
    }
}

/// Everything of a response that precedes the blank line: the status line,
/// `Content-Length` with the body's length in bytes, `Content-Type` and
/// `Connection`, each but the last ended by `\r\n`.
pub open spec fn response_head(status: Seq<char>, body: Seq<char>, keep_alive: bool) -> Seq<char> {
    "HTTP/1.1 "@ + status + "\r\nContent-Length: "@ + decimal(byte_len(body))
        + "\r\nContent-Type: text/plain\r\n"@ + connection_header(keep_alive)
}

/// A complete response: the head, the blank line that ends it, then the body
/// and nothing after it.
pub open spec fn response_text(status: Seq<char>, body: Seq<char>, keep_alive: bool) -> Seq<char> {
    response_head(status, body, keep_alive) + "\r\n\r\n"@ + body
}

/// Builds the response for `status_code` and `body`. `Content-Length` is the
/// exact byte length of `body`, and `body` follows the blank line unchanged.
pub fn build_response(status_code: &str, body: &str, keep_alive: bool) -> (response: String)
    ensures
        response@ == response_text(status_code@, body@, keep_alive),
{
    let mut response = String::new();
    response.append("HTTP/1.1 ");
    response.append(status_code);
    response.append("\r\nContent-Length: ");
    push_decimal(&mut response, body.as_bytes().len());
    response.append("\r\nContent-Type: text/plain\r\n");
    if keep_alive {
        response.append("Connection: keep-alive");
    } else {
        response.append("Connection: close");
    }
    response.append("\r\n\r\n");
    response.append(body);
    response
}

/// A response is its head, then the blank line, then the body: the body
/// starts right after the blank line and nothing follows it.
pub proof fn lemma_body_follows_blank_line(status: Seq<char>, body: Seq<char>, keep_alive: bool)
    ensures
        ({
            let head = response_head(status, body, keep_alive);
            let response = response_text(status, body, keep_alive);
            let cut = head.len() as int;
            &&& response.len() == cut + 4 + body.len()
            &&& response.take(cut) == head
            &&& response.subrange(cut, cut + 4) == "\r\n\r\n"@
            &&& response.skip(cut + 4) == body
        }),
{
    reveal_strlit("\r\n\r\n");
}

} // verus!
