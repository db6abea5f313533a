//! Header lines: how one line is read as a name and a value, where a block
//! of header lines ends, and what the `Connection` header asks for.

use crate::fields::FieldMap;
use crate::text::chars_of;
use crate::text::str_eq;
use crate::text::string_of;
use crate::text::trim_bounds;
use crate::text::trimmed;
use crate::text::views;
use vstd::prelude::*;

verus! {

/// What `str::to_lowercase` returns for a string with the given characters.
pub uninterp spec fn lowercase_of(s: Seq<char>) -> Seq<char>;

/// `str::to_lowercase`: the lowercase equivalent of the string, by the
/// Unicode rules, as a new `String`. The result depends on the characters of
/// the string alone.
pub assume_specification[ str::to_lowercase ](s: &str) -> (lowered: String)
    ensures
        lowered@ == lowercase_of(s@),
;

/// First position at or after `from` where `": "` starts, the separator
/// between a header's name and its value; `s.len()` when there is none.
pub open spec fn separator_index(s: Seq<char>, from: int) -> int
    decreases s.len() - from,
{
    if from < 0 || from + 2 > s.len() {
        s.len() as int
    } else if s[from] == ':' && s[from + 1] == ' ' {
        from
    } else {
        separator_index(s, from + 1)
    }
}

/// The name and the value that a header line carries: the line is trimmed of
/// surrounding whitespace and cut at its first `": "`. A line without that
/// separator carries nothing.
pub open spec fn header_field(line: Seq<char>) -> Option<(Seq<char>, Seq<char>)> {
    let content = trimmed(line);
    let at = separator_index(content, 0);
    if 0 <= at < content.len() {
        Some((content.take(at), content.skip(at + 2)))
    } else {
        None
    }
}

/// `fields` after reading one header line. A line that carries no field is
/// skipped.
pub open spec fn with_header(fields: Map<Seq<char>, Seq<char>>, line: Seq<char>) -> Map<
    Seq<char>,
    Seq<char>,
> {
    match header_field(line) {
        Some((name, value)) => fields.insert(name, value),
        None => fields,
    }
}

/// The mapping built by reading `lines` in order, a later header of a name
/// replacing an earlier one.
pub open spec fn collected(lines: Seq<Seq<char>>) -> Map<Seq<char>, Seq<char>>
    decreases lines.len(),
{
    if lines.len() == 0 {
        Map::empty()
    } else {
        with_header(collected(lines.drop_last()), lines.last())
    }
}

/// A line that ends the header block: the bare `\r\n`, or the empty line
/// that stands for the end of the stream.
pub open spec fn ends_headers(line: Seq<char>) -> bool {
    line.len() == 0 || line == "\r\n"@
}

/// Index of the first line at or after `from` that ends the header block;
/// `lines.len()` when there is none.
pub open spec fn block_end(lines: Seq<Seq<char>>, from: int) -> int
    decreases lines.len() - from,
{
    if from < 0 || from >= lines.len() {
        lines.len() as int
    } else if ends_headers(lines[from]) {
        from
    } else {
        block_end(lines, from + 1)
    }
}

/// The headers of a request whose lines after the request line are `lines`:
/// those read from the lines that precede the end of the header block.
pub open spec fn header_map(lines: Seq<Seq<char>>) -> Map<Seq<char>, Seq<char>> {
    collected(lines.take(block_end(lines, 0)))
}

/// No line of `lines` ends the header block.
pub open spec fn all_headers(lines: Seq<Seq<char>>) -> bool {
    forall|i: int| 0 <= i < lines.len() ==> !ends_headers(#[trigger] lines[i])
}

/// The header under which a client asks for the connection to be kept open.
pub open spec fn connection_name() -> Seq<char> {
    "Connection"@
}

/// Whether `headers` ask for the connection to be kept open: they hold a
/// `Connection` header (the name is matched exactly) whose value, lowercased,
/// is `keep-alive`.
pub open spec fn wants_keep_alive(headers: Map<Seq<char>, Seq<char>>) -> bool {
    headers.contains_key(connection_name()) && lowercase_of(headers[connection_name()])
        == "keep-alive"@
}

/// Reads one header line as a name and a value.
pub fn parse_header_line(line: &str) -> (field: Option<(String, String)>)
    ensures
        match field {
            Some((name, value)) => header_field(line@) == Some((name@, value@)),
            None => header_field(line@) is None,
        },
{
    let chars = chars_of(line);
    let (a, b) = trim_bounds(&chars);
    let ghost content = chars@.subrange(a as int, b as int);
    let mut at: usize = a;
    while b - at >= 2 && !(chars[at] == ':' && chars[at + 1] == ' ')
        invariant
            a <= at <= b <= chars.len(),
            content == chars@.subrange(a as int, b as int),
            separator_index(content, at - a) == separator_index(content, 0),
        decreases b - at,
    {
        at = at + 1;
    }
    if b - at >= 2 {
        let name = string_of(&chars, a, at);
        let value = string_of(&chars, at + 2, b);
        Some((name, value))
    } else {
        None
    }
}

/// Tells whether `line` ends the header block.
pub fn is_end_of_headers(line: &str) -> (end: bool)
    ensures
        end == ends_headers(line@),
{
    line.is_empty() || str_eq(line, "\r\n")
}

/// Collects the headers from the lines that follow a request line, up to
/// the line that ends the header block or, failing that, to the last line.
pub fn parse_headers(lines: &Vec<String>) -> (headers: FieldMap)
    ensures
        headers@ == header_map(views(lines@)),
{
    let mut headers = FieldMap::new();
    let mut i: usize = 0;
    while i < lines.len() && !is_end_of_headers(lines[i].as_str())
        invariant
            i <= lines.len(),
            block_end(views(lines@), i as int) == block_end(views(lines@), 0),
            headers@ == collected(views(lines@).take(i as int)),
        decreases lines.len() - i,
    {
        assert(views(lines@).take(i + 1).drop_last() =~= views(lines@).take(i as int));
        match parse_header_line(lines[i].as_str()) {
            Some((name, value)) => {
                headers.insert(name, value);
            },
            None => {},
        }
        i = i + 1;
    }
    headers
}

/// Tells whether a `Connection` value, already lowercased, asks for the
/// connection to be kept open.
pub fn is_keep_alive_value(lowered: &str) -> (keep: bool)
    ensures
        keep == (lowered@ == "keep-alive"@),
{
    str_eq(lowered, "keep-alive")
}

/// Tells whether `headers` ask for the connection to be kept open.
pub fn keep_alive_requested(headers: &FieldMap) -> (keep: bool)
    ensures
        keep == wants_keep_alive(headers@),
{
    match headers.get("Connection") {
        Some(value) => {
            let lowered = value.as_str().to_lowercase();
            is_keep_alive_value(lowered.as_str())
        },
        None => false,
    }
}

/// The end of the header block is found where the first line that ends it
/// stands.
proof fn lemma_block_end(lines: Seq<Seq<char>>, from: int, end: int)
    requires
        0 <= from <= end <= lines.len(),
        forall|i: int| from <= i < end ==> !ends_headers(#[trigger] lines[i]),
        end < lines.len() ==> ends_headers(lines[end]),
    ensures
        block_end(lines, from) == end,
    decreases end - from,
{
    if from < end {
        lemma_block_end(lines, from + 1, end);
    }
}

/// The headers of a request are read from the lines before the first line
/// that ends the header block, whatever follows that line; where no line
/// ends the block, they are read from all the lines.
pub proof fn lemma_header_block(
    header_lines: Seq<Seq<char>>,
    end: Seq<char>,
    rest: Seq<Seq<char>>,
)
    requires
        all_headers(header_lines),
        ends_headers(end),
    ensures
        header_map(header_lines + seq![end] + rest) == collected(header_lines),
        header_map(header_lines) == collected(header_lines),
{
    let lines = header_lines + seq![end] + rest;
    let n = header_lines.len() as int;
    assert forall|i: int| 0 <= i < n implies !ends_headers(#[trigger] lines[i]) by {
        assert(lines[i] == header_lines[i]);
    }
    assert(lines[n] == end);
    lemma_block_end(lines, 0, n);
    assert(lines.take(n) =~= header_lines);
    lemma_block_end(header_lines, 0, n);
    assert(header_lines.take(n) =~= header_lines);
}

} // verus!
