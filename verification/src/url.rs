//! The request target: its path, its query string and the parameters that
//! the query string carries.

use crate::fields::FieldMap;
use crate::text::halves;
use crate::text::pieces;
use crate::text::split;
use crate::text::split_once;
use crate::text::views;
use vstd::prelude::*;

verus! {

/// `fields` after reading one `name=value` piece of a query string. The name
/// ends at the first `=`; a piece without `=` binds nothing.
pub open spec fn with_pair(fields: Map<Seq<char>, Seq<char>>, piece: Seq<char>) -> Map<
    Seq<char>,
    Seq<char>,
> {
    match halves(piece, '=') {
        Some((name, value)) => fields.insert(name, value),
        None => fields,
    }
}

/// The mapping built by reading `parts` in order, a later binding of a name
/// replacing an earlier one.
pub open spec fn pairs_map(parts: Seq<Seq<char>>) -> Map<Seq<char>, Seq<char>>
    decreases parts.len(),
{
    if parts.len() == 0 {
        Map::empty()
    } else {
        with_pair(pairs_map(parts.drop_last()), parts.last())
    }
}

/// The parameters of a query string: its `&`-separated pieces, each read as
/// `name=value`.
pub open spec fn query_map(query: Seq<char>) -> Map<Seq<char>, Seq<char>> {
    pairs_map(pieces(query, '&'))
}

/// The part of a request target before its first `?`; all of it when there is
/// no `?`.
pub open spec fn path_of(target: Seq<char>) -> Seq<char> {
    match halves(target, '?') {
        Some((path, _)) => path,
        None => target,
    }
}

/// The part of a request target after its first `?`, if it has one.
pub open spec fn query_of(target: Seq<char>) -> Option<Seq<char>> {
    match halves(target, '?') {
        Some((_, query)) => Some(query),
        None => None,
    }
}

/// The query parameters of a request target; none when it has no `?`.
pub open spec fn target_params(target: Seq<char>) -> Map<Seq<char>, Seq<char>> {
    match query_of(target) {
        Some(query) => query_map(query),
        None => Map::empty(),
    }
}

/// Parses a query string (what follows the `?` of a request target) into its
/// parameters.
pub fn parse_query_params(query: &str) -> (params: FieldMap)
    ensures
        params@ == query_map(query@),
{
    let mut params = FieldMap::new();
    let parts = split(query, '&');
    let mut i: usize = 0;
    while i < parts.len()
        invariant
            i <= parts.len(),
            views(parts@) == pieces(query@, '&'),
            params@ == pairs_map(views(parts@).take(i as int)),
        decreases parts.len() - i,
    {
        assert(views(parts@).take(i + 1).drop_last() =~= views(parts@).take(i as int));
        match split_once(parts[i].as_str(), '=') {
            Some((name, value)) => {
                params.insert(name, value);
            },
            None => {},
        }
        i = i + 1;
    }
    assert(views(parts@).take(i as int) =~= views(parts@));
    params
}

/// Splits a request target at its first `?` into the path and, if there is a
/// `?`, the query string.
pub fn split_target(target: &str) -> (parts: (String, Option<String>))
    ensures
        parts.0@ == path_of(target@),
        match parts.1 {
            Some(query) => query_of(target@) == Some(query@),
            None => query_of(target@) is None,
        },
{
    match split_once(target, '?') {
        Some((path, query)) => (path, Some(query)),
        None => (target.to_owned(), None),
    }
}

/// The query parameters that a request target carries.
pub fn parse_target_params(target: &str) -> (params: FieldMap)
    ensures
        params@ == target_params(target@),
{
    match split_target(target).1 {
        Some(query) => parse_query_params(query.as_str()),
        None => FieldMap::new(),
    }
}

} // verus!
