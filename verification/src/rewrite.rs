//! What the outbound path of a request is: the rules of prefix stripping
//! and version prefixing, as functions on character sequences, and the
//! laws that follow from them.

use vstd::prelude::*;
use crate::routing::{
    lemma_first_match_from, lemma_valid_table, route, service_named, valid_table, ServiceSpec,
};
use crate::text::{decimal, lemma_trim_leading, trim_leading};

verus! {

/// The text `/api/v` that precedes the version number.
pub open spec fn version_label() -> Seq<char> {
    seq!['/', 'a', 'p', 'i', '/', 'v']
}

/// What a query contributes to a rewritten path: `?` and the query where
/// there is a non-empty one, nothing otherwise.
pub open spec fn query_suffix(query: Option<Seq<char>>) -> Seq<char> {
    match query {
        Some(q) => if q.len() > 0 {
            seq!['?'] + q
        } else {
            Seq::empty()
        },
        None => Seq::empty(),
    }
}

/// Whether `remainder` starts with one of the entries of `list`.
pub open spec fn skips(list: Seq<Seq<char>>, remainder: Seq<char>) -> bool {
    exists|i: int| 0 <= i < list.len() && (#[trigger] list[i]).is_prefix_of(remainder)
}

/// The version-prefixed form of a remainder.
pub open spec fn versioned(version: nat, remainder: Seq<char>, query: Option<Seq<char>>) -> Seq<
    char,
> {
    version_label() + decimal(version) + remainder + query_suffix(query)
}

/// The form of a remainder that is exempt from version prefixing: one
/// slash, the remainder without its leading slashes, the query.
pub open spec fn unversioned(remainder: Seq<char>, query: Option<Seq<char>>) -> Seq<char> {
    seq!['/'] + trim_leading(remainder, '/') + query_suffix(query)
}

/// The outbound path for a remainder, that is a request path from which
/// the service prefix has been removed.
pub open spec fn formatted(d: ServiceSpec, remainder: Seq<char>, query: Option<Seq<char>>) -> Seq<
    char,
> {
    if skips(d.skip_prefix_for, remainder) {
        unversioned(remainder, query)
    } else {
        versioned(d.api_version, remainder, query)
    }
}

/// The new path where the descriptor asks for a rewrite of `path`, and
/// `None` where the path is to be forwarded as it is.
pub open spec fn stripped(d: ServiceSpec, path: Seq<char>, query: Option<Seq<char>>) -> Option<
    Seq<char>,
> {
    if d.strip_prefix && d.prefix.is_prefix_of(path) {
        Some(formatted(d, path.skip(d.prefix.len() as int), query))
    } else {
        None
    }
}

/// The outbound path of a request for the service `d`.
pub open spec fn rewritten(d: ServiceSpec, path: Seq<char>, query: Option<Seq<char>>) -> Seq<
    char,
> {
    match stripped(d, path, query) {
        Some(p) => p,
        None => path,
    }
}

/// The new path of a request whose context names the service `name`:
/// `None` where the table has no such service or the service asks for no
/// rewrite.
pub open spec fn forwarded(
    table: Seq<(Seq<char>, ServiceSpec)>,
    name: Seq<char>,
    path: Seq<char>,
    query: Option<Seq<char>>,
) -> Option<Seq<char>> {
    match service_named(table, name) {
        Some(d) => stripped(d, path, query),
        None => None,
    }
}

/// A service that does not strip its prefix forwards every path as it is,
/// whatever its version number and its exemption list are.
pub proof fn lemma_no_strip_keeps_path(d: ServiceSpec, path: Seq<char>, query: Option<Seq<char>>)
    requires
        !d.strip_prefix,
    ensures
        rewritten(d, path, query) == path,
{
}

/// Where the prefix is stripped and the remainder is not exempt, the
/// outbound path is `/api/v`, the version number in decimal, the
/// remainder, and `?` with the query where there is a non-empty one.
pub proof fn lemma_versioned_rewrite(d: ServiceSpec, path: Seq<char>, query: Option<Seq<char>>)
    requires
        d.strip_prefix,
        d.prefix.is_prefix_of(path),
        !skips(d.skip_prefix_for, path.skip(d.prefix.len() as int)),
    ensures
        rewritten(d, path, query) == version_label() + decimal(d.api_version) + path.skip(
            d.prefix.len() as int,
        ) + query_suffix(query),
{
}

/// Where the prefix is stripped and the remainder is exempt, the outbound
/// path is one slash, the remainder without its leading slashes, and the
/// query. It starts with exactly one slash, and the version number has no
/// part in it: a descriptor that differs in nothing else gives the same
/// path.
pub proof fn lemma_exempt_rewrite(
    d: ServiceSpec,
    other_version: nat,
    path: Seq<char>,
    query: Option<Seq<char>>,
)
    requires
        d.strip_prefix,
        d.prefix.is_prefix_of(path),
        skips(d.skip_prefix_for, path.skip(d.prefix.len() as int)),
    ensures
        rewritten(d, path, query) == seq!['/'] + trim_leading(
            path.skip(d.prefix.len() as int),
            '/',
        ) + query_suffix(query),
        rewritten(d, path, query)[0] == '/',
        rewritten(d, path, query).len() > 1 ==> rewritten(d, path, query)[1] != '/',
        rewritten(ServiceSpec { api_version: other_version, ..d }, path, query) == rewritten(
            d,
            path,
            query,
        ),
{
    let rem = path.skip(d.prefix.len() as int);
    lemma_trim_leading(rem, '/');
}

/// The new path decided for a routed request is the outbound path of its
/// service: where none is decided, the outbound path is the request path.
pub proof fn lemma_forwarded_is_rewritten(
    table: Seq<(Seq<char>, ServiceSpec)>,
    name: Seq<char>,
    path: Seq<char>,
    query: Option<Seq<char>>,
)
    requires
        service_named(table, name) is Some,
    ensures
        match forwarded(table, name, path, query) {
            Some(p) => rewritten(service_named(table, name)->0, path, query) == p,
            None => rewritten(service_named(table, name)->0, path, query) == path,
        },
{
}

/// A request that was routed by its path is rewritten by the service it
/// was routed to: in a valid table the name recorded at selection leads
/// back to the selected descriptor, whose prefix starts the path.
pub proof fn lemma_routed_request(
    table: Seq<(Seq<char>, ServiceSpec)>,
    path: Seq<char>,
    query: Option<Seq<char>>,
)
    requires
        valid_table(table),
        route(table, path) is Some,
    ensures
        ({
            let hit = route(table, path).unwrap();
            let name = hit.0;
            let d = hit.1;
            &&& service_named(table, name) == Some(d)
            &&& d.prefix.is_prefix_of(path)
            &&& forwarded(table, name, path, query) == if d.strip_prefix {
                Some(formatted(d, path.skip(d.prefix.len() as int), query))
            } else {
                None
            }
        }),
{
    lemma_first_match_from(table, path, 0);
    lemma_valid_table(table);
}

/// The query is never dropped and never leaves a bare `?`: a rewritten
/// path ends with the query suffix, which is empty exactly when the query
/// is absent or empty.
pub proof fn lemma_query_kept(d: ServiceSpec, remainder: Seq<char>, query: Option<Seq<char>>)
    ensures
        query_suffix(query).is_suffix_of(formatted(d, remainder, query)),
        query_suffix(query).len() == 0 <==> (query is None || query->0.len() == 0),
        query_suffix(query).len() > 0 ==> query_suffix(query) == seq!['?'] + query->0,
{
    let s = query_suffix(query);
    let f = formatted(d, remainder, query);
    assert(f.len() >= s.len());
    assert(f.subrange(f.len() - s.len(), f.len() as int) =~= s);
}

} // verus!
