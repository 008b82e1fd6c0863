//! The proxy's decisions at the four points of a request's life: context
//! creation, upstream selection, the outbound request, the response.

use vstd::prelude::*;
use vstd::string::*;
use crate::error::ProxyError;
use crate::rewrite::{formatted, forwarded, query_suffix, rewritten, skips, version_label};
use crate::routing::{
    complete_records, document_refusal, document_view, route, service_named, valid_table,
    RoutingConfig, ServiceConfig, ServiceFields, ServiceSpec,
};
use crate::text::{decimal, opt_view, push_decimal, starts_with, strip_prefix, trim_start_slashes};

verus! {

/// The status that a client receives where no service claims its path.
pub const ROUTE_NOT_FOUND_STATUS: u16 = 404;

/// The number of characters of a request identifier.
pub const REQUEST_ID_LEN: usize = 36;

/// The state of one request: its identifier, and the name of the service
/// it was routed to (empty until a service is selected).
pub struct ProxyContext {
    pub request_id: String,
    pub service_name: String,
}

/// What is to be changed on the request that goes upstream.
pub struct UpstreamRequest {
    /// The new path and query, or `None` to leave them as they are.
    pub uri: Option<String>,
    /// Headers to set, each replacing any header of the same name.
    pub headers: Vec<(String, String)>,
}

/// The proxy: a routing table and the rules applied to each request.
pub struct BeatProxy {
    routing: RoutingConfig,
}

/// The upstream address of a descriptor: host, a colon, the port.
pub open spec fn upstream_address(d: ServiceSpec) -> Seq<char> {
    d.host + seq![':'] + decimal(d.port)
}

/// A header given as name and value.
pub open spec fn header_view(h: (String, String)) -> (Seq<char>, Seq<char>) {
    (h.0@, h.1@)
}

/// A lower-case hexadecimal digit.
pub open spec fn is_lower_hex(c: char) -> bool {
    ('0' <= c && c <= '9') || ('a' <= c && c <= 'f')
}

/// The shape of a request identifier: 36 characters, hyphens at the
/// positions 8, 13, 18 and 23, lower-case hexadecimal digits elsewhere.
pub open spec fn is_request_id(s: Seq<char>) -> bool {
    &&& s.len() == REQUEST_ID_LEN
    &&& forall|i: int|
        0 <= i < s.len() ==> if i == 8 || i == 13 || i == 18 || i == 23 {
            s[i] == '-'
        } else {
            is_lower_hex(#[trigger] s[i])
        }
}

/// Draws a fresh identifier with `uuid::Uuid::new_v4` and renders it with
/// the type's `to_string`. The value is random, so only its shape is
/// claimed: the hyphenated lower-case form that `to_string` writes for
/// every identifier. Like `new_v4` itself, the call panics where the
/// system's random source fails.
#[verifier::external_body]
fn fresh_request_id() -> (r: String)
    ensures
        is_request_id(r@),
{
    uuid::Uuid::new_v4().to_string()
}

/// Appends `?` and the query to `out` where there is a non-empty query.
fn push_query(out: &mut String, query: Option<&str>)
    ensures
        final(out)@ == old(out)@ + query_suffix(opt_view(query)),
{
    match query {
        Some(q) => {
            if !q.is_empty() {
                proof {
                    reveal_strlit("?");
                    assert("?"@ =~= seq!['?']);
                }
                out.append("?");
                out.append(q);
                assert(final(out)@ =~= old(out)@ + (seq!['?'] + q@));
            } else {
                assert(old(out)@ + Seq::<char>::empty() =~= old(out)@);
            }
        },
        None => {
            assert(old(out)@ + Seq::<char>::empty() =~= old(out)@);
        },
    }
}

impl ProxyContext {
    /// The context of a request that has the identifier `request_id` and
    /// has not been routed yet.
    pub fn new(request_id: String) -> (ctx: ProxyContext)
        ensures
            ctx.request_id == request_id,
            ctx.service_name@.len() == 0,
    {
        ProxyContext { request_id, service_name: String::new() }
    }
}

impl View for BeatProxy {
    type V = Seq<(Seq<char>, ServiceSpec)>;

    closed spec fn view(&self) -> Seq<(Seq<char>, ServiceSpec)> {
        self.routing@
    }
}

impl BeatProxy {
    /// Builds the proxy from the records of a configuration document.
    /// Fails, with the error of [`RoutingConfig::load`], exactly when the
    /// document is refused.
    pub fn new(records: Vec<(String, ServiceFields)>) -> (r: Result<BeatProxy, ProxyError>)
        ensures
            match r {
                Ok(p) => complete_records(records@) && valid_table(document_view(records@)) && p@
                    == document_view(records@),
                Err(e) => document_refusal(records@, e) && e is ConfigError,
            },
            r is Ok <==> complete_records(records@) && valid_table(document_view(records@)),
    {
        match RoutingConfig::load(records) {
            Ok(routing) => Ok(BeatProxy { routing }),
            Err(e) => Err(e),
        }
    }

    /// The proxy that routes by the given table.
    pub fn with_routing(routing: RoutingConfig) -> (p: BeatProxy)
        ensures
            p@ == routing@,
    {
        BeatProxy { routing }
    }

    /// The routing table of the proxy.
    pub fn routing(&self) -> (r: &RoutingConfig)
        ensures
            r@ == self@,
    {
        &self.routing
    }

    /// Whether `route` starts with an entry of the exemption list.
    fn is_exempt(sc: &ServiceConfig, route: &str) -> (r: bool)
        ensures
            r == skips(sc@.skip_prefix_for, route@),
    {
        let mut i: usize = 0;
        while i < sc.skip_prefix_for.len()
            invariant
                i <= sc.skip_prefix_for.len(),
                forall|j: int| 0 <= j < i ==> !(#[trigger] sc@.skip_prefix_for[j]).is_prefix_of(route@),
            decreases sc.skip_prefix_for.len() - i,
        {
            if starts_with(route, sc.skip_prefix_for[i].as_str()) {
                assert(sc@.skip_prefix_for[i as int].is_prefix_of(route@));
                return true;
            }
            i += 1;
        }
        false
    }

    /// The outbound path for `route`, a request path without the service
    /// prefix: left without a version where it starts with an entry of
    /// the exemption list, version-prefixed otherwise.
    pub fn format_route(&self, sc: &ServiceConfig, route: &str, query: Option<&str>) -> (r: String)
        ensures
            r@ == formatted(sc@, route@, opt_view(query)),
    {
        if Self::is_exempt(sc, route) {
            proof {
                reveal_strlit("/");
                assert("/"@ =~= seq!['/']);
            }
            let mut out = String::from_str("/");
            out.append(trim_start_slashes(route));
            push_query(&mut out, query);
            out
        } else {
            proof {
                reveal_strlit("/api/v");
                assert("/api/v"@ =~= version_label());
            }
            let mut out = String::from_str("/api/v");
            push_decimal(&mut out, sc.api_version);
            out.append(route);
            push_query(&mut out, query);
            out
        }
    }

    /// The outbound path of a request for the service `sc`: the request
    /// path itself where the service keeps its prefix or the path does not
    /// start with it, the formatted remainder otherwise.
    pub fn rewrite(&self, sc: &ServiceConfig, path: &str, query: Option<&str>) -> (r: String)
        ensures
            r@ == rewritten(sc@, path@, opt_view(query)),
    {
        if !sc.strip_prefix {
            return String::from_str(path);
        }
        match strip_prefix(path, sc.prefix.as_str()) {
            Some(rest) => self.format_route(sc, rest, query),
            None => String::from_str(path),
        }
    }

    /// Decides the new path of a request that was routed to the service
    /// named in `ctx`. `None` means that the request goes out as it came:
    /// the table has no such service, the service keeps its prefix, or the
    /// path does not start with the prefix.
    pub fn forward_request(&self, ctx: &ProxyContext, path: &str, query: Option<&str>) -> (r:
        Option<String>)
        ensures
            match r {
                Some(p) => forwarded(self@, ctx.service_name@, path@, opt_view(query)) == Some(p@),
                None => forwarded(self@, ctx.service_name@, path@, opt_view(query)) is None,
            },
    {
        let Some(sc) = self.routing.get(&ctx.service_name) else {
            return None;
        };
        if !sc.strip_prefix {
            return None;
        }
        let Some(rest) = strip_prefix(path, sc.prefix.as_str()) else {
            return None;
        };
        Some(self.format_route(sc, rest, query))
    }

    /// Starts the state of a new request: a fresh identifier, no service.
    pub fn new_ctx(&self) -> (ctx: ProxyContext)
        ensures
            is_request_id(ctx.request_id@),
            ctx.request_id@.len() > 0,
            ctx.service_name@.len() == 0,
    {
        ProxyContext::new(fresh_request_id())
    }

    /// Selects the upstream for a request path. Where a service claims
    /// the path, its name is recorded in `ctx` and its address returned;
    /// the recorded name leads back to that service.
    /// where none does, `ctx` stays as it was and the path comes back in
    /// the error.
    pub fn upstream_peer(&self, path: &str, ctx: &mut ProxyContext) -> (r: Result<
        String,
        ProxyError,
    >)
        ensures
            final(ctx).request_id == old(ctx).request_id,
            match route(self@, path@) {
                Some((name, d)) => {
                    &&& r is Ok
                    &&& r->Ok_0@ == upstream_address(d)
                    &&& final(ctx).service_name@ == name
                    &&& d.valid()
                    &&& service_named(self@, name) == Some(d)
                },
                None => {
                    &&& r matches Err(ProxyError::RouteNotFound(p))
                    &&& p@ == path@
                    &&& final(ctx).service_name == old(ctx).service_name
                },
            },
    {
        match self.routing.find_service(path) {
            Some((name, sc)) => {
                ctx.service_name = name.clone();
                proof {
                    reveal_strlit(":");
                    assert(":"@ =~= seq![':']);
                }
                let mut upstream = sc.host.clone();
                upstream.append(":");
                push_decimal(&mut upstream, sc.port);
                Ok(upstream)
            },
            None => Err(ProxyError::RouteNotFound(String::from_str(path))),
        }
    }

    /// Decides what changes on the request that goes upstream: the new
    /// path, if any, and the one header that carries the request's
    /// identifier.
    pub fn upstream_request_filter(&self, ctx: &ProxyContext, path: &str, query: Option<&str>) -> (r:
        UpstreamRequest)
        ensures
            match r.uri {
                Some(p) => forwarded(self@, ctx.service_name@, path@, opt_view(query)) == Some(p@),
                None => forwarded(self@, ctx.service_name@, path@, opt_view(query)) is None,
            },
            r.headers@.len() == 1,
            header_view(r.headers@[0]) == ("X-Request-ID"@, ctx.request_id@),
    {
        let uri = self.forward_request(ctx, path, query);
        let mut headers: Vec<(String, String)> = Vec::new();
        headers.push((String::from_str("X-Request-ID"), ctx.request_id.clone()));
        UpstreamRequest { uri, headers }
    }

    /// The headers set on every response before it reaches the client,
    /// each replacing any header of the same name.
    pub fn response_filter(&self) -> (r: Vec<(String, String)>)
        ensures
            r@.len() == 2,
            header_view(r@[0]) == ("X-Content-Type-Options"@, "nosniff"@),
            header_view(r@[1]) == ("X-Frame-Options"@, "DENY"@),
    {
        let mut headers: Vec<(String, String)> = Vec::new();
        headers.push((String::from_str("X-Content-Type-Options"), String::from_str("nosniff")));
        headers.push((String::from_str("X-Frame-Options"), String::from_str("DENY")));
        headers
    }
}

} // verus!
