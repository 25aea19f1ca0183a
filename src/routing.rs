//! Request interpretation and the routing table: from a path, the forwarding
//! headers and the query parameters to a status, a content type and a body.
use vstd::prelude::*;
use crate::address::{extract_ips, is_ipv4, is_ipv4_text, is_ipv6, is_ipv6_text};
use crate::client::{get_ip, proxy_view, resolve_client_ip};
use crate::query::QueryParams;
use crate::render::{
    callback_name, ip_json_response, ip_jsonp_response, ip_text_response, ip_toml_response,
    ip_xml_response, ip_yaml_response, jsonp_body, json_body, opt_view, text_body, toml_body,
    xml_body, yaml_body,
};
use crate::text::str_eq;

verus! {

/// A response format.
#[derive(Clone, Copy, Debug, PartialEq, Eq, Structural)]
pub enum Format {
    Text,
    Json,
    Jsonp,
    Yaml,
    Toml,
    Xml,
}

/// An address family that a route may require.
#[derive(Clone, Copy, Debug, PartialEq, Eq, Structural)]
pub enum Family {
    V4,
    V6,
}

/// The outcome of routing. `Render` shows the client address in the IPv4
/// slot, the IPv6 slot, both or neither.
#[derive(Clone, Copy, Debug, PartialEq, Eq, Structural)]
pub enum Route {
    Render { ipv4: bool, ipv6: bool, format: Format, single: bool },
    Forbidden(Family),
    Forwarded,
    NotFound,
}

/// A response: status code, content type and body.
pub struct Response {
    pub status: u16,
    pub content_type: String,
    pub body: String,
}

impl View for Response {
    type V = (u16, Seq<char>, Seq<char>);

    open spec fn view(&self) -> (u16, Seq<char>, Seq<char>) {
        (self.status, self.content_type@, self.body@)
    }
}

/// A request as the transports hand it over.
pub struct Request {
    /// The request path.
    pub path: String,
    /// The catch-all path parameter of a gateway, where there is one.
    pub proxy_path: Option<String>,
    /// The `X-Forwarded-For` header, empty where absent.
    pub x_forwarded_for: String,
    /// The `Source-IP` header, empty where absent.
    pub source_ip: String,
    pub query: QueryParams,
}

/// The format that a path segment names; the text format has no name.
pub open spec fn format_named(name: Seq<char>) -> Option<Format> {
    if name == "json"@ {
        Some(Format::Json)
    } else if name == "jsonp"@ {
        Some(Format::Jsonp)
    } else if name == "xml"@ {
        Some(Format::Xml)
    } else if name == "yaml"@ {
        Some(Format::Yaml)
    } else if name == "toml"@ {
        Some(Format::Toml)
    } else {
        None
    }
}

pub open spec fn content_type_of(format: Format) -> Seq<char> {
    match format {
        Format::Text => "text/plain"@,
        Format::Json => "application/json"@,
        Format::Jsonp => "application/javascript"@,
        Format::Yaml => "application/yaml"@,
        Format::Toml => "application/toml"@,
        Format::Xml => "application/xml"@,
    }
}

pub open spec fn body_of(
    v4: Option<Seq<char>>,
    v6: Option<Seq<char>>,
    format: Format,
    single: bool,
    query: Map<Seq<char>, Seq<char>>,
) -> Seq<char> {
    match format {
        Format::Text => text_body(v4, v6, single),
        Format::Json => json_body(v4, v6, single),
        Format::Jsonp => jsonp_body(v4, v6, single, callback_name(query)),
        Format::Yaml => yaml_body(v4, v6, single),
        Format::Toml => toml_body(v4, v6, single),
        Format::Xml => xml_body(v4, v6, single),
    }
}

/// A successful rendering: status 200, the format's content type and body.
pub open spec fn rendered(
    v4: Option<Seq<char>>,
    v6: Option<Seq<char>>,
    format: Format,
    single: bool,
    query: Map<Seq<char>, Seq<char>>,
) -> (u16, Seq<char>, Seq<char>) {
    (200, content_type_of(format), body_of(v4, v6, format, single, query))
}

/// `s` without one leading and one trailing `/`, where present.
pub open spec fn strip_one_slash(s: Seq<char>) -> Seq<char> {
    let t = if s.len() > 0 && s[0] == '/' {
        s.drop_first()
    } else {
        s
    };
    if t.len() > 0 && t.last() == '/' {
        t.drop_last()
    } else {
        t
    }
}

/// The path to route: the catch-all parameter where, stripped, it is
/// non-empty; else the request path, stripped.
pub open spec fn effective_path(path: Seq<char>, proxy: Option<Seq<char>>) -> Seq<char> {
    match proxy {
        Some(p) => if strip_one_slash(p).len() > 0 {
            strip_one_slash(p)
        } else {
            strip_one_slash(path)
        },
        None => strip_one_slash(path),
    }
}

pub open spec fn first_slash_at(p: Seq<char>, i: int) -> bool {
    0 <= i < p.len() && p[i] == '/' && forall|j: int| 0 <= j < i ==> p[j] != '/'
}

/// The resource segment (up to the first `/`) and the sub-segment
/// (everything after it, empty where there is no `/`).
pub open spec fn route_key(p: Seq<char>) -> (Seq<char>, Seq<char>) {
    if exists|i: int| first_slash_at(p, i) {
        let i = choose|i: int| first_slash_at(p, i);
        (p.take(i), p.skip(i + 1))
    } else {
        (p, Seq::empty())
    }
}

/// The route for `ip`, `ipv4` and `ipv6` in the given format.
pub open spec fn family_route(selector: Seq<char>, client: Seq<char>, format: Format) -> Route {
    if selector == "ip"@ {
        Route::Render {
            ipv4: is_ipv4_text(client),
            ipv6: is_ipv6_text(client),
            format,
            single: false,
        }
    } else if selector == "ipv4"@ {
        if is_ipv4_text(client) {
            Route::Render { ipv4: true, ipv6: false, format, single: false }
        } else {
            Route::Forbidden(Family::V4)
        }
    } else if selector == "ipv6"@ {
        if is_ipv6_text(client) {
            Route::Render { ipv4: false, ipv6: true, format, single: false }
        } else {
            Route::Forbidden(Family::V6)
        }
    } else {
        Route::NotFound
    }
}

/// The routing table. Format names and the names `ip`, `ipv4`, `ipv6` and
/// `xff` are distinct, so the rules can be read in any order.
pub open spec fn route_of(resource: Seq<char>, sub: Seq<char>, client: Seq<char>) -> Route {
    if sub.len() == 0 {
        if resource.len() == 0 {
            Route::Render { ipv4: true, ipv6: false, format: Format::Text, single: true }
        } else if resource == "xff"@ {
            Route::Forwarded
        } else {
            match format_named(resource) {
                Some(f) => Route::Render { ipv4: true, ipv6: true, format: f, single: true },
                None => family_route(resource, client, Format::Text),
            }
        }
    } else {
        match format_named(resource) {
            Some(f) => family_route(sub, client, f),
            None => Route::NotFound,
        }
    }
}

pub open spec fn slot(present: bool, client: Seq<char>) -> Option<Seq<char>> {
    if present {
        Some(client)
    } else {
        None
    }
}

pub open spec fn forbidden_body(family: Family) -> Seq<char> {
    match family {
        Family::V4 => "Forbidden: IPv4 only"@,
        Family::V6 => "Forbidden: IPv6 only"@,
    }
}

/// The response for a route.
pub open spec fn route_response(
    route: Route,
    client: Seq<char>,
    forwarded_for: Seq<char>,
    query: Map<Seq<char>, Seq<char>>,
) -> (u16, Seq<char>, Seq<char>) {
    match route {
        Route::Render { ipv4, ipv6, format, single } => rendered(
            slot(ipv4, client),
            slot(ipv6, client),
            format,
            single,
            query,
        ),
        Route::Forbidden(family) => (403, "text/plain"@, forbidden_body(family)),
        Route::Forwarded => (200, "text/plain"@, forwarded_for),
        Route::NotFound => (404, "text/plain"@, "Not Found"@),
    }
}

pub open spec fn opt_string_view(o: Option<String>) -> Option<Seq<char>> {
    match o {
        Some(s) => Some(s@),
        None => None,
    }
}

/// The response to a request, with the given trusted proxies.
pub open spec fn response_to(
    path: Seq<char>,
    proxy_path: Option<Seq<char>>,
    forwarded_for: Seq<char>,
    source_ip: Seq<char>,
    query: Map<Seq<char>, Seq<char>>,
    trusted: Seq<Seq<char>>,
) -> (u16, Seq<char>, Seq<char>) {
    let key = route_key(effective_path(path, proxy_path));
    let client = resolve_client_ip(forwarded_for, source_ip, trusted);
    route_response(route_of(key.0, key.1, client), client, forwarded_for, query)
}

/// The format that `name` names, if any.
pub fn format_from_name(name: &str) -> (r: Option<Format>)
    ensures
        r == format_named(name@),
{
    if str_eq(name, "json") {
        Some(Format::Json)
    } else if str_eq(name, "jsonp") {
        Some(Format::Jsonp)
    } else if str_eq(name, "xml") {
        Some(Format::Xml)
    } else if str_eq(name, "yaml") {
        Some(Format::Yaml)
    } else if str_eq(name, "toml") {
        Some(Format::Toml)
    } else {
        None
    }
}

/// The content type of responses in `format`.
pub fn content_type(format: Format) -> (r: &'static str)
    ensures
        r@ == content_type_of(format),
{
    match format {
        Format::Text => "text/plain",
        Format::Json => "application/json",
        Format::Jsonp => "application/javascript",
        Format::Yaml => "application/yaml",
        Format::Toml => "application/toml",
        Format::Xml => "application/xml",
    }
}

/// A response with status 200.
pub fn response_200(content_type: &str, response_body: &str) -> (r: Response)
    ensures
        r@ == (200u16, content_type@, response_body@),
{
    Response { status: 200, content_type: content_type.to_owned(), body: response_body.to_owned() }
}

/// A response with status 403 that gives the reason.
pub fn response_403(forbidden_reason: &str) -> (r: Response)
    ensures
        r@ == (403u16, "text/plain"@, "Forbidden: "@ + forbidden_reason@),
{
    let mut body = String::from_str("Forbidden: ");
    body.append(forbidden_reason);
    Response { status: 403, content_type: String::from_str("text/plain"), body }
}

/// A response with status 404.
pub fn response_404() -> (r: Response)
    ensures
        r@ == (404u16, "text/plain"@, "Not Found"@),
{
    Response {
        status: 404,
        content_type: String::from_str("text/plain"),
        body: String::from_str("Not Found"),
    }
}

/// The client address rendered in `format`, with status 200.
pub fn ip_response(
    ipv4: Option<&str>,
    ipv6: Option<&str>,
    format: Format,
    check_ipv: bool,
    params_query: &QueryParams,
) -> (r: Response)
    ensures
        r@ == rendered(opt_view(ipv4), opt_view(ipv6), format, check_ipv, params_query@),
{
    let body = match format {
        Format::Text => ip_text_response(ipv4, ipv6, check_ipv),
        Format::Json => ip_json_response(ipv4, ipv6, check_ipv),
        Format::Jsonp => ip_jsonp_response(ipv4, ipv6, check_ipv, params_query),
        Format::Yaml => ip_yaml_response(ipv4, ipv6, check_ipv),
        Format::Toml => ip_toml_response(ipv4, ipv6, check_ipv),
        Format::Xml => ip_xml_response(ipv4, ipv6, check_ipv),
    };
    response_200(content_type(format), body.as_str())
}

/// `s` without one leading and one trailing `/`, where present.
pub fn strip_slashes(s: &str) -> (r: &str)
    ensures
        r@ == strip_one_slash(s@),
{
    let n = s.unicode_len();
    let a: usize = if n > 0 && s.get_char(0) == '/' {
        1
    } else {
        0
    };
    let b: usize = if n > a && s.get_char(n - 1) == '/' {
        n - 1
    } else {
        n
    };
    let r = s.substring_char(a, b);
    assert(r@ =~= strip_one_slash(s@));
    r
}

/// The resource segment and the sub-segment of a normalized path.
pub fn split_route(p: &str) -> (r: (&str, &str))
    ensures
        (r.0@, r.1@) == route_key(p@),
{
    let n = p.unicode_len();
    let mut i: usize = 0;
    while i < n && p.get_char(i) != '/'
        invariant
            n == p@.len(),
            i <= n,
            forall|j: int| 0 <= j < i ==> p@[j] != '/',
        decreases n - i,
    {
        i = i + 1;
    }
    if i < n {
        assert(first_slash_at(p@, i as int));
        assert forall|k: int| first_slash_at(p@, k) implies k == i by {
            if k < i {
                assert(p@[k] != '/');
            } else if k > i {
                assert(p@[i as int] != '/');
            }
        }
        (p.substring_char(0, i), p.substring_char(i + 1, n))
    } else {
        assert(forall|k: int| !first_slash_at(p@, k));
        proof {
            reveal_strlit("");
        }
        assert(p@.subrange(0, n as int) =~= p@);
        (p.substring_char(0, n), "")
    }
}

/// The route for `ip`, `ipv4` and `ipv6` in `format`.
fn family(selector: &str, client_ip: &str, format: Format) -> (r: Route)
    ensures
        r == family_route(selector@, client_ip@, format),
{
    if str_eq(selector, "ip") {
        let (ipv4, ipv6) = extract_ips(client_ip);
        Route::Render { ipv4: ipv4.is_some(), ipv6: ipv6.is_some(), format, single: false }
    } else if str_eq(selector, "ipv4") {
        if is_ipv4(client_ip) {
            Route::Render { ipv4: true, ipv6: false, format, single: false }
        } else {
            Route::Forbidden(Family::V4)
        }
    } else if str_eq(selector, "ipv6") {
        if is_ipv6(client_ip) {
            Route::Render { ipv4: false, ipv6: true, format, single: false }
        } else {
            Route::Forbidden(Family::V6)
        }
    } else {
        Route::NotFound
    }
}

/// The routing table applied to a resource segment, a sub-segment and the
/// client address.
pub fn route(resource: &str, sub: &str, client_ip: &str) -> (r: Route)
    ensures
        r == route_of(resource@, sub@, client_ip@),
{
    if sub.is_empty() {
        if resource.is_empty() {
            Route::Render { ipv4: true, ipv6: false, format: Format::Text, single: true }
        } else if str_eq(resource, "xff") {
            Route::Forwarded
        } else {
            match format_from_name(resource) {
                Some(f) => Route::Render { ipv4: true, ipv6: true, format: f, single: true },
                None => family(resource, client_ip, Format::Text),
            }
        }
    } else {
        match format_from_name(resource) {
            Some(f) => family(sub, client_ip, f),
            None => Route::NotFound,
        }
    }
}

/// Answers a request: normalizes the path, resolves the client address from
/// the forwarding chain (skipping `trusted_proxies`), routes, and renders.
pub fn handle(request: &Request, trusted_proxies: &[&str]) -> (r: Response)
    ensures
        r@ == response_to(
            request.path@,
            opt_string_view(request.proxy_path),
            request.x_forwarded_for@,
            request.source_ip@,
            request.query@,
            proxy_view(trusted_proxies@),
        ),
{
    let stripped = strip_slashes(request.path.as_str());
    let path = match &request.proxy_path {
        Some(p) => {
            let q = strip_slashes(p.as_str());
            if q.is_empty() {
                stripped
            } else {
                q
            }
        },
        None => stripped,
    };
    let (resource, sub) = split_route(path);
    let client_ip = get_ip(request.x_forwarded_for.as_str(), request.source_ip.as_str(), trusted_proxies);
    match route(resource, sub, client_ip) {
        Route::Render { ipv4, ipv6, format, single } => {
            let v4 = if ipv4 {
                Some(client_ip)
            } else {
                None
            };
            let v6 = if ipv6 {
                Some(client_ip)
            } else {
                None
            };
            ip_response(v4, v6, format, single, &request.query)
        },
        Route::Forbidden(Family::V4) => {
            let r = response_403("IPv4 only");
            assert(r.body@ =~= forbidden_body(Family::V4)) by {
                reveal_strlit("Forbidden: ");
                reveal_strlit("IPv4 only");
                reveal_strlit("Forbidden: IPv4 only");
            }
            r
        },
        Route::Forbidden(Family::V6) => {
            let r = response_403("IPv6 only");
            assert(r.body@ =~= forbidden_body(Family::V6)) by {
                reveal_strlit("Forbidden: ");
                reveal_strlit("IPv6 only");
                reveal_strlit("Forbidden: IPv6 only");
            }
            r
        },
        Route::Forwarded => response_200("text/plain", request.x_forwarded_for.as_str()),
        Route::NotFound => response_404(),
    }
}

/// Rendering is a function of its inputs: two renderings of the same
/// addresses, format, mode and query parameters are identical.
pub proof fn lemma_rendering_idempotent(
    v4: Option<Seq<char>>,
    v6: Option<Seq<char>>,
    format: Format,
    single: bool,
    query: Map<Seq<char>, Seq<char>>,
    first: (u16, Seq<char>, Seq<char>),
    second: (u16, Seq<char>, Seq<char>),
)
    requires
        first == rendered(v4, v6, format, single, query),
        second == rendered(v4, v6, format, single, query),
    ensures
        first == second,
{
}

} // verus!
