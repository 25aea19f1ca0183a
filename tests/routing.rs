use ipby::routing::{
    format_from_name, route, split_route, strip_slashes, Family, Format, Request, Route,
};
use ipby::{handle, QueryParams, Response};

fn request(path: &str, xff: &str) -> Request {
    Request {
        path: path.to_string(),
        proxy_path: None,
        x_forwarded_for: xff.to_string(),
        source_ip: String::new(),
        query: QueryParams::new(),
    }
}

fn parts(r: &Response) -> (u16, &str, &str) {
    (r.status, r.content_type.as_str(), r.body.as_str())
}

#[test]
fn family_resource_with_family_sub_is_not_found() {
    let r = handle(&request("/ipv6/ipv4", "2001:db8::1"), &[]);
    assert_eq!(parts(&r), (404, "text/plain", "Not Found"));
}

#[test]
fn ipv4_route_forbids_ipv6_client() {
    let r = handle(&request("/json/ipv4", "2001:db8::1"), &[]);
    assert_eq!(parts(&r), (403, "text/plain", "Forbidden: IPv4 only"));
    let r = handle(&request("/ipv4", "2001:db8::1"), &[]);
    assert_eq!(parts(&r), (403, "text/plain", "Forbidden: IPv4 only"));
    let r = handle(&request("/ipv6", "9.9.9.9"), &[]);
    assert_eq!(parts(&r), (403, "text/plain", "Forbidden: IPv6 only"));
}

#[test]
fn root_shows_rightmost_forwarded_entry() {
    let r = handle(&request("", "10.0.0.5, 203.0.113.7"), &[]);
    assert_eq!(parts(&r), (200, "text/plain", "203.0.113.7"));
    let r = handle(&request("/", "10.0.0.5, 203.0.113.7"), &[]);
    assert_eq!(parts(&r), (200, "text/plain", "203.0.113.7"));
}

#[test]
fn jsonp_ip_uses_callback_parameter() {
    let mut req = request("/jsonp/ip", "9.9.9.9");
    req.query.insert("callback".to_string(), "foo".to_string());
    let r = handle(&req, &[]);
    assert_eq!(parts(&r), (200, "application/javascript", "foo({\"ipv4\":\"9.9.9.9\"});"));
}

#[test]
fn three_segments_are_not_found() {
    for xff in ["", "9.9.9.9", "2001:db8::1", "garbage"] {
        let r = handle(&request("/unknown/thing/extra", xff), &[]);
        assert_eq!(parts(&r), (404, "text/plain", "Not Found"));
    }
    let r = handle(&request("/json/ip/extra", "9.9.9.9"), &[]);
    assert_eq!(parts(&r), (404, "text/plain", "Not Found"));
}

#[test]
fn xff_without_header_is_empty() {
    let r = handle(&request("/xff", ""), &[]);
    assert_eq!(parts(&r), (200, "text/plain", ""));
    let r = handle(&request("/xff", "1.1.1.1, 2.2.2.2"), &[]);
    assert_eq!(parts(&r), (200, "text/plain", "1.1.1.1, 2.2.2.2"));
}

#[test]
fn format_routes() {
    let r = handle(&request("/json", "9.9.9.9"), &[]);
    assert_eq!(parts(&r), (200, "application/json", "{\"ip\":\"9.9.9.9\"}"));
    let r = handle(&request("/yaml/ipv6", "::1"), &[]);
    assert_eq!(parts(&r), (200, "application/yaml", "ipv6: ::1"));
    let r = handle(&request("/toml/ip", "9.9.9.9"), &[]);
    assert_eq!(parts(&r), (200, "application/toml", "ipv4 = '9.9.9.9'"));
    let r = handle(&request("/xml/ip", "junk"), &[]);
    assert_eq!(parts(&r), (200, "application/xml", "<ip></ip>"));
    let r = handle(&request("/ip", "::1"), &[]);
    assert_eq!(parts(&r), (200, "text/plain", "::1"));
    let r = handle(&request("/ipv4/", "9.9.9.9"), &[]);
    assert_eq!(parts(&r), (200, "text/plain", "9.9.9.9"));
    let r = handle(&request("/jsonp", "9.9.9.9"), &[]);
    assert_eq!(parts(&r), (200, "application/javascript", "callback({\"ip\":\"9.9.9.9\"});"));
}

#[test]
fn unknown_resource_is_not_found() {
    let r = handle(&request("/text", "9.9.9.9"), &[]);
    assert_eq!(parts(&r), (404, "text/plain", "Not Found"));
    let r = handle(&request("/json/foo", "9.9.9.9"), &[]);
    assert_eq!(parts(&r), (404, "text/plain", "Not Found"));
    let r = handle(&request("//ip", "9.9.9.9"), &[]);
    assert_eq!(parts(&r), (404, "text/plain", "Not Found"));
}

#[test]
fn proxy_path_takes_precedence() {
    let mut req = request("/ignored", "9.9.9.9");
    req.proxy_path = Some("/json/".to_string());
    let r = handle(&req, &[]);
    assert_eq!(parts(&r), (200, "application/json", "{\"ip\":\"9.9.9.9\"}"));
    req.proxy_path = Some("/".to_string());
    let r = handle(&req, &[]);
    assert_eq!(parts(&r), (404, "text/plain", "Not Found"));
}

#[test]
fn source_ip_used_without_forwarding_header() {
    let mut req = request("/ipv4", "");
    req.source_ip = "5.6.7.8".to_string();
    let r = handle(&req, &[]);
    assert_eq!(parts(&r), (200, "text/plain", "5.6.7.8"));
}

#[test]
fn trusted_proxy_skipped_in_handle() {
    let r = handle(&request("/", "9.9.9.9, 10.0.0.1"), &["10.0.0.1"]);
    assert_eq!(parts(&r), (200, "text/plain", "9.9.9.9"));
}

#[test]
fn path_helpers() {
    assert_eq!(strip_slashes("/json/ip/"), "json/ip");
    assert_eq!(strip_slashes("//ip//"), "/ip/");
    assert_eq!(strip_slashes("/"), "");
    assert_eq!(strip_slashes(""), "");
    assert_eq!(split_route("json/ip"), ("json", "ip"));
    assert_eq!(split_route("a/b/c"), ("a", "b/c"));
    assert_eq!(split_route("xff"), ("xff", ""));
    assert_eq!(split_route(""), ("", ""));
    assert_eq!(format_from_name("jsonp"), Some(Format::Jsonp));
    assert_eq!(format_from_name("text"), None);
}

#[test]
fn routing_table() {
    assert_eq!(
        route("", "", "x"),
        Route::Render { ipv4: true, ipv6: false, format: Format::Text, single: true }
    );
    assert_eq!(route("xff", "", "x"), Route::Forwarded);
    assert_eq!(route("ipv4", "", "::1"), Route::Forbidden(Family::V4));
    assert_eq!(
        route("xml", "", "x"),
        Route::Render { ipv4: true, ipv6: true, format: Format::Xml, single: true }
    );
    assert_eq!(
        route("toml", "ip", "::1"),
        Route::Render { ipv4: false, ipv6: true, format: Format::Toml, single: false }
    );
    assert_eq!(route("toml", "ipv6", "1.2.3.4"), Route::Forbidden(Family::V6));
    assert_eq!(route("ip", "ip", "1.2.3.4"), Route::NotFound);
}
