use ipby::{
    ip_json_response, ip_jsonp_response, ip_text_response, ip_toml_response, ip_xml_response,
    ip_yaml_response, QueryParams,
};

#[test]
fn text_rendering() {
    assert_eq!(ip_text_response(Some("1.2.3.4"), None, true), "1.2.3.4");
    assert_eq!(ip_text_response(None, Some("::1"), true), "::1");
    assert_eq!(ip_text_response(Some("1.2.3.4"), Some("::1"), true), "1.2.3.4");
    assert_eq!(ip_text_response(None, None, true), "");
    assert_eq!(ip_text_response(Some("1.2.3.4"), Some("::1"), false), "1.2.3.4\n::1");
    assert_eq!(ip_text_response(Some("1.2.3.4"), None, false), "1.2.3.4");
    assert_eq!(ip_text_response(None, Some("::1"), false), "::1");
    assert_eq!(ip_text_response(None, None, false), "");
}

#[test]
fn json_rendering() {
    assert_eq!(ip_json_response(Some("1.2.3.4"), None, false), "{\"ipv4\":\"1.2.3.4\"}");
    assert_eq!(ip_json_response(None, Some("::1"), false), "{\"ipv6\":\"::1\"}");
    assert_eq!(
        ip_json_response(Some("1.2.3.4"), Some("::1"), false),
        "{\"ipv4\":\"1.2.3.4\",\"ipv6\":\"::1\"}"
    );
    assert_eq!(ip_json_response(None, None, false), "{}");
    assert_eq!(ip_json_response(Some("1.2.3.4"), Some("1.2.3.4"), true), "{\"ip\":\"1.2.3.4\"}");
    assert_eq!(ip_json_response(None, Some("::1"), true), "{\"ip\":\"::1\"}");
    assert_eq!(ip_json_response(None, None, true), "{\"ip\":\"\"}");
}

#[test]
fn json_omits_absent_ipv6_key() {
    let body = ip_json_response(Some("1.2.3.4"), None, false);
    assert_eq!(body, "{\"ipv4\":\"1.2.3.4\"}");
    assert!(!body.contains("ipv6"));
}

#[test]
fn jsonp_rendering() {
    let mut q = QueryParams::new();
    assert_eq!(
        ip_jsonp_response(Some("1.2.3.4"), None, true, &q),
        "callback({\"ip\":\"1.2.3.4\"});"
    );
    q.insert("callback".to_string(), "foo".to_string());
    assert_eq!(
        ip_jsonp_response(Some("9.9.9.9"), None, false, &q),
        "foo({\"ipv4\":\"9.9.9.9\"});"
    );
    q.insert("callback".to_string(), "bar".to_string());
    assert_eq!(ip_jsonp_response(None, None, false, &q), "bar({});");
}

#[test]
fn yaml_rendering() {
    assert_eq!(ip_yaml_response(Some("1.2.3.4"), None, true), "ip: 1.2.3.4");
    assert_eq!(ip_yaml_response(None, None, true), "ip: ");
    assert_eq!(ip_yaml_response(Some("1.2.3.4"), Some("::1"), false), "ipv4: 1.2.3.4\nipv6: ::1");
    assert_eq!(ip_yaml_response(None, Some("::1"), false), "ipv6: ::1");
    assert_eq!(ip_yaml_response(None, None, false), "");
}

#[test]
fn toml_rendering() {
    assert_eq!(ip_toml_response(Some("1.2.3.4"), None, true), "ip = '1.2.3.4'");
    assert_eq!(
        ip_toml_response(Some("1.2.3.4"), Some("::1"), false),
        "ipv4 = '1.2.3.4'\nipv6 = '::1'"
    );
    assert_eq!(ip_toml_response(Some("1.2.3.4"), None, false), "ipv4 = '1.2.3.4'");
    assert_eq!(ip_toml_response(None, None, false), "");
}

#[test]
fn xml_rendering() {
    assert_eq!(ip_xml_response(Some("1.2.3.4"), None, true), "<ip>1.2.3.4</ip>");
    assert_eq!(
        ip_xml_response(Some("1.2.3.4"), Some("::1"), false),
        "<ip><ipv4>1.2.3.4</ipv4><ipv6>::1</ipv6></ip>"
    );
    assert_eq!(ip_xml_response(None, Some("::1"), false), "<ip><ipv6>::1</ipv6></ip>");
    assert_eq!(ip_xml_response(None, None, false), "<ip></ip>");
}

#[test]
fn values_are_not_escaped() {
    assert_eq!(ip_json_response(Some("a\"b"), None, true), "{\"ip\":\"a\"b\"}");
    assert_eq!(ip_xml_response(Some("<x>"), None, true), "<ip><x></ip>");
}

#[test]
fn rendering_twice_is_identical() {
    let q = QueryParams::new();
    for single in [true, false] {
        let a = (Some("1.2.3.4"), Some("::1"));
        assert_eq!(ip_text_response(a.0, a.1, single), ip_text_response(a.0, a.1, single));
        assert_eq!(ip_json_response(a.0, a.1, single), ip_json_response(a.0, a.1, single));
        assert_eq!(
            ip_jsonp_response(a.0, a.1, single, &q),
            ip_jsonp_response(a.0, a.1, single, &q)
        );
        assert_eq!(ip_yaml_response(a.0, a.1, single), ip_yaml_response(a.0, a.1, single));
        assert_eq!(ip_toml_response(a.0, a.1, single), ip_toml_response(a.0, a.1, single));
        assert_eq!(ip_xml_response(a.0, a.1, single), ip_xml_response(a.0, a.1, single));
    }
}

#[test]
fn query_params_lookup() {
    let mut q = QueryParams::new();
    assert_eq!(q.get("callback"), None);
    q.insert("a".to_string(), "1".to_string());
    q.insert("callback".to_string(), "cb".to_string());
    q.insert("a".to_string(), "2".to_string());
    assert_eq!(q.get("a"), Some("2"));
    assert_eq!(q.get("callback"), Some("cb"));
    assert_eq!(q.get("b"), None);
}
