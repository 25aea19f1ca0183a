//! Rendering of the client address in each response format.
//!
//! Values are interpolated as they are, with no escaping in any format: they
//! are expected to be validated address literals or callback names chosen by
//! the operator.
use vstd::prelude::*;
use crate::query::QueryParams;
use crate::text::{trim_string, trimmed};

verus! {

/// The characters of an optional string.
pub open spec fn opt_view(o: Option<&str>) -> Option<Seq<char>> {
    match o {
        Some(s) => Some(s@),
        None => None,
    }
}

/// The IPv4 value where present, else the IPv6 value, else empty.
pub open spec fn first_present(v4: Option<Seq<char>>, v6: Option<Seq<char>>) -> Seq<char> {
    match v4 {
        Some(a) => a,
        None => match v6 {
            Some(b) => b,
            None => Seq::empty(),
        },
    }
}

/// `v` between `open` and `close` where present, else nothing.
pub open spec fn field(v: Option<Seq<char>>, open: Seq<char>, close: Seq<char>) -> Seq<char> {
    match v {
        Some(x) => open + x + close,
        None => Seq::empty(),
    }
}

pub open spec fn text_body(v4: Option<Seq<char>>, v6: Option<Seq<char>>, single: bool) -> Seq<char> {
    if single {
        first_present(v4, v6)
    } else {
        match (v4, v6) {
            (Some(a), Some(b)) => a + "\n"@ + b,
            (Some(a), None) => a,
            (None, Some(b)) => b,
            (None, None) => Seq::empty(),
        }
    }
}

pub open spec fn json_body(v4: Option<Seq<char>>, v6: Option<Seq<char>>, single: bool) -> Seq<char> {
    if single {
        "{\"ip\":\""@ + first_present(v4, v6) + "\"}"@
    } else {
        "{"@ + field(v4, "\"ipv4\":\""@, "\""@) + (if v4 is Some && v6 is Some {
            ","@
        } else {
            Seq::empty()
        }) + field(v6, "\"ipv6\":\""@, "\""@) + "}"@
    }
}

pub open spec fn jsonp_body(
    v4: Option<Seq<char>>,
    v6: Option<Seq<char>>,
    single: bool,
    callback: Seq<char>,
) -> Seq<char> {
    callback + "("@ + json_body(v4, v6, single) + ");"@
}

/// The callback name of a JSONP response: the `callback` parameter, else `callback`.
pub open spec fn callback_name(query: Map<Seq<char>, Seq<char>>) -> Seq<char> {
    if query.contains_key("callback"@) {
        query["callback"@]
    } else {
        "callback"@
    }
}

pub open spec fn yaml_body(v4: Option<Seq<char>>, v6: Option<Seq<char>>, single: bool) -> Seq<char> {
    if single {
        "ip: "@ + first_present(v4, v6)
    } else {
        trimmed(field(v4, "ipv4: "@, "\n"@) + field(v6, "ipv6: "@, "\n"@))
    }
}

pub open spec fn toml_body(v4: Option<Seq<char>>, v6: Option<Seq<char>>, single: bool) -> Seq<char> {
    if single {
        "ip = '"@ + first_present(v4, v6) + "'"@
    } else {
        trimmed(field(v4, "ipv4 = '"@, "'\n"@) + field(v6, "ipv6 = '"@, "'\n"@))
    }
}

pub open spec fn xml_body(v4: Option<Seq<char>>, v6: Option<Seq<char>>, single: bool) -> Seq<char> {
    if single {
        "<ip>"@ + first_present(v4, v6) + "</ip>"@
    } else {
        "<ip>"@ + field(v4, "<ipv4>"@, "</ipv4>"@) + field(v6, "<ipv6>"@, "</ipv6>"@) + "</ip>"@
    }
}

/// The value to show in single-field mode.
fn first_of<'a>(ipv4: Option<&'a str>, ipv6: Option<&'a str>) -> (r: &'a str)
    ensures
        r@ == first_present(opt_view(ipv4), opt_view(ipv6)),
{
    match ipv4 {
        Some(a) => a,
        None => match ipv6 {
            Some(b) => b,
            None => {
                proof {
                    reveal_strlit("");
                }
                ""
            },
        },
    }
}

/// Appends `v` between `open` and `close`, where `v` is present.
fn append_field(out: &mut String, v: Option<&str>, open: &str, close: &str)
    ensures
        final(out)@ == old(out)@ + field(opt_view(v), open@, close@),
{
    match v {
        Some(x) => {
            out.append(open);
            out.append(x);
            out.append(close);
            assert(final(out)@ =~= old(out)@ + field(opt_view(v), open@, close@));
        },
        None => {
            assert(final(out)@ =~= old(out)@ + field(opt_view(v), open@, close@));
        },
    }
}

/// Plain text: one value in single-field mode, else the IPv4 and IPv6 values
/// on separate lines, whichever are present.
pub fn ip_text_response(ipv4: Option<&str>, ipv6: Option<&str>, check_ipv: bool) -> (r: String)
    ensures
        r@ == text_body(opt_view(ipv4), opt_view(ipv6), check_ipv),
{
    if check_ipv {
        first_of(ipv4, ipv6).to_owned()
    } else {
        match (ipv4, ipv6) {
            (Some(a), Some(b)) => {
                let mut r = a.to_owned();
                r.append("\n");
                r.append(b);
                r
            },
            (Some(a), None) => a.to_owned(),
            (None, Some(b)) => b.to_owned(),
            (None, None) => String::new(),
        }
    }
}

/// A JSON object: `{"ip":...}` in single-field mode, else the `ipv4` and
/// `ipv6` members that are present, absent ones left out.
pub fn ip_json_response(ipv4: Option<&str>, ipv6: Option<&str>, check_ipv: bool) -> (r: String)
    ensures
        r@ == json_body(opt_view(ipv4), opt_view(ipv6), check_ipv),
{
    if check_ipv {
        let mut r = String::from_str("{\"ip\":\"");
        r.append(first_of(ipv4, ipv6));
        r.append("\"}");
        r
    } else {
        let mut r = String::from_str("{");
        append_field(&mut r, ipv4, "\"ipv4\":\"", "\"");
        if ipv4.is_some() && ipv6.is_some() {
            r.append(",");
        }
        append_field(&mut r, ipv6, "\"ipv6\":\"", "\"");
        r.append("}");
        assert(r@ =~= json_body(opt_view(ipv4), opt_view(ipv6), check_ipv));
        r
    }
}

/// The JSON object wrapped in a call of the function named by the `callback`
/// query parameter (`callback` where it is absent).
pub fn ip_jsonp_response(
    ipv4: Option<&str>,
    ipv6: Option<&str>,
    check_ipv: bool,
    callback_param: &QueryParams,
) -> (r: String)
    ensures
        r@ == jsonp_body(opt_view(ipv4), opt_view(ipv6), check_ipv, callback_name(callback_param@)),
{
    let callback = match callback_param.get("callback") {
        Some(c) => c,
        None => "callback",
    };
    let mut r = String::from_str(callback);
    r.append("(");
    r.append(ip_json_response(ipv4, ipv6, check_ipv).as_str());
    r.append(");");
    r
}

/// YAML: `ip: value` in single-field mode, else an `ipv4:` and an `ipv6:`
/// line for the values present.
pub fn ip_yaml_response(ipv4: Option<&str>, ipv6: Option<&str>, check_ipv: bool) -> (r: String)
    ensures
        r@ == yaml_body(opt_view(ipv4), opt_view(ipv6), check_ipv),
{
    if check_ipv {
        let mut r = String::from_str("ip: ");
        r.append(first_of(ipv4, ipv6));
        r
    } else {
        let mut r = String::new();
        append_field(&mut r, ipv4, "ipv4: ", "\n");
        append_field(&mut r, ipv6, "ipv6: ", "\n");
        assert(r@ =~= field(opt_view(ipv4), "ipv4: "@, "\n"@) + field(opt_view(ipv6), "ipv6: "@, "\n"@));
        trim_string(&r)
    }
}

/// TOML: `ip = 'value'` in single-field mode, else an `ipv4` and an `ipv6`
/// key for the values present.
pub fn ip_toml_response(ipv4: Option<&str>, ipv6: Option<&str>, check_ipv: bool) -> (r: String)
    ensures
        r@ == toml_body(opt_view(ipv4), opt_view(ipv6), check_ipv),
{
    if check_ipv {
        let mut r = String::from_str("ip = '");
        r.append(first_of(ipv4, ipv6));
        r.append("'");
        r
    } else {
        let mut r = String::new();
        append_field(&mut r, ipv4, "ipv4 = '", "'\n");
        append_field(&mut r, ipv6, "ipv6 = '", "'\n");
        assert(r@ =~= field(opt_view(ipv4), "ipv4 = '"@, "'\n"@) + field(opt_view(ipv6), "ipv6 = '"@, "'\n"@));
        trim_string(&r)
    }
}

/// XML: `<ip>value</ip>` in single-field mode, else `<ipv4>` and `<ipv6>`
/// elements for the values present, inside one `<ip>` element.
pub fn ip_xml_response(ipv4: Option<&str>, ipv6: Option<&str>, check_ipv: bool) -> (r: String)
    ensures
        r@ == xml_body(opt_view(ipv4), opt_view(ipv6), check_ipv),
{
    if check_ipv {
        let mut r = String::from_str("<ip>");
        r.append(first_of(ipv4, ipv6));
        r.append("</ip>");
        r
    } else {
        let mut r = String::from_str("<ip>");
        append_field(&mut r, ipv4, "<ipv4>", "</ipv4>");
        append_field(&mut r, ipv6, "<ipv6>", "</ipv6>");
        r.append("</ip>");
        assert(r@ =~= xml_body(opt_view(ipv4), opt_view(ipv6), check_ipv));
        r
    }
}

} // verus!
