//! Client address detection: forwarding-chain resolution, address
//! classification, request routing and response rendering.
pub mod address;
pub mod client;
pub mod query;
pub mod render;
pub mod routing;
pub mod text;

pub use address::{extract_ips, is_ipv4, is_ipv6};
pub use client::get_ip;
pub use query::QueryParams;
pub use render::{
    ip_json_response, ip_jsonp_response, ip_text_response, ip_toml_response, ip_xml_response,
    ip_yaml_response,
};
pub use routing::{handle, Format, Request, Response, Route};
