//! Server-side request forgery (SSRF) checks for outbound requests, and the
//! security headers of every response.

pub mod headers;
pub mod ssrf;

pub use headers::security_headers;

pub use ssrf::{
    check_ip_literal, check_redirect, check_resolved_addresses, check_url_for_ssrf, check_url_target, is_private_or_restricted_ip,
    is_restricted_hostname, is_restricted_ipv4, is_restricted_ipv6, normalize_url_input,
    strip_ip_brackets, IpAddress, UrlCheck,
};
