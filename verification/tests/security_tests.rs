use fly_common::security::{
    check_ip_literal, check_redirect, check_resolved_addresses, check_url_for_ssrf, check_url_target,
    is_private_or_restricted_ip, UrlCheck,
    is_restricted_hostname, is_restricted_ipv4, is_restricted_ipv6, normalize_url_input,
    strip_ip_brackets, IpAddress,
};

#[test]
fn test_restricted_ipv4_addresses() {
    assert!(is_restricted_ipv4([127, 0, 0, 1]));
    assert!(is_restricted_ipv4([10, 0, 0, 1]));
    assert!(is_restricted_ipv4([172, 16, 0, 1]));
    assert!(is_restricted_ipv4([192, 168, 1, 1]));
    assert!(is_restricted_ipv4([169, 254, 169, 254]));
    assert!(!is_restricted_ipv4([8, 8, 8, 8]));
}

#[test]
fn test_restricted_ipv6_addresses() {
    assert!(is_restricted_ipv6([0, 0, 0, 0, 0, 0, 0, 1]));
    assert!(is_restricted_ipv6([0, 0, 0, 0, 0, 0, 0, 0]));
}

#[test]
fn test_restricted_hostnames() {
    assert!(is_restricted_hostname("localhost"));
    assert!(is_restricted_hostname("metadata.google.internal"));
    assert!(!is_restricted_hostname("google.com"));
}

#[test]
fn test_security_ssrf_comprehensive_matrix() {
    // IPv4 Restricted Range Matrix
    assert!(is_private_or_restricted_ip(IpAddress::V4([127, 0, 0, 1]))); // Loopback
    assert!(is_private_or_restricted_ip(IpAddress::V4([10, 0, 1, 50]))); // RFC 1918 Private
    assert!(is_private_or_restricted_ip(IpAddress::V4([172, 16, 0, 1]))); // RFC 1918 172.16
    assert!(is_private_or_restricted_ip(IpAddress::V4([172, 31, 255, 255]))); // RFC 1918 172.31
    assert!(is_private_or_restricted_ip(IpAddress::V4([192, 168, 1, 1]))); // RFC 1918 Home/LAN
    assert!(is_private_or_restricted_ip(IpAddress::V4([169, 254, 169, 254]))); // Link Local
    assert!(is_private_or_restricted_ip(IpAddress::V4([0, 0, 0, 0]))); // Unspecified
    assert!(is_private_or_restricted_ip(IpAddress::V4([224, 0, 0, 1]))); // Multicast
    assert!(is_private_or_restricted_ip(IpAddress::V4([255, 255, 255, 255]))); // Broadcast

    // IPv4 Valid Public IPs
    assert!(!is_private_or_restricted_ip(IpAddress::V4([8, 8, 8, 8]))); // Google DNS
    assert!(!is_private_or_restricted_ip(IpAddress::V4([1, 1, 1, 1]))); // Cloudflare DNS
    assert!(!is_private_or_restricted_ip(IpAddress::V4([151, 101, 1, 140]))); // Fastly

    // IPv6 Restricted Matrix
    assert!(is_private_or_restricted_ip(IpAddress::V6([0, 0, 0, 0, 0, 0, 0, 1]))); // ::1
    assert!(is_private_or_restricted_ip(IpAddress::V6([0, 0, 0, 0, 0, 0, 0, 0]))); // ::
    assert!(is_private_or_restricted_ip(IpAddress::V6([0xfe80, 0, 0, 0, 0, 0, 0, 1]))); // Link-local
    assert!(is_private_or_restricted_ip(IpAddress::V6([0xfc00, 0, 0, 0, 0, 0, 0, 1]))); // ULA

    // Hostnames
    assert!(is_restricted_hostname("localhost"));
    assert!(is_restricted_hostname("metadata.google.internal"));
    assert!(is_restricted_hostname("instance-data.ec2.internal"));
    assert!(is_restricted_hostname("myserver.local"));
    assert!(is_restricted_hostname("router.lan"));
    assert!(!is_restricted_hostname("example.com"));
    assert!(!is_restricted_hostname("maps.google.com"));

    // URL validation
    assert!(check_url_for_ssrf("http://127.0.0.1/secret").is_err());
    assert!(check_url_for_ssrf("http://169.254.169.254/latest/meta-data/").is_err());
    assert!(check_url_for_ssrf("http://localhost:8080/admin").is_err());
    assert!(check_url_for_ssrf("http://cluster.internal/").is_err());
    assert!(check_url_for_ssrf("ftp://example.com/file").is_err()); // Non-http/https
    // A public host passes the checks made before resolution; its resolved
    // addresses (here given by hand, as no resolver is reached) are public.
    assert_eq!(
        check_url_for_ssrf("https://httpbin.org/get"),
        Ok(UrlCheck::Resolve { host: "httpbin.org".to_string(), port: 443 })
    );
    assert!(check_resolved_addresses(
        "httpbin.org",
        Ok(vec![(IpAddress::V4([54, 166, 163, 67]), "54.166.163.67".to_string())])
    )
    .is_ok());
}

#[test]
fn url_input_is_normalized() {
    assert_eq!(normalize_url_input("  example.com/a "), Ok("https://example.com/a".to_string()));
    assert_eq!(normalize_url_input("http://x.y"), Ok("http://x.y".to_string()));
    assert_eq!(normalize_url_input("   "), Err("URL cannot be empty".to_string()));
    assert_eq!(
        normalize_url_input("gopher://x"),
        Err("Disallowed URL scheme. Only 'http' and 'https' are permitted.".to_string())
    );
}

#[test]
fn url_target_errors_name_the_problem() {
    assert_eq!(
        check_url_target("FTP", Some("a.com")),
        Err("Invalid URL scheme 'ftp'. Only 'http' and 'https' are permitted.".to_string())
    );
    assert_eq!(check_url_target("https", None), Err("URL must have a valid host".to_string()));
    assert_eq!(
        check_url_target("http", Some("db.internal")),
        Err("Access to internal or reserved hostname 'db.internal' is blocked.".to_string())
    );
    assert_eq!(check_url_target("HTTPS", Some(" example.org ")), Ok("example.org".to_string()));
}

#[test]
fn ip_literals_and_resolutions() {
    assert_eq!(
        check_ip_literal(IpAddress::V4([10, 1, 2, 3]), "10.1.2.3"),
        Err("Access to private or restricted IP address '10.1.2.3' is blocked.".to_string())
    );
    assert_eq!(check_ip_literal(IpAddress::V4([93, 184, 216, 34]), "93.184.216.34"), Ok(()));
    assert_eq!(strip_ip_brackets("[::1]"), "::1");
    assert!(check_resolved_addresses("h", Ok(vec![])).is_err());
    assert!(check_resolved_addresses("h", Err("no such host".to_string())).is_err());
    assert!(check_resolved_addresses(
        "h",
        Ok(vec![
            (IpAddress::V4([8, 8, 8, 8]), "8.8.8.8".to_string()),
            (IpAddress::V4([192, 168, 0, 1]), "192.168.0.1".to_string()),
        ])
    )
    .is_err());
    // IPv4-mapped IPv6 addresses are judged by their IPv4 part.
    assert!(is_restricted_ipv6([0, 0, 0, 0, 0, 0xffff, 0x7f00, 1]));
    assert!(!is_restricted_ipv6([0x2606, 0x4700, 0, 0, 0, 0, 0, 0x1111]));
}

#[test]
fn responses_get_the_standard_security_headers() {
    assert_eq!(
        fly_common::security::security_headers(),
        vec![
            ("x-content-type-options", "nosniff"),
            ("x-frame-options", "SAMEORIGIN"),
            ("referrer-policy", "strict-origin-when-cross-origin"),
        ]
    );
}

#[test]
fn whole_url_check_reports_each_refusal() {
    assert_eq!(
        check_url_for_ssrf("http://127.0.0.1/secret"),
        Err("Access to private or restricted IP address '127.0.0.1' is blocked.".to_string())
    );
    assert_eq!(
        check_url_for_ssrf("http://[::ffff:7f00:1]/"),
        Err("Access to private or restricted IP address '::ffff:127.0.0.1' is blocked.".to_string())
    );
    // WHATWG parsing reads this shorthand as 127.0.0.1.
    assert!(check_url_for_ssrf("http://0x7f.1/").is_err());
    assert_eq!(check_url_for_ssrf("http://93.184.216.34:8080/x"), Ok(UrlCheck::Done));
    assert_eq!(
        check_url_for_ssrf("example.org/path"),
        Ok(UrlCheck::Resolve { host: "example.org".to_string(), port: 443 })
    );
    assert_eq!(
        check_url_for_ssrf("http://example.org:8081"),
        Ok(UrlCheck::Resolve { host: "example.org".to_string(), port: 8081 })
    );
    assert!(check_url_for_ssrf("http://exa mple.org/").unwrap_err().starts_with("Invalid URL format: "));
    assert_eq!(
        check_url_for_ssrf("http://router.LAN/"),
        Err("Access to internal or reserved hostname 'router.lan' is blocked.".to_string())
    );
}

#[test]
fn redirects_are_limited_and_checked() {
    assert_eq!(check_redirect(10, "https://example.org/"), Err("Too many redirects".to_string()));
    assert_eq!(
        check_redirect(3, "http://10.0.0.5/"),
        Err("SSRF Protection blocked redirect: Access to private or restricted IP address '10.0.0.5' is blocked.".to_string())
    );
    assert_eq!(
        check_redirect(9, "https://example.org/next"),
        Ok(UrlCheck::Resolve { host: "example.org".to_string(), port: 443 })
    );
}
