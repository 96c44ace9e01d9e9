use fly_common::qr::generate_qr_svg;

#[test]
fn test_generate_qr_svg_output() {
    let res = generate_qr_svg("https://example.com/sync?token=usr_123", 240, 2);
    assert!(res.svg.starts_with("<svg"));
    assert!(res.svg.ends_with("</svg>"));
    assert!(res
        .data_url
        .starts_with("data:image/svg+xml;charset=utf-8,"));
    assert!(res.module_count > 20);
    assert_eq!(res.size, 240);
}

#[test]
fn test_pure_rust_qr_svg_generator() {
    let qr = generate_qr_svg("https://blist-radmuffin.fly.dev/?sync=usr_test", 240, 2);
    assert!(qr.svg.contains("<svg"));
    assert!(qr.svg.contains("viewBox="));
    assert!(qr.data_url.starts_with("data:image/svg+xml;charset=utf-8,"));
    assert_eq!(qr.size, 240);
}

#[test]
fn module_count_follows_the_version_table() {
    // 38 bytes need version 3: 29 modules, plus two margins of 2.
    let res = generate_qr_svg("https://example.com/sync?token=usr_123", 240, 2);
    assert_eq!(res.module_count, 33);
    assert!(res.svg.contains("viewBox=\"0 0 33 33\""));
    // An empty payload is encoded as one space: version 1, 21 modules.
    let small = generate_qr_svg("", 100, 0);
    assert_eq!(small.module_count, 21);
    assert!(small.svg.contains("width=\"100\" height=\"100\""));
}

#[test]
fn finder_patterns_are_drawn() {
    let res = generate_qr_svg("hi", 64, 4);
    // Top-left corner module of the finder pattern, shifted by the margin.
    assert!(res.svg.contains("M4,4h1v1h-1z"));
    assert!(!res.svg.contains("h-1z \""));
}

#[test]
fn data_url_percent_encodes_the_document() {
    let res = generate_qr_svg("x", 10, 1);
    let encoded = &res.data_url["data:image/svg+xml;charset=utf-8,".len()..];
    assert!(encoded.starts_with("%3Csvg%20xmlns%3D%22http%3A%2F%2Fwww.w3.org%2F2000%2Fsvg%22"));
    assert!(encoded
        .chars()
        .all(|c| c.is_ascii_alphanumeric() || "-_.~%".contains(c)));
}
