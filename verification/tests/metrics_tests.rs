use fly_common::metrics::FlyMetrics;

#[test]
fn counters_are_rendered_in_prometheus_text() {
    let mut m = FlyMetrics::new();
    m.inc_request(200);
    m.inc_request(204);
    m.inc_request(404);
    m.inc_request(503);
    m.inc_request(302);
    m.inc_request(600);
    m.inc_active();
    m.inc_active();
    m.dec_active();
    let text = m.render_prometheus_at(42);
    assert_eq!(
        text,
        "# HELP fly_requests_total Total HTTP requests processed\n\
         # TYPE fly_requests_total counter\n\
         fly_requests_total{status=\"2xx\"} 2\n\
         fly_requests_total{status=\"4xx\"} 1\n\
         fly_requests_total{status=\"5xx\"} 1\n\
         # HELP fly_active_connections Current active HTTP connections\n\
         # TYPE fly_active_connections gauge\n\
         fly_active_connections 1\n\
         # HELP fly_uptime_seconds Application uptime in seconds\n\
         # TYPE fly_uptime_seconds gauge\n\
         fly_uptime_seconds 42\n"
    );
}

#[test]
fn gauge_can_go_negative() {
    let mut m = FlyMetrics::default();
    m.dec_active();
    m.dec_active();
    assert!(m.render_prometheus_at(0).contains("fly_active_connections -2\n"));
}

#[test]
fn clock_uptime_is_rendered() {
    let m = FlyMetrics::new();
    let text = m.render_prometheus();
    assert!(text.ends_with("fly_uptime_seconds 0\n"));
    assert!(text.contains("fly_requests_total{status=\"2xx\"} 0\n"));
}
