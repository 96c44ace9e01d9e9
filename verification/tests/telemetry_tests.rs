use fly_common::telemetry::{pseudo_random_u64, RandomSource, TraceContext, TraceContextExt};

#[test]
fn traceparent_is_parsed_and_lowercased() {
    let ctx = TraceContext::from_header("00-4BF92F3577B34DA6A3CE929D0E0E4736-00F067AA0BA902B7-01")
        .expect("valid header");
    assert_eq!(ctx.trace_id, "4bf92f3577b34da6a3ce929d0e0e4736");
    assert_eq!(ctx.span_id, "00f067aa0ba902b7");
    assert_eq!(ctx.flags, 1);
    assert_eq!(ctx.to_header(), "00-4bf92f3577b34da6a3ce929d0e0e4736-00f067aa0ba902b7-01");
}

#[test]
fn malformed_traceparents_are_refused() {
    assert!(TraceContext::from_header("").is_none());
    assert!(TraceContext::from_header("00-abc-00f067aa0ba902b7-01").is_none());
    assert!(TraceContext::from_header("00-4bf92f3577b34da6a3ce929d0e0e4736-00f067aa0ba902b7").is_none());
    assert!(TraceContext::from_header("00-4bf92f3577b34da6a3ce929d0e0e473g-00f067aa0ba902b7-01").is_none());
    assert!(TraceContext::from_header("00-4bf92f3577b34da6a3ce929d0e0e4736-00f067aa0ba902b7-zz").is_none());
    assert!(TraceContext::from_header("00-4bf92f3577b34da6a3ce929d0e0e4736-00f067aa0ba902b7-100").is_none());
    // Every field must have its W3C length in hexadecimal digits.
    assert!(TraceContext::from_header("zz-4bf92f3577b34da6a3ce929d0e0e4736-00f067aa0ba902b7-01").is_none());
    assert!(TraceContext::from_header("0-4bf92f3577b34da6a3ce929d0e0e4736-00f067aa0ba902b7-01").is_none());
    assert!(TraceContext::from_header("00-4bf92f3577b34da6a3ce929d0e0e4736-00f067aa0ba902b7-1").is_none());
    assert!(TraceContext::from_header("00-4bf92f3577b34da6a3ce929d0e0e4736-00f067aa0ba902b7-+1").is_none());
}

#[test]
fn flags_field_is_hexadecimal() {
    let ctx = TraceContext::from_header("ff-0123456789abcdef0123456789abcdef-0123456789abcdef-0a").unwrap();
    assert_eq!(ctx.flags, 10);
    assert!(ctx.to_header().ends_with("-0a"));
}

#[test]
fn new_root_and_child_spans() {
    let root = TraceContext::new_root(1, 0xdeadbeef, u64::MAX);
    assert_eq!(root.trace_id, "000000000000000100000000deadbeef");
    assert_eq!(root.span_id, "ffffffffffffffff");
    assert_eq!(root.flags, 1);
    let child = root.new_child_span(0x10);
    assert_eq!(child.trace_id, root.trace_id);
    assert_eq!(child.span_id, "0000000000000010");
    assert_eq!(child.flags, root.flags);
    let round = TraceContext::from_header(&child.to_header()).unwrap();
    assert_eq!(round, child);
    let ext = TraceContextExt(root.clone());
    assert_eq!(ext.0, root);
}

#[test]
fn pseudo_random_mixing_is_exact() {
    let nanos: u64 = 123_456_789;
    let count: u64 = 42;
    let expected = nanos
        .wrapping_mul(6364136223846793005)
        .wrapping_add(count.wrapping_mul(1442695040888963407))
        ^ nanos.rotate_left(17)
        ^ count.rotate_right(31);
    assert_eq!(pseudo_random_u64(nanos, count), expected);
    assert_ne!(pseudo_random_u64(nanos, 0), pseudo_random_u64(nanos, 1));
}

#[test]
fn random_source_draws_ids() {
    let mut source = RandomSource::new();
    let values: Vec<u64> = (0..4).map(|_| source.next_u64()).collect();
    let mut distinct = values.clone();
    distinct.sort();
    distinct.dedup();
    assert_eq!(distinct.len(), values.len());
    let root = TraceContext::new_root(source.next_u64(), source.next_u64(), source.next_u64());
    assert_eq!(root.trace_id.len(), 32);
    assert_eq!(root.span_id.len(), 16);
    assert!(fly_common::clock::wall_clock_subsec_nanos() < 1_000_000_000);
}
