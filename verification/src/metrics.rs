//! Lightweight Prometheus-compatible in-process metrics: request counters by status
//! class, a gauge of active connections and the uptime.

use std::time::Instant;
use vstd::prelude::*;
use crate::clock::{instant_now, max_duration_nanos, nanos_since};
use crate::text::{decimal, push_decimal, push_str, string_from_chars};

verus! {

/// The counters: 2xx, 4xx and 5xx responses, then active connections.
pub type MetricCounts = (u64, u64, u64, i64);

/// Adds one to an unsigned counter, wrapping at the top as an atomic counter does.
pub open spec fn wrap_inc(x: u64) -> u64 {
    if x == u64::MAX {
        0
    } else {
        (x + 1) as u64
    }
}

/// Adds `d` (one or minus one) to the gauge, wrapping at the ends.
pub open spec fn wrap_step(x: i64, d: int) -> i64 {
    if x + d > i64::MAX {
        i64::MIN
    } else if x + d < i64::MIN {
        i64::MAX
    } else {
        (x + d) as i64
    }
}

/// The counters after a response with `status` was counted: 200–299, 400–499 and
/// 500–599 each have a counter; other statuses are not counted.
pub open spec fn count_status(c: MetricCounts, status: u16) -> MetricCounts {
    if 200 <= status < 300 {
        (wrap_inc(c.0), c.1, c.2, c.3)
    } else if 400 <= status < 500 {
        (c.0, wrap_inc(c.1), c.2, c.3)
    } else if 500 <= status < 600 {
        (c.0, c.1, wrap_inc(c.2), c.3)
    } else {
        c
    }
}

/// A connection that opens and then closes leaves every counter as it was, and
/// counting a response changes at most the counter of its status class.
pub proof fn law_connection_round_trip(c: MetricCounts, status: u16)
    ensures
        wrap_step(wrap_step(c.3, 1), -1) == c.3,
        count_status(c, status).3 == c.3,
        count_status(c, status).0 == c.0 || (200 <= status < 300),
        count_status(c, status).1 == c.1 || (400 <= status < 500),
        count_status(c, status).2 == c.2 || (500 <= status < 600),
{
}

/// Each response counts once in the counter of its status class, 200–299, 400–499
/// or 500–599, which goes up by one modulo 2^64; every other status, and the
/// connection gauge, are left alone.
pub proof fn law_status_classes_counted(c: MetricCounts, status: u16)
    ensures
        200 <= status <= 299 ==> count_status(c, status) == (
            ((c.0 + 1) % 0x1_0000_0000_0000_0000) as u64,
            c.1,
            c.2,
            c.3,
        ),
        400 <= status <= 499 ==> count_status(c, status) == (
            c.0,
            ((c.1 + 1) % 0x1_0000_0000_0000_0000) as u64,
            c.2,
            c.3,
        ),
        500 <= status <= 599 ==> count_status(c, status) == (
            c.0,
            c.1,
            ((c.2 + 1) % 0x1_0000_0000_0000_0000) as u64,
            c.3,
        ),
        status < 200 || (300 <= status < 400) || status >= 600 ==> count_status(c, status) == c,
{
}

/// Decimal text of a signed value, with a leading `-` when it is negative.
pub open spec fn signed_decimal(v: int) -> Seq<char> {
    if v < 0 {
        seq!['-'] + decimal((-v) as nat)
    } else {
        decimal(v as nat)
    }
}

/// The Prometheus exposition text for the given counters and uptime in seconds.
pub open spec fn prometheus_text(c: MetricCounts, uptime_secs: u64) -> Seq<char> {
    "# HELP fly_requests_total Total HTTP requests processed\n# TYPE fly_requests_total counter\nfly_requests_total{status=\"2xx\"} "@
        + decimal(c.0 as nat) + "\nfly_requests_total{status=\"4xx\"} "@ + decimal(c.1 as nat)
        + "\nfly_requests_total{status=\"5xx\"} "@ + decimal(c.2 as nat)
        + "\n# HELP fly_active_connections Current active HTTP connections\n# TYPE fly_active_connections gauge\nfly_active_connections "@
        + signed_decimal(c.3 as int)
        + "\n# HELP fly_uptime_seconds Application uptime in seconds\n# TYPE fly_uptime_seconds gauge\nfly_uptime_seconds "@
        + decimal(uptime_secs as nat) + "\n"@
}

/// Appends the decimal text of a signed value.
fn push_signed_decimal(out: &mut Vec<char>, v: i64)
    ensures
        final(out)@ == old(out)@ + signed_decimal(v as int),
{
    if v < 0 {
        out.push('-');
        let magnitude: u64 = if v == i64::MIN {
            9223372036854775808u64
        } else {
            (-v) as u64
        };
        push_decimal(out, magnitude);
        assert(out@ =~= old(out)@ + (seq!['-'] + decimal(magnitude as nat)));
    } else {
        push_decimal(out, v as u64);
    }
}

/// In-process request metrics: counters of responses by status class, a gauge of
/// active connections, and the instant the metrics started.
pub struct FlyMetrics {
    requests_2xx: u64,
    requests_4xx: u64,
    requests_5xx: u64,
    uptime_start: Instant,
    active_connections: i64,
}

impl View for FlyMetrics {
    type V = MetricCounts;

    closed spec fn view(&self) -> MetricCounts {
        (self.requests_2xx, self.requests_4xx, self.requests_5xx, self.active_connections)
    }
}

impl Default for FlyMetrics {
    fn default() -> (m: Self)
        ensures
            m@ == (0u64, 0u64, 0u64, 0i64),
    {
        Self::new()
    }
}

impl FlyMetrics {
    /// Fresh metrics: all counters zero, uptime counted from now.
    pub fn new() -> (m: Self)
        ensures
            m@ == (0u64, 0u64, 0u64, 0i64),
    {
        FlyMetrics {
            requests_2xx: 0,
            requests_4xx: 0,
            requests_5xx: 0,
            uptime_start: instant_now(),
            active_connections: 0,
        }
    }

    /// Counts a response by its status class.
    pub fn inc_request(&mut self, status: u16)
        ensures
            final(self)@ == count_status(old(self)@, status),
    {
        if 200 <= status && status < 300 {
            self.requests_2xx = self.requests_2xx.wrapping_add(1);
        } else if 400 <= status && status < 500 {
            self.requests_4xx = self.requests_4xx.wrapping_add(1);
        } else if 500 <= status && status < 600 {
            self.requests_5xx = self.requests_5xx.wrapping_add(1);
        }
    }

    /// One more active connection.
    pub fn inc_active(&mut self)
        ensures
            final(self)@ == (old(self)@.0, old(self)@.1, old(self)@.2, wrap_step(old(self)@.3, 1)),
    {
        self.active_connections = self.active_connections.wrapping_add(1);
    }

    /// One fewer active connection.
    pub fn dec_active(&mut self)
        ensures
            final(self)@ == (old(self)@.0, old(self)@.1, old(self)@.2, wrap_step(old(self)@.3, -1)),
    {
        self.active_connections = self.active_connections.wrapping_sub(1);
    }

    /// The exposition text for the current counters and a given uptime.
    pub fn render_prometheus_at(&self, uptime_secs: u64) -> (s: String)
        ensures
            s@ == prometheus_text(self@, uptime_secs),
    {
        let mut out: Vec<char> = Vec::new();
        push_str(
            &mut out,
            "# HELP fly_requests_total Total HTTP requests processed\n# TYPE fly_requests_total counter\nfly_requests_total{status=\"2xx\"} ",
        );
        push_decimal(&mut out, self.requests_2xx);
        push_str(&mut out, "\nfly_requests_total{status=\"4xx\"} ");
        push_decimal(&mut out, self.requests_4xx);
        push_str(&mut out, "\nfly_requests_total{status=\"5xx\"} ");
        push_decimal(&mut out, self.requests_5xx);
        push_str(
            &mut out,
            "\n# HELP fly_active_connections Current active HTTP connections\n# TYPE fly_active_connections gauge\nfly_active_connections ",
        );
        push_signed_decimal(&mut out, self.active_connections);
        push_str(
            &mut out,
            "\n# HELP fly_uptime_seconds Application uptime in seconds\n# TYPE fly_uptime_seconds gauge\nfly_uptime_seconds ",
        );
        push_decimal(&mut out, uptime_secs);
        push_str(&mut out, "\n");
        string_from_chars(&out)
    }

    /// The exposition text, with the uptime in whole seconds read from the clock.
    pub fn render_prometheus(&self) -> (s: String)
        ensures
            exists|uptime_secs: u64| s@ == prometheus_text(self@, uptime_secs),
    {
        let nanos = nanos_since(&self.uptime_start);
        assert(nanos / 1_000_000_000 <= u64::MAX) by {
            assert(nanos <= max_duration_nanos());
        }
        let uptime_secs = (nanos / 1_000_000_000) as u64;
        self.render_prometheus_at(uptime_secs)
    }
}

} // verus!
