//! Building blocks for small web applications: request-level security checks,
//! anonymous device tokens, QR codes for device pairing, rate limiting, metrics
//! rendering, W3C trace-context handling, page metadata extraction, publish/subscribe
//! rooms and the server's routing decisions.

pub mod auth;
pub mod clock;
pub mod db;
pub mod io;
pub mod metrics;
pub mod models;
pub mod pubsub;
mod keyed;
pub mod qr;
pub mod rate_limit;
pub mod scraper;
pub mod security;
pub mod server;
pub mod sync;
pub mod telemetry;
pub mod text;
