//! Anonymous device tokens.

pub mod user_token;

pub use user_token::UserToken;
