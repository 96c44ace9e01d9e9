//! Payload types shared by JSON endpoints.

use vstd::prelude::*;

verus! {

/// Standard API response wrapper for JSON endpoints.
#[derive(Debug, Clone, PartialEq, Eq)]
pub struct ApiResponse<T> {
    pub success: bool,
    pub data: Option<T>,
    pub error: Option<String>,
    pub message: Option<String>,
}

impl<T> ApiResponse<T> {
    /// A successful response carrying `data`.
    pub fn ok(data: T) -> (r: Self)
        ensures
            r.success,
            r.data == Some(data),
            r.error is None,
            r.message is None,
    {
        ApiResponse { success: true, data: Some(data), error: None, message: None }
    }

    /// A failed response carrying an error text.
    pub fn err(error: &str) -> (r: Self)
        ensures
            !r.success,
            r.data is None,
            r.error matches Some(e) && e@ == error@,
            r.message is None,
    {
        ApiResponse { success: false, data: None, error: Some(error.to_owned()), message: None }
    }

    /// A successful response carrying only a message.
    pub fn message(msg: &str) -> (r: Self)
        ensures
            r.success,
            r.data is None,
            r.error is None,
            r.message matches Some(m) && m@ == msg@,
    {
        ApiResponse { success: true, data: None, error: None, message: Some(msg.to_owned()) }
    }
}

/// Basic application metadata payload (e.g. for /api/info).
#[derive(Debug, Clone)]
pub struct AppInfo {
    pub name: String,
    pub version: String,
    pub repository: Option<String>,
    pub license: Option<String>,
}

/// Anonymous user profile for multi-device sync and shared sessions.
#[derive(Debug, Clone, PartialEq, Eq, Default)]
pub struct UserProfile {
    pub user_token: String,
    pub name: String,
    pub avatar: String,
    pub color: String,
}

/// Request payload to update an anonymous user profile.
#[derive(Debug, Clone, Default)]
pub struct UpdateUserProfileRequest {
    pub name: Option<String>,
    pub avatar: Option<String>,
    pub color: Option<String>,
}

/// Collaborator representation for shared documents, collections, or trips.
#[derive(Debug, Clone, PartialEq, Eq, Default)]
pub struct CollaboratorProfile {
    pub name: String,
    pub avatar: String,
    pub color: String,
    pub is_owner: bool,
}

} // verus!
