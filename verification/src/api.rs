//! Request and response shapes of the HTTP endpoints, and the shared-secret
//! check guarding the retrieval endpoints.

use vstd::prelude::*;
use crate::config::Config;
use crate::text::str_eq;

verus! {

/// The body of a session-creation request.
pub struct CreateSessionRequest {
    pub user_id: Option<String>,
    pub device_model: Option<String>,
    pub operating_system: Option<String>,
    pub screen_width: Option<u64>,
    pub screen_height: Option<u64>,
}

/// The generic outcome body returned by the ingestion endpoints.
pub struct ApiResponse {
    pub success: bool,
    pub message: String,
}

/// When the retrieval endpoints honor a request: a secret header and a
/// configured secret must both be present and read the same; a missing
/// header or an unconfigured secret always denies.
pub open spec fn spec_compare_secrets(secret_header: Option<Seq<char>>, config: &Config) -> bool {
    match (secret_header, &config.secret_key) {
        (Some(s), Some(k)) => s == k@,
        _ => false,
    }
}

/// Decides `spec_compare_secrets` for a request's secret header.
pub fn compare_secrets(secret_header: Option<&String>, config: &Config) -> (r: bool)
    ensures
        r == spec_compare_secrets(
            match secret_header {
                Some(s) => Some(s@),
                None => None::<Seq<char>>,
            },
            config,
        ),
{
    match (secret_header, config.secret_key.as_ref()) {
        (Some(s), Some(k)) => str_eq(s.as_str(), k.as_str()),
        _ => false,
    }
}

} // verus!