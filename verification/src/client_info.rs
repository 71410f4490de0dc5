//! Client identification record attached to reported results.

use vstd::prelude::*;

verus! {

/// Identification of the client build that produced a result set.
#[derive(Debug)]
pub struct ClientInfoMetrics {
    /// The build identifier generated by the CI system.
    pub app_build: String,
    /// The user visible version string.
    pub app_display_version: String,
}

impl ClientInfoMetrics {
    /// Creates the client info with dummy values for all fields.
    pub fn unknown() -> (r: Self)
        ensures
            r.app_build@ == "unknown"@,
            r.app_display_version@ == "unknown"@,
    {
        ClientInfoMetrics {
            app_build: "unknown".to_string(),
            app_display_version: "unknown".to_string(),
        }
    }
}

} // verus!
