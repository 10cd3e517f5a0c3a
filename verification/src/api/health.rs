//! Liveness. No token, no database: the service is up, and this is its version.

use vstd::prelude::*;

verus! {

/// The version of this library.
pub const VERSION: &'static str = "0.1.0";

/// The version of this library.
pub fn version() -> (r: &'static str)
    ensures
        r@ == VERSION@,
{
    VERSION
}

/// What `/health` answers. A local daemon reads `core_version` to warn when it and the cloud run
/// different versions.
#[derive(Debug, PartialEq, Eq)]
pub struct HealthView {
    /// Always `"ok"` when the service answers at all.
    pub status: String,
    /// Always `"kaeru-cloud"`.
    pub service: String,
    /// The version this cloud was built from.
    pub core_version: String,
}

/// What `/health` answers.
pub fn health() -> (r: HealthView)
    ensures
        r.status@ == "ok"@,
        r.service@ == "kaeru-cloud"@,
        r.core_version@ == VERSION@,
{
    HealthView {
        status: "ok".to_owned(),
        service: "kaeru-cloud".to_owned(),
        core_version: version().to_owned(),
    }
}

} // verus!
