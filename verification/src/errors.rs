//! Closed error taxonomy shared by every component of the library.

use vstd::prelude::*;

verus! {

/// Every failure the library can report.
///
/// `InvalidConfig` carries the reason a configuration was rejected and is
/// always fatal to startup. `NoAvailableKeys` is returned by selection on an
/// empty pool. `UnsupportedProvider` and `Upstream` are reserved for the
/// provider-aware dispatch and upstream-call collaborators, which live
/// outside this library.
#[derive(Debug, Clone)]
pub enum GatekeeperError {
    InvalidConfig(String),
    NoAvailableKeys,
    UnsupportedProvider(String),
    Upstream(String),
}

impl GatekeeperError {
    /// A short human-readable description, in place of `Display`.
    pub fn describe(&self) -> (r: &'static str)
        ensures
            r@ == match self {
                GatekeeperError::InvalidConfig(_) => "invalid configuration"@,
                GatekeeperError::NoAvailableKeys => "no available keys"@,
                GatekeeperError::UnsupportedProvider(_) => "unsupported provider"@,
                GatekeeperError::Upstream(_) => "upstream error"@,
            },
    {
        match self {
            GatekeeperError::InvalidConfig(_) => "invalid configuration",
            GatekeeperError::NoAvailableKeys => "no available keys",
            GatekeeperError::UnsupportedProvider(_) => "unsupported provider",
            GatekeeperError::Upstream(_) => "upstream error",
        }
    }
}

} // verus!
