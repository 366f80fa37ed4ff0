//! The configuration of the replica's adapters: where the sockets of the
//! Bitcoin and canister HTTP adapters live.
use vstd::prelude::*;

verus! {

/// The Unix domain socket paths of the adapters; an absent path means the
/// adapter is not used.
#[derive(Clone, Debug, PartialEq, Eq)]
pub struct AdaptersConfig {
    pub bitcoin_mainnet_uds_path: Option<String>,
    pub bitcoin_testnet_uds_path: Option<String>,
    pub canister_http_uds_path: Option<String>,
}

impl Default for AdaptersConfig {
    /// No adapter configured.
    fn default() -> (res: AdaptersConfig)
        ensures
            res.bitcoin_mainnet_uds_path is None,
            res.bitcoin_testnet_uds_path is None,
            res.canister_http_uds_path is None,
    {
        AdaptersConfig {
            bitcoin_mainnet_uds_path: None,
            bitcoin_testnet_uds_path: None,
            canister_http_uds_path: None,
        }
    }
}

} // verus!
