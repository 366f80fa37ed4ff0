//! Core decision logic of several Internet Computer replica components:
//! the Thrift schema of an ingress message, block making, interactive DKG
//! transcript checks, registry crypto invariants, system API charging and
//! a few endpoint and configuration rules.
pub mod thrift_ingress;
pub mod block_maker;
pub mod idkg_transcript;
pub mod registry_crypto;
pub mod system_api_meter;
pub mod adapters;
pub mod metrics_exporter;
pub mod nns_root;
pub mod replica_args;
pub mod query_handler;
pub mod sns_test_support;
pub mod btc_agent_state;
