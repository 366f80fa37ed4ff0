//! The command line arguments of the replica and the configuration source
//! they select.
use vstd::prelude::*;

verus! {

/// The arguments of the replica; paths are held as strings.
#[derive(Clone, Debug, PartialEq, Eq)]
pub struct ReplicaArgs {
    /// Print a sample config if set.
    pub print_sample_config: bool,
    /// The path to the replica config file.
    pub config_file: Option<String>,
    /// A string representation of the replica config.
    pub config_literal: Option<String>,
    /// A path to a CBOR-encoded catch-up package to seed the replica with.
    pub catch_up_package: Option<String>,
    /// The version of the replica being run.
    pub replica_version: String,
    /// A path to the PEM file with the public key of the NNS subnet.
    pub nns_public_key_file: Option<String>,
    /// Force to use the given subnet ID.
    pub force_subnet: Option<String>,
}

/// Where the replica reads its configuration from.
#[derive(Clone, Debug, PartialEq, Eq)]
pub enum ConfigSource {
    File(String),
    Literal(String),
    Default,
}

impl ConfigSource {
    /// The config file if one is given; else the config literal if one is
    /// given; else the default configuration.
    pub fn from_args(args: &ReplicaArgs) -> (res: ConfigSource)
        ensures
            match args.config_file {
                Some(path) => res matches ConfigSource::File(p) && p@ == path@,
                None => match args.config_literal {
                    Some(lit) => res matches ConfigSource::Literal(l) && l@ == lit@,
                    None => res matches ConfigSource::Default,
                },
            },
    {
        if let Some(path) = &args.config_file {
            ConfigSource::File(path.clone())
        } else if let Some(literal) = &args.config_literal {
            ConfigSource::Literal(literal.clone())
        } else {
            ConfigSource::Default
        }
    }
}

} // verus!
