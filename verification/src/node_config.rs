//! Node configuration: its parameters, its secret, and configuration errors.
use vstd::prelude::*;
use crate::consensus::config::Parameters as ConsensusParameters;
use crate::crypto::{PublicKey, SecretKey, generate_production_keypair};
use crate::field::elements_to_bytes;
use crate::text::concat;

verus! {

/// Why a configuration file could not be read or written.
pub enum ConfigError {
    ReadError { file: String, message: String },
    WriteError { file: String, message: String },
}

impl ConfigError {
    /// The error's description (what its `Display` prints).
    pub fn describe(&self) -> (s: String)
        ensures
            match self {
                ConfigError::ReadError { file, message } => s@ == "Failed to read config file '"@ + file@
                    + "': "@ + message@,
                ConfigError::WriteError { file, message } => s@ == "Failed to write config file '"@ + file@
                    + "': "@ + message@,
            },
    {
        match self {
            ConfigError::ReadError { file, message } => {
                let a = concat("Failed to read config file '", file.as_str());
                let b = concat(a.as_str(), "': ");
                concat(b.as_str(), message.as_str())
            },
            ConfigError::WriteError { file, message } => {
                let a = concat("Failed to write config file '", file.as_str());
                let b = concat(a.as_str(), "': ");
                concat(b.as_str(), message.as_str())
            },
        }
    }
}

/// The node's parameters.
pub struct Parameters {
    pub consensus: ConsensusParameters,
}

impl Default for Parameters {
    fn default() -> (p: Self)
        ensures
            p.consensus.timeout_delay == 5_000,
            p.consensus.sync_retry_delay == 10_000,
    {
        Parameters { consensus: ConsensusParameters::default() }
    }
}

/// The node's name (public key) and secret key.
pub struct Secret {
    pub name: PublicKey,
    pub secret: SecretKey,
}

impl Secret {
    /// A fresh secret with its name: a random secret key, and the public
    /// key packing the elements `circuit_key` derives from it.
    pub fn new<F: Fn(&SecretKey) -> [u64; 4]>(circuit_key: F) -> (s: Secret)
        requires
            forall|k: &SecretKey| circuit_key.requires((k,)),
        ensures
            exists|e: [u64; 4]|
                circuit_key.ensures((&s.secret,), e) && s.name.0@ == elements_to_bytes(e@),
    {
        let (name, secret) = generate_production_keypair(circuit_key);
        Secret { name, secret }
    }
}

} // verus!
