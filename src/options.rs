//! Settings records of the network-backed providers, as read from the
//! configuration. Connecting with them is the caller's part.
use vstd::prelude::*;

verus! {

/// Vault connection settings; absent ones come from the environment.
#[derive(Debug, Clone, PartialEq, Eq)]
pub struct HashivaultOptions {
    pub address: Option<String>,
    pub token: Option<String>,
    pub namespace: Option<String>,
}

/// Consul connection settings.
#[derive(Debug, Clone, PartialEq, Eq)]
pub struct HashiCorpConsulOptions {
    pub address: Option<String>,
    pub token: Option<String>,
    pub dc: Option<String>,
}

/// etcd connection settings.
#[derive(Debug, Clone, PartialEq, Eq)]
pub struct EtcdOptions {
    pub address: Option<String>,
    /// `user:password`.
    pub user: Option<String>,
}

/// AWS SSM connection settings.
#[derive(Debug, Clone, PartialEq, Eq)]
pub struct SSMOptions {
    pub region: Option<String>,
    pub access_key_id: Option<String>,
    pub secret_access_key: Option<String>,
    pub endpoint_url: Option<String>,
}

/// AWS Secrets Manager connection settings.
#[derive(Debug, Clone, PartialEq, Eq)]
pub struct AWSSecretsManagerOptions {
    pub region: Option<String>,
    pub access_key_id: Option<String>,
    pub secret_access_key: Option<String>,
    pub endpoint_url: Option<String>,
}

} // verus!
