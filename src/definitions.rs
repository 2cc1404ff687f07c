use vstd::prelude::*;
use crate::names::FQDN;
use crate::string_map::StringMap;

verus! {

/// One filter of a chain: its qualified name and its string arguments.
#[derive(Clone, Debug)]
pub struct ConfiguredFilter {
    pub name: FQDN,
    pub args: StringMap,
}

/// The filters of a chain, in the order they were written.
#[derive(Clone, Debug)]
pub struct FilterChain {
    pub filters: Vec<ConfiguredFilter>,
}

/// The hash that turns a key into a cache key, with an optional seed.
#[derive(Clone, Debug)]
pub struct HashAlgorithm {
    pub name: String,
    pub seed: Option<String>,
}

/// One step applied to a key before hashing, with its parameters.
#[derive(Clone, Debug)]
pub struct Transform {
    pub name: String,
    pub params: StringMap,
}

/// How a cache key is made: its template, a fallback template, the hash and
/// the steps applied first.
#[derive(Clone, Debug)]
pub struct KeyTemplateConfig {
    pub source: String,
    pub fallback: Option<String>,
    pub algorithm: HashAlgorithm,
    pub transforms: Vec<Transform>,
}

/// The certificate and key files of a TLS listener.
#[derive(Clone, Debug)]
pub struct TlsConfig {
    pub cert_path: String,
    pub key_path: String,
}

/// The kinds of listener.
#[derive(Clone, Debug)]
pub enum ListenerKind {
    Tcp { addr: String, tls: Option<TlsConfig>, offer_h2: bool },
}

#[derive(Clone, Debug)]
pub struct ListenerConfig {
    pub source: ListenerKind,
}

/// The listeners of a service, in the order they were written.
#[derive(Clone, Debug)]
pub struct Listeners {
    pub list_cfgs: Vec<ListenerConfig>,
}

/// A service: its name, its listeners and its connectors.
#[derive(Clone, Debug)]
pub struct ProxyConfig<C> {
    pub name: String,
    pub listeners: Listeners,
    pub connectors: C,
}

} // verus!
