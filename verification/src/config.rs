//! Configuration model: per-provider and per-chain settings as the
//! configuration file declares them, and the indexer's resolved form.
//! Reading the file and the environment happens outside; this module holds
//! the values and the conversions between their textual and resolved forms.

use vstd::prelude::*;

verus! {

use crate::text::{parse_address_chars, parse_address};

/// Default requests a provider serves before rotation.
pub fn default_provider_weight() -> (r: u32)
    ensures
        r == 30u32,
{
    30
}

/// Default priority (lower runs first).
pub fn default_provider_priority() -> (r: u32)
    ensures
        r == 1u32,
{
    1
}

/// Default per-minute request allowance.
pub fn default_max_requests_per_minute() -> (r: u32)
    ensures
        r == 100u32,
{
    100
}

/// Default cooldown after an error, in milliseconds.
pub fn default_cooldown_on_error() -> (r: u64)
    ensures
        r == 60000u64,
{
    60000
}

/// Default number of blocks per catch-up batch.
pub fn default_batch_size() -> (r: u64)
    ensures
        r == 1u64,
{
    1
}

/// Whether adaptive polling is on by default.
pub fn default_adaptive_polling() -> (r: bool)
    ensures
        r,
{
    true
}

/// Default bound on indexer restarts.
pub fn default_max_retries() -> (r: u32)
    ensures
        r == 5u32,
{
    5
}

/// Default base restart delay, in milliseconds.
pub fn default_retry_base_delay() -> (r: u64)
    ensures
        r == 1000u64,
{
    1000
}

/// Default cap on the restart delay, in milliseconds.
pub fn default_retry_max_delay() -> (r: u64)
    ensures
        r == 60000u64,
{
    60000
}

/// Default bound on blocks in flight.
pub fn default_max_parallel() -> (r: usize)
    ensures
        r == 10usize,
{
    10
}

/// Default pacing delay between batched blocks, in milliseconds.
pub fn default_batch_delay() -> (r: u64)
    ensures
        r == 50u64,
{
    50
}

/// One RPC endpoint with its rotation settings.
#[derive(Debug)]
pub struct RpcProvider {
    pub url: String,
    /// Requests served before rotating to the next provider.
    pub weight: u32,
    /// Visit order; lower first.
    pub priority: u32,
    pub max_requests_per_minute: u32,
    pub cooldown_on_error_ms: u64,
}

impl Clone for RpcProvider {
    /// An identical copy.
    fn clone(&self) -> (res: Self)
        ensures
            res == *self,
    {
        RpcProvider {
            url: self.url.clone(),
            weight: self.weight,
            priority: self.priority,
            max_requests_per_minute: self.max_requests_per_minute,
            cooldown_on_error_ms: self.cooldown_on_error_ms,
        }
    }
}

/// The three registry contract addresses of a chain, as configured text.
#[derive(Debug)]
pub struct ContractAddresses {
    pub identity_registry: String,
    pub reputation_registry: String,
    pub validation_registry: String,
}

/// One chain's section of the configuration file.
#[derive(Debug)]
pub struct ChainConfig {
    pub name: String,
    pub chain_id: u64,
    pub enabled: bool,
    pub rpc_providers: Vec<RpcProvider>,
    /// Single-URL legacy form, promoted to a one-element provider list.
    pub rpc_url: Option<String>,
    pub contracts: ContractAddresses,
    /// `"latest"` or a decimal block number.
    pub starting_block: String,
    pub poll_interval_ms: u64,
    pub batch_size: u64,
    pub adaptive_polling: bool,
}

/// The provider list a chain's configuration denotes: the explicit list
/// where one is given, else the legacy single URL promoted to one provider
/// with the default settings, else nothing.
pub open spec fn spec_providers(c: ChainConfig) -> Seq<RpcProvider> {
    if c.rpc_providers@.len() > 0 {
        c.rpc_providers@
    } else {
        match c.rpc_url {
            Some(url) => seq![
                RpcProvider {
                    url: url,
                    weight: 30u32,
                    priority: 1u32,
                    max_requests_per_minute: 100u32,
                    cooldown_on_error_ms: 60000u64,
                },
            ],
            None => Seq::<RpcProvider>::empty(),
        }
    }
}

impl ChainConfig {
    /// The chain's providers, with the legacy single URL promoted.
    pub fn get_providers(&self) -> (r: Vec<RpcProvider>)
        ensures
            r@ == spec_providers(*self),
    {
        if self.rpc_providers.len() > 0 {
            let mut out: Vec<RpcProvider> = Vec::new();
            let mut i: usize = 0;
            while i < self.rpc_providers.len()
                invariant
                    0 <= i <= self.rpc_providers@.len(),
                    out@ =~= self.rpc_providers@.subrange(0, i as int),
                decreases self.rpc_providers@.len() - i,
            {
                proof {
                    assert(self.rpc_providers@.subrange(0, i as int + 1) =~= self.rpc_providers@
                        .subrange(0, i as int).push(self.rpc_providers@[i as int]));
                }
                out.push(self.rpc_providers[i].clone());
                i += 1;
            }
            proof {
                assert(self.rpc_providers@.subrange(0, self.rpc_providers@.len() as int)
                    =~= self.rpc_providers@);
            }
            out
        } else {
            match &self.rpc_url {
                Some(url) => {
                    let p = RpcProvider {
                        url: url.clone(),
                        weight: default_provider_weight(),
                        priority: default_provider_priority(),
                        max_requests_per_minute: default_max_requests_per_minute(),
                        cooldown_on_error_ms: default_cooldown_on_error(),
                    };
                    let mut out: Vec<RpcProvider> = Vec::new();
                    out.push(p);
                    proof {
                        assert(out@ =~= spec_providers(*self));
                    }
                    out
                },
                None => Vec::new(),
            }
        }
    }
}

/// The `global` section of the configuration file.
#[derive(Debug)]
pub struct GlobalConfig {
    pub max_indexer_retries: u32,
    pub retry_base_delay_ms: u64,
    pub retry_max_delay_ms: u64,
    pub adaptive_polling_enabled: bool,
    pub max_parallel_blocks: usize,
    pub batch_processing_delay_ms: u64,
}

impl Default for GlobalConfig {
    /// The documented defaults.
    fn default() -> (r: Self)
        ensures
            r.max_indexer_retries == 5u32,
            r.retry_base_delay_ms == 1000u64,
            r.retry_max_delay_ms == 60000u64,
            r.adaptive_polling_enabled,
            r.max_parallel_blocks == 10usize,
            r.batch_processing_delay_ms == 50u64,
    {
        GlobalConfig {
            max_indexer_retries: 5,
            retry_base_delay_ms: 1000,
            retry_max_delay_ms: 60000,
            adaptive_polling_enabled: true,
            max_parallel_blocks: 10,
            batch_processing_delay_ms: 50,
        }
    }
}

/// The whole configuration file: chains plus the global section.
#[derive(Debug)]
pub struct ChainsYaml {
    pub chains: Vec<ChainConfig>,
    pub global: GlobalConfig,
}

/// What stops a chain's configuration from resolving.
#[derive(Clone, Copy, Debug, PartialEq, Eq, Structural)]
pub enum ConfigError {
    /// One of the three contract addresses is not `0x` plus 40 hex digits.
    InvalidAddress,
    /// `starting_block` is neither `"latest"` nor a decimal block number.
    InvalidStartingBlock,
    /// The chain names no RPC provider.
    NoProviders,
}

/// The resolved per-chain settings the indexer runs on. Addresses are the
/// parsed 20-byte forms; a `starting_block` of zero stands for "latest",
/// resolved against the chain head at startup.
#[derive(Debug)]
pub struct IndexerConfig {
    pub name: String,
    pub rpc_providers: Vec<RpcProvider>,
    pub chain_id: u64,
    pub identity_registry: Vec<u8>,
    pub reputation_registry: Vec<u8>,
    pub validation_registry: Vec<u8>,
    pub starting_block: u64,
    pub poll_interval_ms: u64,
    pub batch_size: u64,
    pub adaptive_polling: bool,
}

/// The block number a `starting_block` text denotes: `"latest"` is zero
/// (resolved later), otherwise the decimal value.
pub open spec fn spec_starting_block(s: Seq<char>) -> Option<u64> {
    if s == "latest"@ {
        Some(0u64)
    } else {
        crate::text::parse_u64_chars(s)
    }
}

impl IndexerConfig {
    /// Resolves a chain's configuration: parses the three contract
    /// addresses and the starting block, and promotes the provider list;
    /// each failure is reported by its own error.
    pub fn from_chain_config(chain: &ChainConfig) -> (r: Result<Self, ConfigError>)
        ensures
            r is Err ==> (match r->Err_0 {
                ConfigError::InvalidAddress => parse_address_chars(chain.contracts.identity_registry@)
                    is None || parse_address_chars(chain.contracts.reputation_registry@) is None
                    || parse_address_chars(chain.contracts.validation_registry@) is None,
                ConfigError::InvalidStartingBlock => spec_starting_block(chain.starting_block@)
                    is None,
                ConfigError::NoProviders => spec_providers(*chain).len() == 0,
            }),
            r is Ok ==> {
                let c = r->Ok_0;
                &&& c.name@ == chain.name@
                &&& c.chain_id == chain.chain_id
                &&& Some(c.identity_registry@) == parse_address_chars(
                    chain.contracts.identity_registry@,
                )
                &&& Some(c.reputation_registry@) == parse_address_chars(
                    chain.contracts.reputation_registry@,
                )
                &&& Some(c.validation_registry@) == parse_address_chars(
                    chain.contracts.validation_registry@,
                )
                &&& Some(c.starting_block) == spec_starting_block(chain.starting_block@)
                &&& c.rpc_providers@ == spec_providers(*chain)
                &&& c.rpc_providers@.len() > 0
                &&& c.poll_interval_ms == chain.poll_interval_ms
                &&& c.batch_size == chain.batch_size
                &&& c.adaptive_polling == chain.adaptive_polling
            },
    {
        let identity_registry = match parse_address(chain.contracts.identity_registry.as_str()) {
            Some(a) => a,
            None => {
                return Err(ConfigError::InvalidAddress);
            },
        };
        let reputation_registry = match parse_address(
            chain.contracts.reputation_registry.as_str(),
        ) {
            Some(a) => a,
            None => {
                return Err(ConfigError::InvalidAddress);
            },
        };
        let validation_registry = match parse_address(
            chain.contracts.validation_registry.as_str(),
        ) {
            Some(a) => a,
            None => {
                return Err(ConfigError::InvalidAddress);
            },
        };
        let starting_block: u64 = if crate::models::str_eq(
            chain.starting_block.as_str(),
            "latest",
        ) {
            0
        } else {
            let chars = crate::text::str_chars(chain.starting_block.as_str());
            match crate::text::parse_u64_vec(&chars) {
                Some(n) => n,
                None => {
                    return Err(ConfigError::InvalidStartingBlock);
                },
            }
        };
        let providers = chain.get_providers();
        if providers.len() == 0 {
            return Err(ConfigError::NoProviders);
        }
        Ok(
            IndexerConfig {
                name: chain.name.clone(),
                rpc_providers: providers,
                chain_id: chain.chain_id,
                identity_registry,
                reputation_registry,
                validation_registry,
                starting_block,
                poll_interval_ms: chain.poll_interval_ms,
                batch_size: chain.batch_size,
                adaptive_polling: chain.adaptive_polling,
            },
        )
    }
}

} // verus!
