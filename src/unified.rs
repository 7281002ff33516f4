//! The cache-first configuration query: a cache read, then (on a miss) one
//! provider call that returns every field at once, then either a
//! write-through to the cache or a fallback to whatever the cache holds,
//! expired or not.
//!
//! The provider call itself happens outside this module: a caller reads the
//! cache with `NetworkCache::get_ip_config_at`, calls the provider only on a
//! miss, and hands the provider's outcome to `complete_query_at`.

use vstd::prelude::*;

use crate::cache::{is_store, CacheEntry, NetworkCache, DEFAULT_TTL_SECS, MAX_CACHE_ENTRIES};
use crate::network::IPConfiguration;
use crate::subnet::{prefix_to_subnet, subnet_of};

verus! {

/// All IPv4 settings of one adapter, as one provider call reports them.
/// `error` carries a failure the provider reported inside its answer.
#[derive(Debug)]
pub struct UnifiedResponse {
    pub ip_address: String,
    pub prefix_length: u8,
    pub gateway: String,
    pub primary_dns: String,
    pub secondary_dns: String,
    pub dhcp_enabled: bool,
    pub error: Option<String>,
}

/// Text placed before an error the provider reported inside its answer.
pub const SCRIPT_ERROR_PREFIX: &'static str = "PowerShell script error: ";

/// The failure a provider answer reports, if any: a non-empty `error`,
/// behind `SCRIPT_ERROR_PREFIX`.
pub open spec fn response_failure(resp: UnifiedResponse) -> Option<Seq<char>> {
    if resp.error is Some && resp.error->Some_0@.len() > 0 {
        Some(SCRIPT_ERROR_PREFIX@ + resp.error->Some_0@)
    } else {
        None
    }
}

/// The failure an outcome of the provider amounts to, if any: the error it
/// returned, or one reported inside its answer.
pub open spec fn failure_reason(fetched: Result<UnifiedResponse, String>) -> Option<Seq<char>> {
    match fetched {
        Err(e) => Some(e@),
        Ok(resp) => response_failure(resp),
    }
}

/// `config` is the configuration a successful answer stands for: the
/// fields as given, with the prefix length turned into a dotted mask.
pub open spec fn config_from(config: IPConfiguration, resp: UnifiedResponse) -> bool {
    &&& config.ip_address == resp.ip_address
    &&& config.subnet_mask@ == subnet_of(resp.prefix_length)
    &&& config.gateway == resp.gateway
    &&& config.primary_dns == resp.primary_dns
    &&& config.secondary_dns == resp.secondary_dns
    &&& config.dhcp_enabled == resp.dhcp_enabled
}

/// Turns a provider answer into a configuration, or into the error it
/// reports.
pub fn config_from_response(resp: UnifiedResponse) -> (r: Result<IPConfiguration, String>)
    ensures
        response_failure(resp) is Some ==> r is Err && r->Err_0@ == response_failure(resp)->Some_0,
        response_failure(resp) is None ==> r is Ok && config_from(r->Ok_0, resp),
{
    if let Some(e) = &resp.error {
        if e.as_str().unicode_len() > 0 {
            let msg = String::from_str(SCRIPT_ERROR_PREFIX).concat(e.as_str());
            return Err(msg);
        }
    }
    let subnet_mask = prefix_to_subnet(resp.prefix_length);
    Ok(
        IPConfiguration {
            ip_address: resp.ip_address,
            subnet_mask,
            gateway: resp.gateway,
            primary_dns: resp.primary_dns,
            secondary_dns: resp.secondary_dns,
            dhcp_enabled: resp.dhcp_enabled,
        },
    )
}

/// Finishes a query for `adapter_name` after a cache miss, given what the
/// provider returned. On success the configuration is stored with the
/// default TTL at clock reading `now` and returned. On failure the cache is
/// left as it is and its entry for the adapter is returned, expired or not;
/// with no entry, the failure is returned.
pub fn complete_query_at(
    cache: &mut NetworkCache,
    adapter_name: &str,
    fetched: Result<UnifiedResponse, String>,
    now: u64,
) -> (r: Result<IPConfiguration, String>)
    ensures
        failure_reason(fetched) is None ==> {
            &&& fetched is Ok
            &&& r is Ok
            &&& config_from(r->Ok_0, fetched->Ok_0)
            &&& is_store(
                old(cache)@,
                final(cache)@,
                adapter_name@,
                (CacheEntry { data: r->Ok_0, created_at: now, ttl_secs: DEFAULT_TTL_SECS }),
                now,
            )
            &&& final(cache)@.len() <= MAX_CACHE_ENTRIES
        },
        failure_reason(fetched) is Some ==> {
            &&& final(cache)@ == old(cache)@
            &&& old(cache)@.contains_key(adapter_name@) ==> r == Ok::<IPConfiguration, String>(
                old(cache)@[adapter_name@].data,
            )
            &&& !old(cache)@.contains_key(adapter_name@) ==> r is Err && r->Err_0@
                == failure_reason(fetched)->Some_0
        },
{
    let outcome = match fetched {
        Ok(resp) => config_from_response(resp),
        Err(e) => Err(e),
    };
    match outcome {
        Ok(config) => {
            cache.set_ip_config_at(adapter_name, config.clone(), now);
            Ok(config)
        },
        Err(reason) => match cache.get_ip_config_stale_at(adapter_name, now) {
            Some((stale, _)) => Ok(stale),
            None => Err(reason),
        },
    }
}

} // verus!
