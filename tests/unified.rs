use std::cell::Cell;

use netcfg_cache::{
    complete_query_at, config_from_response, IPConfiguration, NetworkCache, UnifiedResponse,
};

const SEC: u64 = 1_000_000_000;

/// Stands in for the configuration provider and counts its calls.
struct FakeProvider {
    outcome: Result<UnifiedResponse, String>,
    calls: Cell<u32>,
}

impl FakeProvider {
    fn answering(resp: UnifiedResponse) -> Self {
        FakeProvider { outcome: Ok(resp), calls: Cell::new(0) }
    }

    fn failing(reason: &str) -> Self {
        FakeProvider { outcome: Err(reason.to_string()), calls: Cell::new(0) }
    }

    fn fetch(&self, _adapter: &str) -> Result<UnifiedResponse, String> {
        self.calls.set(self.calls.get() + 1);
        match &self.outcome {
            Ok(r) => Ok(copy_response(r)),
            Err(e) => Err(e.clone()),
        }
    }
}

fn copy_response(r: &UnifiedResponse) -> UnifiedResponse {
    UnifiedResponse {
        ip_address: r.ip_address.clone(),
        prefix_length: r.prefix_length,
        gateway: r.gateway.clone(),
        primary_dns: r.primary_dns.clone(),
        secondary_dns: r.secondary_dns.clone(),
        dhcp_enabled: r.dhcp_enabled,
        error: r.error.clone(),
    }
}

fn sample_response() -> UnifiedResponse {
    UnifiedResponse {
        ip_address: "10.0.0.5".to_string(),
        prefix_length: 24,
        gateway: "10.0.0.1".to_string(),
        primary_dns: "8.8.8.8".to_string(),
        secondary_dns: "".to_string(),
        dhcp_enabled: false,
        error: None,
    }
}

fn cached_config() -> IPConfiguration {
    IPConfiguration {
        ip_address: "192.168.0.7".to_string(),
        subnet_mask: "255.255.0.0".to_string(),
        gateway: "192.168.0.1".to_string(),
        primary_dns: "1.1.1.1".to_string(),
        secondary_dns: "1.0.0.1".to_string(),
        dhcp_enabled: true,
    }
}

/// Cache first, then one provider call on a miss.
fn query(
    cache: &mut NetworkCache,
    provider: &FakeProvider,
    adapter: &str,
    now: u64,
) -> Result<IPConfiguration, String> {
    if let Some(hit) = cache.get_ip_config_at(adapter, now) {
        return Ok(hit);
    }
    complete_query_at(cache, adapter, provider.fetch(adapter), now)
}

#[test]
fn miss_fetches_converts_and_caches() {
    let mut cache = NetworkCache::new();
    let provider = FakeProvider::answering(sample_response());
    let got = query(&mut cache, &provider, "eth0", 0).unwrap();
    assert_eq!(got.ip_address, "10.0.0.5");
    assert_eq!(got.subnet_mask, "255.255.255.0");
    assert_eq!(got.gateway, "10.0.0.1");
    assert_eq!(got.primary_dns, "8.8.8.8");
    assert_eq!(got.secondary_dns, "");
    assert!(!got.dhcp_enabled);
    assert_eq!(cache.stats().cached_configs, 1);
    assert_eq!(provider.calls.get(), 1);
    let again = query(&mut cache, &provider, "eth0", SEC).unwrap();
    assert_eq!(again.subnet_mask, "255.255.255.0");
    assert_eq!(provider.calls.get(), 1);
}

#[test]
fn hit_never_calls_the_provider() {
    let mut cache = NetworkCache::new();
    cache.set_ip_config_at("eth0", cached_config(), 0);
    let provider = FakeProvider::answering(sample_response());
    let got = query(&mut cache, &provider, "eth0", SEC).unwrap();
    assert_eq!(provider.calls.get(), 0);
    assert_eq!(got.ip_address, "192.168.0.7");
    assert_eq!(got.subnet_mask, "255.255.0.0");
    assert_eq!(got.gateway, "192.168.0.1");
    assert_eq!(got.primary_dns, "1.1.1.1");
    assert_eq!(got.secondary_dns, "1.0.0.1");
    assert!(got.dhcp_enabled);
}

#[test]
fn failure_falls_back_to_expired_entry() {
    let mut cache = NetworkCache::new();
    cache.set_ip_config_at("eth0", cached_config(), 0);
    let provider = FakeProvider::failing("access denied");
    let got = query(&mut cache, &provider, "eth0", 60 * SEC).unwrap();
    assert_eq!(provider.calls.get(), 1);
    assert_eq!(got.ip_address, "192.168.0.7");
    assert_eq!(got.subnet_mask, "255.255.0.0");
    assert_eq!(cache.stats().cached_configs, 1);
}

#[test]
fn failure_with_empty_cache_returns_provider_reason() {
    let mut cache = NetworkCache::new();
    let provider = FakeProvider::failing("PowerShell error: adapter not found");
    let err = query(&mut cache, &provider, "eth0", 0).unwrap_err();
    assert!(err.contains("adapter not found"));
    assert_eq!(provider.calls.get(), 1);
    assert_eq!(cache.stats().cached_configs, 0);
}

#[test]
fn reported_error_in_answer_is_a_failure() {
    let mut cache = NetworkCache::new();
    let mut resp = sample_response();
    resp.error = Some("no such interface".to_string());
    let provider = FakeProvider::answering(resp);
    let err = query(&mut cache, &provider, "eth9", 0).unwrap_err();
    assert_eq!(err, "PowerShell script error: no such interface");
    assert_eq!(cache.stats().cached_configs, 0);
}

#[test]
fn reported_error_in_answer_falls_back_to_cache() {
    let mut cache = NetworkCache::new();
    cache.set_ip_config_at("eth0", cached_config(), 0);
    let mut resp = sample_response();
    resp.error = Some("timeout".to_string());
    let provider = FakeProvider::answering(resp);
    let got = query(&mut cache, &provider, "eth0", 45 * SEC).unwrap();
    assert_eq!(got.ip_address, "192.168.0.7");
}

#[test]
fn empty_reported_error_counts_as_success() {
    let mut resp = sample_response();
    resp.error = Some(String::new());
    resp.prefix_length = 16;
    let got = config_from_response(resp).unwrap();
    assert_eq!(got.subnet_mask, "255.255.0.0");
    assert_eq!(got.ip_address, "10.0.0.5");
}

#[test]
fn refetch_after_expiry_overwrites_entry() {
    let mut cache = NetworkCache::new();
    cache.set_ip_config_at("eth0", cached_config(), 0);
    let provider = FakeProvider::answering(sample_response());
    let got = query(&mut cache, &provider, "eth0", 31 * SEC).unwrap();
    assert_eq!(provider.calls.get(), 1);
    assert_eq!(got.ip_address, "10.0.0.5");
    assert_eq!(cache.get_ip_config_at("eth0", 31 * SEC).unwrap().ip_address, "10.0.0.5");
}
