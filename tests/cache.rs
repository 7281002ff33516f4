use netcfg_cache::{CacheEntry, Clock, IPConfiguration, NetworkCache, MAX_CACHE_ENTRIES};

fn create_test_config() -> IPConfiguration {
    IPConfiguration {
        ip_address: "192.168.1.1".to_string(),
        subnet_mask: "255.255.255.0".to_string(),
        gateway: "192.168.1.254".to_string(),
        primary_dns: "8.8.8.8".to_string(),
        secondary_dns: "8.8.4.4".to_string(),
        dhcp_enabled: false,
    }
}

fn config_with_ip(ip: &str) -> IPConfiguration {
    let mut c = create_test_config();
    c.ip_address = ip.to_string();
    c
}

const SEC: u64 = 1_000_000_000;

#[test]
fn test_cache_entry_not_expired_initially() {
    let clock = Clock::new();
    let entry = CacheEntry::new("test".to_string(), clock.now_nanos());
    assert!(!entry.is_expired(clock.now_nanos()));
}

#[test]
fn test_cache_set_get() {
    let mut cache = NetworkCache::new();
    let config = create_test_config();

    cache.set_ip_config("eth0", config.clone());

    let retrieved = cache.get_ip_config("eth0");
    assert!(retrieved.is_some());
    assert_eq!(retrieved.unwrap().ip_address, "192.168.1.1");
}

#[test]
fn test_cache_invalidate_adapter() {
    let mut cache = NetworkCache::new();
    let config = create_test_config();

    cache.set_ip_config("eth0", config);
    assert!(cache.get_ip_config("eth0").is_some());

    cache.invalidate_adapter("eth0");
    assert!(cache.get_ip_config("eth0").is_none());
}

#[test]
fn test_cache_invalidate_all() {
    let mut cache = NetworkCache::new();
    let config = create_test_config();

    cache.set_ip_config("eth0", config.clone());
    cache.set_ip_config("eth1", config);

    assert_eq!(cache.stats().cached_configs, 2);

    cache.invalidate_all();
    assert_eq!(cache.stats().cached_configs, 0);
}

#[test]
fn test_cache_stale_retrieval() {
    let mut cache = NetworkCache::new();
    let config = create_test_config();

    cache.set_ip_config("eth0", config);

    let (retrieved, is_stale) = cache.get_ip_config_stale("eth0").unwrap();
    assert!(!is_stale);
    assert_eq!(retrieved.ip_address, "192.168.1.1");
}

#[test]
fn entry_not_expired_at_its_creation_reading() {
    let entry = CacheEntry::new(7u32, 5 * SEC);
    assert!(!entry.is_expired(5 * SEC));
    assert_eq!(entry.remaining_ttl_secs(5 * SEC), 30);
}

#[test]
fn entry_expires_strictly_after_its_ttl() {
    let entry = CacheEntry::with_ttl("x".to_string(), 30, 0);
    assert!(!entry.is_expired(30 * SEC - 1));
    assert!(!entry.is_expired(30 * SEC));
    assert!(entry.is_expired(30 * SEC + 1));
    assert_eq!(entry.remaining_ttl_secs(0), 30);
    assert_eq!(entry.remaining_ttl_secs(SEC / 2), 29);
    assert_eq!(entry.remaining_ttl_secs(30 * SEC), 0);
    assert_eq!(entry.remaining_ttl_secs(31 * SEC), 0);
}

#[test]
fn entry_reading_before_creation_counts_as_no_time() {
    let entry = CacheEntry::with_ttl(1u8, 0, 10 * SEC);
    assert!(!entry.is_expired(3 * SEC));
    assert!(entry.is_expired(10 * SEC + 1));
}

#[test]
fn zero_ttl_entry_expires_after_one_nanosecond() {
    let entry = CacheEntry::with_ttl(1u8, 0, 100);
    assert!(!entry.is_expired(100));
    assert!(entry.is_expired(101));
}

#[test]
fn get_after_set_returns_every_field() {
    let mut cache = NetworkCache::new();
    let config = create_test_config();
    cache.set_ip_config_at("eth0", config, 0);
    let got = cache.get_ip_config_at("eth0", 0).unwrap();
    assert_eq!(got.ip_address, "192.168.1.1");
    assert_eq!(got.subnet_mask, "255.255.255.0");
    assert_eq!(got.gateway, "192.168.1.254");
    assert_eq!(got.primary_dns, "8.8.8.8");
    assert_eq!(got.secondary_dns, "8.8.4.4");
    assert!(!got.dhcp_enabled);
}

#[test]
fn set_overwrites_existing_key() {
    let mut cache = NetworkCache::new();
    cache.set_ip_config_at("eth0", config_with_ip("10.0.0.1"), 0);
    cache.set_ip_config_at("eth0", config_with_ip("10.0.0.2"), SEC);
    assert_eq!(cache.stats().cached_configs, 1);
    assert_eq!(cache.get_ip_config_at("eth0", SEC).unwrap().ip_address, "10.0.0.2");
}

#[test]
fn keys_are_case_sensitive() {
    let mut cache = NetworkCache::new();
    cache.set_ip_config_at("Ethernet", config_with_ip("10.0.0.1"), 0);
    assert!(cache.get_ip_config_at("ethernet", 0).is_none());
    assert!(cache.get_ip_config_at("Ethernet", 0).is_some());
}

#[test]
fn expired_entry_is_hidden_but_kept_for_stale_reads() {
    let mut cache = NetworkCache::new();
    cache.set_ip_config_with_ttl_at("eth0", config_with_ip("10.0.0.9"), 30, 0);
    assert!(cache.get_ip_config_at("eth0", 31 * SEC).is_none());
    let (stale, expired) = cache.get_ip_config_stale_at("eth0", 31 * SEC).unwrap();
    assert!(expired);
    assert_eq!(stale.ip_address, "10.0.0.9");
    assert_eq!(cache.stats().cached_configs, 1);
}

#[test]
fn custom_ttl_is_honoured() {
    let mut cache = NetworkCache::new();
    cache.set_ip_config_with_ttl_at("eth0", create_test_config(), 5, 0);
    assert!(cache.get_ip_config_at("eth0", 5 * SEC).is_some());
    assert!(cache.get_ip_config_at("eth0", 5 * SEC + 1).is_none());
}

#[test]
fn set_with_ttl_using_the_clock_is_readable() {
    let mut cache = NetworkCache::new();
    cache.set_ip_config_with_ttl("wlan0", config_with_ip("172.16.0.3"), 60);
    assert_eq!(cache.get_ip_config("wlan0").unwrap().ip_address, "172.16.0.3");
}

#[test]
fn invalidate_then_get_is_absent_whatever_the_state() {
    let mut cache = NetworkCache::new();
    cache.invalidate_adapter("missing");
    assert!(cache.get_ip_config_at("missing", 0).is_none());
    cache.set_ip_config_at("eth0", create_test_config(), 0);
    cache.set_ip_config_at("eth1", create_test_config(), 0);
    cache.invalidate_adapter("eth0");
    assert!(cache.get_ip_config_at("eth0", 0).is_none());
    assert!(cache.get_ip_config_stale_at("eth0", 0).is_none());
    assert!(cache.get_ip_config_at("eth1", 0).is_some());
    cache.invalidate_adapter("eth0");
    assert_eq!(cache.stats().cached_configs, 1);
}

#[test]
fn invalidate_all_forgets_every_key() {
    let mut cache = NetworkCache::new();
    for i in 0..5 {
        cache.set_ip_config_at(&format!("eth{}", i), create_test_config(), 0);
    }
    cache.invalidate_all();
    assert_eq!(cache.stats().cached_configs, 0);
    for i in 0..5 {
        assert!(cache.get_ip_config_at(&format!("eth{}", i), 0).is_none());
        assert!(cache.get_ip_config_stale_at(&format!("eth{}", i), 0).is_none());
    }
}

#[test]
fn full_cache_evicts_oldest_entry() {
    let mut cache = NetworkCache::new();
    for i in 0..MAX_CACHE_ENTRIES as u64 {
        cache.set_ip_config_at(&format!("k{}", i), create_test_config(), i);
    }
    assert_eq!(cache.stats().cached_configs, MAX_CACHE_ENTRIES);
    cache.set_ip_config_at("new", create_test_config(), 100);
    assert_eq!(cache.stats().cached_configs, MAX_CACHE_ENTRIES);
    assert!(cache.get_ip_config_stale_at("k0", 100).is_none());
    assert!(cache.get_ip_config_stale_at("k1", 100).is_some());
    assert!(cache.get_ip_config_at("new", 100).is_some());
}

#[test]
fn full_cache_drops_expired_entries_first() {
    let mut cache = NetworkCache::new();
    for i in 0..10u64 {
        cache.set_ip_config_with_ttl_at(&format!("old{}", i), create_test_config(), 1, 10 * SEC + i);
    }
    for i in 0..40u64 {
        cache.set_ip_config_with_ttl_at(&format!("short{}", i), create_test_config(), 0, i);
    }
    assert_eq!(cache.stats().cached_configs, 50);
    cache.set_ip_config_at("new", create_test_config(), 10 * SEC + 20);
    assert_eq!(cache.stats().cached_configs, 11);
    assert!(cache.get_ip_config_stale_at("short0", 0).is_none());
    assert!(cache.get_ip_config_stale_at("old0", 0).is_some());
}

#[test]
fn cache_never_grows_past_its_bound() {
    let mut cache = NetworkCache::new();
    for i in 0..200u64 {
        cache.set_ip_config_at(&format!("if{}", i), create_test_config(), i);
        assert!(cache.stats().cached_configs <= MAX_CACHE_ENTRIES);
    }
    assert_eq!(cache.stats().cached_configs, MAX_CACHE_ENTRIES);
    assert!(cache.get_ip_config_at("if199", 199).is_some());
    assert!(cache.get_ip_config_at("if149", 199).is_none());
    assert!(cache.get_ip_config_at("if150", 199).is_some());
}
