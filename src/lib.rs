//! Bounded, TTL-based cache of network adapter configurations, the
//! cache-first query protocol built on it, and the subnet mask arithmetic
//! the protocol needs; also the decisions behind the utility's diagnostic,
//! firewall and SMB commands (reading their output, choosing arguments).
//! Running processes is left to the caller.

pub mod cache;
pub mod clock;
pub mod diagnostics;
pub mod firewall;
pub mod lock;
pub mod network;
pub mod smb;
pub mod subnet;
pub mod text;
pub mod unified;

pub use cache::{CacheEntry, CacheStats, NetworkCache, DEFAULT_TTL_SECS, MAX_CACHE_ENTRIES};
pub use clock::Clock;
pub use diagnostics::{answer_is_true, netstat_args};
pub use firewall::{firewall_status_from, profile_enabled, EnabledFlag, FirewallProfile, FirewallStatus};
pub use lock::{lock_decision, LockAttempt, LockDecision};
pub use network::{
    adapter_from_fields, reported_dhcp, reported_prefix, IPConfiguration, NetworkAdapter,
};
pub use smb::{parse_net_view, smb_unc_path, SmbShare};
pub use subnet::{prefix_to_subnet, subnet_to_prefix};
pub use unified::{complete_query_at, config_from_response, UnifiedResponse};
