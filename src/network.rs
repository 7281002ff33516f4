//! Plain value records describing network adapters and their IPv4 settings.

use vstd::prelude::*;

verus! {

/// IPv4 configuration of one adapter, as reported by the operating system.
#[derive(Debug)]
pub struct IPConfiguration {
    pub ip_address: String,
    pub subnet_mask: String,
    pub gateway: String,
    pub primary_dns: String,
    pub secondary_dns: String,
    pub dhcp_enabled: bool,
}

impl Clone for IPConfiguration {
    fn clone(&self) -> (r: Self)
        ensures
            r == *self,
    {
        IPConfiguration {
            ip_address: self.ip_address.clone(),
            subnet_mask: self.subnet_mask.clone(),
            gateway: self.gateway.clone(),
            primary_dns: self.primary_dns.clone(),
            secondary_dns: self.secondary_dns.clone(),
            dhcp_enabled: self.dhcp_enabled,
        }
    }
}

/// One network adapter as listed by the operating system.
#[derive(Debug)]
pub struct NetworkAdapter {
    pub name: String,
    pub description: String,
    pub status: String,
    pub mac_address: String,
}

/// `field` when present, else `default`.
pub open spec fn field_or(field: Option<String>, default: Seq<char>) -> Seq<char> {
    match field {
        Some(s) => s@,
        None => default,
    }
}

fn string_or(field: Option<String>, default: &str) -> (r: String)
    ensures
        r@ == field_or(field, default@),
{
    match field {
        Some(s) => s,
        None => default.to_owned(),
    }
}

/// Builds an adapter record from the text fields of one listing entry; a
/// missing field is empty, and a missing status reads `Unknown`.
pub fn adapter_from_fields(
    name: Option<String>,
    description: Option<String>,
    status: Option<String>,
    mac_address: Option<String>,
) -> (r: NetworkAdapter)
    ensures
        r.name@ == field_or(name, Seq::empty()),
        r.description@ == field_or(description, Seq::empty()),
        r.status@ == field_or(status, "Unknown"@),
        r.mac_address@ == field_or(mac_address, Seq::empty()),
{
    proof {
        reveal_strlit("");
    }
    NetworkAdapter {
        name: string_or(name, ""),
        description: string_or(description, ""),
        status: string_or(status, "Unknown"),
        mac_address: string_or(mac_address, ""),
    }
}

/// Prefix length from an address query: 24 when it reports none, else its
/// low eight bits.
pub fn reported_prefix(prefix: Option<u64>) -> (r: u8)
    ensures
        r == match prefix {
            Some(p) => (p % 256) as u8,
            None => 24u8,
        },
{
    match prefix {
        Some(p) => (p % 256) as u8,
        None => 24,
    }
}

/// DHCP state from an interface query: on when it reports none or 1.
pub fn reported_dhcp(flag: Option<u64>) -> (r: bool)
    ensures
        r == (flag is None || flag == Some(1u64)),
{
    match flag {
        Some(v) => v == 1,
        None => true,
    }
}

} // verus!
