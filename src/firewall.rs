//! Firewall profile states and how one status record is assembled from the
//! per-profile reports of the operating system.

use vstd::prelude::*;

use crate::text::{lowercase_of, str_eq, to_lowercase};

verus! {

/// One firewall profile as reported: its name and whether it is on.
#[derive(Debug)]
pub struct FirewallProfile {
    pub name: String,
    pub enabled: bool,
}

/// Whether each of the three firewall profiles is on.
#[derive(Debug, Clone, Copy, PartialEq, Eq, Structural)]
pub struct FirewallStatus {
    pub domain: bool,
    pub private: bool,
    pub public: bool,
}

/// How a report gives the `Enabled` flag of a profile.
#[derive(Debug, Clone, Copy, PartialEq, Eq, Structural)]
pub enum EnabledFlag {
    /// A boolean.
    Bool(bool),
    /// A number, with its value when it is an integer that fits in `i64`.
    Number(Option<i64>),
    /// Anything else, or nothing.
    Other,
}

/// A profile is on when its flag is `true` or the integer 1.
pub open spec fn flag_enabled(flag: EnabledFlag) -> bool {
    match flag {
        EnabledFlag::Bool(b) => b,
        EnabledFlag::Number(n) => n == Some(1i64),
        EnabledFlag::Other => false,
    }
}

/// Reads an `Enabled` flag.
pub fn profile_enabled(flag: EnabledFlag) -> (r: bool)
    ensures
        r == flag_enabled(flag),
{
    match flag {
        EnabledFlag::Bool(b) => b,
        EnabledFlag::Number(Some(n)) => n == 1,
        _ => false,
    }
}

/// The state the last profile named `which` (in lower case) gives, or off
/// when no profile has that name.
pub open spec fn profile_state(profiles: Seq<FirewallProfile>, which: Seq<char>) -> bool
    decreases profiles.len(),
{
    if profiles.len() == 0 {
        false
    } else if lowercase_of(profiles.last().name@) == which {
        profiles.last().enabled
    } else {
        profile_state(profiles.drop_last(), which)
    }
}

/// Combines profile reports into one status; names are matched without
/// regard to case, a later report of a profile overrides an earlier one, and
/// other names are ignored.
pub fn firewall_status_from(profiles: &Vec<FirewallProfile>) -> (r: FirewallStatus)
    ensures
        r.domain == profile_state(profiles@, "domain"@),
        r.private == profile_state(profiles@, "private"@),
        r.public == profile_state(profiles@, "public"@),
{
    let mut status = FirewallStatus { domain: false, private: false, public: false };
    let mut i: usize = 0;
    while i < profiles.len()
        invariant
            i <= profiles@.len(),
            status.domain == profile_state(profiles@.take(i as int), "domain"@),
            status.private == profile_state(profiles@.take(i as int), "private"@),
            status.public == profile_state(profiles@.take(i as int), "public"@),
        decreases profiles@.len() - i,
    {
        proof {
            reveal_strlit("domain");
            reveal_strlit("private");
            reveal_strlit("public");
            assert("domain"@ != "private"@ && "domain"@ != "public"@ && "private"@ != "public"@) by {
                assert("domain"@[0] != "private"@[0]);
                assert("domain"@[0] != "public"@[0]);
                assert("private"@.len() != "public"@.len());
            }
        }
        let p = &profiles[i];
        let name = to_lowercase(p.name.as_str());
        assert(profiles@.take(i + 1).drop_last() =~= profiles@.take(i as int));
        assert(profiles@.take(i + 1).last() == profiles@[i as int]);
        if str_eq(name.as_str(), "domain") {
            status.domain = p.enabled;
        } else if str_eq(name.as_str(), "private") {
            status.private = p.enabled;
        } else if str_eq(name.as_str(), "public") {
            status.public = p.enabled;
        }
        i = i + 1;
    }
    assert(profiles@.take(profiles@.len() as int) =~= profiles@);
    status
}

} // verus!
