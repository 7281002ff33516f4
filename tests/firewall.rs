use netcfg_cache::{firewall_status_from, profile_enabled, EnabledFlag, FirewallProfile, FirewallStatus};

fn profile(name: &str, enabled: bool) -> FirewallProfile {
    FirewallProfile { name: name.to_string(), enabled }
}

#[test]
fn profiles_fill_their_fields_whatever_the_case() {
    let status = firewall_status_from(&vec![
        profile("Domain", true),
        profile("PRIVATE", false),
        profile("Public", true),
    ]);
    assert_eq!(status, FirewallStatus { domain: true, private: false, public: true });
}

#[test]
fn later_report_overrides_and_unknown_names_are_ignored() {
    let status = firewall_status_from(&vec![
        profile("Domain", true),
        profile("Other", true),
        profile("domain", false),
        profile("private", true),
    ]);
    assert_eq!(status, FirewallStatus { domain: false, private: true, public: false });
}

#[test]
fn no_reports_means_all_off() {
    assert_eq!(
        firewall_status_from(&vec![]),
        FirewallStatus { domain: false, private: false, public: false }
    );
}

#[test]
fn enabled_flag_forms() {
    assert!(profile_enabled(EnabledFlag::Bool(true)));
    assert!(!profile_enabled(EnabledFlag::Bool(false)));
    assert!(profile_enabled(EnabledFlag::Number(Some(1))));
    assert!(!profile_enabled(EnabledFlag::Number(Some(0))));
    assert!(!profile_enabled(EnabledFlag::Number(Some(2))));
    assert!(!profile_enabled(EnabledFlag::Number(None)));
    assert!(!profile_enabled(EnabledFlag::Other));
}
