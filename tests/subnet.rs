use netcfg_cache::{prefix_to_subnet, subnet_to_prefix};

#[test]
fn test_prefix_to_subnet_24() {
    assert_eq!(prefix_to_subnet(24), "255.255.255.0");
}

#[test]
fn test_prefix_to_subnet_16() {
    assert_eq!(prefix_to_subnet(16), "255.255.0.0");
}

#[test]
fn test_prefix_to_subnet_8() {
    assert_eq!(prefix_to_subnet(8), "255.0.0.0");
}

#[test]
fn test_prefix_to_subnet_32() {
    assert_eq!(prefix_to_subnet(32), "255.255.255.255");
}

#[test]
fn test_prefix_to_subnet_0() {
    assert_eq!(prefix_to_subnet(0), "0.0.0.0");
}

#[test]
fn test_prefix_to_subnet_25() {
    assert_eq!(prefix_to_subnet(25), "255.255.255.128");
}

#[test]
fn test_prefix_to_subnet_30() {
    assert_eq!(prefix_to_subnet(30), "255.255.255.252");
}

#[test]
fn prefix_above_32_means_all_ones() {
    assert_eq!(prefix_to_subnet(33), "255.255.255.255");
    assert_eq!(prefix_to_subnet(255), "255.255.255.255");
}

#[test]
fn odd_prefixes_render_partial_octets() {
    assert_eq!(prefix_to_subnet(1), "128.0.0.0");
    assert_eq!(prefix_to_subnet(12), "255.240.0.0");
    assert_eq!(prefix_to_subnet(31), "255.255.255.254");
}

#[test]
fn canonical_masks_read_back_as_their_prefix() {
    for p in 0..=32u8 {
        let mask = prefix_to_subnet(p);
        assert_eq!(subnet_to_prefix(&mask), p);
        assert_eq!(prefix_to_subnet(subnet_to_prefix(&mask)), mask);
    }
    assert_eq!(subnet_to_prefix("255.255.255.0"), 24);
    assert_eq!(subnet_to_prefix("255.255.0.0"), 16);
    assert_eq!(subnet_to_prefix("255.0.0.0"), 8);
    assert_eq!(subnet_to_prefix("255.255.255.255"), 32);
    assert_eq!(subnet_to_prefix("0.0.0.0"), 0);
    assert_eq!(subnet_to_prefix("255.255.255.128"), 25);
    assert_eq!(subnet_to_prefix("255.255.255.252"), 30);
}

#[test]
fn mask_without_four_parts_defaults_to_24() {
    assert_eq!(subnet_to_prefix(""), 24);
    assert_eq!(subnet_to_prefix("255.255.255"), 24);
    assert_eq!(subnet_to_prefix("255.255.255.0.0"), 24);
    assert_eq!(subnet_to_prefix("garbage"), 24);
}

#[test]
fn malformed_masks_count_bits_without_checking_contiguity() {
    assert_eq!(subnet_to_prefix("255.0.255.0"), 16);
    assert_eq!(prefix_to_subnet(subnet_to_prefix("255.0.255.0")), "255.255.0.0");
    assert_eq!(subnet_to_prefix("0.0.0.255"), 8);
    assert_eq!(subnet_to_prefix("1.2.3.4"), 5);
}

#[test]
fn unparsable_parts_count_as_no_bits() {
    assert_eq!(subnet_to_prefix("abc.255.255.0"), 16);
    assert_eq!(subnet_to_prefix("256.255.255.0"), 16);
    assert_eq!(subnet_to_prefix("-1.255.255.0"), 16);
    assert_eq!(subnet_to_prefix(" 255.255.255.0"), 16);
    assert_eq!(subnet_to_prefix("...."), 24);
    assert_eq!(subnet_to_prefix("..."), 0);
}

#[test]
fn parts_follow_integer_parsing_rules() {
    assert_eq!(subnet_to_prefix("+255.255.255.0"), 24);
    assert_eq!(subnet_to_prefix("0255.255.255.000"), 24);
    assert_eq!(subnet_to_prefix("+.255.255.0"), 16);
}
