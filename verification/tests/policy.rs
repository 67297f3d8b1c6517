use silverwind::allow_deny_ip::{AllowDenyObject, AllowResult, AllowType};
use silverwind::app_config::ip_is_allowed;
use silverwind::allow_deny_ip::{in_cidr, parse_cidr, parse_ipv4};

fn rule(limit_type: AllowType, value: Option<&str>) -> AllowDenyObject {
    AllowDenyObject {
        limit_type,
        value: value.map(|v| v.to_string()),
    }
}

#[test]
fn parse_ipv4_accepts_dotted_quads() {
    assert_eq!(parse_ipv4(&"10.0.0.1".to_string()), Some(0x0A000001));
    assert_eq!(parse_ipv4(&"0.0.0.0".to_string()), Some(0));
    assert_eq!(parse_ipv4(&"255.255.255.255".to_string()), Some(u32::MAX));
    assert_eq!(parse_ipv4(&"192.168.2.100".to_string()), Some(0xC0A80264));
}

#[test]
fn parse_ipv4_rejects_bad_strings() {
    assert_eq!(parse_ipv4(&"10.0.0".to_string()), None);
    assert_eq!(parse_ipv4(&"10.0.0.1.2".to_string()), None);
    assert_eq!(parse_ipv4(&"10.00.0.1".to_string()), None);
    assert_eq!(parse_ipv4(&"256.0.0.1".to_string()), None);
    assert_eq!(parse_ipv4(&"10.0.0.a".to_string()), None);
    assert_eq!(parse_ipv4(&"".to_string()), None);
    assert_eq!(parse_ipv4(&" 10.0.0.1".to_string()), None);
}

#[test]
fn parse_cidr_accepts_ranges() {
    assert_eq!(parse_cidr(&"10.0.0.0/8".to_string()), Some((0x0A000000, 8)));
    assert_eq!(parse_cidr(&"192.168.0.0/16".to_string()), Some((0xC0A80000, 16)));
    assert_eq!(parse_cidr(&"1.2.3.4/32".to_string()), Some((0x01020304, 32)));
    assert_eq!(parse_cidr(&"0.0.0.0/0".to_string()), Some((0, 0)));
}

#[test]
fn parse_cidr_rejects_bad_ranges() {
    assert_eq!(parse_cidr(&"10.0.0.0/33".to_string()), None);
    assert_eq!(parse_cidr(&"10.0.0.0".to_string()), None);
    assert_eq!(parse_cidr(&"10.0.0/8".to_string()), None);
    assert_eq!(parse_cidr(&"10.0.0.0/8/9".to_string()), None);
    assert_eq!(parse_cidr(&"10.0.0.0/".to_string()), None);
}

#[test]
fn cidr_membership_checks_prefix_bits() {
    assert!(in_cidr(0x0A010203, 0x0A000000, 8));
    assert!(!in_cidr(0x0B010203, 0x0A000000, 8));
    assert!(in_cidr(0xDEADBEEF, 0x12345678, 0));
    assert!(in_cidr(0x01020304, 0x01020304, 32));
    assert!(!in_cidr(0x01020305, 0x01020304, 32));
}

#[test]
fn allow_all_and_deny_all_decide_immediately() {
    let allow = rule(AllowType::AllowAll, None);
    assert_eq!(allow.is_allow("1.2.3.4".to_string()).unwrap(), AllowResult::Allow);
    let deny = rule(AllowType::DenyAll, None);
    assert_eq!(deny.is_allow("1.2.3.4".to_string()).unwrap(), AllowResult::Deny);
}

#[test]
fn missing_value_is_a_configuration_error() {
    let bad = rule(AllowType::Allow, None);
    assert!(bad.is_allow("1.2.3.4".to_string()).is_err());
    assert!(ip_is_allowed(Some(vec![bad]), "1.2.3.4".to_string()).is_err());
}

#[test]
fn unparsable_cidr_is_a_configuration_error() {
    let bad = rule(AllowType::Allow, Some("10.0.0.0/99"));
    assert!(bad.is_allow("1.2.3.4".to_string()).is_err());
}

#[test]
fn exact_value_matches_by_string_equality() {
    let allow = rule(AllowType::Allow, Some("9.9.9.9"));
    assert_eq!(allow.is_allow("9.9.9.9".to_string()).unwrap(), AllowResult::Allow);
    assert_eq!(allow.is_allow("9.9.9.8".to_string()).unwrap(), AllowResult::Notmapping);
    let deny = rule(AllowType::Deny, Some("9.9.9.9"));
    assert_eq!(deny.is_allow("9.9.9.9".to_string()).unwrap(), AllowResult::Deny);
}

#[test]
fn allow_range_then_deny_all() {
    let list = vec![
        rule(AllowType::Allow, Some("10.0.0.0/8")),
        rule(AllowType::DenyAll, None),
    ];
    assert_eq!(ip_is_allowed(Some(list.clone()), "10.1.2.3".to_string()).unwrap(), true);
    assert_eq!(ip_is_allowed(Some(list), "8.8.8.8".to_string()).unwrap(), false);
}

#[test]
fn absent_or_empty_list_allows() {
    assert_eq!(ip_is_allowed(None, "8.8.8.8".to_string()).unwrap(), true);
    assert_eq!(ip_is_allowed(Some(vec![]), "8.8.8.8".to_string()).unwrap(), true);
}

#[test]
fn all_not_mapping_defaults_to_allow() {
    let list = vec![
        rule(AllowType::Deny, Some("1.1.1.1")),
        rule(AllowType::Allow, Some("2.2.2.2")),
    ];
    assert_eq!(ip_is_allowed(Some(list), "3.3.3.3".to_string()).unwrap(), true);
}

#[test]
fn scan_stops_at_first_definitive_rule() {
    let list = vec![
        rule(AllowType::Deny, Some("10.1.2.3")),
        rule(AllowType::AllowAll, None),
    ];
    assert_eq!(ip_is_allowed(Some(list), "10.1.2.3".to_string()).unwrap(), false);
}
