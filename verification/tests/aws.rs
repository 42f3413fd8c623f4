use drawbridge::cloud::aws::build_filter;
use drawbridge::cloud::aws::instance_from_tags;
use drawbridge::cloud::aws::instance_state;
use drawbridge::cloud::aws::low_u16;
use drawbridge::cloud::aws::low_u8;
use drawbridge::cloud::aws::rules_from_permissions;
use drawbridge::cloud::aws::to_ip_permission;
use drawbridge::cloud::aws::to_ip_permissions;
use drawbridge::cloud::aws::Filter;
use drawbridge::cloud::aws::InstanceRecord;
use drawbridge::cloud::aws::IpPermission;
use drawbridge::cloud::aws::Tag;
use drawbridge::cloud::aws::TagFinder;
use drawbridge::cloud::lifecycle::InstanceStateCode;
use drawbridge::cloud::InstanceType;
use drawbridge::dns::aws::bound_record_types;
use drawbridge::dns::aws::is_record_set_of;
use drawbridge::dns::aws::record_set_for;
use drawbridge::dns::aws::zone_id;
use drawbridge::dns::aws::ResourceRecordSet;
use drawbridge::dns::DnsTarget;
use drawbridge::error::Error;
use drawbridge::iprules::IpIngressRule;
use drawbridge::net::Ipv4Addr;
use drawbridge::ruleset::RuleSet;

fn rule(cidr: &str, protocol: &str) -> IpIngressRule {
    IpIngressRule(cidr.parse().unwrap(), protocol.parse().unwrap())
}

fn tag(key: Option<&str>, value: Option<&str>) -> Tag {
    Tag {
        key: key.map(|k| k.to_owned()),
        value: value.map(|v| v.to_owned()),
    }
}

fn permission(protocol: &str, from: i64, to: i64, v4: &[&str], v6: &[&str]) -> IpPermission {
    IpPermission {
        ip_protocol: protocol.to_owned(),
        from_port: from,
        to_port: to,
        ip_ranges: Some(v4.iter().map(|s| s.to_string()).collect()),
        ipv_6_ranges: Some(v6.iter().map(|s| s.to_string()).collect()),
    }
}

#[test]
fn a_rule_becomes_one_permission() {
    assert_eq!(
        to_ip_permission(&rule("10.1.0.0/16", "60000-61000/udp")),
        IpPermission {
            ip_protocol: "udp".to_owned(),
            from_port: 60000,
            to_port: 61000,
            ip_ranges: Some(vec!["10.1.0.0/16".to_owned()]),
            ipv_6_ranges: None,
        }
    );
    assert_eq!(
        to_ip_permission(&rule("fd00::/8", "22/tcp")),
        IpPermission {
            ip_protocol: "tcp".to_owned(),
            from_port: 22,
            to_port: 22,
            ip_ranges: None,
            ipv_6_ranges: Some(vec!["fd00::/8".to_owned()]),
        }
    );
}

#[test]
fn rules_become_as_many_permissions() {
    let rules = RuleSet::from_vec(&vec![rule("1.1.1.1/32", "80/tcp"), rule("::1/128", "53/udp")]);
    let permissions = to_ip_permissions(&rules);
    assert_eq!(permissions.len(), 2);
    assert_eq!(permissions[0], to_ip_permission(&rule("1.1.1.1/32", "80/tcp")));
    assert_eq!(permissions[1], to_ip_permission(&rule("::1/128", "53/udp")));
    assert!(to_ip_permissions(&RuleSet::new()).is_empty());
}

#[test]
fn permissions_become_rules() {
    let permissions = vec![
        permission("tcp", 22, 22, &["1.1.0.0/16", "9.9.9.9/32"], &["fd00::/8"]),
        permission("udp", 60000, 61000, &["1.1.0.0/16"], &[]),
        permission("tcp", 22, 22, &["9.9.9.9/32"], &[]),
        permission("tcp", 80, 80, &[], &[]),
    ];
    assert_eq!(
        rules_from_permissions(&permissions),
        Ok(RuleSet::from_vec(&vec![
            rule("1.1.0.0/16", "22/tcp"),
            rule("9.9.9.9/32", "22/tcp"),
            rule("fd00::/8", "22/tcp"),
            rule("1.1.0.0/16", "60000-61000/udp"),
        ]))
    );
    assert_eq!(rules_from_permissions(&vec![]), Ok(RuleSet::new()));
}

#[test]
fn permissions_and_rules_go_back_and_forth() {
    let rules = RuleSet::from_vec(&vec![
        rule("1.1.1.1/32", "80/tcp"),
        rule("::1/128", "53/udp"),
        rule("10.0.0.0/8", "1-65535/tcp"),
    ]);
    let mut permissions = to_ip_permissions(&rules);
    for p in permissions.iter_mut() {
        p.ip_ranges.get_or_insert(vec![]);
        p.ipv_6_ranges.get_or_insert(vec![]);
    }
    assert_eq!(rules_from_permissions(&permissions), Ok(rules));
}

#[test]
fn ports_of_permissions_are_cut_to_sixteen_bits() {
    assert_eq!(low_u16(0), 0);
    assert_eq!(low_u16(65535), 65535);
    assert_eq!(low_u16(65536), 0);
    assert_eq!(low_u16(65536 + 443), 443);
    assert_eq!(low_u16(-1), 65535);
    assert_eq!(low_u16(-65536), 0);
    assert_eq!(low_u16(i64::MAX), 65535);
    assert_eq!(low_u16(i64::MIN), 0);
    assert_eq!(low_u8(16), 16);
    assert_eq!(low_u8(256 + 80), 80);
    assert_eq!(low_u8(-1), 255);
    assert_eq!(low_u8(i64::MIN), 0);
    for x in [-70000i64, -257, -256, -1, 0, 1, 255, 256, 70000] {
        assert_eq!(low_u16(x), x as u16);
        assert_eq!(low_u8(x), x as u8);
    }
    assert_eq!(
        rules_from_permissions(&vec![permission("tcp", -1, 65536 + 22, &["1.1.1.1/32"], &[])]),
        Ok(RuleSet::from_vec(&vec![rule("1.1.1.1/32", "65535-22/tcp")]))
    );
}

#[test]
fn the_first_bad_permission_is_reported() {
    let good = permission("tcp", 22, 22, &["1.1.0.0/16"], &[]);
    assert_eq!(
        rules_from_permissions(&vec![good.clone(), permission("icmp", -1, -1, &["x"], &["y"])]),
        Err(Error::UnknownProtocol { name: "icmp".to_owned() })
    );
    assert_eq!(
        rules_from_permissions(&vec![
            good.clone(),
            permission("udp", 1, 2, &["1.1.1.1/32", "1.1.1.1", "bad"], &["worse"]),
        ]),
        Err(Error::NotAnIpv4Network { text: "1.1.1.1".to_owned() })
    );
    assert_eq!(
        rules_from_permissions(&vec![
            permission("udp", 1, 2, &["1.1.1.1/32"], &["fd00::/8", "1.1.1.1/32"]),
            permission("icmp", 1, 2, &[], &[]),
        ]),
        Err(Error::NotAnIpv6Network { text: "1.1.1.1/32".to_owned() })
    );
    assert_eq!(
        rules_from_permissions(&vec![permission("tcp", 1, 2, &["fd00::/8"], &[])]),
        Err(Error::NotAnIpv4Network { text: "fd00::/8".to_owned() })
    );
}

#[test]
fn the_first_tag_with_key_and_value_is_found() {
    let tags = vec![
        tag(None, Some("lost")),
        tag(Some("Name"), None),
        tag(Some("Other"), Some("x")),
        tag(Some("Name"), Some("first")),
        tag(Some("Name"), Some("second")),
        tag(Some("Fqdn"), Some("inst.example.com")),
    ];
    assert_eq!(tags.find_tag("Name"), Some("first"));
    assert_eq!(tags.find_tag("Fqdn"), Some("inst.example.com"));
    assert_eq!(tags.find_tag("Other"), Some("x"));
    assert_eq!(tags.find_tag("name"), None);
    assert_eq!(tags.find_tag(""), None);
    assert_eq!(Vec::<Tag>::new().find_tag("Name"), None);
}

#[test]
fn an_instance_is_named_by_its_tags() {
    let tags = vec![tag(Some("Fqdn"), Some("inst.example.com")), tag(Some("Name"), Some("inst"))];
    assert_eq!(
        instance_from_tags("i-1", &tags),
        Ok(InstanceRecord {
            id: "i-1".to_owned(),
            name: "inst".to_owned(),
            fqdn: Some("inst.example.com".to_owned()),
        })
    );
    assert_eq!(
        instance_from_tags("i-2", &vec![tag(Some("Name"), Some("inst"))]),
        Ok(InstanceRecord {
            id: "i-2".to_owned(),
            name: "inst".to_owned(),
            fqdn: None,
        })
    );
    let err = instance_from_tags("i-3", &vec![tag(Some("Fqdn"), Some("x"))]).unwrap_err();
    assert_eq!(err, Error::MissingNameTag { id: "i-3".to_owned() });
    assert_eq!(err.message(), "expected instance to have Name tag: i-3");
}

#[test]
fn the_state_of_an_instance_counts_the_low_byte_of_its_code() {
    let state = instance_state(16, "t2.medium", true, Some(Ipv4Addr(7)), Some("h".to_owned()));
    assert_eq!(state.instance_state_code, InstanceStateCode::Running);
    assert_eq!(state.instance_type, InstanceType::new("t2.medium"));
    assert!(state.ebs_optimized);
    assert_eq!(state.public_ipv4_addr, Some(Ipv4Addr(7)));
    assert_eq!(state.public_dns_name, Some("h".to_owned()));
    let state = instance_state(256 + 80, "t", false, None, None);
    assert_eq!(state.instance_state_code, InstanceStateCode::Stopped);
    assert_eq!(state.public_ipv4_addr, None);
    assert_eq!(state.public_dns_name, None);
    assert_eq!(
        instance_state(17, "t", false, None, None).instance_state_code,
        InstanceStateCode::Unknown(17)
    );
    assert_eq!(
        instance_state(256, "t", false, None, None).instance_state_code,
        InstanceStateCode::Pending
    );
}

#[test]
fn the_filter_is_on_the_name_tag() {
    assert_eq!(
        build_filter(&vec!["x".to_owned(), "y".to_owned()]),
        Filter {
            name: "tag:Name".to_owned(),
            values: vec!["x".to_owned(), "y".to_owned()],
        }
    );
    assert_eq!(
        build_filter(&vec![]),
        Filter {
            name: "tag:Name".to_owned(),
            values: vec![],
        }
    );
}

#[test]
fn the_zone_identifier_is_the_end_of_its_path() {
    assert_eq!(zone_id("/hostedzone/Z123"), "Z123");
    assert_eq!(zone_id("Z123"), "Z123");
    assert_eq!(zone_id("/hostedzone//hostedzone/Z123"), "Z123");
    assert_eq!(zone_id("/hostedzone/"), "");
    assert_eq!(zone_id(""), "");
    assert_eq!(zone_id("/hostedzone"), "/hostedzone");
    assert_eq!(zone_id("x/hostedzone/Z"), "x/hostedzone/Z");
}

#[test]
fn a_name_is_bound_by_one_record() {
    assert_eq!(
        record_set_for("inst.example.com", DnsTarget::A(Ipv4Addr::new(192, 0, 2, 1))),
        ResourceRecordSet {
            name: "inst.example.com".to_owned(),
            type_: "A".to_owned(),
            ttl: Some(60),
            resource_records: Some(vec!["192.0.2.1".to_owned()]),
        }
    );
    assert_eq!(
        record_set_for("inst.example.com", DnsTarget::Cname("host.example.org".to_owned())),
        ResourceRecordSet {
            name: "inst.example.com".to_owned(),
            type_: "CNAME".to_owned(),
            ttl: Some(60),
            resource_records: Some(vec!["host.example.org".to_owned()]),
        }
    );
    assert_eq!(bound_record_types(), vec!["A", "CNAME"]);
}

#[test]
fn only_the_record_set_of_the_name_is_taken_out() {
    let found = ResourceRecordSet {
        name: "inst.example.com.".to_owned(),
        type_: "A".to_owned(),
        ttl: Some(300),
        resource_records: None,
    };
    assert!(is_record_set_of(&found, "inst.example.com", "A"));
    assert!(is_record_set_of(&found, "inst.example.com.", "A"));
    assert!(!is_record_set_of(&found, "inst.example.com", "CNAME"));
    assert!(!is_record_set_of(&found, "inst2.example.com", "A"));
    assert!(!is_record_set_of(&found, "example.com", "A"));
    assert!(!is_record_set_of(&found, "x.inst.example.com", "A"));
}
