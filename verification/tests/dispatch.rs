use drawbridge::cloud::mem::MemCloud;
use drawbridge::cloud::mem::MemInstance;
use drawbridge::cloud::Firewall;
use drawbridge::cloud::Instance;
use drawbridge::cloud::InstanceType;
use drawbridge::dispatch::dispatch;
use drawbridge::dispatch::Command;
use drawbridge::dns::mem::MemDns;
use drawbridge::error::Error;
use drawbridge::iprules::IpIngressRule;
use drawbridge::iprules::IpProtocol;
use drawbridge::net::IpNet;
use drawbridge::ruleset::RuleSet;

#[test]
fn dispatch_test_open_firewall_with_no_existing_rules() {
    open_firewall(
        &[],
        &["1.1.0.0/16".parse().unwrap(), "9.9.9.9/32".parse().unwrap()],
        &["22/tcp".parse().unwrap(), "80/tcp".parse().unwrap()],
    )
    .unwrap();
}

#[test]
fn dispatch_test_open_firewall_with_some_existing_rules() {
    open_firewall(
        &[
            // wrong protocol: will be removed
            IpIngressRule("9.9.9.9/32".parse().unwrap(), "443/tcp".parse().unwrap()),
            // wrong CIDR: will be removed
            IpIngressRule("1.1.1.1/32".parse().unwrap(), "80/tcp".parse().unwrap()),
            // correct: will be preserved
            IpIngressRule("1.1.0.0/16".parse().unwrap(), "22/tcp".parse().unwrap()),
        ],
        &["1.1.0.0/16".parse().unwrap(), "9.9.9.9/32".parse().unwrap()],
        &["22/tcp".parse().unwrap(), "80/tcp".parse().unwrap()],
    )
    .unwrap();
}

fn open_firewall(
    existing_rules: &[IpIngressRule],
    ip_cidrs: &[IpNet],
    ip_protocols: &[IpProtocol],
) -> Result<(), Error> {
    let mut expected_rules = RuleSet::new();
    for ip_cidr in ip_cidrs {
        for ip_protocol in ip_protocols {
            expected_rules.insert(IpIngressRule(*ip_cidr, *ip_protocol));
        }
    }

    let mut cloud = MemCloud::new()?;
    let fw = cloud.create_firewall("fw")?;
    // a request to add rules is made for at least one rule
    if !existing_rules.is_empty() {
        fw.add_ingress_rules(&mut cloud, &RuleSet::from_vec(&existing_rules.to_vec()))?;
    }

    let mut dns = MemDns::new()?;

    let cmd = Command::Open {
        ip_cidrs: ip_cidrs.to_vec(),
        ip_protocols: ip_protocols.to_vec(),
        names: vec!["fw".to_owned()],
    };

    // test that open command opens the firewall
    dispatch(cmd, &mut cloud, &mut dns)?;

    assert_eq!(expected_rules, fw.list_ingress_rules(&cloud)?);

    // test that close command closes the firewall, and that it is idempotent
    for _ in 0..2 {
        dispatch(
            Command::Close {
                names: vec!["fw".to_owned()],
            },
            &mut cloud,
            &mut dns,
        )?;

        assert_eq!(RuleSet::new(), fw.list_ingress_rules(&cloud)?);
    }

    Ok(())
}

fn stopped_instance(cloud: &mut MemCloud) -> Result<MemInstance, Error> {
    let inst = cloud.create_instance("inst", None, &InstanceType::new("t2.medium"))?;
    inst.ensure_stopped(cloud)?;
    Ok(inst)
}

fn started_instance(cloud: &mut MemCloud) -> Result<MemInstance, Error> {
    let inst = cloud.create_instance("inst", None, &InstanceType::new("t2.medium"))?;
    inst.ensure_running(cloud)?;
    Ok(inst)
}

#[test]
fn dispatch_test_start_instance_that_is_stopped() {
    start_instance(stopped_instance, None).unwrap();
}

#[test]
fn dispatch_test_start_instance_that_is_stopped_with_other_instance_type() {
    start_instance(stopped_instance, Some(InstanceType::new("t2.large"))).unwrap();
}

#[test]
fn dispatch_test_start_instance_that_is_already_started() {
    start_instance(started_instance, None).unwrap();
}

#[test]
fn dispatch_test_start_instance_that_is_already_started_with_other_instance_type() {
    let err = start_instance(started_instance, Some(InstanceType::new("t2.large"))).unwrap_err();
    assert_eq!(
        "instance must be stopped to change its type",
        err.to_string()
    );
}

fn start_instance<F>(instance_builder: F, instance_type: Option<InstanceType>) -> Result<(), Error>
where
    F: FnOnce(&mut MemCloud) -> Result<MemInstance, Error>,
{
    let mut cloud = MemCloud::new()?;
    let inst = instance_builder(&mut cloud)?;

    let mut dns = MemDns::new()?;

    let cmd = Command::Start {
        instance_type: instance_type.clone(),
        names: vec!["inst".to_owned()],
    };

    // test that start command starts the instance
    dispatch(cmd, &mut cloud, &mut dns)?;

    let running_state = inst.try_get_running_state(&cloud)?;
    assert_eq!(true, running_state.is_some()); // i.e. running
    if let &Some(ref instance_type) = &instance_type {
        assert_eq!(*instance_type, running_state.unwrap().instance_type);
    }

    // test that stop command stops the instance, and that it is idempotent
    for _ in 0..2 {
        dispatch(
            Command::Stop {
                names: vec!["inst".to_owned()],
            },
            &mut cloud,
            &mut dns,
        )?;

        let running_state = inst.try_get_running_state(&cloud)?;
        assert_eq!(true, running_state.is_none()); // i.e. stopped
    }

    Ok(())
}

#[test]
fn dispatch_test_bind_simple_hostname_to_root_zone() {
    bind_dns(
        "inst.example.com",
        // should bind to this
        "example.com",
        // and not to any of these
        &["other.example.com", "example.net"],
    )
    .unwrap();
}

#[test]
fn dispatch_test_bind_complex_hostname_to_root_zone() {
    bind_dns(
        "inst.sub.example.com",
        // should bind to this
        "example.com",
        // and not to any of these
        &["other.example.com", "example.net"],
    )
    .unwrap();
}

#[test]
fn dispatch_test_bind_complex_hostname_to_sub_zone() {
    bind_dns(
        "inst.sub.example.com",
        // should bind to this
        "sub.example.com",
        // and not to any of these
        &["example.com", "other.example.com", "example.net"],
    )
    .unwrap();
}

fn bind_dns(inst_fqdn: &str, zone_fqdn: &str, other_zone_fqdns: &[&str]) -> Result<(), Error> {
    let mut cloud = MemCloud::new()?;
    let inst = cloud.create_instance("inst", Some(inst_fqdn), &InstanceType::new("t2.medium"))?;

    let mut dns = MemDns::new()?;
    let zone = dns.create_dns_zone(zone_fqdn)?;
    let mut other_zones = Vec::new();
    for fqdn in other_zone_fqdns {
        other_zones.push(dns.create_dns_zone(fqdn)?);
    }

    let cmd = Command::Start {
        instance_type: None,
        names: vec!["inst".to_owned()],
    };

    // test that start command binds the DNS
    dispatch(cmd, &mut cloud, &mut dns)?;

    let running_state = inst.try_get_running_state(&cloud)?;
    assert_eq!(true, running_state.is_some()); // i.e. running
    assert_eq!(
        Some(running_state.unwrap().addr),
        zone.lookup(&dns, inst_fqdn)?
    );
    for other_zone in &other_zones {
        assert_eq!(None, other_zone.lookup(&dns, inst_fqdn)?);
    }

    // test that stop command unbinds the DNS, and that it is idempotent
    for _ in 0..2 {
        dispatch(
            Command::Stop {
                names: vec!["inst".to_owned()],
            },
            &mut cloud,
            &mut dns,
        )?;

        assert_eq!(None, zone.lookup(&dns, inst_fqdn)?);
        for other_zone in &other_zones {
            assert_eq!(None, other_zone.lookup(&dns, inst_fqdn)?);
        }
    }

    Ok(())
}

fn rule(cidr: &str, protocol: &str) -> IpIngressRule {
    IpIngressRule(cidr.parse().unwrap(), protocol.parse().unwrap())
}

#[test]
fn open_then_close() {
    let mut cloud = MemCloud::new().unwrap();
    let mut dns = MemDns::new().unwrap();
    let fw = cloud.create_firewall("fw").unwrap();
    let untouched = cloud.create_firewall("untouched").unwrap();
    let existing = RuleSet::from_vec(&vec![
        rule("9.9.9.9/32", "443/tcp"),
        rule("1.1.1.1/32", "80/tcp"),
        rule("1.1.0.0/16", "22/tcp"),
    ]);
    fw.add_ingress_rules(&mut cloud, &existing).unwrap();
    untouched.add_ingress_rules(&mut cloud, &existing).unwrap();

    let open = || Command::Open {
        ip_cidrs: vec!["1.1.0.0/16".parse().unwrap(), "9.9.9.9/32".parse().unwrap()],
        ip_protocols: vec!["22/tcp".parse().unwrap(), "80/tcp".parse().unwrap()],
        names: vec!["fw".to_owned()],
    };
    let expected = RuleSet::from_vec(&vec![
        rule("1.1.0.0/16", "22/tcp"),
        rule("1.1.0.0/16", "80/tcp"),
        rule("9.9.9.9/32", "22/tcp"),
        rule("9.9.9.9/32", "80/tcp"),
    ]);
    dispatch(open(), &mut cloud, &mut dns).unwrap();
    assert_eq!(fw.list_ingress_rules(&cloud).unwrap(), expected);
    // a second run of the same command changes nothing
    dispatch(open(), &mut cloud, &mut dns).unwrap();
    assert_eq!(fw.list_ingress_rules(&cloud).unwrap(), expected);
    // a firewall that is not named keeps its rules
    assert_eq!(untouched.list_ingress_rules(&cloud).unwrap(), existing);

    for _ in 0..2 {
        dispatch(
            Command::Close {
                names: vec!["fw".to_owned()],
            },
            &mut cloud,
            &mut dns,
        )
        .unwrap();
        assert_eq!(fw.list_ingress_rules(&cloud).unwrap(), RuleSet::new());
        assert_eq!(untouched.list_ingress_rules(&cloud).unwrap(), existing);
    }
}

#[test]
fn bind_on_start_and_unbind_on_stop() {
    let mut cloud = MemCloud::new().unwrap();
    let inst = cloud
        .create_instance("inst", Some("inst.sub.example.com"), &InstanceType::new("t2.medium"))
        .unwrap();
    let bystander = cloud
        .create_instance("bystander", Some("by.example.com"), &InstanceType::new("t2.medium"))
        .unwrap();
    let mut dns = MemDns::new().unwrap();
    let root = dns.create_dns_zone("example.com").unwrap();
    let sub = dns.create_dns_zone("sub.example.com").unwrap();
    let other = dns.create_dns_zone("other.example.com").unwrap();
    let net = dns.create_dns_zone("example.net").unwrap();
    let fqdn = "inst.sub.example.com";

    for _ in 0..2 {
        dispatch(
            Command::Start {
                instance_type: None,
                names: vec!["inst".to_owned()],
            },
            &mut cloud,
            &mut dns,
        )
        .unwrap();
        let running = inst.try_get_running_state(&cloud).unwrap().unwrap();
        assert_eq!(sub.lookup(&dns, fqdn).unwrap(), Some(running.addr));
        for zone in [&root, &other, &net] {
            assert_eq!(zone.lookup(&dns, fqdn).unwrap(), None);
        }
        // an instance that is not named is left alone
        assert_eq!(bystander.try_get_running_state(&cloud).unwrap(), None);
        assert_eq!(root.lookup(&dns, "by.example.com").unwrap(), None);
    }

    for _ in 0..2 {
        dispatch(
            Command::Stop {
                names: vec!["inst".to_owned()],
            },
            &mut cloud,
            &mut dns,
        )
        .unwrap();
        assert_eq!(inst.try_get_running_state(&cloud).unwrap(), None);
        for zone in [&root, &sub, &other, &net] {
            assert_eq!(zone.lookup(&dns, fqdn).unwrap(), None);
        }
    }
}

#[test]
fn start_fails_where_no_zone_answers_for_the_name() {
    let mut cloud = MemCloud::new().unwrap();
    let inst = cloud
        .create_instance("inst", Some("inst.example.org"), &InstanceType::new("t2.medium"))
        .unwrap();
    let mut dns = MemDns::new().unwrap();
    dns.create_dns_zone("example.com").unwrap();
    let err = dispatch(
        Command::Start {
            instance_type: None,
            names: vec!["inst".to_owned()],
        },
        &mut cloud,
        &mut dns,
    )
    .unwrap_err();
    assert_eq!(
        err,
        Error::NoAuthoritativeZone {
            name: "inst.example.org".to_owned()
        }
    );
    // the name is looked for only once the instance runs
    assert!(inst.try_get_running_state(&cloud).unwrap().is_some());
}

#[test]
fn stop_fails_before_it_touches_the_instance() {
    let mut cloud = MemCloud::new().unwrap();
    let inst = cloud
        .create_instance("inst", Some("inst.example.org"), &InstanceType::new("t2.medium"))
        .unwrap();
    inst.ensure_running(&mut cloud).unwrap();
    let mut dns = MemDns::new().unwrap();
    let err = dispatch(
        Command::Stop {
            names: vec!["inst".to_owned()],
        },
        &mut cloud,
        &mut dns,
    )
    .unwrap_err();
    assert_eq!(
        err.message(),
        "could not find authoritative DNS zone for: inst.example.org"
    );
    assert!(inst.try_get_running_state(&cloud).unwrap().is_some());
}

#[test]
fn the_first_failure_ends_the_run() {
    let mut cloud = MemCloud::new().unwrap();
    let first = cloud.create_instance("inst", None, &InstanceType::new("t2.medium")).unwrap();
    let second = cloud.create_instance("inst", None, &InstanceType::new("t2.medium")).unwrap();
    let third = cloud.create_instance("inst", None, &InstanceType::new("t2.medium")).unwrap();
    second.ensure_running(&mut cloud).unwrap();
    let mut dns = MemDns::new().unwrap();
    let err = dispatch(
        Command::Start {
            instance_type: Some(InstanceType::new("t2.large")),
            names: vec!["inst".to_owned()],
        },
        &mut cloud,
        &mut dns,
    )
    .unwrap_err();
    assert_eq!(err, Error::InstanceMustBeStopped);
    // what was done before the failure stays done, what came after it was not begun
    let state = first.try_get_running_state(&cloud).unwrap().unwrap();
    assert_eq!(state.instance_type, InstanceType::new("t2.large"));
    let state = second.try_get_running_state(&cloud).unwrap().unwrap();
    assert_eq!(state.instance_type, InstanceType::new("t2.medium"));
    assert_eq!(third.try_get_running_state(&cloud).unwrap(), None);
}

#[test]
fn commands_on_no_resource_do_nothing() {
    let mut cloud = MemCloud::new().unwrap();
    let mut dns = MemDns::new().unwrap();
    let fw = cloud.create_firewall("fw").unwrap();
    let kept = RuleSet::from_vec(&vec![rule("1.1.1.1/32", "80/tcp")]);
    fw.add_ingress_rules(&mut cloud, &kept).unwrap();
    let inst = cloud.create_instance("inst", None, &InstanceType::new("t")).unwrap();
    for names in [vec![], vec!["nobody".to_owned()]] {
        dispatch(Command::Close { names: names.clone() }, &mut cloud, &mut dns).unwrap();
        dispatch(
            Command::Start {
                instance_type: None,
                names: names.clone(),
            },
            &mut cloud,
            &mut dns,
        )
        .unwrap();
        dispatch(Command::Stop { names }, &mut cloud, &mut dns).unwrap();
    }
    assert_eq!(fw.list_ingress_rules(&cloud).unwrap(), kept);
    assert_eq!(inst.try_get_running_state(&cloud).unwrap(), None);
}
