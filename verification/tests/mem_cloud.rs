use drawbridge::cloud::mem::MemCloud;
use drawbridge::cloud::Cloud;
use drawbridge::cloud::Firewall;
use drawbridge::cloud::Instance;
use drawbridge::cloud::InstanceType;
use drawbridge::dns::DnsTarget;
use drawbridge::error::Error;
use drawbridge::iprules::IpIngressRule;
use drawbridge::net::Ipv4Addr;
use drawbridge::ruleset::RuleSet;

fn rule(cidr: &str, protocol: &str) -> IpIngressRule {
    IpIngressRule(cidr.parse().unwrap(), protocol.parse().unwrap())
}

fn set(rules: &[IpIngressRule]) -> RuleSet {
    RuleSet::from_vec(&rules.to_vec())
}

fn names(list: &[&str]) -> Vec<String> {
    list.iter().map(|n| n.to_string()).collect()
}

#[test]
fn firewalls_and_instances_share_the_counter() {
    let mut cloud = MemCloud::new().unwrap();
    let fw = cloud.create_firewall("fw").unwrap();
    let inst = cloud
        .create_instance("inst", Some("inst.example.com"), &InstanceType::new("t2.medium"))
        .unwrap();
    let fw2 = cloud.create_firewall("fw2").unwrap();
    assert_eq!(fw.id(), "0");
    assert_eq!(inst.id(), "1");
    assert_eq!(fw2.id(), "2");
    assert_eq!(fw.name(), "fw");
    assert_eq!(inst.name(), "inst");
    assert_eq!(inst.fqdn(), Some("inst.example.com"));
}

#[test]
fn instances_get_the_hosts_of_the_whole_address_space() {
    let mut cloud = MemCloud::new().unwrap();
    let one = cloud.create_instance("one", None, &InstanceType::new("t")).unwrap();
    let two = cloud.create_instance("two", None, &InstanceType::new("t")).unwrap();
    assert_eq!(one.fqdn(), None);
    let first = one.ensure_running(&mut cloud).unwrap();
    let second = two.ensure_running(&mut cloud).unwrap();
    // the network address 0.0.0.0 is no host
    assert_eq!(first.addr, DnsTarget::A(Ipv4Addr::new(0, 0, 0, 1)));
    assert_eq!(second.addr, DnsTarget::A(Ipv4Addr::new(0, 0, 0, 2)));
    assert_eq!(first.instance_type, InstanceType::new("t"));
}

#[test]
fn lookup_is_by_name() {
    let mut cloud = MemCloud::new().unwrap();
    cloud.create_firewall("a").unwrap();
    cloud.create_firewall("b").unwrap();
    cloud.create_firewall("a").unwrap();
    cloud.create_instance("a", None, &InstanceType::new("t")).unwrap();
    let found = cloud.list_firewalls(&names(&["a"])).unwrap();
    assert_eq!(found.iter().map(|f| f.id().to_owned()).collect::<Vec<_>>(), vec!["0", "2"]);
    let found = cloud.list_firewalls(&names(&["b", "a", "c"])).unwrap();
    assert_eq!(found.len(), 3);
    assert!(cloud.list_firewalls(&names(&["c"])).unwrap().is_empty());
    assert!(cloud.list_firewalls(&names(&[])).unwrap().is_empty());
    let found = cloud.list_instances(&names(&["a", "b"])).unwrap();
    assert_eq!(found.iter().map(|i| i.id().to_owned()).collect::<Vec<_>>(), vec!["3"]);
}

#[test]
fn rules_are_added_and_removed() {
    let mut cloud = MemCloud::new().unwrap();
    let fw = cloud.create_firewall("fw").unwrap();
    let other = cloud.create_firewall("other").unwrap();
    let a = rule("1.1.0.0/16", "22/tcp");
    let b = rule("9.9.9.9/32", "80/tcp");
    let c = rule("fd00::/8", "443/udp");
    assert!(fw.list_ingress_rules(&cloud).unwrap().is_empty());
    fw.add_ingress_rules(&mut cloud, &set(&[a, b])).unwrap();
    fw.add_ingress_rules(&mut cloud, &set(&[b, c])).unwrap();
    assert_eq!(fw.list_ingress_rules(&cloud).unwrap(), set(&[a, b, c]));
    fw.remove_ingress_rules(&mut cloud, &set(&[b, rule("8.8.8.8/32", "53/udp")])).unwrap();
    assert_eq!(fw.list_ingress_rules(&cloud).unwrap(), set(&[a, c]));
    assert!(other.list_ingress_rules(&cloud).unwrap().is_empty());
}

#[test]
fn a_handle_of_another_provider_is_unknown() {
    let mut one = MemCloud::new().unwrap();
    let mut two = MemCloud::new().unwrap();
    one.create_firewall("x").unwrap();
    let fw = one.create_firewall("fw").unwrap();
    let inst = one.create_instance("inst", None, &InstanceType::new("t")).unwrap();
    two.create_firewall("only").unwrap();
    assert_eq!(
        fw.list_ingress_rules(&two).unwrap_err().message(),
        "no such resource: 1"
    );
    assert!(fw.add_ingress_rules(&mut two, &set(&[rule("1.1.1.1/32", "1/tcp")])).is_err());
    assert!(fw.remove_ingress_rules(&mut two, &set(&[rule("1.1.1.1/32", "1/tcp")])).is_err());
    assert!(inst.ensure_running(&mut two).is_err());
    assert!(inst.ensure_stopped(&mut two).is_err());
    assert!(inst.try_ensure_instance_type(&mut two, &InstanceType::new("t")).is_err());
    assert_eq!(
        inst.try_get_running_state(&two).unwrap_err(),
        Error::Provider { message: "no such resource: 2".to_owned() }
    );
}

#[test]
fn stored_type_changes_only_while_stopped() {
    let mut cloud = MemCloud::new().unwrap();
    let inst = cloud.create_instance("inst", None, &InstanceType::new("t2.medium")).unwrap();
    // a new instance is stopped
    assert_eq!(inst.try_get_running_state(&cloud).unwrap(), None);
    inst.try_ensure_instance_type(&mut cloud, &InstanceType::new("t2.large")).unwrap();
    let running = inst.ensure_running(&mut cloud).unwrap();
    assert_eq!(running.instance_type, InstanceType::new("t2.large"));
    assert_eq!(inst.try_get_running_state(&cloud).unwrap(), Some(running));

    // while it runs, the type it has is accepted and another type is refused
    inst.try_ensure_instance_type(&mut cloud, &InstanceType::new("t2.large")).unwrap();
    let err = inst
        .try_ensure_instance_type(&mut cloud, &InstanceType::new("t2.small"))
        .unwrap_err();
    assert_eq!(err, Error::InstanceMustBeStopped);
    assert_eq!(err.message(), "instance must be stopped to change its type");
    // the refused change left the type as it was
    let state = inst.try_get_running_state(&cloud).unwrap().unwrap();
    assert_eq!(state.instance_type, InstanceType::new("t2.large"));

    inst.ensure_stopped(&mut cloud).unwrap();
    assert_eq!(inst.try_get_running_state(&cloud).unwrap(), None);
    inst.try_ensure_instance_type(&mut cloud, &InstanceType::new("t2.small")).unwrap();
    let running = inst.ensure_running(&mut cloud).unwrap();
    assert_eq!(running.instance_type, InstanceType::new("t2.small"));
}

#[test]
fn identifiers_run_out() {
    let mut cloud = MemCloud::starting_at(u32::MAX - 2, 0);
    let fw = cloud.create_firewall("fw").unwrap();
    assert_eq!(fw.id(), "4294967293");
    let inst = cloud.create_instance("inst", None, &InstanceType::new("t")).unwrap();
    assert_eq!(inst.id(), "4294967294");
    assert_eq!(cloud.create_firewall("late").unwrap_err(), Error::Exhausted);
    let err = cloud.create_instance("late", None, &InstanceType::new("t")).unwrap_err();
    assert_eq!(err, Error::Exhausted);
    assert_eq!(err.message(), "exhausted");
    // what was made before stays
    assert!(fw.list_ingress_rules(&cloud).unwrap().is_empty());
    assert_eq!(inst.try_get_running_state(&cloud).unwrap(), None);
}

#[test]
fn addresses_run_out() {
    let mut cloud = MemCloud::starting_at(7, 0xFFFF_FFFD);
    let last = cloud.create_instance("last", None, &InstanceType::new("t")).unwrap();
    assert_eq!(last.id(), "7");
    assert_eq!(
        last.ensure_running(&mut cloud).unwrap().addr,
        DnsTarget::A(Ipv4Addr::new(255, 255, 255, 254))
    );
    // the broadcast address 255.255.255.255 is no host
    let err = cloud.create_instance("late", None, &InstanceType::new("t")).unwrap_err();
    assert_eq!(err, Error::Exhausted);
    // the identifier of the instance that could not be made is spent
    assert_eq!(cloud.create_firewall("fw").unwrap().id(), "9");
}
