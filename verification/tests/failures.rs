use drawbridge::cloud::mem::MemCloud;
use drawbridge::cloud::InstanceType;
use drawbridge::dispatch::start_instance;
use drawbridge::dispatch::stop_instance;
use drawbridge::dispatch::sync_dns;
use drawbridge::dns::mem::MemDns;
use drawbridge::dns::Dns;
use drawbridge::dns::DnsStore;
use drawbridge::dns::DnsTarget;
use drawbridge::dns::DnsZone;
use drawbridge::error::Error;
use drawbridge::net::Ipv4Addr;

/// A provider of one zone, `example.com`, that fails where it is told to.
struct Failing {
    fail_on: &'static str,
    bound: Vec<String>,
}

struct FailingZone;

fn failed(what: &str) -> Error {
    Error::Provider {
        message: format!("{} failed", what),
    }
}

impl DnsStore for Failing {}

impl DnsZone<Failing> for FailingZone {
    fn id(&self) -> &str {
        "zone-1"
    }
    fn name(&self) -> &str {
        "example.com"
    }
    fn bind(&self, dns: &mut Failing, fqdn: &str, _target: DnsTarget) -> Result<(), Error> {
        if dns.fail_on == "bind" {
            return Err(failed("bind"));
        }
        dns.bound.push(fqdn.to_owned());
        Ok(())
    }
    fn unbind(&self, dns: &mut Failing, fqdn: &str) -> Result<(), Error> {
        if dns.fail_on == "unbind" {
            return Err(failed("unbind"));
        }
        dns.bound.retain(|name| name != fqdn);
        Ok(())
    }
}

impl Dns for Failing {
    type DnsZone = FailingZone;
    fn list_zones(&self) -> Result<Vec<FailingZone>, Error> {
        if self.fail_on == "list" {
            return Err(failed("list"));
        }
        Ok(vec![FailingZone])
    }
}

fn address() -> DnsTarget {
    DnsTarget::A(Ipv4Addr::new(192, 0, 2, 7))
}

#[test]
fn a_failed_listing_is_the_error_of_the_search() {
    let dns = Failing {
        fail_on: "list",
        bound: vec![],
    };
    let err = dns.find_authoritative_zone("a.example.com").err().unwrap();
    assert_eq!(err, failed("list"));
    // the name of a zone that is not there is not the reason
    let err = dns.find_authoritative_zone("a.example.org").err().unwrap();
    assert_eq!(err, failed("list"));
}

#[test]
fn a_search_that_finds_no_zone_names_the_name() {
    let dns = Failing {
        fail_on: "",
        bound: vec![],
    };
    assert_eq!(dns.find_authoritative_zone("a.example.com").ok().unwrap().id(), "zone-1");
    let err = dns.find_authoritative_zone("a.example.org").err().unwrap();
    assert_eq!(
        err,
        Error::NoAuthoritativeZone {
            name: "a.example.org".to_owned()
        }
    );
}

#[test]
fn a_failed_request_is_the_error_of_the_sync() {
    for step in ["list", "bind", "unbind"] {
        let mut dns = Failing {
            fail_on: step,
            bound: vec!["a.example.com".to_owned()],
        };
        let target = if step == "unbind" { None } else { Some(address()) };
        let err = sync_dns(&mut dns, "a.example.com", target).unwrap_err();
        assert_eq!(err, failed(step));
        assert_eq!(dns.bound, vec!["a.example.com".to_owned()]);
    }
}

#[test]
fn a_name_without_a_zone_changes_no_record() {
    let mut dns = MemDns::new().unwrap();
    let zone = dns.create_dns_zone("example.com").unwrap();
    zone.bind(&mut dns, "a.example.com", address()).unwrap();
    for target in [Some(address()), None] {
        let err = sync_dns(&mut dns, "a.example.org", target).unwrap_err();
        assert_eq!(
            err,
            Error::NoAuthoritativeZone {
                name: "a.example.org".to_owned()
            }
        );
        assert_eq!(zone.lookup(&dns, "a.example.com").unwrap(), Some(address()));
        assert_eq!(zone.lookup(&dns, "a.example.org").unwrap(), None);
    }
}

#[test]
fn a_refused_type_change_leaves_everything_as_it_was() {
    let mut cloud = MemCloud::new().unwrap();
    let mut dns = MemDns::new().unwrap();
    let zone = dns.create_dns_zone("example.com").unwrap();
    let inst = cloud
        .create_instance("inst", Some("inst.example.com"), &InstanceType::new("t2.medium"))
        .unwrap();
    start_instance(&inst, &mut cloud, &mut dns, &None).unwrap();
    zone.unbind(&mut dns, "inst.example.com").unwrap();

    let wanted = Some(InstanceType::new("t2.large"));
    let err = start_instance(&inst, &mut cloud, &mut dns, &wanted).unwrap_err();
    assert_eq!(err, Error::InstanceMustBeStopped);
    let state = inst.try_get_running_state(&cloud).unwrap().unwrap();
    assert_eq!(state.instance_type, InstanceType::new("t2.medium"));
    // the name is not bound again: the failure came before
    assert_eq!(zone.lookup(&dns, "inst.example.com").unwrap(), None);

    // the type that the instance has is no change, and is not refused
    let same = Some(InstanceType::new("t2.medium"));
    start_instance(&inst, &mut cloud, &mut dns, &same).unwrap();
    assert_eq!(zone.lookup(&dns, "inst.example.com").unwrap(), Some(state.addr));
}

#[test]
fn an_instance_of_another_provider_fails_with_the_error_of_the_provider() {
    let mut one = MemCloud::new().unwrap();
    let mut two = MemCloud::new().unwrap();
    let mut dns = MemDns::new().unwrap();
    let zone = dns.create_dns_zone("example.com").unwrap();
    zone.bind(&mut dns, "inst.example.com", address()).unwrap();
    let stray = one
        .create_instance("inst", Some("inst.example.com"), &InstanceType::new("t2.medium"))
        .unwrap();
    let unknown = Error::Provider {
        message: "no such resource: 0".to_owned(),
    };

    let err = start_instance(&stray, &mut two, &mut dns, &None).unwrap_err();
    assert_eq!(err, unknown);
    // nothing is bound for an instance that was not brought to run
    assert_eq!(zone.lookup(&dns, "inst.example.com").unwrap(), Some(address()));

    let err = stop_instance(&stray, &mut two, &mut dns).unwrap_err();
    assert_eq!(err, unknown);
    // the name is unbound first, the instance is asked to stop after that
    assert_eq!(zone.lookup(&dns, "inst.example.com").unwrap(), None);
}

#[test]
fn stopping_an_instance_without_a_zone_does_not_stop_it() {
    let mut cloud = MemCloud::new().unwrap();
    let mut dns = MemDns::new().unwrap();
    let inst = cloud
        .create_instance("inst", Some("inst.example.org"), &InstanceType::new("t2.medium"))
        .unwrap();
    let err = start_instance(&inst, &mut cloud, &mut dns, &None).unwrap_err();
    assert_eq!(
        err,
        Error::NoAuthoritativeZone {
            name: "inst.example.org".to_owned()
        }
    );
    // the instance was brought to run before the name was looked for
    assert!(inst.try_get_running_state(&cloud).unwrap().is_some());
    let err = stop_instance(&inst, &mut cloud, &mut dns).unwrap_err();
    assert_eq!(
        err,
        Error::NoAuthoritativeZone {
            name: "inst.example.org".to_owned()
        }
    );
    assert!(inst.try_get_running_state(&cloud).unwrap().is_some());
}
