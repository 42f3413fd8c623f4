use drawbridge::dns::mem::MemDns;
use drawbridge::dns::Dns;
use drawbridge::dns::DnsTarget;
use drawbridge::dns::DnsZone;
use drawbridge::error::Error;
use drawbridge::net::Ipv4Addr;

#[test]
fn zones_get_identifiers_in_order() {
    let mut dns = MemDns::new().unwrap();
    let a = dns.create_dns_zone("example.com").unwrap();
    let b = dns.create_dns_zone("example.net").unwrap();
    assert_eq!(a.id(), "0");
    assert_eq!(b.id(), "1");
    assert_eq!(a.name(), "example.com");
    let listed = dns.list_zones().unwrap();
    assert_eq!(listed.len(), 2);
    assert_eq!(listed[0].id(), "0");
    assert_eq!(listed[0].name(), "example.com");
    assert_eq!(listed[1].id(), "1");
    assert_eq!(listed[1].name(), "example.net");
}

#[test]
fn bind_replaces_and_unbind_removes() {
    let mut dns = MemDns::new().unwrap();
    let zone = dns.create_dns_zone("example.com").unwrap();
    let other = dns.create_dns_zone("example.net").unwrap();
    let first = DnsTarget::A(Ipv4Addr::new(192, 0, 2, 1));
    let second = DnsTarget::Cname("host.example.org".to_owned());

    assert_eq!(zone.lookup(&dns, "a.example.com").unwrap(), None);
    zone.bind(&mut dns, "a.example.com", first.clone()).unwrap();
    assert_eq!(zone.lookup(&dns, "a.example.com").unwrap(), Some(first.clone()));
    // a second bind of the same name replaces the record
    zone.bind(&mut dns, "a.example.com", second.clone()).unwrap();
    assert_eq!(zone.lookup(&dns, "a.example.com").unwrap(), Some(second.clone()));
    // binding the same target again changes nothing
    zone.bind(&mut dns, "a.example.com", second.clone()).unwrap();
    assert_eq!(zone.lookup(&dns, "a.example.com").unwrap(), Some(second.clone()));
    // other names and other zones are left alone
    zone.bind(&mut dns, "b.example.com", first.clone()).unwrap();
    assert_eq!(zone.lookup(&dns, "a.example.com").unwrap(), Some(second));
    assert_eq!(other.lookup(&dns, "a.example.com").unwrap(), None);

    zone.unbind(&mut dns, "a.example.com").unwrap();
    assert_eq!(zone.lookup(&dns, "a.example.com").unwrap(), None);
    assert_eq!(zone.lookup(&dns, "b.example.com").unwrap(), Some(first));
    // unbinding a name that has no record is no error
    zone.unbind(&mut dns, "a.example.com").unwrap();
    zone.unbind(&mut dns, "never.example.com").unwrap();
    assert_eq!(zone.lookup(&dns, "a.example.com").unwrap(), None);
}

#[test]
fn a_zone_of_another_provider_is_unknown() {
    let mut one = MemDns::new().unwrap();
    let mut two = MemDns::new().unwrap();
    one.create_dns_zone("example.com").unwrap();
    let stray = one.create_dns_zone("example.net").unwrap();
    two.create_dns_zone("example.org").unwrap();
    assert_eq!(
        stray.lookup(&two, "x.example.net").unwrap_err().message(),
        "no such zone: 1"
    );
    assert!(stray.unbind(&mut two, "x.example.net").is_err());
    assert!(stray
        .bind(&mut two, "x.example.net", DnsTarget::A(Ipv4Addr(1)))
        .is_err());
    assert_eq!(two.list_zones().unwrap().len(), 1);
}

#[test]
fn finds_the_zone_among_its_own() {
    let mut dns = MemDns::new().unwrap();
    dns.create_dns_zone("example.com").unwrap();
    let sub = dns.create_dns_zone("sub.example.com").unwrap();
    dns.create_dns_zone("other.example.com").unwrap();
    dns.create_dns_zone("example.net").unwrap();
    let found = dns.find_authoritative_zone("inst.sub.example.com").unwrap();
    assert_eq!(found.id(), sub.id());
    assert_eq!(found.name(), "sub.example.com");
    assert!(dns.find_authoritative_zone("inst.example.org").is_err());
}

#[test]
fn zone_identifiers_run_out() {
    let mut dns = MemDns::starting_at(u32::MAX - 1);
    let zone = dns.create_dns_zone("example.com").unwrap();
    assert_eq!(zone.id(), "4294967294");
    assert_eq!(dns.create_dns_zone("example.net").unwrap_err(), Error::Exhausted);
    assert_eq!(dns.list_zones().unwrap().len(), 1);
}
