use drawbridge::dns::Dns;
use drawbridge::dns::DnsStore;
use drawbridge::dns::DnsTarget;
use drawbridge::dns::DnsZone;
use drawbridge::error::Error;

#[derive(Debug)]
struct TestDns {
    zones: Vec<TestDnsZone>,
}

#[derive(Debug, Clone)]
struct TestDnsZone {
    name: String,
}

impl TestDnsZone {
    fn new(name: &str) -> TestDnsZone {
        TestDnsZone {
            name: name.to_owned(),
        }
    }
}

impl DnsStore for TestDns {}

impl DnsZone<TestDns> for TestDnsZone {
    fn id(&self) -> &str {
        &self.name
    }
    fn name(&self) -> &str {
        &self.name
    }
    fn bind(&self, _dns: &mut TestDns, _fqdn: &str, _target: DnsTarget) -> Result<(), Error> {
        unreachable!();
    }
    fn unbind(&self, _dns: &mut TestDns, _fqdn: &str) -> Result<(), Error> {
        unreachable!();
    }
}

impl Dns for TestDns {
    type DnsZone = TestDnsZone;
    fn list_zones(&self) -> Result<Vec<Self::DnsZone>, Error> {
        Ok(self.zones.clone())
    }
}

fn find_authoritative_zone_impl() -> Result<(), Error> {
    let dns = TestDns {
        zones: vec![
            TestDnsZone::new("example.com"),
            TestDnsZone::new("sub1.example.com"),
            TestDnsZone::new("sub2.example.com"),
            TestDnsZone::new("unrelated.sub1.example.com"),
            TestDnsZone::new("unrelated.sub2.example.com"),
            TestDnsZone::new("unrelated.sub3.example.com"),
            TestDnsZone::new("unrelated-sub1.example.com"),
            TestDnsZone::new("unrelated-sub2.example.com"),
            TestDnsZone::new("unrelated-sub3.example.com"),
            TestDnsZone::new("example.net"),
        ],
    };

    assert_eq!(
        "example.com",
        dns.find_authoritative_zone("x.example.com")?.name()
    );
    assert_eq!(
        "sub1.example.com",
        dns.find_authoritative_zone("x.sub1.example.com")?.name()
    );
    assert_eq!(
        "sub2.example.com",
        dns.find_authoritative_zone("x.sub2.example.com")?.name()
    );
    // There is no sub3.example.com, so example.com is authoritative
    assert_eq!(
        "example.com",
        dns.find_authoritative_zone("x.sub3.example.com")?.name()
    );

    Ok(())
}

#[test]
fn test_find_authoritative_zone() {
    find_authoritative_zone_impl().unwrap();
}

fn names(list: &[&str]) -> Vec<String> {
    list.iter().map(|n| n.to_string()).collect()
}

#[test]
fn zone_resolution_takes_the_most_specific_zone() {
    let zones = names(&["example.com", "sub1.example.com", "sub2.example.com"]);
    assert_eq!(
        drawbridge::dns::authoritative_index(&zones, "x.sub1.example.com"),
        Some(1)
    );
    // there is no zone sub3.example.com: its nearest registered ancestor answers
    assert_eq!(
        drawbridge::dns::authoritative_index(&zones, "x.sub3.example.com"),
        Some(0)
    );
    assert_eq!(
        drawbridge::dns::authoritative_index(&zones, "sub2.example.com"),
        Some(2)
    );
    assert_eq!(
        drawbridge::dns::authoritative_index(&zones, "example.com"),
        Some(0)
    );
}

#[test]
fn zone_resolution_fails_where_no_zone_covers_the_name() {
    let zones = names(&["example.com", "sub1.example.com"]);
    assert_eq!(drawbridge::dns::authoritative_index(&zones, "example.net"), None);
    assert_eq!(drawbridge::dns::authoritative_index(&zones, "com"), None);
    assert_eq!(drawbridge::dns::authoritative_index(&zones, "badexample.com"), None);
    assert_eq!(drawbridge::dns::authoritative_index(&vec![], "example.com"), None);

    let dns = TestDns {
        zones: vec![TestDnsZone::new("example.com")],
    };
    let err = dns.find_authoritative_zone("x.example.net").unwrap_err();
    assert_eq!(
        err,
        Error::NoAuthoritativeZone {
            name: "x.example.net".to_owned()
        }
    );
    assert_eq!(
        err.message(),
        "could not find authoritative DNS zone for: x.example.net"
    );
}

#[test]
fn zone_resolution_compares_labels_not_characters() {
    // a trailing dot adds no label
    let zones = names(&["example.com."]);
    assert_eq!(drawbridge::dns::authoritative_index(&zones, "x.example.com"), Some(0));
    assert_eq!(drawbridge::dns::authoritative_index(&zones, "x.example.com."), Some(0));
    // the zone without labels covers every name, and loses to any other covering zone
    let zones = names(&["", "com", "example.com"]);
    assert_eq!(drawbridge::dns::authoritative_index(&zones, "x.example.com"), Some(2));
    assert_eq!(drawbridge::dns::authoritative_index(&zones, "x.example.net"), Some(0));
    // a longer text with fewer labels does not win
    let zones = names(&["a.b", "averyveryverylonglabel"]);
    assert_eq!(drawbridge::dns::authoritative_index(&zones, "a.b"), Some(0));
    // labels of a name are compared whole
    let zones = names(&["ple.com"]);
    assert_eq!(drawbridge::dns::authoritative_index(&zones, "x.example.com"), None);
}

#[test]
fn zone_resolution_takes_the_last_of_equal_zones() {
    let zones = names(&["example.com", "example.com.", "com"]);
    assert_eq!(drawbridge::dns::authoritative_index(&zones, "x.example.com"), Some(1));
}

#[test]
fn picking_a_zone_hands_out_the_zone_itself() {
    let zones = vec![
        TestDnsZone::new("example.com"),
        TestDnsZone::new("sub.example.com"),
        TestDnsZone::new("example.net"),
    ];
    let zone = drawbridge::dns::pick_authoritative_zone::<TestDns, TestDnsZone>(
        zones.clone(),
        "inst.sub.example.com",
    )
    .unwrap();
    assert_eq!(zone.name(), "sub.example.com");
    assert_eq!(zone.id(), "sub.example.com");
    let err =
        drawbridge::dns::pick_authoritative_zone::<TestDns, TestDnsZone>(zones, "inst.example.org")
            .unwrap_err();
    assert_eq!(
        err,
        Error::NoAuthoritativeZone {
            name: "inst.example.org".to_owned()
        }
    );
}

#[test]
fn labels_of_a_name() {
    let labels = |s: &str| drawbridge::text::split_labels(s);
    assert_eq!(labels("a.b.c"), vec!["a", "b", "c"]);
    assert_eq!(labels("a.b.c."), vec!["a", "b", "c"]);
    assert_eq!(labels(""), Vec::<String>::new());
    assert_eq!(labels("."), vec![""]);
    assert_eq!(labels("a..b"), vec!["a", "", "b"]);
    assert_eq!(labels("a.b.."), vec!["a", "b", ""]);
    assert_eq!(labels(".a"), vec!["", "a"]);
    assert!(drawbridge::text::labels_end_with(&labels("x.a.b"), &labels("a.b")));
    assert!(drawbridge::text::labels_end_with(&labels("a.b"), &labels("a.b.")));
    assert!(drawbridge::text::labels_end_with(&labels("a.b"), &labels("")));
    assert!(!drawbridge::text::labels_end_with(&labels("a.b"), &labels("x.a.b")));
    assert!(!drawbridge::text::labels_end_with(&labels("xa.b"), &labels("a.b")));
}
