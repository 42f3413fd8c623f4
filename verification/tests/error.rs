use drawbridge::error::Error;

#[test]
fn each_error_has_its_message() {
    let text = |s: &str| s.to_owned();
    let cases = vec![
        (Error::InstanceMustBeStopped, "instance must be stopped to change its type".to_owned()),
        (
            Error::NoAuthoritativeZone { name: text("x.example.org") },
            text("could not find authoritative DNS zone for: x.example.org"),
        ),
        (Error::InstanceTerminating, text("instance is terminating")),
        (Error::InstanceTerminated, text("instance is terminated")),
        (Error::InstanceUnknownState { code: 0 }, text("instance is in unknown state: 0")),
        (Error::InstanceUnknownState { code: 255 }, text("instance is in unknown state: 255")),
        (Error::MissingAddress, text("expected running instance to have IPv4 address")),
        (Error::UnknownProtocol { name: text("icmp") }, text("unknown protocol: icmp")),
        (Error::NotAnIpv4Network { text: text("x") }, text("not an IPv4 network: x")),
        (Error::NotAnIpv6Network { text: text("y") }, text("not an IPv6 network: y")),
        (Error::NotAProtocol { text: text("22") }, text("not a protocol: 22")),
        (Error::NotAnIpNetwork { text: text("1/2/3") }, text("not an IP network: 1/2/3")),
        (Error::NotAnIpAddress { text: text("host") }, text("not an IP address: host")),
        (
            Error::MissingNameTag { id: text("i-1") },
            text("expected instance to have Name tag: i-1"),
        ),
        (Error::Exhausted, text("exhausted")),
        (Error::Provider { message: text("request failed") }, text("request failed")),
    ];
    for (error, message) in cases {
        assert_eq!(error.message(), message);
        assert_eq!(error.to_string(), message);
    }
}
