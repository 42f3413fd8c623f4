use drawbridge::iprules::IpIngressRule;
use drawbridge::iprules::IpPortRange;
use drawbridge::iprules::IpProtocol;

fn port_range_display_and_parse(v: IpPortRange, s: &str) {
    assert_eq!(v.to_string(), s);
    assert_eq!(s.parse(), Ok(v));
}

fn protocol_display_and_parse(v: IpProtocol, s: &str) {
    assert_eq!(v.to_string(), s);
    assert_eq!(s.parse(), Ok(v));
}

#[test]
fn test_port_range_display_and_parse() {
    port_range_display_and_parse(IpPortRange(1, 1), "1");
    port_range_display_and_parse(IpPortRange(1, 10), "1-10");
    port_range_display_and_parse(IpPortRange(1, 65_535), "1-65535");
}

#[test]
fn test_protocol_display_and_parse() {
    protocol_display_and_parse(IpProtocol::Tcp(IpPortRange(1, 1)), "1/tcp");
    protocol_display_and_parse(IpProtocol::Tcp(IpPortRange(1, 10)), "1-10/tcp");
    protocol_display_and_parse(IpProtocol::Tcp(IpPortRange(1, 65_535)), "1-65535/tcp");

    protocol_display_and_parse(IpProtocol::Udp(IpPortRange(1, 1)), "1/udp");
    protocol_display_and_parse(IpProtocol::Udp(IpPortRange(1, 10)), "1-10/udp");
    protocol_display_and_parse(IpProtocol::Udp(IpPortRange(1, 65_535)), "1-65535/udp");
}

#[test]
fn port_range_accepts_one_port_or_two() {
    assert_eq!("22".parse(), Ok(IpPortRange(22, 22)));
    assert_eq!("60000-61000".parse(), Ok(IpPortRange(60000, 61000)));
    assert_eq!("0".parse(), Ok(IpPortRange(0, 0)));
    assert_eq!("65535".parse(), Ok(IpPortRange(65535, 65535)));
    assert_eq!("0022".parse(), Ok(IpPortRange(22, 22)));
}

#[test]
fn port_range_accepts_a_leading_plus() {
    assert_eq!("+22".parse(), Ok(IpPortRange(22, 22)));
    assert_eq!("+1-+2".parse(), Ok(IpPortRange(1, 2)));
}

#[test]
fn port_range_keeps_an_inverted_range() {
    assert_eq!("10-1".parse(), Ok(IpPortRange(10, 1)));
    assert_eq!(IpPortRange(10, 1).to_string(), "10-1");
}

#[test]
fn port_range_rejects_other_texts() {
    for s in [
        "", "+", "-", "1-", "-1", "1-2-3", "65536", "99999999999999999999", "1 ", " 1", "a",
        "1-a", "1--2", "1,2", "１",
    ] {
        assert!(IpPortRange::parse(s).is_err(), "{:?}", s);
        assert!(s.parse::<IpPortRange>().is_err(), "{:?}", s);
    }
}

#[test]
fn protocol_accepts_tcp_and_udp() {
    assert_eq!("22/tcp".parse(), Ok(IpProtocol::Tcp(IpPortRange(22, 22))));
    assert_eq!(
        "60000-61000/udp".parse(),
        Ok(IpProtocol::Udp(IpPortRange(60000, 61000)))
    );
    assert_eq!(
        IpProtocol::Udp(IpPortRange(60000, 61000)).port_range(),
        IpPortRange(60000, 61000)
    );
}

#[test]
fn protocol_rejects_other_texts() {
    for s in [
        "", "22", "/tcp", "22/", "22/icmp", "22/TCP", "22/tcp/", "22/tcp/udp", "tcp/22",
        "22 /tcp", "65536/tcp", "1-2-3/udp", "/",
    ] {
        assert!(IpProtocol::parse(s).is_err(), "{:?}", s);
        assert!(s.parse::<IpProtocol>().is_err(), "{:?}", s);
    }
}

#[test]
fn every_port_range_text_reads_back() {
    for from in [0u16, 1, 9, 10, 99, 100, 1000, 9999, 10000, 65534, 65535] {
        for to in [0u16, 7, 80, 443, 65535] {
            let range = IpPortRange(from, to);
            assert_eq!(range.to_string().parse(), Ok(range));
            let tcp = IpProtocol::Tcp(range);
            assert_eq!(tcp.to_string().parse(), Ok(tcp));
            let udp = IpProtocol::Udp(range);
            assert_eq!(udp.to_string().parse(), Ok(udp));
        }
    }
}

#[test]
fn rule_text_names_protocol_then_network() {
    let rule = IpIngressRule(
        "10.1.0.0/16".parse().unwrap(),
        IpProtocol::Tcp(IpPortRange(22, 22)),
    );
    assert_eq!(rule.to_string(), "22/tcp -> 10.1.0.0/16");
}
