use drawbridge::net::CidrParts;
use drawbridge::net::IpNet;
use drawbridge::net::Ipv4Addr;
use drawbridge::net::Ipv4Net;
use drawbridge::net::Ipv6Net;

#[test]
fn ipv4_network_reads_address_and_prefix() {
    let net = Ipv4Net::parse("10.1.2.3/16").unwrap();
    assert_eq!(net.addr(), 0x0A01_0203);
    assert_eq!(net.prefix_len(), 16);
    assert_eq!(Ipv4Net::parse("0.0.0.0/0").unwrap().prefix_len(), 0);
    assert_eq!(Ipv4Net::parse("255.255.255.255/32").unwrap().addr(), u32::MAX);
}

#[test]
fn ipv4_network_rejects_other_texts() {
    for s in [
        "", "10.1.2.3", "10.1.2.3/33", "10.1.2/8", "10.1.2.256/8", "::1/128", "a/8", " 1.1.1.1/8",
    ] {
        assert!(Ipv4Net::parse(s).is_err(), "{:?}", s);
    }
}

#[test]
fn ipv4_network_writes_dotted_quad_and_prefix() {
    assert_eq!(Ipv4Net::new(0x0A01_0203, 16).unwrap().to_string(), "10.1.2.3/16");
    assert_eq!(Ipv4Net::new(0, 0).unwrap().to_string(), "0.0.0.0/0");
    assert_eq!(Ipv4Net::host(u32::MAX).to_string(), "255.255.255.255/32");
    assert!(Ipv4Net::new(0, 33).is_err());
    assert!(Ipv4Net::new(0, 32).is_ok());
}

#[test]
fn ipv6_network_reads_and_writes() {
    let net = Ipv6Net::parse("fd00::1/64").unwrap();
    assert_eq!(net.addr(), 0xfd00_0000_0000_0000_0000_0000_0000_0001);
    assert_eq!(net.prefix_len(), 64);
    assert_eq!(net.to_string(), "fd00::1/64");
    assert_eq!(Ipv6Net::host(1).to_string(), "::1/128");
    assert!(Ipv6Net::parse("fd00::1/129").is_err());
    assert!(Ipv6Net::parse("10.0.0.0/8").is_err());
    assert!(Ipv6Net::new(0, 129).is_err());
    assert!(Ipv6Net::new(0, 128).is_ok());
}

#[test]
fn ip_network_reads_either_family() {
    assert_eq!(
        IpNet::parse("1.1.0.0/16"),
        Ok(IpNet::V4(Ipv4Net::new(0x0101_0000, 16).unwrap()))
    );
    assert_eq!(
        IpNet::parse("::ffff:1.1.1.1/128"),
        Ok(IpNet::V6(Ipv6Net::new(0xffff_0101_0101, 128).unwrap()))
    );
    assert_eq!("9.9.9.9/32".parse(), Ok(IpNet::V4(Ipv4Net::host(0x0909_0909))));
    assert!(IpNet::parse("9.9.9.9").is_err());
    assert!(IpNet::parse("self").is_err());
    assert!("".parse::<IpNet>().is_err());
}

#[test]
fn ip_network_writes_either_family() {
    assert_eq!(IpNet::V4(Ipv4Net::host(0x0909_0909)).to_string(), "9.9.9.9/32");
    assert_eq!(
        IpNet::V6(Ipv6Net::new(0xffff_0101_0101, 128).unwrap()).to_string(),
        "::ffff:1.1.1.1/128"
    );
}

#[test]
fn ip_network_of_parts_checks_the_prefix() {
    assert_eq!(
        IpNet::from_parts(CidrParts::V4(7, 32)),
        Ok(IpNet::V4(Ipv4Net::new(7, 32).unwrap()))
    );
    assert!(IpNet::from_parts(CidrParts::V4(7, 33)).is_err());
    assert_eq!(
        IpNet::from_parts(CidrParts::V6(7, 128)),
        Ok(IpNet::V6(Ipv6Net::new(7, 128).unwrap()))
    );
    assert!(IpNet::from_parts(CidrParts::V6(7, 129)).is_err());
    assert!(Ipv4Net::from_parts(1, 40).is_err());
    assert!(Ipv6Net::from_parts(1, 200).is_err());
}

#[test]
fn ipv4_address_has_four_octets() {
    let addr = Ipv4Addr::new(192, 0, 2, 1);
    assert_eq!(addr, Ipv4Addr(0xC000_0201));
    assert_eq!(addr.octets(), [192, 0, 2, 1]);
    assert_eq!(addr.to_string(), "192.0.2.1");
    assert_eq!(Ipv4Addr(0).to_string(), "0.0.0.0");
    assert_eq!(Ipv4Addr(u32::MAX).to_string(), "255.255.255.255");
}
