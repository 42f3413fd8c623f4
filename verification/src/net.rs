//! IP networks in CIDR notation, held as plain integers.
//!
//! Reading and writing the textual form is left to the `ipnet` crate; the types here carry
//! the address and the prefix length, and keep the prefix length within the address width.

use crate::text::decimal_string;
use crate::text::decimal_text;
use vstd::prelude::*;
use vstd::string::*;

verus! {

/// The parse error of the `ipnet` crate, carried from the call to the place that maps it.
#[verifier::external_type_specification]
#[verifier::external_body]
pub struct ExAddrParseError(ipnet::AddrParseError);

/// Address and prefix length as read from a CIDR text.
#[derive(Copy, Clone, PartialEq, Eq, Structural, Debug)]
pub enum CidrParts {
    V4(u32, u8),
    V6(u128, u8),
}

/// What `ipnet::IpNet::from_str` reads from a text; `None` where it rejects the text.
pub uninterp spec fn ip_net_parsed(s: Seq<char>) -> Option<CidrParts>;

/// What `ipnet::Ipv4Net::from_str` reads from a text: address and prefix length.
pub uninterp spec fn ipv4_net_parsed(s: Seq<char>) -> Option<(u32, u8)>;

/// What `ipnet::Ipv6Net::from_str` reads from a text: address and prefix length.
pub uninterp spec fn ipv6_net_parsed(s: Seq<char>) -> Option<(u128, u8)>;

/// How `ipnet::Ipv6Net` displays an address with a prefix length.
pub uninterp spec fn ipv6_net_text(addr: u128, prefix_len: u8) -> Seq<char>;

/// The four octets of an IPv4 address in decimal, most significant first, joined by dots.
pub open spec fn ipv4_addr_text(addr: u32) -> Seq<char> {
    decimal_text((addr / 0x100_0000) as nat) + seq!['.'] + decimal_text(
        (addr / 0x1_0000 % 0x100) as nat,
    ) + seq!['.'] + decimal_text((addr / 0x100 % 0x100) as nat) + seq!['.'] + decimal_text(
        (addr % 0x100) as nat,
    )
}

/// An IPv4 network in CIDR notation: the address, a slash, the prefix length.
pub open spec fn ipv4_net_text(addr: u32, prefix_len: u8) -> Seq<char> {
    ipv4_addr_text(addr) + seq!['/'] + decimal_text(prefix_len as nat)
}

/// Calls `ipnet::IpNet::from_str` and hands back the address and prefix length it read.
/// The result is that function's alone, so it is named, not described.
#[verifier::external_body]
fn ip_net_from_str(s: &str) -> (r: Result<CidrParts, ipnet::AddrParseError>)
    ensures
        r is Ok <==> ip_net_parsed(s@) is Some,
        r matches Ok(parts) ==> ip_net_parsed(s@) == Some(parts),
{
    match s.parse::<ipnet::IpNet>() {
        Ok(ipnet::IpNet::V4(net)) => Ok(CidrParts::V4(net.addr().into(), net.prefix_len())),
        Ok(ipnet::IpNet::V6(net)) => Ok(CidrParts::V6(net.addr().into(), net.prefix_len())),
        Err(e) => Err(e),
    }
}

/// Calls `ipnet::Ipv4Net::from_str` and hands back the address and prefix length it read.
#[verifier::external_body]
fn ipv4_net_from_str(s: &str) -> (r: Result<(u32, u8), ipnet::AddrParseError>)
    ensures
        r is Ok <==> ipv4_net_parsed(s@) is Some,
        r matches Ok(parts) ==> ipv4_net_parsed(s@) == Some(parts),
{
    match s.parse::<ipnet::Ipv4Net>() {
        Ok(net) => Ok((net.addr().into(), net.prefix_len())),
        Err(e) => Err(e),
    }
}

/// Calls `ipnet::Ipv6Net::from_str` and hands back the address and prefix length it read.
#[verifier::external_body]
fn ipv6_net_from_str(s: &str) -> (r: Result<(u128, u8), ipnet::AddrParseError>)
    ensures
        r is Ok <==> ipv6_net_parsed(s@) is Some,
        r matches Ok(parts) ==> ipv6_net_parsed(s@) == Some(parts),
{
    match s.parse::<ipnet::Ipv6Net>() {
        Ok(net) => Ok((net.addr().into(), net.prefix_len())),
        Err(e) => Err(e),
    }
}

/// Displays an `ipnet::Ipv4Net` made of the given address and prefix length. The crate
/// writes the address as a dotted quad, then a slash and the prefix length in decimal.
/// `Ipv4Net::new` refuses a prefix length above 32, which `requires` leaves out.
#[verifier::external_body]
fn ipv4_net_to_string(addr: u32, prefix_len: u8) -> (s: String)
    requires
        prefix_len <= 32,
    ensures
        s@ == ipv4_net_text(addr, prefix_len),
{
    ipnet::Ipv4Net::new(addr.into(), prefix_len).unwrap().to_string()
}

/// Displays an `ipnet::Ipv6Net` made of the given address and prefix length.
/// `Ipv6Net::new` refuses a prefix length above 128, which `requires` leaves out.
#[verifier::external_body]
fn ipv6_net_to_string(addr: u128, prefix_len: u8) -> (s: String)
    requires
        prefix_len <= 128,
    ensures
        s@ == ipv6_net_text(addr, prefix_len),
{
    ipnet::Ipv6Net::new(addr.into(), prefix_len).unwrap().to_string()
}

/// The error of a text that is no CIDR network.
#[derive(Copy, Clone, PartialEq, Eq, Debug)]
pub struct ParseIpNetError(());

/// The error of a prefix length that exceeds the address width.
#[derive(Copy, Clone, PartialEq, Eq, Structural, Debug)]
pub struct PrefixLenError;

/// An IPv4 network: a 32-bit address and a prefix length of at most 32.
#[derive(Copy, Clone, Hash, PartialEq, Eq, Structural, Debug)]
pub struct Ipv4Net {
    addr: u32,
    prefix_len: u8,
}

/// An IPv6 network: a 128-bit address and a prefix length of at most 128.
#[derive(Copy, Clone, Hash, PartialEq, Eq, Structural, Debug)]
pub struct Ipv6Net {
    addr: u128,
    prefix_len: u8,
}

/// An IPv4 or IPv6 network.
#[derive(Copy, Clone, Hash, PartialEq, Eq, Structural, Debug)]
pub enum IpNet {
    V4(Ipv4Net),
    V6(Ipv6Net),
}

impl Ipv4Net {
    #[verifier::type_invariant]
    spec fn prefix_in_range(self) -> bool {
        self.prefix_len <= 32
    }

    pub closed spec fn spec_addr(&self) -> u32 {
        self.addr
    }

    pub closed spec fn spec_prefix_len(&self) -> u8 {
        self.prefix_len
    }

    /// The network with the address `addr` and the prefix length `prefix_len`.
    pub closed spec fn of_parts(addr: u32, prefix_len: u8) -> Ipv4Net {
        Ipv4Net { addr, prefix_len }
    }

    /// A network is its address and its prefix length, and nothing else.
    pub proof fn lemma_of_parts(addr: u32, prefix_len: u8)
        ensures
            Self::of_parts(addr, prefix_len).addr() == addr,
            Self::of_parts(addr, prefix_len).prefix_len() == prefix_len,
    {
    }

    /// Two networks with the same address and prefix length are the same network.
    pub proof fn lemma_same_parts(self, other: Ipv4Net)
        requires
            self.addr() == other.addr(),
            self.prefix_len() == other.prefix_len(),
        ensures
            self == other,
    {
    }

    /// The network that a CIDR text denotes: what `ipnet` reads from it, if the prefix
    /// length it read fits.
    pub open spec fn of_text(s: Seq<char>) -> Option<Ipv4Net> {
        match ipv4_net_parsed(s) {
            Some(parts) => if parts.1 <= 32 {
                Some(Self::of_parts(parts.0, parts.1))
            } else {
                None
            },
            None => None,
        }
    }

    /// The network with the given address and prefix length, if the prefix length fits.
    pub fn new(addr: u32, prefix_len: u8) -> (r: Result<Ipv4Net, PrefixLenError>)
        ensures
            r is Ok <==> prefix_len <= 32,
            r matches Ok(net) ==> net == Self::of_parts(addr, prefix_len) && net.addr() == addr
                && net.prefix_len() == prefix_len,
    {
        if prefix_len > 32 {
            Err(PrefixLenError)
        } else {
            Ok(Ipv4Net { addr, prefix_len })
        }
    }

    /// The network that holds the single address `addr`.
    pub fn host(addr: u32) -> (net: Ipv4Net)
        ensures
            net == Self::of_parts(addr, 32),
            net.addr() == addr,
            net.prefix_len() == 32,
    {
        Ipv4Net { addr, prefix_len: 32 }
    }

    #[verifier::when_used_as_spec(spec_addr)]
    pub fn addr(&self) -> (a: u32)
        ensures
            a == self.spec_addr(),
    {
        self.addr
    }

    #[verifier::when_used_as_spec(spec_prefix_len)]
    pub fn prefix_len(&self) -> (p: u8)
        ensures
            p == self.spec_prefix_len(),
            p <= 32,
    {
        proof {
            use_type_invariant(self);
        }
        self.prefix_len
    }

    /// The network of an address and prefix length that were read from a text.
    pub fn from_parts(addr: u32, prefix_len: u8) -> (r: Result<Ipv4Net, ParseIpNetError>)
        ensures
            r is Ok <==> prefix_len <= 32,
            r matches Ok(net) ==> net == Self::of_parts(addr, prefix_len),
    {
        match Ipv4Net::new(addr, prefix_len) {
            Ok(net) => Ok(net),
            Err(_) => Err(ParseIpNetError(())),
        }
    }

    /// Reads a network from its CIDR text, as `ipnet` reads it.
    pub fn parse(s: &str) -> (r: Result<Ipv4Net, ParseIpNetError>)
        ensures
            match r {
                Ok(net) => Self::of_text(s@) == Some(net),
                Err(_) => Self::of_text(s@) is None,
            },
    {
        match ipv4_net_from_str(s) {
            Ok(parts) => Self::from_parts(parts.0, parts.1),
            Err(_) => Err(ParseIpNetError(())),
        }
    }

    /// The CIDR text of the network.
    pub fn to_string(&self) -> (s: String)
        ensures
            s@ == ipv4_net_text(self.addr(), self.prefix_len()),
    {
        ipv4_net_to_string(self.addr, self.prefix_len())
    }
}

impl Ipv6Net {
    #[verifier::type_invariant]
    spec fn prefix_in_range(self) -> bool {
        self.prefix_len <= 128
    }

    pub closed spec fn spec_addr(&self) -> u128 {
        self.addr
    }

    pub closed spec fn spec_prefix_len(&self) -> u8 {
        self.prefix_len
    }

    /// The network with the address `addr` and the prefix length `prefix_len`.
    pub closed spec fn of_parts(addr: u128, prefix_len: u8) -> Ipv6Net {
        Ipv6Net { addr, prefix_len }
    }

    /// A network is its address and its prefix length, and nothing else.
    pub proof fn lemma_of_parts(addr: u128, prefix_len: u8)
        ensures
            Self::of_parts(addr, prefix_len).addr() == addr,
            Self::of_parts(addr, prefix_len).prefix_len() == prefix_len,
    {
    }

    /// Two networks with the same address and prefix length are the same network.
    pub proof fn lemma_same_parts(self, other: Ipv6Net)
        requires
            self.addr() == other.addr(),
            self.prefix_len() == other.prefix_len(),
        ensures
            self == other,
    {
    }

    /// The network that a CIDR text denotes: what `ipnet` reads from it, if the prefix
    /// length it read fits.
    pub open spec fn of_text(s: Seq<char>) -> Option<Ipv6Net> {
        match ipv6_net_parsed(s) {
            Some(parts) => if parts.1 <= 128 {
                Some(Self::of_parts(parts.0, parts.1))
            } else {
                None
            },
            None => None,
        }
    }

    /// The network with the given address and prefix length, if the prefix length fits.
    pub fn new(addr: u128, prefix_len: u8) -> (r: Result<Ipv6Net, PrefixLenError>)
        ensures
            r is Ok <==> prefix_len <= 128,
            r matches Ok(net) ==> net == Self::of_parts(addr, prefix_len) && net.addr() == addr
                && net.prefix_len() == prefix_len,
    {
        if prefix_len > 128 {
            Err(PrefixLenError)
        } else {
            Ok(Ipv6Net { addr, prefix_len })
        }
    }

    /// The network that holds the single address `addr`.
    pub fn host(addr: u128) -> (net: Ipv6Net)
        ensures
            net == Self::of_parts(addr, 128),
            net.addr() == addr,
            net.prefix_len() == 128,
    {
        Ipv6Net { addr, prefix_len: 128 }
    }

    #[verifier::when_used_as_spec(spec_addr)]
    pub fn addr(&self) -> (a: u128)
        ensures
            a == self.spec_addr(),
    {
        self.addr
    }

    #[verifier::when_used_as_spec(spec_prefix_len)]
    pub fn prefix_len(&self) -> (p: u8)
        ensures
            p == self.spec_prefix_len(),
            p <= 128,
    {
        proof {
            use_type_invariant(self);
        }
        self.prefix_len
    }

    /// The network of an address and prefix length that were read from a text.
    pub fn from_parts(addr: u128, prefix_len: u8) -> (r: Result<Ipv6Net, ParseIpNetError>)
        ensures
            r is Ok <==> prefix_len <= 128,
            r matches Ok(net) ==> net == Self::of_parts(addr, prefix_len),
    {
        match Ipv6Net::new(addr, prefix_len) {
            Ok(net) => Ok(net),
            Err(_) => Err(ParseIpNetError(())),
        }
    }

    /// Reads a network from its CIDR text, as `ipnet` reads it.
    pub fn parse(s: &str) -> (r: Result<Ipv6Net, ParseIpNetError>)
        ensures
            match r {
                Ok(net) => Self::of_text(s@) == Some(net),
                Err(_) => Self::of_text(s@) is None,
            },
    {
        match ipv6_net_from_str(s) {
            Ok(parts) => Self::from_parts(parts.0, parts.1),
            Err(_) => Err(ParseIpNetError(())),
        }
    }

    /// The CIDR text of the network.
    pub fn to_string(&self) -> (s: String)
        ensures
            s@ == ipv6_net_text(self.addr(), self.prefix_len()),
    {
        ipv6_net_to_string(self.addr, self.prefix_len())
    }
}

impl IpNet {
    /// The network of the given parts, if their prefix length fits their address family.
    pub open spec fn of_parts(parts: CidrParts) -> Option<IpNet> {
        match parts {
            CidrParts::V4(addr, prefix_len) => if prefix_len <= 32 {
                Some(IpNet::V4(Ipv4Net::of_parts(addr, prefix_len)))
            } else {
                None
            },
            CidrParts::V6(addr, prefix_len) => if prefix_len <= 128 {
                Some(IpNet::V6(Ipv6Net::of_parts(addr, prefix_len)))
            } else {
                None
            },
        }
    }

    /// The network that a CIDR text denotes: what `ipnet` reads from it, if the prefix
    /// length it read fits.
    pub open spec fn of_text(s: Seq<char>) -> Option<IpNet> {
        match ip_net_parsed(s) {
            Some(parts) => Self::of_parts(parts),
            None => None,
        }
    }

    /// The CIDR text of the network.
    pub open spec fn text(self) -> Seq<char> {
        match self {
            IpNet::V4(net) => ipv4_net_text(net.addr(), net.prefix_len()),
            IpNet::V6(net) => ipv6_net_text(net.addr(), net.prefix_len()),
        }
    }

    /// The network of parts that were read from a text.
    pub fn from_parts(parts: CidrParts) -> (r: Result<IpNet, ParseIpNetError>)
        ensures
            match r {
                Ok(net) => Self::of_parts(parts) == Some(net),
                Err(_) => Self::of_parts(parts) is None,
            },
    {
        match parts {
            CidrParts::V4(addr, prefix_len) => match Ipv4Net::new(addr, prefix_len) {
                Ok(net) => Ok(IpNet::V4(net)),
                Err(_) => Err(ParseIpNetError(())),
            },
            CidrParts::V6(addr, prefix_len) => match Ipv6Net::new(addr, prefix_len) {
                Ok(net) => Ok(IpNet::V6(net)),
                Err(_) => Err(ParseIpNetError(())),
            },
        }
    }

    /// Reads a network from its CIDR text, as `ipnet` reads it.
    pub fn parse(s: &str) -> (r: Result<IpNet, ParseIpNetError>)
        ensures
            match r {
                Ok(net) => Self::of_text(s@) == Some(net),
                Err(_) => Self::of_text(s@) is None,
            },
    {
        match ip_net_from_str(s) {
            Ok(parts) => Self::from_parts(parts),
            Err(_) => Err(ParseIpNetError(())),
        }
    }

    /// The CIDR text of the network.
    pub fn to_string(&self) -> (s: String)
        ensures
            s@ == self.text(),
    {
        match self {
            IpNet::V4(net) => net.to_string(),
            IpNet::V6(net) => net.to_string(),
        }
    }
}

impl core::str::FromStr for Ipv4Net {
    type Err = ParseIpNetError;

    fn from_str(s: &str) -> (r: Result<Ipv4Net, ParseIpNetError>)
        ensures
            match r {
                Ok(net) => Ipv4Net::of_text(s@) == Some(net),
                Err(_) => Ipv4Net::of_text(s@) is None,
            },
    {
        Ipv4Net::parse(s)
    }
}

impl core::str::FromStr for Ipv6Net {
    type Err = ParseIpNetError;

    fn from_str(s: &str) -> (r: Result<Ipv6Net, ParseIpNetError>)
        ensures
            match r {
                Ok(net) => Ipv6Net::of_text(s@) == Some(net),
                Err(_) => Ipv6Net::of_text(s@) is None,
            },
    {
        Ipv6Net::parse(s)
    }
}

impl core::str::FromStr for IpNet {
    type Err = ParseIpNetError;

    fn from_str(s: &str) -> (r: Result<IpNet, ParseIpNetError>)
        ensures
            match r {
                Ok(net) => IpNet::of_text(s@) == Some(net),
                Err(_) => IpNet::of_text(s@) is None,
            },
    {
        IpNet::parse(s)
    }
}

/// An IPv4 address as its 32 bits, the first octet in the most significant byte.
#[derive(Copy, Clone, Hash, PartialEq, Eq, Structural, Debug)]
pub struct Ipv4Addr(pub u32);

impl Ipv4Addr {
    /// The address `a.b.c.d`.
    pub fn new(a: u8, b: u8, c: u8, d: u8) -> (addr: Ipv4Addr)
        ensures
            addr.0 == a * 0x100_0000 + b * 0x1_0000 + c * 0x100 + d,
    {
        Ipv4Addr((a as u32) * 0x100_0000 + (b as u32) * 0x1_0000 + (c as u32) * 0x100 + (d as u32))
    }

    /// The four octets, first to last.
    pub fn octets(&self) -> (o: [u8; 4])
        ensures
            o[0] == self.0 / 0x100_0000,
            o[1] == self.0 / 0x1_0000 % 0x100,
            o[2] == self.0 / 0x100 % 0x100,
            o[3] == self.0 % 0x100,
    {
        [
            (self.0 / 0x100_0000) as u8,
            (self.0 / 0x1_0000 % 0x100) as u8,
            (self.0 / 0x100 % 0x100) as u8,
            (self.0 % 0x100) as u8,
        ]
    }

    /// The dotted-quad text of the address.
    pub fn to_string(&self) -> (s: String)
        ensures
            s@ == ipv4_addr_text(self.0),
    {
        let o = self.octets();
        let mut s = decimal_string(o[0] as u64);
        proof {
            reveal_strlit(".");
        }
        s.append(".");
        s.append(decimal_string(o[1] as u64).as_str());
        s.append(".");
        s.append(decimal_string(o[2] as u64).as_str());
        s.append(".");
        s.append(decimal_string(o[3] as u64).as_str());
        s
    }
}

/// Asks `ipnet` for the host at position `n` of the network `0.0.0.0/0`, through
/// `Ipv4Net::hosts` and the `nth` of the range it returns. The hosts of that network run
/// from `0.0.0.1` to `255.255.255.254`, which leaves out the network and the broadcast
/// address, so position `n` holds the address `n + 1` as long as that is a host.
#[verifier::external_body]
pub(crate) fn host_at(n: u32) -> (r: Option<Ipv4Addr>)
    ensures
        r == if n < 0xFFFF_FFFE {
            Some(Ipv4Addr((n + 1) as u32))
        } else {
            None::<Ipv4Addr>
        },
{
    ipnet::Ipv4Net::new(0u32.into(), 0).unwrap().hosts().nth(n as usize).map(|a| Ipv4Addr(a.into()))
}

} // verus!
