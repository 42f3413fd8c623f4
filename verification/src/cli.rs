//! What the command line means, once its words are told apart: protocols with their
//! aliases, and sources by their kind.

use crate::dispatch::Command;
use crate::error::Error;
use crate::iprules::protocol_of;
use crate::iprules::IpProtocol;
use crate::net::IpNet;
use crate::net::Ipv4Addr;
use crate::net::Ipv4Net;
use crate::net::Ipv6Net;
use crate::text::find_char;
use crate::text::first_index_of;
use crate::text::label_texts;
use crate::text::str_eq;
use vstd::prelude::*;
use vstd::string::*;

verus! {

/// What a source on the command line is.
#[derive(Debug, Copy, Clone, PartialEq, Eq, Structural)]
pub enum SourceKind {
    /// The word `self`: the caller's own public address, which has to be looked up.
    OwnAddress,
    /// A text with a slash: a network in CIDR notation.
    Network,
    /// Any other text: a single address.
    Address,
}

/// The protocol that an alias stands for; a text that is no alias stands for itself.
pub open spec fn alias_target(x: Seq<char>) -> Seq<char> {
    if x == "ssh"@ {
        "22/tcp"@
    } else if x == "mosh"@ {
        "60000-61000/udp"@
    } else if x == "http"@ {
        "80/tcp"@
    } else if x == "https"@ {
        "443/tcp"@
    } else {
        x
    }
}

/// The kind of the source `x`.
pub open spec fn source_kind(x: Seq<char>) -> SourceKind {
    if x == "self"@ {
        SourceKind::OwnAddress
    } else if first_index_of(x, '/') is Some {
        SourceKind::Network
    } else {
        SourceKind::Address
    }
}

/// The protocols that the first `n` of `args` denote, aliases resolved; or the first text
/// among them, with its alias resolved, that denotes no protocol.
pub open spec fn protocols_of(args: Seq<String>, n: int) -> Result<Seq<IpProtocol>, Seq<char>>
    decreases n,
{
    if n <= 0 {
        Ok(Seq::empty())
    } else {
        match protocols_of(args, n - 1) {
            Err(text) => Err(text),
            Ok(protocols) => match protocol_of(alias_target(args[n - 1]@)) {
                Some(protocol) => Ok(protocols.push(protocol)),
                None => Err(alias_target(args[n - 1]@)),
            },
        }
    }
}

/// Once a text denotes no protocol, more texts do not mend it.
pub proof fn lemma_protocols_of_fail(args: Seq<String>, n: int, m: int)
    requires
        0 <= n <= m,
        protocols_of(args, n) is Err,
    ensures
        protocols_of(args, m) == protocols_of(args, n),
    decreases m - n,
{
    if n < m {
        lemma_protocols_of_fail(args, n, m - 1);
    }
}

/// Puts the protocol in place of its alias: `ssh`, `mosh`, `http` or `https`.
pub fn substitute_alias(x: &str) -> (y: &str)
    ensures
        y@ == alias_target(x@),
{
    if str_eq(x, "ssh") {
        "22/tcp"
    } else if str_eq(x, "mosh") {
        "60000-61000/udp"
    } else if str_eq(x, "http") {
        "80/tcp"
    } else if str_eq(x, "https") {
        "443/tcp"
    } else {
        x
    }
}

/// Reads one protocol of the command line, which may be an alias.
pub fn parse_protocol_arg(x: &str) -> (r: Result<IpProtocol, Error>)
    ensures
        match r {
            Ok(protocol) => protocol_of(alias_target(x@)) == Some(protocol),
            Err(e) => {
                &&& protocol_of(alias_target(x@)) is None
                &&& e matches Error::NotAProtocol { text } && text@ == alias_target(x@)
            },
        },
{
    let y = substitute_alias(x);
    match IpProtocol::parse(y) {
        Ok(protocol) => Ok(protocol),
        Err(_) => Err(Error::NotAProtocol { text: y.to_owned() }),
    }
}

/// Reads the protocols of the command line, in their order.
pub fn parse_protocol_args(args: &Vec<String>) -> (r: Result<Vec<IpProtocol>, Error>)
    ensures
        match r {
            Ok(protocols) => protocols_of(args@, args@.len() as int) == Ok::<
                Seq<IpProtocol>,
                Seq<char>,
            >(protocols@),
            Err(e) => {
                &&& protocols_of(args@, args@.len() as int) matches Err(rejected)
                &&& e matches Error::NotAProtocol { text } && text@ == rejected
            },
        },
{
    let mut out: Vec<IpProtocol> = Vec::new();
    let mut i: usize = 0;
    while i < args.len()
        invariant
            i <= args.len(),
            protocols_of(args@, i as int) == Ok::<Seq<IpProtocol>, Seq<char>>(out@),
        decreases args.len() - i,
    {
        match parse_protocol_arg(args[i].as_str()) {
            Ok(protocol) => {
                out.push(protocol);
            },
            Err(e) => {
                proof {
                    lemma_protocols_of_fail(args@, i + 1, args@.len() as int);
                }
                return Err(e);
            },
        }
        i = i + 1;
    }
    Ok(out)
}

/// Tells what kind of source `x` is.
pub fn classify_source(x: &str) -> (kind: SourceKind)
    ensures
        kind == source_kind(x@),
{
    if str_eq(x, "self") {
        SourceKind::OwnAddress
    } else {
        match find_char(x, '/') {
            Some(_) => SourceKind::Network,
            None => SourceKind::Address,
        }
    }
}

/// Reads a source that is a network.
pub fn parse_network_source(x: &str) -> (r: Result<IpNet, Error>)
    ensures
        match r {
            Ok(net) => IpNet::of_text(x@) == Some(net),
            Err(e) => {
                &&& IpNet::of_text(x@) is None
                &&& e matches Error::NotAnIpNetwork { text } && text@ == x@
            },
        },
{
    match IpNet::parse(x) {
        Ok(net) => Ok(net),
        Err(_) => Err(Error::NotAnIpNetwork { text: x.to_owned() }),
    }
}

/// The network of a source that is a single IPv4 address: that address alone.
pub fn ipv4_host_network(addr: Ipv4Addr) -> (net: IpNet)
    ensures
        net == IpNet::V4(Ipv4Net::of_parts(addr.0, 32)),
{
    IpNet::V4(Ipv4Net::host(addr.0))
}

/// The network of a source that is a single IPv6 address: that address alone.
pub fn ipv6_host_network(addr: u128) -> (net: IpNet)
    ensures
        net == IpNet::V6(Ipv6Net::of_parts(addr, 128)),
{
    IpNet::V6(Ipv6Net::host(addr))
}

/// An IP address of either family.
#[derive(Debug, Copy, Clone, PartialEq, Eq, Structural)]
pub enum HostAddr {
    V4(Ipv4Addr),
    V6(u128),
}

/// A source of the command line: its text and, where the text is an IP address, that address.
#[derive(Debug, Clone, PartialEq, Eq)]
pub struct SourceArg {
    pub text: String,
    pub addr: Option<HostAddr>,
}

/// Why a source stands for no network.
pub enum SourceFailure {
    NotAnIpNetwork(Seq<char>),
    NotAnIpAddress(Seq<char>),
}

/// The failure that an error reports, if it reports one of a source.
pub open spec fn source_failure_of(e: Error) -> Option<SourceFailure> {
    match e {
        Error::NotAnIpNetwork { text } => Some(SourceFailure::NotAnIpNetwork(text@)),
        Error::NotAnIpAddress { text } => Some(SourceFailure::NotAnIpAddress(text@)),
        _ => None,
    }
}

/// The network that holds the single address `addr`.
pub open spec fn host_network(addr: HostAddr) -> IpNet {
    match addr {
        HostAddr::V4(addr) => IpNet::V4(Ipv4Net::of_parts(addr.0, 32)),
        HostAddr::V6(addr) => IpNet::V6(Ipv6Net::of_parts(addr, 128)),
    }
}

/// The network that one source stands for: none for the word `self`, the network that a
/// text with a slash denotes, and for any other text the network of its address.
pub open spec fn source_network(source: SourceArg) -> Result<Option<IpNet>, SourceFailure> {
    match source_kind(source.text@) {
        SourceKind::OwnAddress => Ok(None),
        SourceKind::Network => match IpNet::of_text(source.text@) {
            Some(net) => Ok(Some(net)),
            None => Err(SourceFailure::NotAnIpNetwork(source.text@)),
        },
        SourceKind::Address => match source.addr {
            Some(addr) => Ok(Some(host_network(addr))),
            None => Err(SourceFailure::NotAnIpAddress(source.text@)),
        },
    }
}

/// The networks that the first `n` of `sources` stand for, in their order; or what is
/// wrong with the first of them that stands for none.
pub open spec fn networks_of(sources: Seq<SourceArg>, n: int) -> Result<Seq<IpNet>, SourceFailure>
    decreases n,
{
    if n <= 0 {
        Ok(Seq::empty())
    } else {
        match networks_of(sources, n - 1) {
            Err(f) => Err(f),
            Ok(nets) => match source_network(sources[n - 1]) {
                Err(f) => Err(f),
                Ok(Some(net)) => Ok(nets.push(net)),
                Ok(None) => Ok(nets),
            },
        }
    }
}

/// Once a source stands for no network, more sources do not mend it.
pub proof fn lemma_networks_of_fail(sources: Seq<SourceArg>, n: int, m: int)
    requires
        0 <= n <= m,
        networks_of(sources, n) is Err,
    ensures
        networks_of(sources, m) == networks_of(sources, n),
    decreases m - n,
{
    if n < m {
        lemma_networks_of_fail(sources, n, m - 1);
    }
}

/// The network of a source that is a single address: that address alone.
pub fn host_network_of(addr: HostAddr) -> (net: IpNet)
    ensures
        net == host_network(addr),
{
    match addr {
        HostAddr::V4(addr) => ipv4_host_network(addr),
        HostAddr::V6(addr) => ipv6_host_network(addr),
    }
}

/// Reads the sources of the command line, in their order, but for the word `self`: a
/// text with a slash as a network, any other text as the address that comes with it.
pub fn source_networks(sources: &Vec<SourceArg>) -> (r: Result<Vec<IpNet>, Error>)
    ensures
        match r {
            Ok(nets) => networks_of(sources@, sources@.len() as int) == Ok::<
                Seq<IpNet>,
                SourceFailure,
            >(nets@),
            Err(e) => {
                &&& networks_of(sources@, sources@.len() as int) matches Err(f)
                &&& source_failure_of(e) == Some(f)
            },
        },
{
    let mut out: Vec<IpNet> = Vec::new();
    let mut i: usize = 0;
    while i < sources.len()
        invariant
            i <= sources.len(),
            networks_of(sources@, i as int) == Ok::<Seq<IpNet>, SourceFailure>(out@),
        decreases sources.len() - i,
    {
        let source = &sources[i];
        match classify_source(source.text.as_str()) {
            SourceKind::OwnAddress => {},
            SourceKind::Network => match parse_network_source(source.text.as_str()) {
                Ok(net) => {
                    out.push(net);
                },
                Err(e) => {
                    proof {
                        lemma_networks_of_fail(sources@, i + 1, sources@.len() as int);
                    }
                    return Err(e);
                },
            },
            SourceKind::Address => match source.addr {
                Some(addr) => {
                    out.push(host_network_of(addr));
                },
                None => {
                    proof {
                        lemma_networks_of_fail(sources@, i + 1, sources@.len() as int);
                    }
                    return Err(Error::NotAnIpAddress { text: source.text.clone() });
                },
            },
        }
        i = i + 1;
    }
    Ok(out)
}

/// What an `open` command line asks for, before the caller's own address is known.
#[derive(Debug, PartialEq, Eq)]
pub struct OpenArgs {
    pub ip_protocols: Vec<IpProtocol>,
    pub ip_cidrs: Vec<IpNet>,
    /// Whether the caller's own address is one of the sources, and has to be looked up.
    pub include_own_ip_addr: bool,
    pub names: Vec<String>,
}

/// Whether one of `sources` is the word `self`.
pub open spec fn sources_include_self(sources: Seq<SourceArg>) -> bool {
    exists|i: int| 0 <= i < sources.len() && (#[trigger] sources[i]).text@ == "self"@
}

/// Whether one of the sources is the word `self`.
pub fn includes_own_source(sources: &Vec<SourceArg>) -> (b: bool)
    ensures
        b == sources_include_self(sources@),
{
    let mut i: usize = 0;
    while i < sources.len()
        invariant
            i <= sources.len(),
            forall|j: int| 0 <= j < i ==> (#[trigger] sources@[j]).text@ != "self"@,
        decreases sources.len() - i,
    {
        if str_eq(sources[i].text.as_str(), "self") {
            return true;
        }
        i = i + 1;
    }
    false
}

/// Reads the protocols and the sources of an `open` command line. The protocols are read
/// first: where a protocol and a source are both wrong, the protocol is reported.
pub fn parse_open_args(protocols: &Vec<String>, sources: &Vec<SourceArg>, names: Vec<String>) -> (r:
    Result<OpenArgs, Error>)
    ensures
        match protocols_of(protocols@, protocols@.len() as int) {
            Err(rejected) => r matches Err(Error::NotAProtocol { text }) && text@ == rejected,
            Ok(ip_protocols) => match networks_of(sources@, sources@.len() as int) {
                Err(f) => r matches Err(e) && source_failure_of(e) == Some(f),
                Ok(ip_cidrs) => {
                    &&& r matches Ok(args)
                    &&& args.ip_protocols@ == ip_protocols
                    &&& args.ip_cidrs@ == ip_cidrs
                    &&& args.include_own_ip_addr == sources_include_self(sources@)
                    &&& args.names == names
                },
            },
        },
{
    let ip_protocols = parse_protocol_args(protocols)?;
    let include_own_ip_addr = includes_own_source(sources);
    let ip_cidrs = source_networks(sources)?;
    Ok(OpenArgs { ip_protocols, ip_cidrs, include_own_ip_addr, names })
}

/// The `open` command of `args`, with the caller's own address, if it was looked up, as
/// the last of the networks.
pub fn open_command(args: OpenArgs, own_ip_addr: Option<Ipv4Addr>) -> (cmd: Command)
    ensures
        cmd matches Command::Open { ip_cidrs, ip_protocols, names } && ip_protocols
            == args.ip_protocols && names == args.names && ip_cidrs@ == match own_ip_addr {
            Some(addr) => args.ip_cidrs@.push(host_network(HostAddr::V4(addr))),
            None => args.ip_cidrs@,
        },
{
    let OpenArgs { ip_protocols, mut ip_cidrs, include_own_ip_addr: _, names } = args;
    if let Some(addr) = own_ip_addr {
        ip_cidrs.push(ipv4_host_network(addr));
    }
    Command::Open { ip_cidrs, ip_protocols, names }
}

} // verus!
