//! Ingress rules: a protocol with a port range, allowed from an IP network.

use crate::net::IpNet;
use crate::text::decimal_string;
use crate::text::decimal_text;
use crate::text::find_char;
use crate::text::first_index_of;
use crate::text::is_digit;
use crate::text::lemma_decimal_round_trip;
use crate::text::lemma_decimal_text_digits;
use crate::text::lemma_first_index_absent;
use crate::text::lemma_first_index_found;
use crate::text::lemma_first_index_of;
use crate::text::parse_u16;
use crate::text::str_eq;
use crate::text::u16_of;
use vstd::prelude::*;
use vstd::string::*;

verus! {

/// A closed interval of ports, from the first field to the second. The two are kept as
/// given: nothing asks that the first be the smaller.
#[derive(Copy, Clone, Hash, PartialEq, Eq, Structural, Debug)]
pub struct IpPortRange(pub u16, pub u16);

/// The error of a text that is no port range.
#[derive(Copy, Clone, PartialEq, Eq, Debug)]
pub struct ParseIpPortRangeError(());

/// A transport protocol with the ports it covers.
#[derive(Copy, Clone, Hash, PartialEq, Eq, Structural, Debug)]
pub enum IpProtocol {
    Tcp(IpPortRange),
    Udp(IpPortRange),
}

/// The error of a text that is no protocol.
#[derive(Copy, Clone, PartialEq, Eq, Debug)]
pub struct ParseIpProtocolError(());

/// Permission for inbound traffic from a network on a protocol.
#[derive(Copy, Clone, Hash, PartialEq, Eq, Structural, Debug)]
pub struct IpIngressRule(pub IpNet, pub IpProtocol);

/// The range that a text denotes: one port, or two ports with a dash between them.
pub open spec fn port_range_of(s: Seq<char>) -> Option<IpPortRange> {
    match first_index_of(s, '-') {
        None => match u16_of(s) {
            Some(port) => Some(IpPortRange(port, port)),
            None => None,
        },
        Some(i) => match (u16_of(s.take(i)), u16_of(s.skip(i + 1))) {
            (Some(from), Some(to)) => Some(IpPortRange(from, to)),
            _ => None,
        },
    }
}

/// The text of a range: the port alone where both ends agree, else both with a dash.
pub open spec fn port_range_text(range: IpPortRange) -> Seq<char> {
    if range.0 == range.1 {
        decimal_text(range.0 as nat)
    } else {
        decimal_text(range.0 as nat) + seq!['-'] + decimal_text(range.1 as nat)
    }
}

/// The protocol that a text denotes: a port range, a slash, then `tcp` or `udp`.
pub open spec fn protocol_of(s: Seq<char>) -> Option<IpProtocol> {
    match first_index_of(s, '/') {
        None => None,
        Some(i) => {
            let ports = port_range_of(s.take(i));
            let name = s.skip(i + 1);
            if name == "tcp"@ {
                match ports {
                    Some(range) => Some(IpProtocol::Tcp(range)),
                    None => None,
                }
            } else if name == "udp"@ {
                match ports {
                    Some(range) => Some(IpProtocol::Udp(range)),
                    None => None,
                }
            } else {
                None
            }
        },
    }
}

/// The text of a protocol: its port range, a slash and its name.
pub open spec fn protocol_text(protocol: IpProtocol) -> Seq<char> {
    match protocol {
        IpProtocol::Tcp(range) => port_range_text(range) + "/tcp"@,
        IpProtocol::Udp(range) => port_range_text(range) + "/udp"@,
    }
}

impl IpPortRange {
    /// Reads a port range.
    pub fn parse(s: &str) -> (r: Result<IpPortRange, ParseIpPortRangeError>)
        ensures
            r is Ok <==> port_range_of(s@) is Some,
            r matches Ok(range) ==> port_range_of(s@) == Some(range),
    {
        match find_char(s, '-') {
            None => match parse_u16(s) {
                Some(port) => Ok(IpPortRange(port, port)),
                None => Err(ParseIpPortRangeError(())),
            },
            Some(i) => {
                proof {
                    lemma_first_index_of(s@, '-');
                }
                let n = s.unicode_len();
                let head = s.substring_char(0, i);
                let tail = s.substring_char(i + 1, n);
                match parse_u16(head) {
                    None => Err(ParseIpPortRangeError(())),
                    Some(from) => match parse_u16(tail) {
                        None => Err(ParseIpPortRangeError(())),
                        Some(to) => Ok(IpPortRange(from, to)),
                    },
                }
            },
        }
    }

    /// Writes the range as [`port_range_text`] has it.
    pub fn to_string(&self) -> (s: String)
        ensures
            s@ == port_range_text(*self),
    {
        if self.0 == self.1 {
            decimal_string(self.0 as u64)
        } else {
            let mut s = decimal_string(self.0 as u64);
            proof {
                reveal_strlit("-");
            }
            s.append("-");
            let to = decimal_string(self.1 as u64);
            s.append(to.as_str());
            s
        }
    }
}

impl IpProtocol {
    /// Reads a protocol.
    pub fn parse(s: &str) -> (r: Result<IpProtocol, ParseIpProtocolError>)
        ensures
            r is Ok <==> protocol_of(s@) is Some,
            r matches Ok(protocol) ==> protocol_of(s@) == Some(protocol),
    {
        match find_char(s, '/') {
            None => Err(ParseIpProtocolError(())),
            Some(i) => {
                proof {
                    lemma_first_index_of(s@, '/');
                }
                let n = s.unicode_len();
                let head = s.substring_char(0, i);
                let name = s.substring_char(i + 1, n);
                if str_eq(name, "tcp") {
                    match IpPortRange::parse(head) {
                        Ok(range) => Ok(IpProtocol::Tcp(range)),
                        Err(_) => Err(ParseIpProtocolError(())),
                    }
                } else if str_eq(name, "udp") {
                    match IpPortRange::parse(head) {
                        Ok(range) => Ok(IpProtocol::Udp(range)),
                        Err(_) => Err(ParseIpProtocolError(())),
                    }
                } else {
                    Err(ParseIpProtocolError(()))
                }
            },
        }
    }

    /// The ports of the protocol.
    pub fn port_range(&self) -> (range: IpPortRange)
        ensures
            range == match *self {
                IpProtocol::Tcp(r) => r,
                IpProtocol::Udp(r) => r,
            },
    {
        match self {
            IpProtocol::Tcp(range) => *range,
            IpProtocol::Udp(range) => *range,
        }
    }

    /// Writes the protocol as [`protocol_text`] has it.
    pub fn to_string(&self) -> (s: String)
        ensures
            s@ == protocol_text(*self),
    {
        match self {
            IpProtocol::Tcp(range) => {
                let mut s = range.to_string();
                s.append("/tcp");
                s
            },
            IpProtocol::Udp(range) => {
                let mut s = range.to_string();
                s.append("/udp");
                s
            },
        }
    }
}

/// The text of a rule: the protocol, an arrow, the network.
pub open spec fn rule_text(rule: IpIngressRule) -> Seq<char> {
    protocol_text(rule.1) + " -> "@ + rule.0.text()
}

impl IpIngressRule {
    /// Writes the rule as [`rule_text`] has it.
    pub fn to_string(&self) -> (s: String)
        ensures
            s@ == rule_text(*self),
    {
        let mut s = self.1.to_string();
        s.append(" -> ");
        let net = self.0.to_string();
        s.append(net.as_str());
        s
    }
}

impl core::str::FromStr for IpPortRange {
    type Err = ParseIpPortRangeError;

    fn from_str(s: &str) -> (r: Result<IpPortRange, ParseIpPortRangeError>)
        ensures
            r is Ok <==> port_range_of(s@) is Some,
            r matches Ok(range) ==> port_range_of(s@) == Some(range),
    {
        IpPortRange::parse(s)
    }
}

impl core::str::FromStr for IpProtocol {
    type Err = ParseIpProtocolError;

    fn from_str(s: &str) -> (r: Result<IpProtocol, ParseIpProtocolError>)
        ensures
            r is Ok <==> protocol_of(s@) is Some,
            r matches Ok(protocol) ==> protocol_of(s@) == Some(protocol),
    {
        IpProtocol::parse(s)
    }
}

/// The decimal notation of a 16-bit number reads as that number.
pub proof fn lemma_u16_round_trip(n: u16)
    ensures
        u16_of(decimal_text(n as nat)) == Some(n),
        first_index_of(decimal_text(n as nat), '-') is None,
        first_index_of(decimal_text(n as nat), '/') is None,
{
    let s = decimal_text(n as nat);
    lemma_decimal_text_digits(n as nat);
    lemma_decimal_round_trip(n as nat);
    lemma_first_index_absent(s, '-');
    lemma_first_index_absent(s, '/');
}

/// The text of a port range reads as that range.
pub proof fn lemma_port_range_round_trip(range: IpPortRange)
    ensures
        port_range_of(port_range_text(range)) == Some(range),
        first_index_of(port_range_text(range), '/') is None,
{
    lemma_u16_round_trip(range.0);
    lemma_u16_round_trip(range.1);
    if range.0 != range.1 {
        let head = decimal_text(range.0 as nat);
        let tail = decimal_text(range.1 as nat);
        let s = port_range_text(range);
        lemma_first_index_of(head, '-');
        lemma_first_index_of(head, '/');
        lemma_first_index_of(tail, '/');
        lemma_first_index_found(s, '-', head.len() as int);
        assert(s.take(head.len() as int) =~= head);
        assert(s.skip(head.len() as int + 1) =~= tail);
        lemma_first_index_absent(s, '/');
    }
}

/// The text of a protocol reads as that protocol.
pub proof fn lemma_protocol_round_trip(protocol: IpProtocol)
    ensures
        protocol_of(protocol_text(protocol)) == Some(protocol),
{
    let range = match protocol {
        IpProtocol::Tcp(range) => range,
        IpProtocol::Udp(range) => range,
    };
    let name = match protocol {
        IpProtocol::Tcp(_) => "tcp"@,
        IpProtocol::Udp(_) => "udp"@,
    };
    let ports = port_range_text(range);
    let s = protocol_text(protocol);
    lemma_port_range_round_trip(range);
    lemma_first_index_of(ports, '/');
    reveal_strlit("/tcp");
    reveal_strlit("/udp");
    reveal_strlit("tcp");
    reveal_strlit("udp");
    lemma_first_index_found(s, '/', ports.len() as int);
    assert(s.take(ports.len() as int) =~= ports);
    assert(s.skip(ports.len() as int + 1) =~= name);
    assert("tcp"@ != "udp"@) by {
        assert("udp"@[0] == 'u');
    }
}

} // verus!
