//! What an adapter for Amazon EC2 computes between its requests: the permissions that
//! stand for rules, the rules that permissions stand for, and what the tags and the state
//! of an instance mean.

use crate::cloud::lifecycle::InstanceState;
use crate::cloud::lifecycle::InstanceStateCode;
use crate::cloud::InstanceType;
use crate::error::Error;
use crate::iprules::IpIngressRule;
use crate::iprules::IpPortRange;
use crate::iprules::IpProtocol;
use crate::net::ipv4_net_text;
use crate::net::ipv6_net_text;
use crate::net::IpNet;
use crate::net::Ipv4Addr;
use crate::net::Ipv4Net;
use crate::net::Ipv6Net;
use crate::ruleset::RuleSet;
use crate::text::copy_opt_string;
use crate::text::label_texts;
use crate::text::opt_text;
use crate::text::str_eq;
use vstd::prelude::*;
use vstd::string::*;

verus! {

/// A tag of a resource: a key and a value, either of which the provider may leave out.
#[derive(Debug, Clone, PartialEq, Eq)]
pub struct Tag {
    pub key: Option<String>,
    pub value: Option<String>,
}

/// The value of the first tag that has the key `key` and a value.
pub open spec fn first_tag_value(tags: Seq<Tag>, key: Seq<char>) -> Option<Seq<char>>
    decreases tags.len(),
{
    if tags.len() == 0 {
        None
    } else {
        match (tags[0].key, tags[0].value) {
            (Some(k), Some(v)) => if k@ == key {
                Some(v@)
            } else {
                first_tag_value(tags.drop_first(), key)
            },
            _ => first_tag_value(tags.drop_first(), key),
        }
    }
}

/// Looks for a tag by its key.
pub trait TagFinder {
    /// The tags that are searched.
    closed spec fn tags(&self) -> Seq<Tag> {
        arbitrary()
    }

    /// The value of the first tag that has the key `key` and a value.
    fn find_tag(&self, key: &str) -> (r: Option<&str>)
        ensures
            match r {
                Some(value) => first_tag_value(self.tags(), key@) == Some(value@),
                None => first_tag_value(self.tags(), key@) is None,
            },
    ;
}

impl TagFinder for Vec<Tag> {
    open spec fn tags(&self) -> Seq<Tag> {
        self@
    }

    fn find_tag(&self, key: &str) -> (r: Option<&str>) {
        let mut i: usize = 0;
        assert(self@.skip(0) =~= self@);
        while i < self.len()
            invariant
                i <= self.len(),
                first_tag_value(self@, key@) == first_tag_value(self@.skip(i as int), key@),
            decreases self.len() - i,
        {
            let tag = &self[i];
            proof {
                assert(self@.skip(i as int).drop_first() =~= self@.skip(i + 1));
            }
            if let Some(k) = &tag.key {
                if let Some(v) = &tag.value {
                    if str_eq(k.as_str(), key) {
                        return Some(v.as_str());
                    }
                }
            }
            i = i + 1;
        }
        None
    }
}

/// The number that the low `bits` bits of `x` denote, with `modulus` two to the power `bits`.
pub open spec fn low_bits(x: int, modulus: int) -> int {
    if x >= 0 {
        x % modulus
    } else {
        modulus - 1 - (-(x + 1)) % modulus
    }
}

/// The low 16 bits of `x`.
pub fn low_u16(x: i64) -> (r: u16)
    ensures
        r == low_bits(x as int, 0x1_0000),
{
    if x >= 0 {
        (x % 0x1_0000) as u16
    } else {
        (0xFFFF - (-(x + 1)) % 0x1_0000) as u16
    }
}

/// The low 8 bits of `x`.
pub fn low_u8(x: i64) -> (r: u8)
    ensures
        r == low_bits(x as int, 0x100),
{
    if x >= 0 {
        (x % 0x100) as u8
    } else {
        (0xFF - (-(x + 1)) % 0x100) as u8
    }
}

/// A permission of a security group: a protocol by name, a range of ports, and the
/// networks, by their CIDR texts, from which traffic is allowed.
#[derive(Debug, Clone, PartialEq, Eq)]
pub struct IpPermission {
    pub ip_protocol: String,
    pub from_port: i64,
    pub to_port: i64,
    pub ip_ranges: Option<Vec<String>>,
    pub ipv_6_ranges: Option<Vec<String>>,
}

/// A filter of a lookup: the name of what is compared, and the values that pass.
#[derive(Debug, Clone, PartialEq, Eq)]
pub struct Filter {
    pub name: String,
    pub values: Vec<String>,
}

/// An instance as a lookup finds it: its identifier, its name and the domain name it declares.
#[derive(Debug, Clone, PartialEq, Eq)]
pub struct InstanceRecord {
    pub id: String,
    pub name: String,
    pub fqdn: Option<String>,
}

/// Why permissions stand for no rules.
pub enum DecodeFailure {
    UnknownProtocol(Seq<char>),
    NotAnIpv4Network(Seq<char>),
    NotAnIpv6Network(Seq<char>),
}

/// The failure that an error reports, if it reports one of permissions.
pub open spec fn failure_of(e: Error) -> Option<DecodeFailure> {
    match e {
        Error::UnknownProtocol { name } => Some(DecodeFailure::UnknownProtocol(name@)),
        Error::NotAnIpv4Network { text } => Some(DecodeFailure::NotAnIpv4Network(text@)),
        Error::NotAnIpv6Network { text } => Some(DecodeFailure::NotAnIpv6Network(text@)),
        _ => None,
    }
}

/// The name under which the provider knows a protocol.
pub open spec fn protocol_name(protocol: IpProtocol) -> Seq<char> {
    match protocol {
        IpProtocol::Tcp(_) => "tcp"@,
        IpProtocol::Udp(_) => "udp"@,
    }
}

/// The ports of a protocol.
pub open spec fn protocol_ports(protocol: IpProtocol) -> IpPortRange {
    match protocol {
        IpProtocol::Tcp(range) => range,
        IpProtocol::Udp(range) => range,
    }
}

/// Whether `permission` is the permission that stands for `rule`: the name and the ports
/// of its protocol, and its network as the single IPv4 range or as the single IPv6 range.
pub open spec fn is_permission_of(rule: IpIngressRule, permission: IpPermission) -> bool {
    &&& permission.ip_protocol@ == protocol_name(rule.1)
    &&& permission.from_port == protocol_ports(rule.1).0
    &&& permission.to_port == protocol_ports(rule.1).1
    &&& match rule.0 {
        IpNet::V4(net) => {
            &&& permission.ip_ranges matches Some(ranges)
            &&& ranges@.len() == 1
            &&& ranges@[0]@ == ipv4_net_text(net.addr(), net.prefix_len())
            &&& permission.ipv_6_ranges is None
        },
        IpNet::V6(net) => {
            &&& permission.ipv_6_ranges matches Some(ranges)
            &&& ranges@.len() == 1
            &&& ranges@[0]@ == ipv6_net_text(net.addr(), net.prefix_len())
            &&& permission.ip_ranges is None
        },
    }
}

/// The protocol of a permission: `tcp` or `udp` with the low 16 bits of its ports.
pub open spec fn permission_protocol(permission: IpPermission) -> Result<
    IpProtocol,
    DecodeFailure,
> {
    let range = IpPortRange(
        low_bits(permission.from_port as int, 0x1_0000) as u16,
        low_bits(permission.to_port as int, 0x1_0000) as u16,
    );
    if permission.ip_protocol@ == "tcp"@ {
        Ok(IpProtocol::Tcp(range))
    } else if permission.ip_protocol@ == "udp"@ {
        Ok(IpProtocol::Udp(range))
    } else {
        Err(DecodeFailure::UnknownProtocol(permission.ip_protocol@))
    }
}

/// The rules of `protocol` from the first `n` of the IPv4 networks `texts`, or the first
/// text among them that is no IPv4 network.
pub open spec fn ipv4_rules(texts: Seq<String>, protocol: IpProtocol, n: int) -> Result<
    Set<IpIngressRule>,
    DecodeFailure,
>
    decreases n,
{
    if n <= 0 {
        Ok(Set::empty())
    } else {
        match ipv4_rules(texts, protocol, n - 1) {
            Err(f) => Err(f),
            Ok(rules) => match Ipv4Net::of_text(texts[n - 1]@) {
                Some(net) => Ok(rules.insert(IpIngressRule(IpNet::V4(net), protocol))),
                None => Err(DecodeFailure::NotAnIpv4Network(texts[n - 1]@)),
            },
        }
    }
}

/// The rules of `protocol` from the first `n` of the IPv6 networks `texts`, or the first
/// text among them that is no IPv6 network.
pub open spec fn ipv6_rules(texts: Seq<String>, protocol: IpProtocol, n: int) -> Result<
    Set<IpIngressRule>,
    DecodeFailure,
>
    decreases n,
{
    if n <= 0 {
        Ok(Set::empty())
    } else {
        match ipv6_rules(texts, protocol, n - 1) {
            Err(f) => Err(f),
            Ok(rules) => match Ipv6Net::of_text(texts[n - 1]@) {
                Some(net) => Ok(rules.insert(IpIngressRule(IpNet::V6(net), protocol))),
                None => Err(DecodeFailure::NotAnIpv6Network(texts[n - 1]@)),
            },
        }
    }
}

/// The rules that one permission stands for: its protocol from each of its IPv4 ranges
/// and from each of its IPv6 ranges; or what is wrong with it first, the protocol before
/// the IPv4 ranges, those before the IPv6 ranges.
pub open spec fn permission_rules(permission: IpPermission) -> Result<
    Set<IpIngressRule>,
    DecodeFailure,
> {
    match permission_protocol(permission) {
        Err(f) => Err(f),
        Ok(protocol) => {
            let v4 = permission.ip_ranges->0@;
            let v6 = permission.ipv_6_ranges->0@;
            match ipv4_rules(v4, protocol, v4.len() as int) {
                Err(f) => Err(f),
                Ok(a) => match ipv6_rules(v6, protocol, v6.len() as int) {
                    Err(f) => Err(f),
                    Ok(b) => Ok(a.union(b)),
                },
            }
        },
    }
}

/// The rules that the first `n` of `permissions` stand for, or what is wrong first.
pub open spec fn permissions_rules(permissions: Seq<IpPermission>, n: int) -> Result<
    Set<IpIngressRule>,
    DecodeFailure,
>
    decreases n,
{
    if n <= 0 {
        Ok(Set::empty())
    } else {
        match permissions_rules(permissions, n - 1) {
            Err(f) => Err(f),
            Ok(rules) => match permission_rules(permissions[n - 1]) {
                Err(f) => Err(f),
                Ok(more) => Ok(rules.union(more)),
            },
        }
    }
}

/// The filter that passes the resources whose `Name` tag is one of `names`.
pub fn build_filter(names: &Vec<String>) -> (r: Filter)
    ensures
        r.name@ == "tag:Name"@,
        label_texts(r.values@) == label_texts(names@),
{
    let mut values: Vec<String> = Vec::new();
    let mut i: usize = 0;
    while i < names.len()
        invariant
            i <= names.len(),
            values@.len() == i,
            forall|j: int| 0 <= j < i ==> (#[trigger] values@[j])@ == names@[j]@,
        decreases names.len() - i,
    {
        values.push(names[i].clone());
        i = i + 1;
    }
    Filter { name: "tag:Name".to_owned(), values }
}

/// The permission that stands for `rule`.
pub fn to_ip_permission(rule: &IpIngressRule) -> (r: IpPermission)
    ensures
        is_permission_of(*rule, r),
{
    let IpIngressRule(ip_cidr, ip_protocol) = rule;
    let (name, from_port, to_port) = match ip_protocol {
        IpProtocol::Tcp(IpPortRange(from, to)) => ("tcp", *from, *to),
        IpProtocol::Udp(IpPortRange(from, to)) => ("udp", *from, *to),
    };
    let (ip_ranges, ipv_6_ranges) = match ip_cidr {
        IpNet::V4(ipv4_cidr) => {
            let mut ranges: Vec<String> = Vec::new();
            ranges.push(ipv4_cidr.to_string());
            (Some(ranges), None)
        },
        IpNet::V6(ipv6_cidr) => {
            let mut ranges: Vec<String> = Vec::new();
            ranges.push(ipv6_cidr.to_string());
            (None, Some(ranges))
        },
    };
    IpPermission {
        ip_protocol: name.to_owned(),
        from_port: from_port as i64,
        to_port: to_port as i64,
        ip_ranges,
        ipv_6_ranges,
    }
}

/// The permissions that stand for `rules`, one for each rule. Where this is empty there
/// is nothing to ask of the provider.
pub fn to_ip_permissions(rules: &RuleSet) -> (r: Vec<IpPermission>)
    ensures
        r@.len() == rules@.len(),
        r@.len() == rules.spec_rules().len(),
        forall|i: int|
            0 <= i < r@.len() ==> is_permission_of(rules.spec_rules()[i], #[trigger] r@[i]),
{
    let held = rules.rules();
    let mut out: Vec<IpPermission> = Vec::new();
    let mut i: usize = 0;
    while i < held.len()
        invariant
            i <= held.len(),
            out@.len() == i,
            forall|j: int| 0 <= j < i ==> is_permission_of(held@[j], #[trigger] out@[j]),
        decreases held.len() - i,
    {
        out.push(to_ip_permission(&held[i]));
        i = i + 1;
    }
    out
}

/// Once a text is no IPv4 network, more texts do not mend it.
pub proof fn lemma_ipv4_rules_fail(texts: Seq<String>, protocol: IpProtocol, n: int, m: int)
    requires
        0 <= n <= m,
        ipv4_rules(texts, protocol, n) is Err,
    ensures
        ipv4_rules(texts, protocol, m) == ipv4_rules(texts, protocol, n),
    decreases m - n,
{
    if n < m {
        lemma_ipv4_rules_fail(texts, protocol, n, m - 1);
    }
}

/// Once a text is no IPv6 network, more texts do not mend it.
pub proof fn lemma_ipv6_rules_fail(texts: Seq<String>, protocol: IpProtocol, n: int, m: int)
    requires
        0 <= n <= m,
        ipv6_rules(texts, protocol, n) is Err,
    ensures
        ipv6_rules(texts, protocol, m) == ipv6_rules(texts, protocol, n),
    decreases m - n,
{
    if n < m {
        lemma_ipv6_rules_fail(texts, protocol, n, m - 1);
    }
}

/// Once a permission stands for no rules, more permissions do not mend it.
pub proof fn lemma_permissions_rules_fail(permissions: Seq<IpPermission>, n: int, m: int)
    requires
        0 <= n <= m,
        permissions_rules(permissions, n) is Err,
    ensures
        permissions_rules(permissions, m) == permissions_rules(permissions, n),
    decreases m - n,
{
    if n < m {
        lemma_permissions_rules_fail(permissions, n, m - 1);
    }
}

/// Adds to `rules` the rules of `protocol` from each of the IPv4 networks `texts`.
fn add_ipv4_rules(texts: &Vec<String>, protocol: IpProtocol, rules: &mut RuleSet) -> (r: Result<
    (),
    Error,
>)
    ensures
        match r {
            Ok(()) => ipv4_rules(texts@, protocol, texts@.len() as int) matches Ok(found)
                && final(rules)@ == old(rules)@.union(found),
            Err(e) => ipv4_rules(texts@, protocol, texts@.len() as int) matches Err(f)
                && failure_of(e) == Some(f),
        },
{
    let ghost before = rules@;
    let mut j: usize = 0;
    while j < texts.len()
        invariant
            j <= texts.len(),
            ipv4_rules(texts@, protocol, j as int) matches Ok(found) && rules@ == before.union(
                found,
            ),
        decreases texts.len() - j,
    {
        match Ipv4Net::parse(texts[j].as_str()) {
            Ok(net) => {
                rules.insert(IpIngressRule(IpNet::V4(net), protocol));
            },
            Err(_) => {
                proof {
                    lemma_ipv4_rules_fail(texts@, protocol, j + 1, texts@.len() as int);
                }
                return Err(Error::NotAnIpv4Network { text: texts[j].clone() });
            },
        }
        j = j + 1;
    }
    Ok(())
}

/// Adds to `rules` the rules of `protocol` from each of the IPv6 networks `texts`.
fn add_ipv6_rules(texts: &Vec<String>, protocol: IpProtocol, rules: &mut RuleSet) -> (r: Result<
    (),
    Error,
>)
    ensures
        match r {
            Ok(()) => ipv6_rules(texts@, protocol, texts@.len() as int) matches Ok(found)
                && final(rules)@ == old(rules)@.union(found),
            Err(e) => ipv6_rules(texts@, protocol, texts@.len() as int) matches Err(f)
                && failure_of(e) == Some(f),
        },
{
    let ghost before = rules@;
    let mut j: usize = 0;
    while j < texts.len()
        invariant
            j <= texts.len(),
            ipv6_rules(texts@, protocol, j as int) matches Ok(found) && rules@ == before.union(
                found,
            ),
        decreases texts.len() - j,
    {
        match Ipv6Net::parse(texts[j].as_str()) {
            Ok(net) => {
                rules.insert(IpIngressRule(IpNet::V6(net), protocol));
            },
            Err(_) => {
                proof {
                    lemma_ipv6_rules_fail(texts@, protocol, j + 1, texts@.len() as int);
                }
                return Err(Error::NotAnIpv6Network { text: texts[j].clone() });
            },
        }
        j = j + 1;
    }
    Ok(())
}

/// Adds to `rules` the rules that `permission` stands for.
fn add_permission_rules(permission: &IpPermission, rules: &mut RuleSet) -> (r: Result<(), Error>)
    requires
        permission.ip_ranges is Some,
        permission.ipv_6_ranges is Some,
    ensures
        match r {
            Ok(()) => permission_rules(*permission) matches Ok(found) && final(rules)@ == old(
                rules,
            )@.union(found),
            Err(e) => permission_rules(*permission) matches Err(f) && failure_of(e) == Some(f),
        },
{
    let ghost before = rules@;
    let ip_port_range = IpPortRange(low_u16(permission.from_port), low_u16(permission.to_port));
    let ip_protocol = if str_eq(permission.ip_protocol.as_str(), "tcp") {
        IpProtocol::Tcp(ip_port_range)
    } else if str_eq(permission.ip_protocol.as_str(), "udp") {
        IpProtocol::Udp(ip_port_range)
    } else {
        return Err(Error::UnknownProtocol { name: permission.ip_protocol.clone() });
    };
    if let Some(ranges) = &permission.ip_ranges {
        add_ipv4_rules(ranges, ip_protocol, rules)?;
    }
    if let Some(ranges) = &permission.ipv_6_ranges {
        add_ipv6_rules(ranges, ip_protocol, rules)?;
    }
    Ok(())
}

/// The rules that `permissions` stand for.
///
/// Each permission names `tcp` or `udp` and lists its IPv4 and its IPv6 ranges; a
/// permission without one of the lists is not taken.
pub fn rules_from_permissions(permissions: &Vec<IpPermission>) -> (r: Result<RuleSet, Error>)
    requires
        forall|i: int|
            0 <= i < permissions@.len() ==> (#[trigger] permissions@[i]).ip_ranges is Some
                && permissions@[i].ipv_6_ranges is Some,
    ensures
        match r {
            Ok(rules) => permissions_rules(permissions@, permissions@.len() as int) == Ok::<
                Set<IpIngressRule>,
                DecodeFailure,
            >(rules@),
            Err(e) => permissions_rules(permissions@, permissions@.len() as int) matches Err(f)
                && failure_of(e) == Some(f),
        },
{
    let mut rules = RuleSet::new();
    let mut i: usize = 0;
    while i < permissions.len()
        invariant
            i <= permissions.len(),
            forall|k: int|
                0 <= k < permissions@.len() ==> (#[trigger] permissions@[k]).ip_ranges is Some
                    && permissions@[k].ipv_6_ranges is Some,
            permissions_rules(permissions@, i as int) == Ok::<Set<IpIngressRule>, DecodeFailure>(
                rules@,
            ),
        decreases permissions.len() - i,
    {
        match add_permission_rules(&permissions[i], &mut rules) {
            Ok(()) => {},
            Err(e) => {
                proof {
                    lemma_permissions_rules_fail(permissions@, i + 1, permissions@.len() as int);
                }
                return Err(e);
            },
        }
        i = i + 1;
    }
    Ok(rules)
}

/// What a lookup tells of the instance `id` with the tags `tags`: its name is the value
/// of the tag `Name`, which it must have, and the domain name it declares that of `Fqdn`.
pub fn instance_from_tags(id: &str, tags: &Vec<Tag>) -> (r: Result<InstanceRecord, Error>)
    ensures
        match first_tag_value(tags@, "Name"@) {
            Some(name) => r matches Ok(record) && record.id@ == id@ && record.name@ == name
                && opt_text(record.fqdn) == first_tag_value(tags@, "Fqdn"@),
            None => r matches Err(Error::MissingNameTag { id: reported }) && reported@ == id@,
        },
{
    let name = match tags.find_tag("Name") {
        Some(name) => name,
        None => {
            return Err(Error::MissingNameTag { id: id.to_owned() });
        },
    };
    let fqdn = match tags.find_tag("Fqdn") {
        Some(fqdn) => Some(fqdn.to_owned()),
        None => None,
    };
    Ok(InstanceRecord { id: id.to_owned(), name: name.to_owned(), fqdn })
}

/// The state of an instance from what the provider reports of it. Of the numeric state
/// code only the low byte counts.
pub fn instance_state(
    code: i64,
    instance_type: &str,
    ebs_optimized: bool,
    public_ipv4_addr: Option<Ipv4Addr>,
    public_dns_name: Option<String>,
) -> (r: InstanceState)
    ensures
        r.instance_state_code == InstanceStateCode::of_code(low_bits(code as int, 0x100) as u8),
        r.instance_type@ == instance_type@,
        r.ebs_optimized == ebs_optimized,
        r.public_ipv4_addr == public_ipv4_addr,
        opt_text(r.public_dns_name) == opt_text(public_dns_name),
{
    InstanceState {
        instance_state_code: InstanceStateCode::from(low_u8(code)),
        instance_type: InstanceType::new(instance_type),
        ebs_optimized,
        public_ipv4_addr,
        public_dns_name: copy_opt_string(&public_dns_name),
    }
}

} // verus!
