//! The failures that end a run.

use crate::text::decimal_string;
use crate::text::decimal_text;
use vstd::prelude::*;
use vstd::string::*;

verus! {

/// Why an operation on a firewall, an instance or a DNS zone failed.
#[derive(Clone, PartialEq, Eq, Debug)]
pub enum Error {
    /// A change of type was asked of an instance that is not stopped.
    InstanceMustBeStopped,
    /// No zone is authoritative for the name.
    NoAuthoritativeZone { name: String },
    /// The instance is shutting down for good.
    InstanceTerminating,
    /// The instance is gone.
    InstanceTerminated,
    /// The provider reported a state code that has no meaning here.
    InstanceUnknownState { code: u8 },
    /// The instance runs but shows no address.
    MissingAddress,
    /// A firewall permission names a protocol other than `tcp` and `udp`.
    UnknownProtocol { name: String },
    /// A firewall permission holds a text that is no IPv4 network.
    NotAnIpv4Network { text: String },
    /// A firewall permission holds a text that is no IPv6 network.
    NotAnIpv6Network { text: String },
    /// A command-line protocol is not of the form ports, slash, name.
    NotAProtocol { text: String },
    /// A command-line source with a slash is no CIDR network.
    NotAnIpNetwork { text: String },
    /// A command-line source without a slash is no IP address.
    NotAnIpAddress { text: String },
    /// An instance carries no `Name` tag.
    MissingNameTag { id: String },
    /// An in-memory provider has run out of identifiers or addresses.
    Exhausted,
    /// The provider refused or failed a request; the text is the provider's.
    Provider { message: String },
}

impl Error {
    /// Whether the error is a provider's: a request that it refused or that failed, or an
    /// answer of it that could not be read.
    pub open spec fn is_of_provider(self) -> bool {
        ||| self is Provider
        ||| self is UnknownProtocol
        ||| self is NotAnIpv4Network
        ||| self is NotAnIpv6Network
        ||| self is MissingNameTag
    }

    /// Whether the error tells of an instance that cannot be brought to run or to a stop:
    /// it is going, gone, in a state without a meaning, or runs without an address.
    pub open spec fn is_of_lifecycle(self) -> bool {
        ||| self is InstanceTerminating
        ||| self is InstanceTerminated
        ||| self is InstanceUnknownState
        ||| self is MissingAddress
    }

    /// The text shown to the operator.
    pub open spec fn message_text(self) -> Seq<char> {
        match self {
            Error::InstanceMustBeStopped => "instance must be stopped to change its type"@,
            Error::NoAuthoritativeZone { name } => "could not find authoritative DNS zone for: "@
                + name@,
            Error::InstanceTerminating => "instance is terminating"@,
            Error::InstanceTerminated => "instance is terminated"@,
            Error::InstanceUnknownState { code } => "instance is in unknown state: "@
                + decimal_text(code as nat),
            Error::MissingAddress => "expected running instance to have IPv4 address"@,
            Error::UnknownProtocol { name } => "unknown protocol: "@ + name@,
            Error::NotAnIpv4Network { text } => "not an IPv4 network: "@ + text@,
            Error::NotAnIpv6Network { text } => "not an IPv6 network: "@ + text@,
            Error::NotAProtocol { text } => "not a protocol: "@ + text@,
            Error::NotAnIpNetwork { text } => "not an IP network: "@ + text@,
            Error::NotAnIpAddress { text } => "not an IP address: "@ + text@,
            Error::MissingNameTag { id } => "expected instance to have Name tag: "@ + id@,
            Error::Exhausted => "exhausted"@,
            Error::Provider { message } => message@,
        }
    }

    /// Writes the message of the error.
    pub fn message(&self) -> (s: String)
        ensures
            s@ == self.message_text(),
    {
        match self {
            Error::InstanceMustBeStopped => {
                "instance must be stopped to change its type".to_owned()
            },
            Error::NoAuthoritativeZone { name } => {
                "could not find authoritative DNS zone for: ".to_owned().concat(name.as_str())
            },
            Error::InstanceTerminating => "instance is terminating".to_owned(),
            Error::InstanceTerminated => "instance is terminated".to_owned(),
            Error::InstanceUnknownState { code } => {
                let number = decimal_string(*code as u64);
                "instance is in unknown state: ".to_owned().concat(number.as_str())
            },
            Error::MissingAddress => "expected running instance to have IPv4 address".to_owned(),
            Error::UnknownProtocol { name } => "unknown protocol: ".to_owned().concat(
                name.as_str(),
            ),
            Error::NotAnIpv4Network { text } => "not an IPv4 network: ".to_owned().concat(
                text.as_str(),
            ),
            Error::NotAnIpv6Network { text } => "not an IPv6 network: ".to_owned().concat(
                text.as_str(),
            ),
            Error::NotAProtocol { text } => "not a protocol: ".to_owned().concat(text.as_str()),
            Error::NotAnIpNetwork { text } => "not an IP network: ".to_owned().concat(
                text.as_str(),
            ),
            Error::NotAnIpAddress { text } => "not an IP address: ".to_owned().concat(
                text.as_str(),
            ),
            Error::MissingNameTag { id } => {
                "expected instance to have Name tag: ".to_owned().concat(id.as_str())
            },
            Error::Exhausted => "exhausted".to_owned(),
            Error::Provider { message } => message.clone(),
        }
    }

    /// Same as [`Error::message`], under the name that callers of `Display` expect.
    pub fn to_string(&self) -> (s: String)
        ensures
            s@ == self.message_text(),
    {
        self.message()
    }
}

} // verus!
