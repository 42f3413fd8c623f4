//! What an adapter for Amazon Route 53 computes between its requests: the identifier of a
//! zone, the record set that binds a name, and whether a record set is that of a name.

use crate::dns::DnsTarget;
use crate::dns::DnsTargetView;
use crate::net::ipv4_addr_text;
use crate::text::label_texts;
use crate::text::labels;
use crate::text::labels_end_with;
use crate::text::split_labels;
use crate::text::str_eq;
use crate::text::trim_leading;
use crate::text::without_leading;
use vstd::prelude::*;
use vstd::string::*;

verus! {

/// A set of records of one name and one type.
#[derive(Debug, Clone, PartialEq, Eq)]
pub struct ResourceRecordSet {
    pub name: String,
    pub type_: String,
    pub ttl: Option<i64>,
    pub resource_records: Option<Vec<String>>,
}

/// The time to live of the records that bind a name, in seconds.
pub const RECORD_TTL: i64 = 60;

/// The type of the record that binds a name to `target`.
pub open spec fn record_type(target: DnsTargetView) -> Seq<char> {
    match target {
        DnsTargetView::A(_) => "A"@,
        DnsTargetView::Cname(_) => "CNAME"@,
    }
}

/// The value of the record that binds a name to `target`.
pub open spec fn record_value(target: DnsTargetView) -> Seq<char> {
    match target {
        DnsTargetView::A(addr) => ipv4_addr_text(addr.0),
        DnsTargetView::Cname(name) => name,
    }
}

/// The identifier of a zone from the path under which the provider reports it.
pub fn zone_id(path: &str) -> (id: &str)
    ensures
        id@ == without_leading(path@, "/hostedzone/"@),
{
    trim_leading(path, "/hostedzone/")
}

/// The record set that binds `fqdn` to `target`: one record, of type `A` for an address
/// and `CNAME` for a name, that lives for [`RECORD_TTL`] seconds.
pub fn record_set_for(fqdn: &str, target: DnsTarget) -> (r: ResourceRecordSet)
    ensures
        r.name@ == fqdn@,
        r.type_@ == record_type(target@),
        r.ttl == Some(RECORD_TTL),
        r.resource_records matches Some(records) && records@.len() == 1 && records@[0]@
            == record_value(target@),
{
    let (type_, value) = match target {
        DnsTarget::A(addr) => ("A", addr.to_string()),
        DnsTarget::Cname(name) => ("CNAME", name),
    };
    let mut records: Vec<String> = Vec::new();
    records.push(value);
    ResourceRecordSet {
        name: fqdn.to_owned(),
        type_: type_.to_owned(),
        ttl: Some(RECORD_TTL),
        resource_records: Some(records),
    }
}

/// The types of the records that may bind a name, in the order in which they are taken out.
pub fn bound_record_types() -> (r: Vec<String>)
    ensures
        r@.len() == 2,
        r@[0]@ == "A"@,
        r@[1]@ == "CNAME"@,
{
    let mut types: Vec<String> = Vec::new();
    types.push("A".to_owned());
    types.push("CNAME".to_owned());
    types
}

/// Whether `found` is the record set of `fqdn` with the type `type_`: the same labels, with
/// or without a trailing dot, and the same type. A lookup that starts at a name may come
/// back with the record set of a later name; that one is to be left alone.
pub fn is_record_set_of(found: &ResourceRecordSet, fqdn: &str, type_: &str) -> (b: bool)
    ensures
        b == (labels(found.name@) == labels(fqdn@) && found.type_@ == type_@),
{
    if !str_eq(found.type_.as_str(), type_) {
        return false;
    }
    let held = split_labels(found.name.as_str());
    let wanted = split_labels(fqdn);
    assert(label_texts(held@) =~= labels(found.name@));
    assert(label_texts(wanted@) =~= labels(fqdn@));
    if held.len() != wanted.len() {
        return false;
    }
    let same = labels_end_with(&held, &wanted);
    proof {
        let a = label_texts(held@);
        assert(a.subrange(0, a.len() as int) =~= a);
    }
    same
}

} // verus!
