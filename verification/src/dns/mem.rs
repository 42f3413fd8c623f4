//! A DNS provider held in memory.

use crate::dns::Dns;
use crate::dns::DnsStore;
use crate::dns::DnsTarget;
use crate::dns::DnsTargetView;
use crate::dns::DnsView;
use crate::dns::DnsZone;
use crate::dns::ZoneView;
use crate::error::Error;
use crate::table::Table;
use crate::text::decimal_text;
use crate::text::str_eq;
use vstd::prelude::*;
use vstd::string::*;

verus! {

/// One record: a name and what it is bound to.
pub struct Record {
    name: String,
    target: DnsTarget,
}

/// What the records bind each name to; of two records of one name the later one counts.
pub closed spec fn records_map(records: Seq<Record>) -> Map<Seq<char>, DnsTargetView>
    decreases records.len(),
{
    if records.len() == 0 {
        Map::empty()
    } else {
        records_map(records.drop_last()).insert(records.last().name@, records.last().target@)
    }
}

/// One more record binds its name, in place of what the name was bound to.
proof fn lemma_records_push(records: Seq<Record>, record: Record)
    ensures
        records_map(records.push(record)) == records_map(records).insert(
            record.name@,
            record.target@,
        ),
{
    assert(records.push(record).drop_last() =~= records);
}

/// The records without those of `name`.
fn records_without(records: &Vec<Record>, name: &str) -> (r: Vec<Record>)
    ensures
        records_map(r@) == records_map(records@).remove(name@),
{
    let mut out: Vec<Record> = Vec::new();
    let mut i: usize = 0;
    while i < records.len()
        invariant
            i <= records.len(),
            records_map(out@) == records_map(records@.take(i as int)).remove(name@),
        decreases records.len() - i,
    {
        let record = &records[i];
        proof {
            assert(records@.take(i + 1) =~= records@.take(i as int).push(*record));
            lemma_records_push(records@.take(i as int), *record);
        }
        if !str_eq(record.name.as_str(), name) {
            let copy = Record { name: record.name.clone(), target: record.target.clone() };
            proof {
                lemma_records_push(out@, copy);
            }
            out.push(copy);
        }
        i = i + 1;
    }
    assert(records@.take(records.len() as int) =~= records@);
    out
}

/// What `name` is bound to by the records.
fn records_lookup(records: &Vec<Record>, name: &str) -> (r: Option<DnsTarget>)
    ensures
        match r {
            Some(target) => records_map(records@).contains_key(name@) && records_map(
                records@,
            )[name@] == target@,
            None => !records_map(records@).contains_key(name@),
        },
{
    let mut found: Option<DnsTarget> = None;
    let mut i: usize = 0;
    while i < records.len()
        invariant
            i <= records.len(),
            match found {
                Some(target) => records_map(records@.take(i as int)).contains_key(name@)
                    && records_map(records@.take(i as int))[name@] == target@,
                None => !records_map(records@.take(i as int)).contains_key(name@),
            },
        decreases records.len() - i,
    {
        let record = &records[i];
        proof {
            assert(records@.take(i + 1) =~= records@.take(i as int).push(*record));
            lemma_records_push(records@.take(i as int), *record);
        }
        if str_eq(record.name.as_str(), name) {
            found = Some(record.target.clone());
        }
        i = i + 1;
    }
    assert(records@.take(records.len() as int) =~= records@);
    found
}

/// What the provider holds of one zone.
pub struct ZoneData {
    name: String,
    records: Vec<Record>,
}

impl View for ZoneData {
    type V = ZoneView;

    closed spec fn view(&self) -> ZoneView {
        ZoneView { name: self.name@, records: records_map(self.records@) }
    }
}

/// A zone of a [`MemDns`].
#[derive(Debug)]
pub struct MemDnsZone {
    id: String,
    name: String,
}

/// A DNS provider that holds its zones in memory. Identifiers are the decimal texts of a
/// counter.
pub struct MemDns {
    next_id: u32,
    dns_zones: Table<ZoneData>,
}

impl DnsStore for MemDns {
    open spec fn reliable(&self) -> bool {
        true
    }

    closed spec fn view(&self) -> DnsView {
        DnsView { zones: self.dns_zones.map() }
    }
}

/// Whether `e` is the error of a handle `id` whose zone the provider does not hold.
pub open spec fn is_unknown_zone(e: Error, id: Seq<char>) -> bool {
    e matches Error::Provider { message } && message@ == "no such zone: "@ + id
}

/// The error of a handle whose zone the provider does not hold.
fn unknown_zone(id: &str) -> (e: Error)
    ensures
        is_unknown_zone(e, id@),
{
    Error::Provider { message: "no such zone: ".to_owned().concat(id) }
}

impl MemDns {
    #[verifier::type_invariant]
    spec fn counter_ahead(self) -> bool {
        self.dns_zones.bound() <= self.next_id
    }

    /// How many identifiers were given out.
    pub closed spec fn ids_given(&self) -> nat {
        self.next_id as nat
    }

    /// The identifiers of the zones, in the order in which they were made.
    pub closed spec fn zone_ids(&self) -> Seq<Seq<char>> {
        self.dns_zones.ids()
    }

    /// Whether an identifier is left for one more zone.
    pub open spec fn ids_left(&self) -> bool {
        self.ids_given() < u32::MAX
    }

    /// A provider without zones.
    pub fn new() -> (r: Result<MemDns, Error>)
        ensures
            r matches Ok(dns) && dns.view().zones == Map::<Seq<char>, ZoneView>::empty()
                && dns.ids_given() == 0 && dns.zone_ids().len() == 0,
    {
        Ok(MemDns::starting_at(0))
    }

    /// A provider without zones that has given out `ids_given` identifiers before.
    pub fn starting_at(ids_given: u32) -> (dns: MemDns)
        ensures
            dns.view().zones == Map::<Seq<char>, ZoneView>::empty(),
            dns.ids_given() == ids_given,
            dns.zone_ids().len() == 0,
    {
        MemDns { next_id: ids_given, dns_zones: Table::new() }
    }

    /// Makes a zone for the domain `name`, without records.
    pub fn create_dns_zone(&mut self, name: &str) -> (r: Result<MemDnsZone, Error>)
        ensures
            r is Ok <==> old(self).ids_left(),
            r matches Ok(zone) ==> {
                &&& zone.key() == decimal_text(old(self).ids_given())
                &&& final(self).ids_given() == old(self).ids_given() + 1
                &&& final(self).zone_ids() == old(self).zone_ids().push(zone.key())
                &&& !old(self).view().zones.contains_key(zone.key())
                &&& zone.name_view() == name@
                &&& final(self).view().zones == old(self).view().zones.insert(
                    zone.key(),
                    ZoneView { name: name@, records: Map::<Seq<char>, DnsTargetView>::empty() },
                )
            },
            r matches Err(e) ==> e == Error::Exhausted && final(self).view() == old(self).view()
                && final(self).ids_given() == old(self).ids_given() && final(self).zone_ids()
                == old(self).zone_ids(),
    {
        proof {
            use_type_invariant(&*self);
        }
        if self.next_id == u32::MAX {
            return Err(Error::Exhausted);
        }
        let mut taken = MemDns { next_id: 0, dns_zones: Table::new() };
        core::mem::swap(self, &mut taken);
        let MemDns { next_id, mut dns_zones } = taken;
        let id = dns_zones.add(next_id, ZoneData { name: name.to_owned(), records: Vec::new() });
        *self = MemDns { next_id: next_id + 1, dns_zones };
        Ok(MemDnsZone { id, name: name.to_owned() })
    }

    fn replace_zone(&mut self, i: usize, data: ZoneData)
        requires
            i < old(self).dns_zones.ids().len(),
        ensures
            final(self).view() == (DnsView {
                zones: old(self).view().zones.insert(old(self).dns_zones.ids()[i as int], data@),
            }),
            final(self).ids_given() == old(self).ids_given(),
            final(self).zone_ids() == old(self).zone_ids(),
    {
        proof {
            use_type_invariant(&*self);
        }
        let mut taken = MemDns { next_id: 0, dns_zones: Table::new() };
        core::mem::swap(self, &mut taken);
        let MemDns { next_id, mut dns_zones } = taken;
        dns_zones.replace(i, data);
        *self = MemDns { next_id, dns_zones };
    }
}

impl MemDnsZone {
    /// What `fqdn` is bound to in this zone.
    pub fn lookup(&self, dns: &MemDns, fqdn: &str) -> (r: Result<Option<DnsTarget>, Error>)
        ensures
            r is Ok <==> dns.view().zones.contains_key(self.key()),
            r matches Err(e) ==> is_unknown_zone(e, self.key()),
            r matches Ok(found) ==> {
                let records = dns.view().zones[self.key()].records;
                match found {
                    Some(target) => records.contains_key(fqdn@) && records[fqdn@] == target@,
                    None => !records.contains_key(fqdn@),
                }
            },
    {
        match dns.dns_zones.find(self.id.as_str()) {
            Some(i) => Ok(records_lookup(&dns.dns_zones.value_at(i).records, fqdn)),
            None => Err(unknown_zone(self.id.as_str())),
        }
    }
}

impl DnsZone<MemDns> for MemDnsZone {
    closed spec fn key(&self) -> Seq<char> {
        self.id@
    }

    closed spec fn name_view(&self) -> Seq<char> {
        self.name@
    }

    fn id(&self) -> (r: &str) {
        self.id.as_str()
    }

    fn name(&self) -> (r: &str) {
        self.name.as_str()
    }

    fn bind(&self, dns: &mut MemDns, fqdn: &str, target: DnsTarget) -> (r: Result<(), Error>)
        ensures
            r is Ok <==> old(dns).view().zones.contains_key(self.key()),
            r is Err ==> final(dns).view() == old(dns).view(),
            r matches Err(e) ==> is_unknown_zone(e, self.key()),
            final(dns).ids_given() == old(dns).ids_given(),
            final(dns).zone_ids() == old(dns).zone_ids(),
    {
        match dns.dns_zones.find(self.id.as_str()) {
            Some(i) => {
                let held = dns.dns_zones.value_at(i);
                let mut records = records_without(&held.records, fqdn);
                let record = Record { name: fqdn.to_owned(), target };
                proof {
                    lemma_records_push(records@, record);
                }
                records.push(record);
                dns.replace_zone(i, ZoneData { name: held.name.clone(), records });
                assert(dns.view() =~~= old(dns).view().with_record(self.key(), fqdn@, target@));
                Ok(())
            },
            None => Err(unknown_zone(self.id.as_str())),
        }
    }

    fn unbind(&self, dns: &mut MemDns, fqdn: &str) -> (r: Result<(), Error>)
        ensures
            r is Ok <==> old(dns).view().zones.contains_key(self.key()),
            r is Err ==> final(dns).view() == old(dns).view(),
            r matches Err(e) ==> is_unknown_zone(e, self.key()),
            final(dns).ids_given() == old(dns).ids_given(),
            final(dns).zone_ids() == old(dns).zone_ids(),
    {
        match dns.dns_zones.find(self.id.as_str()) {
            Some(i) => {
                let held = dns.dns_zones.value_at(i);
                let records = records_without(&held.records, fqdn);
                dns.replace_zone(i, ZoneData { name: held.name.clone(), records });
                Ok(())
            },
            None => Err(unknown_zone(self.id.as_str())),
        }
    }
}

impl Dns for MemDns {
    type DnsZone = MemDnsZone;

    fn list_zones(&self) -> (r: Result<Vec<MemDnsZone>, Error>)
        ensures
            r matches Ok(zones) && zones@.len() == self.zone_ids().len() && forall|i: int|
                0 <= i < zones@.len() ==> (#[trigger] zones@[i]).key() == self.zone_ids()[i],
    {
        let n = self.dns_zones.len();
        let mut out: Vec<MemDnsZone> = Vec::new();
        let mut i: usize = 0;
        while i < n
            invariant
                i <= n,
                n == self.dns_zones.ids().len(),
                n == self.dns_zones.values().len(),
                self.dns_zones.wf(),
                out@.len() == i,
                forall|k: int|
                    0 <= k < i ==> (#[trigger] out@[k]).key() == self.dns_zones.ids()[k]
                        && self.view().zones.contains_key(out@[k].key())
                        && self.view().zones[out@[k].key()].name == out@[k].name_view(),
            decreases n - i,
        {
            let held = self.dns_zones.value_at(i);
            out.push(
                MemDnsZone { id: self.dns_zones.id_at(i).to_owned(), name: held.name.clone() },
            );
            i = i + 1;
        }
        proof {
            assert forall|key: Seq<char>| #[trigger]
                self.view().zones.contains_key(key) implies exists|k: int|
                0 <= k < out@.len() && (#[trigger] out@[k]).key() == key by {
                let p = self.dns_zones.position(key);
                assert(out@[p].key() == key);
            }
        }
        Ok(out)
    }
}

} // verus!
