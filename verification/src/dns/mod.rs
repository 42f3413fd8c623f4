//! DNS zones, the records bound in them, and the zone that answers for a name.

pub mod aws;
pub mod mem;

use crate::error::Error;
use crate::net::Ipv4Addr;
use crate::text::label_texts;
use crate::text::labels;
use crate::text::labels_end_with;
use crate::text::split_labels;
use vstd::prelude::*;
use vstd::string::*;

verus! {

/// What a name is bound to: an IPv4 address (an A record) or another name (a CNAME record).
#[derive(PartialEq, Eq, Debug)]
pub enum DnsTarget {
    A(Ipv4Addr),
    Cname(String),
}

/// A [`DnsTarget`] with its text as a sequence of characters.
pub enum DnsTargetView {
    A(Ipv4Addr),
    Cname(Seq<char>),
}

impl View for DnsTarget {
    type V = DnsTargetView;

    open spec fn view(&self) -> DnsTargetView {
        match self {
            DnsTarget::A(addr) => DnsTargetView::A(*addr),
            DnsTarget::Cname(name) => DnsTargetView::Cname(name@),
        }
    }
}

impl Clone for DnsTarget {
    fn clone(&self) -> (r: DnsTarget)
        ensures
            r@ == self@,
    {
        match self {
            DnsTarget::A(addr) => DnsTarget::A(*addr),
            DnsTarget::Cname(name) => DnsTarget::Cname(name.clone()),
        }
    }
}

/// One zone: the domain it answers for and the records bound in it, by name.
#[verifier::ext_equal]
pub struct ZoneView {
    pub name: Seq<char>,
    pub records: Map<Seq<char>, DnsTargetView>,
}

/// The zones of a DNS provider, by identifier.
#[verifier::ext_equal]
pub struct DnsView {
    pub zones: Map<Seq<char>, ZoneView>,
}

/// Whether the zone named `zone_name` covers `fqdn`: its labels are the last labels of `fqdn`.
pub open spec fn zone_covers(zone_name: Seq<char>, fqdn: Seq<char>) -> bool {
    labels(zone_name).is_suffix_of(labels(fqdn))
}

/// Whether `names[i]` is the zone to pick for `fqdn` among `names`: it covers `fqdn`, no
/// covering zone has more labels, and of the covering zones with as many it stands last.
pub open spec fn is_authoritative_index(names: Seq<Seq<char>>, fqdn: Seq<char>, i: int) -> bool {
    &&& 0 <= i < names.len()
    &&& zone_covers(names[i], fqdn)
    &&& forall|j: int|
        0 <= j < names.len() && zone_covers(#[trigger] names[j], fqdn) ==> labels(names[j]).len()
            <= labels(names[i]).len()
    &&& forall|j: int|
        i < j < names.len() && zone_covers(#[trigger] names[j], fqdn) ==> labels(names[j]).len()
            < labels(names[i]).len()
}

impl DnsView {
    /// Whether `zone` is a zone that covers `fqdn`.
    pub open spec fn covers(self, zone: Seq<char>, fqdn: Seq<char>) -> bool {
        self.zones.contains_key(zone) && zone_covers(self.zones[zone].name, fqdn)
    }

    /// Whether some zone covers `fqdn`.
    pub open spec fn has_zone(self, fqdn: Seq<char>) -> bool {
        exists|zone: Seq<char>| #[trigger] self.covers(zone, fqdn)
    }

    /// Whether `zone` is authoritative for `fqdn`: it covers `fqdn`, and no zone that covers
    /// `fqdn` has more labels.
    pub open spec fn is_authoritative(self, zone: Seq<char>, fqdn: Seq<char>) -> bool {
        &&& self.covers(zone, fqdn)
        &&& forall|other: Seq<char>| #[trigger]
            self.covers(other, fqdn) ==> labels(self.zones[other].name).len() <= labels(
                self.zones[zone].name,
            ).len()
    }

    /// The zones after `fqdn` is bound to `target` in `zone`, in place of what it was bound to.
    pub open spec fn with_record(
        self,
        zone: Seq<char>,
        fqdn: Seq<char>,
        target: DnsTargetView,
    ) -> DnsView {
        DnsView {
            zones: self.zones.insert(
                zone,
                ZoneView {
                    name: self.zones[zone].name,
                    records: self.zones[zone].records.insert(fqdn, target),
                },
            ),
        }
    }

    /// The zones after the record of `fqdn` in `zone`, if there is one, is taken out.
    pub open spec fn without_record(self, zone: Seq<char>, fqdn: Seq<char>) -> DnsView {
        DnsView {
            zones: self.zones.insert(
                zone,
                ZoneView {
                    name: self.zones[zone].name,
                    records: self.zones[zone].records.remove(fqdn),
                },
            ),
        }
    }

    /// Whether `after` differs from `self` in the records of the zone `zone` at most: the
    /// zones are the same, under the same names, and every other zone has its records.
    pub open spec fn same_but_records(self, after: DnsView, zone: Seq<char>) -> bool {
        &&& after.zones.remove(zone) == self.zones.remove(zone)
        &&& after.zones.contains_key(zone) <==> self.zones.contains_key(zone)
        &&& self.zones.contains_key(zone) ==> after.zones[zone].name == self.zones[zone].name
    }

    /// The zones after `fqdn` is bound to `target` in `zone`, or unbound where there is no target.
    pub open spec fn synced_in(
        self,
        zone: Seq<char>,
        fqdn: Seq<char>,
        target: Option<DnsTargetView>,
    ) -> DnsView {
        match target {
            Some(t) => self.with_record(zone, fqdn, t),
            None => self.without_record(zone, fqdn),
        }
    }

    /// Whether `after` is what `self` becomes when `fqdn` is bound to `target`, or unbound,
    /// in a zone that is authoritative for it.
    pub open spec fn synced(
        self,
        fqdn: Seq<char>,
        target: Option<DnsTargetView>,
        after: DnsView,
    ) -> bool {
        exists|zone: Seq<char>| #[trigger]
            self.is_authoritative(zone, fqdn) && after == self.synced_in(zone, fqdn, target)
    }
}

/// A DNS provider as far as contracts speak of it: the zones it holds.
pub trait DnsStore {
    closed spec fn view(&self) -> DnsView {
        arbitrary()
    }

    /// Whether the provider fails no request about a zone that it holds. A provider that
    /// does not say so of itself promises nothing of the kind.
    closed spec fn reliable(&self) -> bool {
        false
    }
}

/// One zone of a DNS provider. The zone is a handle: the records live in the provider.
/// Its requests fail with errors of the provider and no other.
pub trait DnsZone<D: DnsStore> {
    /// The identifier of the zone.
    closed spec fn key(&self) -> Seq<char> {
        arbitrary()
    }

    /// The domain name of the zone.
    closed spec fn name_view(&self) -> Seq<char> {
        arbitrary()
    }

    fn id(&self) -> (r: &str)
        ensures
            r@ == self.key(),
    ;

    fn name(&self) -> (r: &str)
        ensures
            r@ == self.name_view(),
    ;

    /// Binds `fqdn` to `target` in this zone, in place of any record of that name. A
    /// failure may have changed the records of this zone, and nothing else.
    fn bind(&self, dns: &mut D, fqdn: &str, target: DnsTarget) -> (r: Result<(), Error>)
        ensures
            r is Ok ==> old(dns).view().zones.contains_key(self.key()) && final(dns).view()
                == old(dns).view().with_record(self.key(), fqdn@, target@),
            r is Err ==> old(dns).view().same_but_records(final(dns).view(), self.key()),
            r matches Err(e) ==> e.is_of_provider(),
            old(dns).reliable() && old(dns).view().zones.contains_key(self.key()) ==> r is Ok,
            final(dns).reliable() == old(dns).reliable(),
    ;

    /// Takes the record of `fqdn` out of this zone; no error where there is none. A
    /// failure may have changed the records of this zone, and nothing else.
    fn unbind(&self, dns: &mut D, fqdn: &str) -> (r: Result<(), Error>)
        ensures
            r is Ok ==> old(dns).view().zones.contains_key(self.key()) && final(dns).view()
                == old(dns).view().without_record(self.key(), fqdn@),
            r is Err ==> old(dns).view().same_but_records(final(dns).view(), self.key()),
            r matches Err(e) ==> e.is_of_provider(),
            old(dns).reliable() && old(dns).view().zones.contains_key(self.key()) ==> r is Ok,
            final(dns).reliable() == old(dns).reliable(),
    ;
}

/// Whether `zones` is a listing of the zones of `view`: each handle is a zone of `view`
/// under its own name, and no zone of `view` is left out.
pub open spec fn zones_listed<D: DnsStore, Z: DnsZone<D>>(view: DnsView, zones: Seq<Z>) -> bool {
    &&& forall|i: int|
        0 <= i < zones.len() ==> view.zones.contains_key((#[trigger] zones[i]).key())
            && view.zones[zones[i].key()].name == zones[i].name_view()
    &&& forall|key: Seq<char>| #[trigger]
        view.zones.contains_key(key) ==> exists|i: int|
            0 <= i < zones.len() && (#[trigger] zones[i]).key() == key
}

/// Whether `e` is the error of a search for the zone of `fqdn` that found none: it names
/// `fqdn`, and no zone of `view` covers `fqdn`.
pub open spec fn is_no_zone_error(view: DnsView, fqdn: Seq<char>, e: Error) -> bool {
    &&& e matches Error::NoAuthoritativeZone { name } && name@ == fqdn
    &&& !view.has_zone(fqdn)
}

/// The names of the zones, in the order of the listing.
pub open spec fn zone_names<D: DnsStore, Z: DnsZone<D>>(zones: Seq<Z>) -> Seq<Seq<char>> {
    Seq::new(zones.len(), |i: int| zones[i].name_view())
}

/// A DNS provider.
pub trait Dns: DnsStore + Sized {
    type DnsZone: DnsZone<Self>;

    /// Lists every zone of the provider. It fails with an error of the provider and no other.
    fn list_zones(&self) -> (r: Result<Vec<Self::DnsZone>, Error>)
        ensures
            r matches Ok(zones) ==> zones_listed(self.view(), zones@),
            r matches Err(e) ==> e.is_of_provider(),
            self.reliable() ==> r is Ok,
    ;

    /// Finds the zone that is authoritative for `name`: of the zones whose labels are the
    /// last labels of `name`, the one with the most labels. Where the zones are listed and
    /// none of them covers `name`, the search fails and its error names `name`; every
    /// other failure is that of the listing. So with a reliable provider the search finds
    /// a zone exactly where one covers `name`.
    fn find_authoritative_zone(&self, name: &str) -> (r: Result<Self::DnsZone, Error>)
        ensures
            r matches Ok(zone) ==> self.view().is_authoritative(zone.key(), name@)
                && self.view().zones[zone.key()].name == zone.name_view(),
            r matches Err(e) ==> e.is_of_provider() || is_no_zone_error(self.view(), name@, e),
            self.reliable() ==> (r is Ok <==> self.view().has_zone(name@)),
    {
        let zones = self.list_zones()?;
        let ghost listing = zones@;
        let picked = pick_authoritative_zone::<Self, Self::DnsZone>(zones, name);
        proof {
            if picked is Err {
                assert forall|zone: Seq<char>| !#[trigger] self.view().covers(zone, name@) by {
                    if self.view().covers(zone, name@) {
                        let j = choose|j: int|
                            0 <= j < listing.len() && (#[trigger] listing[j]).key() == zone;
                        assert(zone_covers(listing[j].name_view(), name@));
                    }
                }
            }
            if picked is Ok {
                let zone = picked->Ok_0;
                let i = choose|i: int|
                    is_authoritative_index(zone_names::<Self, Self::DnsZone>(listing), name@, i)
                        && zone == #[trigger] listing[i];
                let names = zone_names::<Self, Self::DnsZone>(listing);
                assert forall|other: Seq<char>| #[trigger]
                    self.view().covers(other, name@) implies labels(
                    self.view().zones[other].name,
                ).len() <= labels(self.view().zones[zone.key()].name).len() by {
                    let j = choose|j: int|
                        0 <= j < listing.len() && (#[trigger] listing[j]).key() == other;
                    assert(names[j] == listing[j].name_view());
                }
            }
        }
        picked
    }
}

/// The index, among `zone_names`, of the zone to pick for `fqdn`.
pub fn authoritative_index(zone_names: &Vec<String>, fqdn: &str) -> (r: Option<usize>)
    ensures
        match r {
            Some(i) => is_authoritative_index(label_texts(zone_names@), fqdn@, i as int),
            None => forall|j: int|
                0 <= j < zone_names@.len() ==> !zone_covers(
                    #[trigger] label_texts(zone_names@)[j],
                    fqdn@,
                ),
        },
{
    let wanted = split_labels(fqdn);
    let ghost names = label_texts(zone_names@);
    let mut best: Option<usize> = None;
    let mut best_count: usize = 0;
    let mut i: usize = 0;
    while i < zone_names.len()
        invariant
            i <= zone_names.len(),
            names == label_texts(zone_names@),
            label_texts(wanted@) == labels(fqdn@),
            match best {
                Some(b) => {
                    &&& b < i
                    &&& zone_covers(names[b as int], fqdn@)
                    &&& best_count == labels(names[b as int]).len()
                    &&& forall|j: int|
                        0 <= j < i && zone_covers(#[trigger] names[j], fqdn@) ==> labels(
                            names[j],
                        ).len() <= best_count
                    &&& forall|j: int|
                        b < j < i && zone_covers(#[trigger] names[j], fqdn@) ==> labels(
                            names[j],
                        ).len() < best_count
                },
                None => forall|j: int| 0 <= j < i ==> !zone_covers(#[trigger] names[j], fqdn@),
            },
        decreases zone_names.len() - i,
    {
        let zone_labels = split_labels(zone_names[i].as_str());
        if labels_end_with(&wanted, &zone_labels) {
            let count = zone_labels.len();
            let better = match best {
                Some(_) => count >= best_count,
                None => true,
            };
            if better {
                best = Some(i);
                best_count = count;
            }
        }
        i = i + 1;
    }
    best
}

/// Picks, from a listing of zones, the zone that is authoritative for `name`.
pub fn pick_authoritative_zone<D: DnsStore, Z: DnsZone<D>>(mut zones: Vec<Z>, name: &str) -> (r:
    Result<Z, Error>)
    ensures
        match r {
            Ok(zone) => exists|i: int|
                is_authoritative_index(zone_names::<D, Z>(zones@), name@, i) && zone
                    == #[trigger] zones@[i],
            Err(e) => {
                &&& e matches Error::NoAuthoritativeZone { name: n } && n@ == name@
                &&& forall|j: int|
                    0 <= j < zones@.len() ==> !zone_covers(
                        (#[trigger] zones@[j]).name_view(),
                        name@,
                    )
            },
        },
{
    let ghost listing = zones@;
    let mut names: Vec<String> = Vec::new();
    let mut i: usize = 0;
    while i < zones.len()
        invariant
            i <= zones.len(),
            zones@ == listing,
            names@.len() == i,
            forall|j: int| 0 <= j < i ==> (#[trigger] names@[j])@ == listing[j].name_view(),
        decreases zones.len() - i,
    {
        names.push(zones[i].name().to_owned());
        i = i + 1;
    }
    assert(label_texts(names@) =~= zone_names::<D, Z>(listing));
    match authoritative_index(&names, name) {
        Some(index) => {
            let zone = zones.remove(index);
            Ok(zone)
        },
        None => {
            assert forall|j: int| 0 <= j < listing.len() implies !zone_covers(
                (#[trigger] listing[j]).name_view(),
                name@,
            ) by {
                assert(label_texts(names@)[j] == listing[j].name_view());
            }
            Err(Error::NoAuthoritativeZone { name: name.to_owned() })
        },
    }
}

/// Among the names of a listing, at most one index is the zone to pick for a name: the
/// choice does not depend on anything but the listing and the name.
pub proof fn lemma_authoritative_index_unique(
    names: Seq<Seq<char>>,
    fqdn: Seq<char>,
    i: int,
    j: int,
)
    requires
        is_authoritative_index(names, fqdn, i),
        is_authoritative_index(names, fqdn, j),
    ensures
        i == j,
{
}

/// A zone covers a name exactly if some index of the listing is the zone to pick for it:
/// the search fails only where no zone covers the name.
pub proof fn lemma_authoritative_index_exists(names: Seq<Seq<char>>, fqdn: Seq<char>)
    ensures
        (exists|j: int| 0 <= j < names.len() && zone_covers(#[trigger] names[j], fqdn)) <==> (
        exists|i: int| is_authoritative_index(names, fqdn, i)),
    decreases names.len(),
{
    if names.len() > 0 {
        let shorter = names.drop_last();
        let last = names.len() - 1;
        lemma_authoritative_index_exists(shorter, fqdn);
        if exists|j: int| 0 <= j < names.len() && zone_covers(#[trigger] names[j], fqdn) {
            if exists|j: int| 0 <= j < shorter.len() && zone_covers(#[trigger] shorter[j], fqdn) {
                let b = choose|b: int| is_authoritative_index(shorter, fqdn, b);
                if zone_covers(names[last], fqdn) && labels(names[last]).len() >= labels(
                    names[b],
                ).len() {
                    assert forall|k: int|
                        0 <= k < names.len() && zone_covers(
                            #[trigger] names[k],
                            fqdn,
                        ) implies labels(names[k]).len() <= labels(names[last]).len() by {
                        if k < last {
                            assert(shorter[k] == names[k]);
                        }
                    }
                } else {
                    assert forall|k: int|
                        0 <= k < names.len() && zone_covers(
                            #[trigger] names[k],
                            fqdn,
                        ) implies labels(names[k]).len() <= labels(names[b]).len() by {
                        if k < last {
                            assert(shorter[k] == names[k]);
                        }
                    }
                    assert forall|k: int|
                        b < k < names.len() && zone_covers(
                            #[trigger] names[k],
                            fqdn,
                        ) implies labels(names[k]).len() < labels(names[b]).len() by {
                        if k < last {
                            assert(shorter[k] == names[k]);
                        }
                    }
                    assert(is_authoritative_index(names, fqdn, b));
                }
            } else {
                assert forall|k: int|
                    0 <= k < names.len() && zone_covers(#[trigger] names[k], fqdn) implies k
                    == last by {
                    if k < last {
                        assert(shorter[k] == names[k]);
                    }
                }
                assert(is_authoritative_index(names, fqdn, last));
            }
        }
        if exists|i: int| is_authoritative_index(names, fqdn, i) {
            let i = choose|i: int| is_authoritative_index(names, fqdn, i);
            assert(zone_covers(names[i], fqdn));
        }
    } else if exists|i: int| is_authoritative_index(names, fqdn, i) {
        let i = choose|i: int| is_authoritative_index(names, fqdn, i);
        assert(0 <= i < names.len());
    }
}

impl DnsView {
    /// Whether at most one zone is authoritative for `fqdn`. Two zones are both
    /// authoritative only where their names have the same labels.
    pub open spec fn authority_unique(self, fqdn: Seq<char>) -> bool {
        forall|a: Seq<char>, b: Seq<char>|
            #![trigger self.is_authoritative(a, fqdn), self.is_authoritative(b, fqdn)]
            self.is_authoritative(a, fqdn) && self.is_authoritative(b, fqdn) ==> a == b
    }

    /// Binding and unbinding names leaves the zones and their names as they are, and so the
    /// authority over any name.
    pub proof fn lemma_sync_keeps_authority(
        self,
        zone: Seq<char>,
        fqdn: Seq<char>,
        target: Option<DnsTargetView>,
        other: Seq<char>,
        name: Seq<char>,
    )
        requires
            self.zones.contains_key(zone),
        ensures
            self.synced_in(zone, fqdn, target).covers(other, name) == self.covers(other, name),
            self.synced_in(zone, fqdn, target).is_authoritative(other, name)
                == self.is_authoritative(other, name),
    {
        let after = self.synced_in(zone, fqdn, target);
        if self.is_authoritative(other, name) {
            assert forall|z: Seq<char>| #[trigger] after.covers(z, name) implies labels(
                after.zones[z].name,
            ).len() <= labels(after.zones[other].name).len() by {
                assert(self.covers(z, name));
            }
        }
        if after.is_authoritative(other, name) {
            assert forall|z: Seq<char>| #[trigger] self.covers(z, name) implies labels(
                self.zones[z].name,
            ).len() <= labels(self.zones[other].name).len() by {
                assert(after.covers(z, name));
            }
        }
    }

    /// Binding a name twice to the same target, or unbinding it twice, leaves the zones
    /// as they were after the first time, where only one zone answers for the name.
    pub proof fn lemma_synced_twice(
        self,
        fqdn: Seq<char>,
        target: Option<DnsTargetView>,
        once: DnsView,
        twice: DnsView,
    )
        requires
            self.authority_unique(fqdn),
            self.synced(fqdn, target, once),
            once.synced(fqdn, target, twice),
        ensures
            twice == once,
    {
        let z1 = choose|zone: Seq<char>| #[trigger]
            self.is_authoritative(zone, fqdn) && once == self.synced_in(zone, fqdn, target);
        let z2 = choose|zone: Seq<char>| #[trigger]
            once.is_authoritative(zone, fqdn) && twice == once.synced_in(zone, fqdn, target);
        self.lemma_sync_keeps_authority(z1, fqdn, target, z2, fqdn);
        assert(twice =~~= once);
    }
}

} // verus!
