//! Running `Start` or `Stop` a second time changes nothing.
//!
//! This holds where at most one zone answers for each declared name and, for `Start`,
//! where no two of the named instances declare the same name: of two instances that
//! claim one name the one started last keeps it, and a second run may start them in
//! another order.

use crate::cloud::lifecycle::InstanceStateCode;
use crate::cloud::name_set;
use crate::cloud::CloudView;
use crate::dispatch::dispatched;
use crate::dispatch::instance_started;
use crate::dispatch::instance_stopped;
use crate::dispatch::started_all;
use crate::dispatch::stopped_all;
use crate::dispatch::type_view;
use crate::dispatch::Command;
use crate::dns::DnsView;
use vstd::prelude::*;

verus! {

/// Whether `b` holds the firewalls of `a`, and the instances of `a` under their names,
/// declared names and addresses; type and power state may differ.
pub open spec fn same_identities(a: CloudView, b: CloudView) -> bool {
    &&& a.firewalls == b.firewalls
    &&& forall|id: Seq<char>| a.instances.contains_key(id) == b.instances.contains_key(id)
    &&& forall|id: Seq<char>| #[trigger]
        a.instances.contains_key(id) ==> a.instances[id].name == b.instances[id].name
            && a.instances[id].fqdn == b.instances[id].fqdn && a.instances[id].addr
            == b.instances[id].addr
}

/// Whether `b` holds the zones of `a` under their names; the records may differ.
pub open spec fn same_zone_names(a: DnsView, b: DnsView) -> bool {
    &&& forall|zone: Seq<char>| a.zones.contains_key(zone) == b.zones.contains_key(zone)
    &&& forall|zone: Seq<char>| #[trigger]
        a.zones.contains_key(zone) ==> a.zones[zone].name == b.zones[zone].name
}

/// Whether at most one zone answers for each name that one of the instances `ids` declares.
pub open spec fn authority_settled(c: CloudView, d: DnsView, ids: Set<Seq<char>>) -> bool {
    forall|id: Seq<char>| #[trigger]
        ids.contains(id) && c.instances.contains_key(id) ==> (c.instances[id].fqdn matches Some(
            fqdn,
        ) ==> d.authority_unique(fqdn))
}

/// Whether no two of the instances `ids` declare the same name.
pub open spec fn names_distinct(c: CloudView, ids: Set<Seq<char>>) -> bool {
    forall|a: Seq<char>, b: Seq<char>|
        #![trigger ids.contains(a), ids.contains(b)]
        ids.contains(a) && ids.contains(b) && a != b && c.instances[a].fqdn is Some
            ==> c.instances[a].fqdn != c.instances[b].fqdn
}

/// Whether the instance `id` is as a start leaves it: it runs, with the wanted type, and
/// the name it declares is bound to its address in a zone that answers for the name.
pub open spec fn start_settled(
    c: CloudView,
    d: DnsView,
    id: Seq<char>,
    instance_type: Option<Seq<char>>,
) -> bool {
    let instance = c.instances[id];
    &&& c.instances.contains_key(id)
    &&& instance.state == InstanceStateCode::Running
    &&& instance_type matches Some(t) ==> instance.instance_type == t
    &&& instance.addr is Some
    &&& instance.fqdn matches Some(fqdn) ==> exists|zone: Seq<char>| #[trigger]
        d.is_authoritative(zone, fqdn) && d.zones[zone].records.contains_key(fqdn)
            && d.zones[zone].records[fqdn] == instance.addr->0
}

/// Whether the instance `id` is as a stop leaves it: it is stopped, and the name it
/// declares is bound in no zone that answers for the name.
pub open spec fn stop_settled(c: CloudView, d: DnsView, id: Seq<char>) -> bool {
    let instance = c.instances[id];
    &&& c.instances.contains_key(id)
    &&& instance.state == InstanceStateCode::Stopped
    &&& instance.fqdn matches Some(fqdn) ==> forall|zone: Seq<char>| #[trigger]
        d.is_authoritative(zone, fqdn) ==> !d.zones[zone].records.contains_key(fqdn)
}

/// Zones with the same names give the same authority over every name.
pub proof fn lemma_same_authority(a: DnsView, b: DnsView, zone: Seq<char>, fqdn: Seq<char>)
    requires
        same_zone_names(a, b),
    ensures
        a.covers(zone, fqdn) == b.covers(zone, fqdn),
        a.is_authoritative(zone, fqdn) == b.is_authoritative(zone, fqdn),
{
    if a.is_authoritative(zone, fqdn) {
        assert forall|z: Seq<char>| #[trigger] b.covers(z, fqdn) implies crate::text::labels(
            b.zones[z].name,
        ).len() <= crate::text::labels(b.zones[zone].name).len() by {
            assert(a.covers(z, fqdn));
        }
    }
    if b.is_authoritative(zone, fqdn) {
        assert forall|z: Seq<char>| #[trigger] a.covers(z, fqdn) implies crate::text::labels(
            a.zones[z].name,
        ).len() <= crate::text::labels(a.zones[zone].name).len() by {
            assert(b.covers(z, fqdn));
        }
    }
}

/// Zones with the same names agree on whether one zone at most answers for a name.
pub proof fn lemma_same_authority_unique(a: DnsView, b: DnsView, fqdn: Seq<char>)
    requires
        same_zone_names(a, b),
        a.authority_unique(fqdn),
    ensures
        b.authority_unique(fqdn),
{
    assert forall|x: Seq<char>, y: Seq<char>|
        b.is_authoritative(x, fqdn) && b.is_authoritative(y, fqdn) implies x == y by {
        lemma_same_authority(a, b, x, fqdn);
        lemma_same_authority(a, b, y, fqdn);
    }
}

/// Binding or unbinding a name leaves the zones under their names.
pub proof fn lemma_synced_keeps_names(
    d0: DnsView,
    fqdn: Seq<char>,
    target: Option<crate::dns::DnsTargetView>,
    d1: DnsView,
)
    requires
        d0.synced(fqdn, target, d1),
    ensures
        same_zone_names(d0, d1),
{
    let zone = choose|zone: Seq<char>| #[trigger]
        d0.is_authoritative(zone, fqdn) && d1 == d0.synced_in(zone, fqdn, target);
}

/// A start leaves the instances under their names, declared names and addresses, and the
/// zones under their names.
pub proof fn lemma_started_keeps_identities(
    c0: CloudView,
    d0: DnsView,
    id: Seq<char>,
    instance_type: Option<Seq<char>>,
    c1: CloudView,
    d1: DnsView,
)
    requires
        instance_started(c0, d0, id, instance_type, c1, d1),
    ensures
        same_identities(c0, c1),
        same_zone_names(d0, d1),
{
}

/// A stop leaves the instances under their names, declared names and addresses, and the
/// zones under their names.
pub proof fn lemma_stopped_keeps_identities(
    c0: CloudView,
    d0: DnsView,
    id: Seq<char>,
    c1: CloudView,
    d1: DnsView,
)
    requires
        instance_stopped(c0, d0, id, c1, d1),
    ensures
        same_identities(c0, c1),
        same_zone_names(d0, d1),
{
}

/// A run of starts leaves the instances under their names, declared names and addresses,
/// and the zones under their names.
pub proof fn lemma_started_all_keeps_identities(
    c0: CloudView,
    d0: DnsView,
    ids: Seq<Seq<char>>,
    instance_type: Option<Seq<char>>,
    c1: CloudView,
    d1: DnsView,
)
    requires
        started_all(c0, d0, ids, instance_type, c1, d1),
    ensures
        same_identities(c0, c1),
        same_zone_names(d0, d1),
    decreases ids.len(),
{
    if ids.len() > 0 {
        let (cm, dm) = choose|cm: CloudView, dm: DnsView|
            started_all(c0, d0, ids.drop_last(), instance_type, cm, dm)
                && #[trigger] instance_started(cm, dm, ids.last(), instance_type, c1, d1);
        lemma_started_all_keeps_identities(c0, d0, ids.drop_last(), instance_type, cm, dm);
    }
}

/// A run of stops leaves the instances under their names, declared names and addresses,
/// and the zones under their names.
pub proof fn lemma_stopped_all_keeps_identities(
    c0: CloudView,
    d0: DnsView,
    ids: Seq<Seq<char>>,
    c1: CloudView,
    d1: DnsView,
)
    requires
        stopped_all(c0, d0, ids, c1, d1),
    ensures
        same_identities(c0, c1),
        same_zone_names(d0, d1),
    decreases ids.len(),
{
    if ids.len() > 0 {
        let (cm, dm) = choose|cm: CloudView, dm: DnsView|
            stopped_all(c0, d0, ids.drop_last(), cm, dm) && #[trigger] instance_stopped(
                cm,
                dm,
                ids.last(),
                c1,
                d1,
            );
        lemma_stopped_all_keeps_identities(c0, d0, ids.drop_last(), cm, dm);
    }
}

/// Starting an instance that is as a start leaves it changes nothing.
pub proof fn lemma_start_of_settled(
    c0: CloudView,
    d0: DnsView,
    id: Seq<char>,
    instance_type: Option<Seq<char>>,
    c1: CloudView,
    d1: DnsView,
)
    requires
        start_settled(c0, d0, id, instance_type),
        instance_started(c0, d0, id, instance_type, c1, d1),
        c0.instances[id].fqdn matches Some(fqdn) ==> d0.authority_unique(fqdn),
    ensures
        c1 == c0,
        d1 == d0,
{
    if let Some(fqdn) = c0.instances[id].fqdn {
        let zone = choose|zone: Seq<char>| #[trigger]
            d0.is_authoritative(zone, fqdn) && d1 == d0.synced_in(
                zone,
                fqdn,
                c0.instances[id].addr,
            );
        assert(d1 =~~= d0);
    }
}

/// Stopping an instance that is as a stop leaves it changes nothing.
pub proof fn lemma_stop_of_settled(
    c0: CloudView,
    d0: DnsView,
    id: Seq<char>,
    c1: CloudView,
    d1: DnsView,
)
    requires
        stop_settled(c0, d0, id),
        instance_stopped(c0, d0, id, c1, d1),
    ensures
        c1 == c0,
        d1 == d0,
{
    if let Some(fqdn) = c0.instances[id].fqdn {
        let zone = choose|zone: Seq<char>| #[trigger]
            d0.is_authoritative(zone, fqdn) && d1 == d0.synced_in(zone, fqdn, None);
        assert(d1 =~~= d0);
    }
}

/// A run of starts over instances that are as a start leaves them changes nothing.
pub proof fn lemma_started_all_of_settled(
    c0: CloudView,
    d0: DnsView,
    ids: Seq<Seq<char>>,
    instance_type: Option<Seq<char>>,
    c1: CloudView,
    d1: DnsView,
)
    requires
        started_all(c0, d0, ids, instance_type, c1, d1),
        forall|i: int|
            0 <= i < ids.len() ==> start_settled(c0, d0, #[trigger] ids[i], instance_type),
        authority_settled(c0, d0, ids.to_set()),
    ensures
        c1 == c0,
        d1 == d0,
    decreases ids.len(),
{
    if ids.len() > 0 {
        let (cm, dm) = choose|cm: CloudView, dm: DnsView|
            started_all(c0, d0, ids.drop_last(), instance_type, cm, dm)
                && #[trigger] instance_started(cm, dm, ids.last(), instance_type, c1, d1);
        let shorter = ids.drop_last();
        assert forall|id: Seq<char>| #[trigger]
            shorter.to_set().contains(id) && c0.instances.contains_key(id) implies (
        c0.instances[id].fqdn matches Some(fqdn) ==> d0.authority_unique(fqdn)) by {
            assert(ids.to_set().contains(id));
        }
        lemma_started_all_of_settled(c0, d0, shorter, instance_type, cm, dm);
        assert(ids.to_set().contains(ids.last()));
        lemma_start_of_settled(c0, d0, ids.last(), instance_type, c1, d1);
    }
}

/// A run of stops over instances that are as a stop leaves them changes nothing.
pub proof fn lemma_stopped_all_of_settled(
    c0: CloudView,
    d0: DnsView,
    ids: Seq<Seq<char>>,
    c1: CloudView,
    d1: DnsView,
)
    requires
        stopped_all(c0, d0, ids, c1, d1),
        forall|i: int| 0 <= i < ids.len() ==> stop_settled(c0, d0, #[trigger] ids[i]),
    ensures
        c1 == c0,
        d1 == d0,
    decreases ids.len(),
{
    if ids.len() > 0 {
        let (cm, dm) = choose|cm: CloudView, dm: DnsView|
            stopped_all(c0, d0, ids.drop_last(), cm, dm) && #[trigger] instance_stopped(
                cm,
                dm,
                ids.last(),
                c1,
                d1,
            );
        let shorter = ids.drop_last();
        lemma_stopped_all_of_settled(c0, d0, shorter, cm, dm);
        lemma_stop_of_settled(c0, d0, ids.last(), c1, d1);
    }
}

/// A start leaves the started instance as a start leaves it, and every other instance
/// that was so and declares another name, or none.
pub proof fn lemma_start_settles(
    c0: CloudView,
    d0: DnsView,
    id: Seq<char>,
    instance_type: Option<Seq<char>>,
    c1: CloudView,
    d1: DnsView,
    other: Seq<char>,
)
    requires
        instance_started(c0, d0, id, instance_type, c1, d1),
        other == id || (start_settled(c0, d0, other, instance_type) && (
        c0.instances[other].fqdn is Some ==> c0.instances[other].fqdn != c0.instances[id].fqdn)),
    ensures
        start_settled(c1, d1, other, instance_type),
{
    if other == id {
        if let Some(fqdn) = c0.instances[id].fqdn {
            let zone = choose|zone: Seq<char>| #[trigger]
                d0.is_authoritative(zone, fqdn) && d1 == d0.synced_in(
                    zone,
                    fqdn,
                    c0.instances[id].addr,
                );
            lemma_same_authority(d0, d1, zone, fqdn);
        }
    } else {
        if let Some(held_name) = c0.instances[other].fqdn {
            let held = choose|zone: Seq<char>| #[trigger]
                d0.is_authoritative(zone, held_name) && d0.zones[zone].records.contains_key(
                    held_name,
                ) && d0.zones[zone].records[held_name] == c0.instances[other].addr->0;
            lemma_same_authority(d0, d1, held, held_name);
            if let Some(fqdn) = c0.instances[id].fqdn {
                let zone = choose|zone: Seq<char>| #[trigger]
                    d0.is_authoritative(zone, fqdn) && d1 == d0.synced_in(
                        zone,
                        fqdn,
                        c0.instances[id].addr,
                    );
            }
        }
    }
}

/// A stop leaves the stopped instance as a stop leaves it, where at most one zone answers
/// for the name it declares, and every other instance that was so.
pub proof fn lemma_stop_settles(
    c0: CloudView,
    d0: DnsView,
    id: Seq<char>,
    c1: CloudView,
    d1: DnsView,
    other: Seq<char>,
)
    requires
        instance_stopped(c0, d0, id, c1, d1),
        c0.instances[id].fqdn matches Some(fqdn) ==> d0.authority_unique(fqdn),
        other == id || stop_settled(c0, d0, other),
    ensures
        stop_settled(c1, d1, other),
{
    if other == id {
        if let Some(fqdn) = c0.instances[id].fqdn {
            let zone = choose|zone: Seq<char>| #[trigger]
                d0.is_authoritative(zone, fqdn) && d1 == d0.synced_in(zone, fqdn, None);
            assert forall|z: Seq<char>| #[trigger]
                d1.is_authoritative(z, fqdn) implies !d1.zones[z].records.contains_key(fqdn) by {
                lemma_same_authority(d0, d1, z, fqdn);
            }
        }
    } else {
        if let Some(held_name) = c0.instances[other].fqdn {
            assert forall|z: Seq<char>| #[trigger]
                d1.is_authoritative(z, held_name) implies !d1.zones[z].records.contains_key(
                held_name,
            ) by {
                lemma_same_authority(d0, d1, z, held_name);
                if let Some(fqdn) = c0.instances[id].fqdn {
                    let zone = choose|zone: Seq<char>| #[trigger]
                        d0.is_authoritative(zone, fqdn) && d1 == d0.synced_in(zone, fqdn, None);
                }
            }
        }
    }
}

/// After a run of starts each started instance is as a start leaves it, where no two of
/// them declare the same name.
pub proof fn lemma_started_all_settles(
    c0: CloudView,
    d0: DnsView,
    ids: Seq<Seq<char>>,
    instance_type: Option<Seq<char>>,
    c1: CloudView,
    d1: DnsView,
)
    requires
        started_all(c0, d0, ids, instance_type, c1, d1),
        names_distinct(c0, ids.to_set()),
    ensures
        forall|i: int|
            0 <= i < ids.len() ==> start_settled(c1, d1, #[trigger] ids[i], instance_type),
    decreases ids.len(),
{
    if ids.len() > 0 {
        let (cm, dm) = choose|cm: CloudView, dm: DnsView|
            started_all(c0, d0, ids.drop_last(), instance_type, cm, dm)
                && #[trigger] instance_started(cm, dm, ids.last(), instance_type, c1, d1);
        let shorter = ids.drop_last();
        let last = ids.last();
        assert forall|a: Seq<char>, b: Seq<char>|
            shorter.to_set().contains(a) && shorter.to_set().contains(b) && a != b
                && c0.instances[a].fqdn is Some implies c0.instances[a].fqdn
            != c0.instances[b].fqdn by {
            assert(ids.to_set().contains(a) && ids.to_set().contains(b));
        }
        lemma_started_all_settles(c0, d0, shorter, instance_type, cm, dm);
        lemma_started_all_keeps_identities(c0, d0, shorter, instance_type, cm, dm);
        assert forall|i: int| 0 <= i < ids.len() implies start_settled(
            c1,
            d1,
            #[trigger] ids[i],
            instance_type,
        ) by {
            let other = ids[i];
            if other != last {
                assert(shorter[i] == other);
                assert(ids.to_set().contains(other) && ids.to_set().contains(last));
            }
            lemma_start_settles(cm, dm, last, instance_type, c1, d1, other);
        }
    }
}

/// After a run of stops each stopped instance is as a stop leaves it, where at most one
/// zone answers for each name that they declare.
pub proof fn lemma_stopped_all_settles(
    c0: CloudView,
    d0: DnsView,
    ids: Seq<Seq<char>>,
    c1: CloudView,
    d1: DnsView,
)
    requires
        stopped_all(c0, d0, ids, c1, d1),
        authority_settled(c0, d0, ids.to_set()),
    ensures
        forall|i: int| 0 <= i < ids.len() ==> stop_settled(c1, d1, #[trigger] ids[i]),
    decreases ids.len(),
{
    if ids.len() > 0 {
        let (cm, dm) = choose|cm: CloudView, dm: DnsView|
            stopped_all(c0, d0, ids.drop_last(), cm, dm) && #[trigger] instance_stopped(
                cm,
                dm,
                ids.last(),
                c1,
                d1,
            );
        let shorter = ids.drop_last();
        let last = ids.last();
        assert(ids.to_set().contains(last));
        assert forall|id: Seq<char>| #[trigger]
            shorter.to_set().contains(id) && c0.instances.contains_key(id) implies (
        c0.instances[id].fqdn matches Some(fqdn) ==> d0.authority_unique(fqdn)) by {
            assert(ids.to_set().contains(id));
        }
        lemma_stopped_all_settles(c0, d0, shorter, cm, dm);
        lemma_stopped_all_keeps_identities(c0, d0, shorter, cm, dm);
        if let Some(fqdn) = c0.instances[last].fqdn {
            lemma_same_authority_unique(d0, dm, fqdn);
        }
        assert forall|i: int| 0 <= i < ids.len() implies stop_settled(
            c1,
            d1,
            #[trigger] ids[i],
        ) by {
            let other = ids[i];
            if other != last {
                assert(shorter[i] == other);
            }
            lemma_stop_settles(cm, dm, last, c1, d1, other);
        }
    }
}

/// `Start` is idempotent: a second run of the same command leaves the instances and the
/// zones as they were after the first run, where at most one zone answers for each name
/// that the named instances declare and no two of them declare the same name.
pub proof fn lemma_start_idempotent(
    instance_type: Option<crate::cloud::InstanceType>,
    names: Vec<String>,
    c0: CloudView,
    d0: DnsView,
    c1: CloudView,
    d1: DnsView,
    c2: CloudView,
    d2: DnsView,
)
    requires
        dispatched(Command::Start { instance_type, names }, c0, d0, c1, d1),
        dispatched(Command::Start { instance_type, names }, c1, d1, c2, d2),
        authority_settled(c0, d0, c0.instances_named(name_set(names@))),
        names_distinct(c0, c0.instances_named(name_set(names@))),
    ensures
        c2 == c1,
        d2 == d1,
{
    let wanted = type_view(instance_type);
    let first = choose|ids: Seq<Seq<char>>|
        ids.to_set() == c0.instances_named(name_set(names@)) && #[trigger] started_all(
            c0,
            d0,
            ids,
            wanted,
            c1,
            d1,
        );
    let second = choose|ids: Seq<Seq<char>>|
        ids.to_set() == c1.instances_named(name_set(names@)) && #[trigger] started_all(
            c1,
            d1,
            ids,
            wanted,
            c2,
            d2,
        );
    lemma_started_all_settles(c0, d0, first, wanted, c1, d1);
    lemma_started_all_keeps_identities(c0, d0, first, wanted, c1, d1);
    assert forall|i: int| 0 <= i < second.len() implies start_settled(
        c1,
        d1,
        #[trigger] second[i],
        wanted,
    ) by {
        assert(second.to_set().contains(second[i]));
        assert(first.to_set().contains(second[i]));
    }
    assert forall|id: Seq<char>| #[trigger]
        second.to_set().contains(id) && c1.instances.contains_key(id) implies (
    c1.instances[id].fqdn matches Some(fqdn) ==> d1.authority_unique(fqdn)) by {
        if let Some(fqdn) = c0.instances[id].fqdn {
            lemma_same_authority_unique(d0, d1, fqdn);
        }
    }
    lemma_started_all_of_settled(c1, d1, second, wanted, c2, d2);
}

/// `Stop` is idempotent: a second run of the same command leaves the instances and the
/// zones as they were after the first run, where at most one zone answers for each name
/// that the named instances declare.
pub proof fn lemma_stop_idempotent(
    names: Vec<String>,
    c0: CloudView,
    d0: DnsView,
    c1: CloudView,
    d1: DnsView,
    c2: CloudView,
    d2: DnsView,
)
    requires
        dispatched(Command::Stop { names }, c0, d0, c1, d1),
        dispatched(Command::Stop { names }, c1, d1, c2, d2),
        authority_settled(c0, d0, c0.instances_named(name_set(names@))),
    ensures
        c2 == c1,
        d2 == d1,
{
    let named = c0.instances_named(name_set(names@));
    let first = choose|ids: Seq<Seq<char>>|
        ids.to_set() == c0.instances_named(name_set(names@)) && #[trigger] stopped_all(
            c0,
            d0,
            ids,
            c1,
            d1,
        );
    let second = choose|ids: Seq<Seq<char>>|
        ids.to_set() == c1.instances_named(name_set(names@)) && #[trigger] stopped_all(
            c1,
            d1,
            ids,
            c2,
            d2,
        );
    lemma_stopped_all_settles(c0, d0, first, c1, d1);
    lemma_stopped_all_keeps_identities(c0, d0, first, c1, d1);
    assert forall|i: int| 0 <= i < second.len() implies stop_settled(
        c1,
        d1,
        #[trigger] second[i],
    ) by {
        assert(second.to_set().contains(second[i]));
        assert(first.to_set().contains(second[i]));
    }
    lemma_stopped_all_of_settled(c1, d1, second, c2, d2);
}

} // verus!
