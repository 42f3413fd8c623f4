//! Commands, and what each does to the firewalls, instances and DNS zones it names.

use crate::cloud::lifecycle::InstanceStateCode;
use crate::cloud::firewall_ids;
use crate::cloud::instance_ids;
use crate::cloud::name_set;
use crate::cloud::reconcile_requests;
use crate::cloud::Cloud;
use crate::cloud::CloudStore;
use crate::cloud::CloudView;
use crate::cloud::Firewall;
use crate::cloud::FirewallView;
use crate::cloud::Instance;
use crate::cloud::InstanceType;
use crate::cloud::RuleRequest;
use crate::dns::is_no_zone_error;
use crate::dns::Dns;
use crate::dns::DnsTarget;
use crate::dns::DnsTargetView;
use crate::dns::DnsView;
use crate::dns::DnsZone;
use crate::error::Error;
use crate::iprules::IpIngressRule;
use crate::iprules::IpProtocol;
use crate::net::IpNet;
use crate::ruleset::cross_product;
use crate::ruleset::RuleSet;
use vstd::prelude::*;

verus! {

/// What the operator asks for.
#[derive(Debug, PartialEq, Eq)]
pub enum Command {
    /// Allow the protocols from the networks, and nothing else, through the named firewalls.
    Open { ip_cidrs: Vec<IpNet>, ip_protocols: Vec<IpProtocol>, names: Vec<String> },
    /// Allow nothing through the named firewalls.
    Close { names: Vec<String> },
    /// Run the named instances, with the given type if there is one, and bind their names.
    Start { instance_type: Option<InstanceType>, names: Vec<String> },
    /// Unbind the names of the named instances and stop them.
    Stop { names: Vec<String> },
}

/// The rules to add to a firewall and the rules to take out of it.
#[derive(Debug)]
pub struct RuleChanges {
    pub missing: RuleSet,
    pub extra: RuleSet,
}

/// The view of an optional target.
pub open spec fn target_view(target: Option<DnsTarget>) -> Option<DnsTargetView> {
    match target {
        Some(t) => Some(t@),
        None => None,
    }
}

/// The view of an optional instance type.
pub open spec fn type_view(instance_type: Option<InstanceType>) -> Option<Seq<char>> {
    match instance_type {
        Some(t) => Some(t@),
        None => None,
    }
}

/// Whether `(c1, d1)` is what `(c0, d0)` becomes when the instance `id` is started: it
/// was not going or gone; it gets the wanted type, which it had or was stopped to take; it
/// runs; and the name it declares is bound to its address in a zone that is authoritative
/// for the name.
pub open spec fn instance_started(
    c0: CloudView,
    d0: DnsView,
    id: Seq<char>,
    instance_type: Option<Seq<char>>,
    c1: CloudView,
    d1: DnsView,
) -> bool {
    let instance = c0.instances[id];
    let typed = match instance_type {
        Some(t) => c0.with_instance_type(id, t),
        None => c0,
    };
    &&& c0.instances.contains_key(id)
    &&& instance.state.is_lasting()
    &&& instance_type matches Some(t) ==> instance.instance_type == t || instance.state
        == InstanceStateCode::Stopped
    &&& c1 == typed.with_state(id, InstanceStateCode::Running)
    &&& instance.addr is Some
    &&& match instance.fqdn {
        Some(fqdn) => d0.synced(fqdn, instance.addr, d1),
        None => d1 == d0,
    }
}

/// Whether `(c1, d1)` is what `(c0, d0)` becomes when the instance `id` is stopped: it
/// was not going or gone; the name it declares is unbound in a zone that is authoritative
/// for the name; and it is stopped.
pub open spec fn instance_stopped(
    c0: CloudView,
    d0: DnsView,
    id: Seq<char>,
    c1: CloudView,
    d1: DnsView,
) -> bool {
    let instance = c0.instances[id];
    &&& c0.instances.contains_key(id)
    &&& instance.state.is_lasting()
    &&& c1 == c0.with_state(id, InstanceStateCode::Stopped)
    &&& match instance.fqdn {
        Some(fqdn) => d0.synced(fqdn, None, d1),
        None => d1 == d0,
    }
}

/// Whether `(c1, d1)` is what `(c0, d0)` becomes when the instances `ids` are started one
/// after the other.
pub open spec fn started_all(
    c0: CloudView,
    d0: DnsView,
    ids: Seq<Seq<char>>,
    instance_type: Option<Seq<char>>,
    c1: CloudView,
    d1: DnsView,
) -> bool
    decreases ids.len(),
{
    if ids.len() == 0 {
        c1 == c0 && d1 == d0
    } else {
        exists|cm: CloudView, dm: DnsView|
            started_all(c0, d0, ids.drop_last(), instance_type, cm, dm)
                && #[trigger] instance_started(cm, dm, ids.last(), instance_type, c1, d1)
    }
}

/// Whether `(c1, d1)` is what `(c0, d0)` becomes when the instances `ids` are stopped one
/// after the other.
pub open spec fn stopped_all(
    c0: CloudView,
    d0: DnsView,
    ids: Seq<Seq<char>>,
    c1: CloudView,
    d1: DnsView,
) -> bool
    decreases ids.len(),
{
    if ids.len() == 0 {
        c1 == c0 && d1 == d0
    } else {
        exists|cm: CloudView, dm: DnsView|
            stopped_all(c0, d0, ids.drop_last(), cm, dm) && #[trigger] instance_stopped(
                cm,
                dm,
                ids.last(),
                c1,
                d1,
            )
    }
}

/// Whether `d1` is what `d0` may be after a failure to bind or unbind `fqdn`: as it was,
/// or changed in the records of a zone that is authoritative for `fqdn`, and nowhere else.
pub open spec fn dns_sync_failed(d0: DnsView, fqdn: Seq<char>, d1: DnsView) -> bool {
    d1 == d0 || exists|zone: Seq<char>| #[trigger]
        d0.is_authoritative(zone, fqdn) && d0.same_but_records(d1, zone)
}

/// Whether `(c1, d1)` is what `(c0, d0)` may be after a failure to start the instance `id`
/// that declares `fqdn`. Either the failure came before the instance was known to run:
/// then nothing but this instance has changed, and no zone. Or the instance was brought to
/// run with the wanted type and its name could not be bound.
pub open spec fn instance_start_failed(
    c0: CloudView,
    d0: DnsView,
    id: Seq<char>,
    fqdn: Option<Seq<char>>,
    instance_type: Option<Seq<char>>,
    c1: CloudView,
    d1: DnsView,
) -> bool {
    let typed = match instance_type {
        Some(t) => c0.with_instance_type(id, t),
        None => c0,
    };
    ||| c0.same_but_instance(c1, id) && d1 == d0
    ||| {
        &&& c0.instances.contains_key(id)
        &&& c1 == typed.with_state(id, InstanceStateCode::Running)
        &&& fqdn matches Some(f) && dns_sync_failed(d0, f, d1)
    }
}

/// Whether `(c1, d1)` is what `(c0, d0)` may be after a failure to stop the instance `id`
/// that declares `fqdn`. Either its name could not be unbound: then the instance was not
/// touched. Or its name was unbound and nothing but this instance has changed.
pub open spec fn instance_stop_failed(
    c0: CloudView,
    d0: DnsView,
    id: Seq<char>,
    fqdn: Option<Seq<char>>,
    c1: CloudView,
    d1: DnsView,
) -> bool {
    ||| {
        &&& c1 == c0
        &&& fqdn matches Some(f) && dns_sync_failed(d0, f, d1)
    }
    ||| c0.same_but_instance(c1, id) && match fqdn {
        Some(f) => d0.synced(f, None, d1),
        None => d1 == d0,
    }
}

/// Whether `c1` is what `c0` may be after a failure to bring the firewalls `named` to
/// hold `desired`: some of them were brought there, one more may have changed, and every
/// other firewall and every instance is as it was.
pub open spec fn firewalls_partly_reconciled(
    c0: CloudView,
    named: Set<Seq<char>>,
    desired: Set<IpIngressRule>,
    c1: CloudView,
) -> bool {
    exists|done: Set<Seq<char>>, failed: Seq<char>|
        done.subset_of(named) && #[trigger] c0.reconciled_for(done, desired).same_but_firewall(
            c1,
            failed,
        )
}

/// Whether `(c1, d1)` is what `(c0, d0)` may be after a failure to start the instances
/// `named`: some of them were started, one after the other; then the lookup or the start
/// of one more failed, and nothing was done after that.
pub open spec fn start_partly_done(
    c0: CloudView,
    d0: DnsView,
    named: Set<Seq<char>>,
    instance_type: Option<Seq<char>>,
    c1: CloudView,
    d1: DnsView,
) -> bool {
    exists|ids: Seq<Seq<char>>, cm: CloudView, dm: DnsView|
        {
            &&& forall|i: int| 0 <= i < ids.len() ==> named.contains(#[trigger] ids[i])
            &&& #[trigger] started_all(c0, d0, ids, instance_type, cm, dm)
            &&& (c1 == cm && d1 == dm) || exists|failed: Seq<char>|
                named.contains(failed) && #[trigger] instance_start_failed(
                    cm,
                    dm,
                    failed,
                    cm.instances[failed].fqdn,
                    instance_type,
                    c1,
                    d1,
                )
        }
}

/// Whether `(c1, d1)` is what `(c0, d0)` may be after a failure to stop the instances
/// `named`: some of them were stopped, one after the other; then the lookup or the stop of
/// one more failed, and nothing was done after that.
pub open spec fn stop_partly_done(
    c0: CloudView,
    d0: DnsView,
    named: Set<Seq<char>>,
    c1: CloudView,
    d1: DnsView,
) -> bool {
    exists|ids: Seq<Seq<char>>, cm: CloudView, dm: DnsView|
        {
            &&& forall|i: int| 0 <= i < ids.len() ==> named.contains(#[trigger] ids[i])
            &&& #[trigger] stopped_all(c0, d0, ids, cm, dm)
            &&& (c1 == cm && d1 == dm) || exists|failed: Seq<char>|
                named.contains(failed) && #[trigger] instance_stop_failed(
                    cm,
                    dm,
                    failed,
                    cm.instances[failed].fqdn,
                    c1,
                    d1,
                )
        }
}

/// Whether `(c1, d1)` is what `(c0, d0)` may be after `cmd` has failed. The first failure
/// ends the run: what was done before it stays done, the resource at which it came may
/// have changed, and nothing was done after it.
pub open spec fn dispatch_failed(
    cmd: Command,
    c0: CloudView,
    d0: DnsView,
    c1: CloudView,
    d1: DnsView,
) -> bool {
    match cmd {
        Command::Open { ip_cidrs, ip_protocols, names } => {
            &&& d1 == d0
            &&& firewalls_partly_reconciled(
                c0,
                c0.firewalls_named(name_set(names@)),
                cross_product(ip_cidrs@, ip_protocols@),
                c1,
            )
        },
        Command::Close { names } => {
            &&& d1 == d0
            &&& firewalls_partly_reconciled(
                c0,
                c0.firewalls_named(name_set(names@)),
                Set::<IpIngressRule>::empty(),
                c1,
            )
        },
        Command::Start { instance_type, names } => start_partly_done(
            c0,
            d0,
            c0.instances_named(name_set(names@)),
            type_view(instance_type),
            c1,
            d1,
        ),
        Command::Stop { names } => stop_partly_done(
            c0,
            d0,
            c0.instances_named(name_set(names@)),
            c1,
            d1,
        ),
    }
}

/// Whether nothing in `c0` and `d0` keeps `cmd` from being carried out. Nothing keeps
/// `Open` and `Close`. `Start` and `Stop` ask of each instance they name what
/// [`can_start`] and [`can_stop`] tell.
pub open spec fn can_dispatch(cmd: Command, c0: CloudView, d0: DnsView) -> bool {
    match cmd {
        Command::Open { .. } => true,
        Command::Close { .. } => true,
        Command::Start { instance_type, names } => forall|id: Seq<char>| #[trigger]
            c0.instances_named(name_set(names@)).contains(id) ==> can_start(
                c0,
                d0,
                id,
                c0.instances[id].fqdn,
                type_view(instance_type),
            ),
        Command::Stop { names } => forall|id: Seq<char>| #[trigger]
            c0.instances_named(name_set(names@)).contains(id) ==> can_stop(
                c0,
                d0,
                id,
                c0.instances[id].fqdn,
            ),
    }
}

/// Whether `e` is an error with which `cmd` may fail. `Open` and `Close` fail only where
/// the provider fails. `Start` and `Stop` fail also where an instance cannot be brought to
/// run or to a stop, and where no zone answers for a declared name; `Start` alone where a
/// type is wanted of an instance that is not stopped.
pub open spec fn dispatch_error(cmd: Command, e: Error) -> bool {
    match cmd {
        Command::Open { .. } => e.is_of_provider(),
        Command::Close { .. } => e.is_of_provider(),
        Command::Start { instance_type, .. } => {
            ||| e.is_of_provider()
            ||| e.is_of_lifecycle()
            ||| e is NoAuthoritativeZone
            ||| e is InstanceMustBeStopped && instance_type is Some
        },
        Command::Stop { .. } => {
            ||| e.is_of_provider()
            ||| e.is_of_lifecycle()
            ||| e is NoAuthoritativeZone
        },
    }
}

/// Whether `(c1, d1)` is what `(c0, d0)` becomes when `cmd` is carried out.
///
/// `Open` and `Close` leave every named firewall with exactly the wanted rules, the other
/// firewalls, the instances and the zones as they were. `Start` and `Stop` go through the
/// named instances, each once or more, in the order in which the provider lists them.
pub open spec fn dispatched(
    cmd: Command,
    c0: CloudView,
    d0: DnsView,
    c1: CloudView,
    d1: DnsView,
) -> bool {
    match cmd {
        Command::Open { ip_cidrs, ip_protocols, names } => {
            &&& c1 == c0.reconciled_for(
                c0.firewalls_named(name_set(names@)),
                cross_product(ip_cidrs@, ip_protocols@),
            )
            &&& d1 == d0
        },
        Command::Close { names } => {
            &&& c1 == c0.reconciled_for(
                c0.firewalls_named(name_set(names@)),
                Set::<IpIngressRule>::empty(),
            )
            &&& d1 == d0
        },
        Command::Start { instance_type, names } => exists|ids: Seq<Seq<char>>|
            ids.to_set() == c0.instances_named(name_set(names@)) && #[trigger] started_all(
                c0,
                d0,
                ids,
                type_view(instance_type),
                c1,
                d1,
            ),
        Command::Stop { names } => exists|ids: Seq<Seq<char>>|
            ids.to_set() == c0.instances_named(name_set(names@)) && #[trigger] stopped_all(
                c0,
                d0,
                ids,
                c1,
                d1,
            ),
    }
}

/// Whether `e` is the refusal to give the instance `id` of `c0` the type `instance_type`:
/// a type is wanted that the instance does not have, and the instance is not stopped.
pub open spec fn type_change_refused(
    c0: CloudView,
    id: Seq<char>,
    instance_type: Option<Seq<char>>,
    e: Error,
) -> bool {
    &&& e is InstanceMustBeStopped
    &&& c0.instances.contains_key(id)
    &&& c0.instances[id].state != InstanceStateCode::Stopped
    &&& instance_type matches Some(t) && c0.instances[id].instance_type != t
}

/// Whether `e` is an error with which the start of the instance `id`, which declares
/// `fqdn`, may fail, given what the failure has left behind. A refusal to change the type
/// comes before anything is done. A name for which no zone answers is found out once the
/// instance runs with the wanted type, and leaves the zones as they were. Every other
/// error is a provider's, or tells that the instance cannot be brought to run.
pub open spec fn start_error(
    c0: CloudView,
    d0: DnsView,
    id: Seq<char>,
    fqdn: Option<Seq<char>>,
    instance_type: Option<Seq<char>>,
    c1: CloudView,
    d1: DnsView,
    e: Error,
) -> bool {
    let typed = match instance_type {
        Some(t) => c0.with_instance_type(id, t),
        None => c0,
    };
    ||| e.is_of_provider()
    ||| e.is_of_lifecycle()
    ||| type_change_refused(c0, id, instance_type, e) && c1 == c0 && d1 == d0
    ||| {
        &&& fqdn matches Some(f) && is_no_zone_error(d0, f, e)
        &&& c0.instances.contains_key(id)
        &&& c1 == typed.with_state(id, InstanceStateCode::Running)
        &&& d1 == d0
    }
}

/// Whether `e` is an error with which the stop of an instance that declares `fqdn` may
/// fail, given what the failure has left behind. A name for which no zone answers is found
/// out before anything is done. Every other error is a provider's, or tells that the
/// instance cannot be brought to a stop.
pub open spec fn stop_error(
    c0: CloudView,
    d0: DnsView,
    fqdn: Option<Seq<char>>,
    c1: CloudView,
    d1: DnsView,
    e: Error,
) -> bool {
    ||| e.is_of_provider()
    ||| e.is_of_lifecycle()
    ||| {
        &&& fqdn matches Some(f) && is_no_zone_error(d0, f, e)
        &&& c1 == c0
        &&& d1 == d0
    }
}

/// Whether nothing in `c0` and `d0` keeps the instance `id`, which declares `fqdn`, from
/// being started with `instance_type`: the provider holds it, in a state from which it
/// comes to run, with an address; it has the wanted type or is stopped; and a zone covers
/// the name it declares.
pub open spec fn can_start(
    c0: CloudView,
    d0: DnsView,
    id: Seq<char>,
    fqdn: Option<Seq<char>>,
    instance_type: Option<Seq<char>>,
) -> bool {
    let held = c0.instances[id];
    &&& c0.instances.contains_key(id)
    &&& held.state.is_lasting()
    &&& held.addr is Some
    &&& instance_type matches Some(t) ==> held.instance_type == t || held.state
        == InstanceStateCode::Stopped
    &&& fqdn matches Some(f) ==> d0.has_zone(f)
}

/// Whether nothing in `c0` and `d0` keeps the instance `id`, which declares `fqdn`, from
/// being stopped: the provider holds it, in a state from which it comes to a stop, and a
/// zone covers the name it declares.
pub open spec fn can_stop(
    c0: CloudView,
    d0: DnsView,
    id: Seq<char>,
    fqdn: Option<Seq<char>>,
) -> bool {
    &&& c0.instances.contains_key(id)
    &&& c0.instances[id].state.is_lasting()
    &&& fqdn matches Some(f) ==> d0.has_zone(f)
}

/// Tells what a firewall that holds `existing` lacks of `desired`, and what it holds beyond it.
pub fn rule_changes(existing: &RuleSet, desired: &RuleSet) -> (r: RuleChanges)
    ensures
        r.missing@ == desired@.difference(existing@),
        r.extra@ == existing@.difference(desired@),
{
    RuleChanges { missing: desired.difference(existing), extra: existing.difference(desired) }
}

/// Brings the rules of `fw` to `desired`: reads them, adds what is missing, then takes out
/// what is extra. Neither request is made for no rule. It fails only where the provider
/// fails, with the provider's error: with a reliable provider it succeeds exactly if the
/// provider holds the firewall.
pub fn sync_firewall_rules<C: CloudStore, F: Firewall<C>>(
    fw: &F,
    cloud: &mut C,
    desired_rules: &RuleSet,
) -> (r: Result<(), Error>)
    ensures
        r is Ok ==> old(cloud).view().firewalls.contains_key(fw.key()) && final(cloud).view()
            == old(cloud).view().reconciled(fw.key(), desired_rules@),
        r is Err ==> old(cloud).view().same_but_firewall(final(cloud).view(), fw.key()),
        r matches Err(e) ==> e.is_of_provider(),
        old(cloud).reliable() ==> (r is Ok <==> old(cloud).view().firewalls.contains_key(
            fw.key(),
        )),
        final(cloud).reliable() == old(cloud).reliable(),
{
    let ghost before = cloud.view();
    let existing_rules = fw.list_ingress_rules(cloud)?;
    let changes = rule_changes(&existing_rules, desired_rules);
    if !changes.missing.is_empty() {
        fw.add_ingress_rules(cloud, &changes.missing)?;
    }
    let ghost held = before.firewalls[fw.key()];
    let ghost added = FirewallView {
        name: held.name,
        rules: existing_rules@.union(changes.missing@),
        requests: if changes.missing@ == Set::<IpIngressRule>::empty() {
            held.requests
        } else {
            held.requests.push(RuleRequest::Add(changes.missing@))
        },
    };
    if !changes.extra.is_empty() {
        let ghost mid = cloud.view();
        match fw.remove_ingress_rules(cloud, &changes.extra) {
            Ok(()) => {},
            Err(e) => {
                assert(mid.firewalls.remove(fw.key()) =~= before.firewalls.remove(fw.key()));
                return Err(e);
            },
        }
    }
    assert(added.rules.difference(changes.extra@) =~= desired_rules@);
    assert(cloud.view().firewalls[fw.key()].requests =~= held.requests + reconcile_requests(
        held.rules,
        desired_rules@,
    ));
    assert(cloud.view() =~~= before.reconciled(fw.key(), desired_rules@));
    Ok(())
}

/// Binds `fqdn` to the target in the zone that is authoritative for it, or, where there is
/// no target, takes its record out of that zone. Where no zone covers `fqdn` nothing is
/// changed, and the error names `fqdn`; every other failure is the provider's: with a
/// reliable provider it succeeds exactly if some zone covers `fqdn`.
pub fn sync_dns<D: Dns>(dns: &mut D, fqdn: &str, target_or_none: Option<DnsTarget>) -> (r: Result<
    (),
    Error,
>)
    ensures
        r is Ok ==> old(dns).view().synced(fqdn@, target_view(target_or_none), final(dns).view()),
        r is Err ==> dns_sync_failed(old(dns).view(), fqdn@, final(dns).view()),
        r matches Err(e) ==> e.is_of_provider() || (is_no_zone_error(old(dns).view(), fqdn@, e)
            && final(dns).view() == old(dns).view()),
        old(dns).reliable() ==> (r is Ok <==> old(dns).view().has_zone(fqdn@)),
        final(dns).reliable() == old(dns).reliable(),
{
    let dns_zone = dns.find_authoritative_zone(fqdn)?;
    if let Some(target) = target_or_none {
        dns_zone.bind(dns, fqdn, target)?;
    } else {
        dns_zone.unbind(dns, fqdn)?;
    }
    Ok(())
}

/// Starts one instance: gives it the wanted type, if one is wanted; brings it to run; then
/// binds the name it declares, if it declares one, to its address.
///
/// A failure leaves the zones as they were unless the instance was brought to run: no
/// name is bound to an instance that is not known to run. With reliable providers the
/// start succeeds exactly where [`can_start`] holds.
pub fn start_instance<C: CloudStore, I: Instance<C>, D: Dns>(
    instance: &I,
    cloud: &mut C,
    dns: &mut D,
    instance_type: &Option<InstanceType>,
) -> (r: Result<(), Error>)
    requires
        old(cloud).view().instances.contains_key(instance.key()) ==> old(
            cloud,
        ).view().instances[instance.key()].fqdn == instance.fqdn_view(),
    ensures
        r is Ok ==> instance_started(
            old(cloud).view(),
            old(dns).view(),
            instance.key(),
            type_view(*instance_type),
            final(cloud).view(),
            final(dns).view(),
        ),
        r is Err ==> instance_start_failed(
            old(cloud).view(),
            old(dns).view(),
            instance.key(),
            instance.fqdn_view(),
            type_view(*instance_type),
            final(cloud).view(),
            final(dns).view(),
        ),
        r matches Err(e) ==> start_error(
            old(cloud).view(),
            old(dns).view(),
            instance.key(),
            instance.fqdn_view(),
            type_view(*instance_type),
            final(cloud).view(),
            final(dns).view(),
            e,
        ),
        old(cloud).reliable() && old(dns).reliable() ==> (r is Ok <==> can_start(
            old(cloud).view(),
            old(dns).view(),
            instance.key(),
            instance.fqdn_view(),
            type_view(*instance_type),
        )),
        final(cloud).reliable() == old(cloud).reliable(),
        final(dns).reliable() == old(dns).reliable(),
{
    let ghost c0 = cloud.view();
    if let Some(wanted) = instance_type {
        instance.try_ensure_instance_type(cloud, wanted)?;
    }
    let ghost typed = cloud.view();
    let state = match instance.ensure_running(cloud) {
        Ok(state) => state,
        Err(e) => {
            assert(typed.instances.remove(instance.key()) =~= c0.instances.remove(
                instance.key(),
            ));
            return Err(e);
        },
    };
    if let Some(fqdn) = instance.fqdn() {
        sync_dns(dns, fqdn, Some(state.addr))?;
    }
    Ok(())
}

/// Stops one instance: takes the record of the name it declares, if it declares one, out
/// of its zone; then brings the instance to a stop.
///
/// A failure leaves the instance as it was unless the name was unbound: the instance is
/// not touched while its name may still resolve to it. With reliable providers the stop
/// succeeds exactly where [`can_stop`] holds.
pub fn stop_instance<C: CloudStore, I: Instance<C>, D: Dns>(
    instance: &I,
    cloud: &mut C,
    dns: &mut D,
) -> (r: Result<(), Error>)
    requires
        old(cloud).view().instances.contains_key(instance.key()) ==> old(
            cloud,
        ).view().instances[instance.key()].fqdn == instance.fqdn_view(),
    ensures
        r is Ok ==> instance_stopped(
            old(cloud).view(),
            old(dns).view(),
            instance.key(),
            final(cloud).view(),
            final(dns).view(),
        ),
        r is Err ==> instance_stop_failed(
            old(cloud).view(),
            old(dns).view(),
            instance.key(),
            instance.fqdn_view(),
            final(cloud).view(),
            final(dns).view(),
        ),
        r matches Err(e) ==> stop_error(
            old(cloud).view(),
            old(dns).view(),
            instance.fqdn_view(),
            final(cloud).view(),
            final(dns).view(),
            e,
        ),
        old(cloud).reliable() && old(dns).reliable() ==> (r is Ok <==> can_stop(
            old(cloud).view(),
            old(dns).view(),
            instance.key(),
            instance.fqdn_view(),
        )),
        final(cloud).reliable() == old(cloud).reliable(),
        final(dns).reliable() == old(dns).reliable(),
{
    if let Some(fqdn) = instance.fqdn() {
        sync_dns(dns, fqdn, None)?;
    }
    instance.ensure_stopped(cloud)?;
    Ok(())
}

/// Whether two views hold the same instances with the same declared names.
pub open spec fn same_declared_names(a: CloudView, b: CloudView) -> bool {
    forall|id: Seq<char>|
        a.instances.contains_key(id) == b.instances.contains_key(id) && (a.instances.contains_key(
            id,
        ) ==> (#[trigger] a.instances[id]).fqdn == b.instances[id].fqdn)
}

/// Brings each of `firewalls` to hold exactly `desired_rules`.
fn sync_firewalls<C: CloudStore, F: Firewall<C>>(
    firewalls: &Vec<F>,
    cloud: &mut C,
    desired_rules: &RuleSet,
) -> (r: Result<(), Error>)
    ensures
        r is Ok ==> final(cloud).view() == old(cloud).view().reconciled_for(
            firewall_ids::<C, F>(firewalls@).to_set(),
            desired_rules@,
        ) && forall|i: int|
            0 <= i < firewalls@.len() ==> old(cloud).view().firewalls.contains_key(
                (#[trigger] firewalls@[i]).key(),
            ),
        r is Err ==> exists|i: int|
            0 <= i < firewalls@.len() && #[trigger] old(cloud).view().reconciled_for(
                firewall_ids::<C, F>(firewalls@).take(i).to_set(),
                desired_rules@,
            ).same_but_firewall(final(cloud).view(), firewall_ids::<C, F>(firewalls@)[i]),
        r matches Err(e) ==> e.is_of_provider(),
        old(cloud).reliable() && (forall|i: int|
            0 <= i < firewalls@.len() ==> old(cloud).view().firewalls.contains_key(
                (#[trigger] firewalls@[i]).key(),
            )) ==> r is Ok,
        final(cloud).reliable() == old(cloud).reliable(),
{
    let ghost before = cloud.view();
    let ghost ids = firewall_ids::<C, F>(firewalls@);
    let ghost owed = cloud.reliable() && forall|i: int|
        0 <= i < firewalls@.len() ==> before.firewalls.contains_key(
            (#[trigger] firewalls@[i]).key(),
        );
    let mut i: usize = 0;
    while i < firewalls.len()
        invariant
            i <= firewalls.len(),
            ids == firewall_ids::<C, F>(firewalls@),
            before == old(cloud).view(),
            cloud.view() == before.reconciled_for(ids.take(i as int).to_set(), desired_rules@),
            forall|j: int| 0 <= j < i ==> before.firewalls.contains_key(#[trigger] ids[j]),
            cloud.reliable() == old(cloud).reliable(),
            owed == (old(cloud).reliable() && forall|i: int|
                0 <= i < firewalls@.len() ==> before.firewalls.contains_key(
                    (#[trigger] firewalls@[i]).key(),
                )),
        decreases firewalls.len() - i,
    {
        assert(ids[i as int] == firewalls@[i as int].key());
        assert(owed ==> cloud.view().firewalls.contains_key(firewalls@[i as int].key()));
        sync_firewall_rules(&firewalls[i], cloud, desired_rules)?;
        proof {
            let id = firewalls@[i as int].key();
            assert(ids.take(i + 1) =~= ids.take(i as int).push(id));
            ids.take(i as int).lemma_push_to_set_commute(id);
            lemma_reconciled_twice(before.firewalls[id], desired_rules@);
        }
        i = i + 1;
    }
    proof {
        assert(ids.take(firewalls.len() as int) =~= ids);
        assert forall|j: int| 0 <= j < firewalls@.len() implies before.firewalls.contains_key(
            (#[trigger] firewalls@[j]).key(),
        ) by {
            assert(ids[j] == firewalls@[j].key());
        }
    }
    Ok(())
}

/// Carries out `cmd` on the firewalls and instances of `cloud` that it names, and on the
/// zones of `dns`. The first failure ends the run; what was done before it stays done.
/// With reliable providers it succeeds exactly where [`can_dispatch`] holds: where
/// nothing in what they hold keeps the command from being carried out.
pub fn dispatch<C: Cloud, D: Dns>(cmd: Command, cloud: &mut C, dns: &mut D) -> (r: Result<
    (),
    Error,
>)
    ensures
        r is Ok ==> dispatched(
            cmd,
            old(cloud).view(),
            old(dns).view(),
            final(cloud).view(),
            final(dns).view(),
        ),
        r is Err ==> dispatch_failed(
            cmd,
            old(cloud).view(),
            old(dns).view(),
            final(cloud).view(),
            final(dns).view(),
        ),
        r matches Err(e) ==> dispatch_error(cmd, e),
        old(cloud).reliable() && (cmd is Open || cmd is Close) ==> r is Ok,
        old(cloud).reliable() && old(dns).reliable() ==> (r is Ok <==> can_dispatch(
            cmd,
            old(cloud).view(),
            old(dns).view(),
        )),
        final(cloud).reliable() == old(cloud).reliable(),
        final(dns).reliable() == old(dns).reliable(),
{
    let ghost c0 = cloud.view();
    let ghost d0 = dns.view();
    let ghost owed = cloud.reliable() && dns.reliable() && can_dispatch(cmd, c0, d0);
    match &cmd {
        Command::Open { ip_cidrs, ip_protocols, names } => {
            let desired_rules = RuleSet::cross(ip_cidrs, ip_protocols);
            open_firewalls(cloud, names, &desired_rules)
        },
        Command::Close { names } => {
            let desired_rules = RuleSet::new();
            open_firewalls(cloud, names, &desired_rules)
        },
        Command::Start { instance_type, names } => {
            let instances = match cloud.list_instances(names) {
                Ok(instances) => instances,
                Err(e) => {
                    proof {
                        lemma_nothing_started(
                            c0,
                            d0,
                            c0.instances_named(name_set(names@)),
                            type_view(*instance_type),
                        );
                    }
                    return Err(e);
                },
            };
            let ghost ids = instance_ids::<C, C::Instance>(instances@);
            let ghost named = c0.instances_named(name_set(names@));
            let ghost wanted = type_view(*instance_type);
            let mut i: usize = 0;
            while i < instances.len()
                invariant
                    i <= instances.len(),
                    c0 == old(cloud).view(),
                    d0 == old(dns).view(),
                    ids == instance_ids::<C, C::Instance>(instances@),
                    named == c0.instances_named(name_set(names@)),
                    wanted == type_view(*instance_type),
                    crate::cloud::instances_listed(c0, name_set(names@), instances@),
                    same_declared_names(c0, cloud.view()),
                    cmd == (Command::Start { instance_type: *instance_type, names: *names }),
                    started_all(c0, d0, ids.take(i as int), wanted, cloud.view(), dns.view()),
                    cloud.reliable() == old(cloud).reliable(),
                    dns.reliable() == old(dns).reliable(),
                    owed == (old(cloud).reliable() && old(dns).reliable() && can_dispatch(
                        cmd,
                        c0,
                        d0,
                    )),
                    owed ==> forall|j: int|
                        0 <= j < instances@.len() ==> can_start(
                            cloud.view(),
                            dns.view(),
                            (#[trigger] instances@[j]).key(),
                            instances@[j].fqdn_view(),
                            wanted,
                        ),
                decreases instances.len() - i,
            {
                let ghost cm = cloud.view();
                let ghost dm = dns.view();
                assert(owed ==> can_start(
                    cm,
                    dm,
                    instances@[i as int].key(),
                    instances@[i as int].fqdn_view(),
                    wanted,
                ));
                match start_instance(&instances[i], cloud, dns, instance_type) {
                    Ok(()) => {},
                    Err(e) => {
                        return Err(e);
                    },
                }
                proof {
                    let step = ids.take(i + 1);
                    assert(step.drop_last() =~= ids.take(i as int));
                    lemma_started_all_step(c0, d0, step, wanted, cm, dm, cloud.view(), dns.view());
                    if owed {
                        assert forall|j: int| 0 <= j < instances@.len() implies can_start(
                            cloud.view(),
                            dns.view(),
                            (#[trigger] instances@[j]).key(),
                            instances@[j].fqdn_view(),
                            wanted,
                        ) by {
                            lemma_start_keeps_startable(
                                cm,
                                dm,
                                instances@[i as int].key(),
                                wanted,
                                cloud.view(),
                                dns.view(),
                                instances@[j].key(),
                                instances@[j].fqdn_view(),
                            );
                        }
                    }
                }
                i = i + 1;
            }
            proof {
                assert(ids.take(instances.len() as int) =~= ids);
                lemma_listed_instance_ids::<C, C::Instance>(c0, name_set(names@), instances@);
                lemma_dispatched_needs(cmd, c0, d0, cloud.view(), dns.view());
            }
            Ok(())
        },
        Command::Stop { names } => {
            let instances = match cloud.list_instances(names) {
                Ok(instances) => instances,
                Err(e) => {
                    proof {
                        lemma_nothing_stopped(c0, d0, c0.instances_named(name_set(names@)));
                    }
                    return Err(e);
                },
            };
            let ghost ids = instance_ids::<C, C::Instance>(instances@);
            let ghost named = c0.instances_named(name_set(names@));
            let mut i: usize = 0;
            while i < instances.len()
                invariant
                    i <= instances.len(),
                    c0 == old(cloud).view(),
                    d0 == old(dns).view(),
                    ids == instance_ids::<C, C::Instance>(instances@),
                    named == c0.instances_named(name_set(names@)),
                    crate::cloud::instances_listed(c0, name_set(names@), instances@),
                    same_declared_names(c0, cloud.view()),
                    cmd == (Command::Stop { names: *names }),
                    stopped_all(c0, d0, ids.take(i as int), cloud.view(), dns.view()),
                    cloud.reliable() == old(cloud).reliable(),
                    dns.reliable() == old(dns).reliable(),
                    owed == (old(cloud).reliable() && old(dns).reliable() && can_dispatch(
                        cmd,
                        c0,
                        d0,
                    )),
                    owed ==> forall|j: int|
                        0 <= j < instances@.len() ==> can_stop(
                            cloud.view(),
                            dns.view(),
                            (#[trigger] instances@[j]).key(),
                            instances@[j].fqdn_view(),
                        ),
                decreases instances.len() - i,
            {
                let ghost cm = cloud.view();
                let ghost dm = dns.view();
                assert(owed ==> can_stop(
                    cm,
                    dm,
                    instances@[i as int].key(),
                    instances@[i as int].fqdn_view(),
                ));
                match stop_instance(&instances[i], cloud, dns) {
                    Ok(()) => {},
                    Err(e) => {
                        return Err(e);
                    },
                }
                proof {
                    let step = ids.take(i + 1);
                    assert(step.drop_last() =~= ids.take(i as int));
                    lemma_stopped_all_step(c0, d0, step, cm, dm, cloud.view(), dns.view());
                    if owed {
                        assert forall|j: int| 0 <= j < instances@.len() implies can_stop(
                            cloud.view(),
                            dns.view(),
                            (#[trigger] instances@[j]).key(),
                            instances@[j].fqdn_view(),
                        ) by {
                            lemma_stop_keeps_stoppable(
                                cm,
                                dm,
                                instances@[i as int].key(),
                                cloud.view(),
                                dns.view(),
                                instances@[j].key(),
                                instances@[j].fqdn_view(),
                            );
                        }
                    }
                }
                i = i + 1;
            }
            proof {
                assert(ids.take(instances.len() as int) =~= ids);
                lemma_listed_instance_ids::<C, C::Instance>(c0, name_set(names@), instances@);
                lemma_dispatched_needs(cmd, c0, d0, cloud.view(), dns.view());
            }
            Ok(())
        },
    }
}

/// Brings the firewalls that bear one of `names` to hold exactly `desired_rules`.
fn open_firewalls<C: Cloud>(cloud: &mut C, names: &Vec<String>, desired_rules: &RuleSet) -> (r:
    Result<(), Error>)
    ensures
        r is Ok ==> final(cloud).view() == old(cloud).view().reconciled_for(
            old(cloud).view().firewalls_named(name_set(names@)),
            desired_rules@,
        ),
        r is Err ==> firewalls_partly_reconciled(
            old(cloud).view(),
            old(cloud).view().firewalls_named(name_set(names@)),
            desired_rules@,
            final(cloud).view(),
        ),
        r matches Err(e) ==> e.is_of_provider(),
        old(cloud).reliable() ==> r is Ok,
        final(cloud).reliable() == old(cloud).reliable(),
{
    let ghost c0 = cloud.view();
    let fws = match cloud.list_firewalls(names) {
        Ok(fws) => fws,
        Err(e) => {
            proof {
                let done = Set::<Seq<char>>::empty();
                assert(c0.reconciled_for(done, desired_rules@) =~~= c0);
                assert(c0.reconciled_for(done, desired_rules@).same_but_firewall(
                    c0,
                    Seq::<char>::empty(),
                ));
            }
            return Err(e);
        },
    };
    proof {
        lemma_listed_firewall_ids::<C, C::Firewall>(c0, name_set(names@), fws@);
    }
    match sync_firewalls(&fws, cloud, desired_rules) {
        Ok(()) => Ok(()),
        Err(e) => {
            proof {
                let ids = firewall_ids::<C, C::Firewall>(fws@);
                let i = choose|i: int|
                    0 <= i < fws@.len() && #[trigger] c0.reconciled_for(
                        ids.take(i).to_set(),
                        desired_rules@,
                    ).same_but_firewall(cloud.view(), ids[i]);
            }
            Err(e)
        },
    }
}

/// Binding or unbinding a name leaves every name with the zones that cover it.
pub proof fn lemma_sync_keeps_zones(
    d0: DnsView,
    fqdn: Seq<char>,
    target: Option<DnsTargetView>,
    d1: DnsView,
    name: Seq<char>,
)
    requires
        d0.synced(fqdn, target, d1),
    ensures
        d1.has_zone(name) == d0.has_zone(name),
{
    let zone = choose|zone: Seq<char>| #[trigger]
        d0.is_authoritative(zone, fqdn) && d1 == d0.synced_in(zone, fqdn, target);
    if d0.has_zone(name) {
        let z = choose|z: Seq<char>| #[trigger] d0.covers(z, name);
        d0.lemma_sync_keeps_authority(zone, fqdn, target, z, name);
        assert(d1.covers(z, name));
    }
    if d1.has_zone(name) {
        let z = choose|z: Seq<char>| #[trigger] d1.covers(z, name);
        d0.lemma_sync_keeps_authority(zone, fqdn, target, z, name);
        assert(d0.covers(z, name));
    }
}

/// The start of one instance keeps nothing from being started that could be started
/// before it: not another instance, and not the same instance once more.
pub proof fn lemma_start_keeps_startable(
    c0: CloudView,
    d0: DnsView,
    started: Seq<char>,
    instance_type: Option<Seq<char>>,
    c1: CloudView,
    d1: DnsView,
    id: Seq<char>,
    fqdn: Option<Seq<char>>,
)
    requires
        instance_started(c0, d0, started, instance_type, c1, d1),
        can_start(c0, d0, id, fqdn, instance_type),
    ensures
        can_start(c1, d1, id, fqdn, instance_type),
{
    if let Some(f) = fqdn {
        if let Some(bound) = c0.instances[started].fqdn {
            lemma_sync_keeps_zones(d0, bound, c0.instances[started].addr, d1, f);
        }
    }
}

/// The stop of one instance keeps nothing from being stopped that could be stopped
/// before it: not another instance, and not the same instance once more.
pub proof fn lemma_stop_keeps_stoppable(
    c0: CloudView,
    d0: DnsView,
    stopped: Seq<char>,
    c1: CloudView,
    d1: DnsView,
    id: Seq<char>,
    fqdn: Option<Seq<char>>,
)
    requires
        instance_stopped(c0, d0, stopped, c1, d1),
        can_stop(c0, d0, id, fqdn),
    ensures
        can_stop(c1, d1, id, fqdn),
{
    if let Some(f) = fqdn {
        if let Some(bound) = c0.instances[stopped].fqdn {
            lemma_sync_keeps_zones(d0, bound, None, d1, f);
        }
    }
}

/// A run of starts leaves every name with the zones that cover it, and every instance
/// that is not among the started ones as it was.
pub proof fn lemma_started_all_frame(
    c0: CloudView,
    d0: DnsView,
    ids: Seq<Seq<char>>,
    instance_type: Option<Seq<char>>,
    c1: CloudView,
    d1: DnsView,
    id: Seq<char>,
    name: Seq<char>,
)
    requires
        started_all(c0, d0, ids, instance_type, c1, d1),
    ensures
        d1.has_zone(name) == d0.has_zone(name),
        !ids.contains(id) ==> c1.instances.contains_key(id) == c0.instances.contains_key(id)
            && c1.instances[id] == c0.instances[id],
    decreases ids.len(),
{
    if ids.len() > 0 {
        let (cm, dm) = choose|cm: CloudView, dm: DnsView|
            started_all(c0, d0, ids.drop_last(), instance_type, cm, dm)
                && #[trigger] instance_started(cm, dm, ids.last(), instance_type, c1, d1);
        lemma_started_all_frame(c0, d0, ids.drop_last(), instance_type, cm, dm, id, name);
        if let Some(bound) = cm.instances[ids.last()].fqdn {
            lemma_sync_keeps_zones(dm, bound, cm.instances[ids.last()].addr, d1, name);
        }
        if !ids.contains(id) {
            assert(ids[ids.len() - 1] == ids.last());
            assert forall|k: int| 0 <= k < ids.drop_last().len() implies ids.drop_last()[k]
                != id by {
                assert(ids[k] == ids.drop_last()[k]);
            }
        }
    }
}

/// A run of stops leaves every name with the zones that cover it, and every instance
/// that is not among the stopped ones as it was.
pub proof fn lemma_stopped_all_frame(
    c0: CloudView,
    d0: DnsView,
    ids: Seq<Seq<char>>,
    c1: CloudView,
    d1: DnsView,
    id: Seq<char>,
    name: Seq<char>,
)
    requires
        stopped_all(c0, d0, ids, c1, d1),
    ensures
        d1.has_zone(name) == d0.has_zone(name),
        !ids.contains(id) ==> c1.instances.contains_key(id) == c0.instances.contains_key(id)
            && c1.instances[id] == c0.instances[id],
    decreases ids.len(),
{
    if ids.len() > 0 {
        let (cm, dm) = choose|cm: CloudView, dm: DnsView|
            stopped_all(c0, d0, ids.drop_last(), cm, dm) && #[trigger] instance_stopped(
                cm,
                dm,
                ids.last(),
                c1,
                d1,
            );
        lemma_stopped_all_frame(c0, d0, ids.drop_last(), cm, dm, id, name);
        if let Some(bound) = cm.instances[ids.last()].fqdn {
            lemma_sync_keeps_zones(dm, bound, None, d1, name);
        }
        if !ids.contains(id) {
            assert(ids[ids.len() - 1] == ids.last());
            assert forall|k: int| 0 <= k < ids.drop_last().len() implies ids.drop_last()[k]
                != id by {
                assert(ids[k] == ids.drop_last()[k]);
            }
        }
    }
}

/// Each instance of a run of starts could be started to begin with: what is done for the
/// instances before it takes nothing from it.
pub proof fn lemma_started_all_needs(
    c0: CloudView,
    d0: DnsView,
    ids: Seq<Seq<char>>,
    instance_type: Option<Seq<char>>,
    c1: CloudView,
    d1: DnsView,
    id: Seq<char>,
)
    requires
        started_all(c0, d0, ids, instance_type, c1, d1),
        ids.contains(id),
    ensures
        can_start(c0, d0, id, c0.instances[id].fqdn, instance_type),
    decreases ids.len(),
{
    let (cm, dm) = choose|cm: CloudView, dm: DnsView|
        started_all(c0, d0, ids.drop_last(), instance_type, cm, dm)
            && #[trigger] instance_started(cm, dm, ids.last(), instance_type, c1, d1);
    if ids.drop_last().contains(id) {
        lemma_started_all_needs(c0, d0, ids.drop_last(), instance_type, cm, dm, id);
    } else {
        let k = choose|k: int| 0 <= k < ids.len() && ids[k] == id;
        if k < ids.len() - 1 {
            assert(ids.drop_last()[k] == id);
        }
        assert(id == ids.last());
        match c0.instances[id].fqdn {
            Some(f) => {
                lemma_started_all_frame(c0, d0, ids.drop_last(), instance_type, cm, dm, id, f);
                let zone = choose|zone: Seq<char>| #[trigger]
                    dm.is_authoritative(zone, f) && d1 == dm.synced_in(
                        zone,
                        f,
                        cm.instances[id].addr,
                    );
                assert(dm.covers(zone, f));
            },
            None => {
                lemma_started_all_frame(c0, d0, ids.drop_last(), instance_type, cm, dm, id, id);
            },
        }
    }
}

/// Each instance of a run of stops could be stopped to begin with: what is done for the
/// instances before it takes nothing from it.
pub proof fn lemma_stopped_all_needs(
    c0: CloudView,
    d0: DnsView,
    ids: Seq<Seq<char>>,
    c1: CloudView,
    d1: DnsView,
    id: Seq<char>,
)
    requires
        stopped_all(c0, d0, ids, c1, d1),
        ids.contains(id),
    ensures
        can_stop(c0, d0, id, c0.instances[id].fqdn),
    decreases ids.len(),
{
    let (cm, dm) = choose|cm: CloudView, dm: DnsView|
        stopped_all(c0, d0, ids.drop_last(), cm, dm) && #[trigger] instance_stopped(
            cm,
            dm,
            ids.last(),
            c1,
            d1,
        );
    if ids.drop_last().contains(id) {
        lemma_stopped_all_needs(c0, d0, ids.drop_last(), cm, dm, id);
    } else {
        let k = choose|k: int| 0 <= k < ids.len() && ids[k] == id;
        if k < ids.len() - 1 {
            assert(ids.drop_last()[k] == id);
        }
        assert(id == ids.last());
        match c0.instances[id].fqdn {
            Some(f) => {
                lemma_stopped_all_frame(c0, d0, ids.drop_last(), cm, dm, id, f);
                let zone = choose|zone: Seq<char>| #[trigger]
                    dm.is_authoritative(zone, f) && d1 == dm.synced_in(zone, f, None);
                assert(dm.covers(zone, f));
            },
            None => {
                lemma_stopped_all_frame(c0, d0, ids.drop_last(), cm, dm, id, id);
            },
        }
    }
}

/// A command that was carried out could be carried out: nothing in what the providers
/// held to begin with kept it from that.
pub proof fn lemma_dispatched_needs(
    cmd: Command,
    c0: CloudView,
    d0: DnsView,
    c1: CloudView,
    d1: DnsView,
)
    requires
        dispatched(cmd, c0, d0, c1, d1),
    ensures
        can_dispatch(cmd, c0, d0),
{
    match cmd {
        Command::Start { instance_type, names } => {
            let ids = choose|ids: Seq<Seq<char>>|
                ids.to_set() == c0.instances_named(name_set(names@)) && #[trigger] started_all(
                    c0,
                    d0,
                    ids,
                    type_view(instance_type),
                    c1,
                    d1,
                );
            assert forall|id: Seq<char>| #[trigger]
                c0.instances_named(name_set(names@)).contains(id) implies can_start(
                c0,
                d0,
                id,
                c0.instances[id].fqdn,
                type_view(instance_type),
            ) by {
                assert(ids.to_set().contains(id));
                lemma_started_all_needs(c0, d0, ids, type_view(instance_type), c1, d1, id);
            }
        },
        Command::Stop { names } => {
            let ids = choose|ids: Seq<Seq<char>>|
                ids.to_set() == c0.instances_named(name_set(names@)) && #[trigger] stopped_all(
                    c0,
                    d0,
                    ids,
                    c1,
                    d1,
                );
            assert forall|id: Seq<char>| #[trigger]
                c0.instances_named(name_set(names@)).contains(id) implies can_stop(
                c0,
                d0,
                id,
                c0.instances[id].fqdn,
            ) by {
                assert(ids.to_set().contains(id));
                lemma_stopped_all_needs(c0, d0, ids, c1, d1, id);
            }
        },
        _ => {},
    }
}

/// Where nothing was started, some of the instances were started: none of them.
pub proof fn lemma_nothing_started(
    c0: CloudView,
    d0: DnsView,
    named: Set<Seq<char>>,
    instance_type: Option<Seq<char>>,
)
    ensures
        start_partly_done(c0, d0, named, instance_type, c0, d0),
{
    let ids = Seq::<Seq<char>>::empty();
    assert(started_all(c0, d0, ids, instance_type, c0, d0));
}

/// Where nothing was stopped, some of the instances were stopped: none of them.
pub proof fn lemma_nothing_stopped(c0: CloudView, d0: DnsView, named: Set<Seq<char>>)
    ensures
        stop_partly_done(c0, d0, named, c0, d0),
{
    let ids = Seq::<Seq<char>>::empty();
    assert(stopped_all(c0, d0, ids, c0, d0));
}

/// Starting one more instance extends a run of starts.
pub proof fn lemma_started_all_step(
    c0: CloudView,
    d0: DnsView,
    ids: Seq<Seq<char>>,
    instance_type: Option<Seq<char>>,
    cm: CloudView,
    dm: DnsView,
    c1: CloudView,
    d1: DnsView,
)
    requires
        ids.len() > 0,
        started_all(c0, d0, ids.drop_last(), instance_type, cm, dm),
        instance_started(cm, dm, ids.last(), instance_type, c1, d1),
    ensures
        started_all(c0, d0, ids, instance_type, c1, d1),
{
}

/// Stopping one more instance extends a run of stops.
pub proof fn lemma_stopped_all_step(
    c0: CloudView,
    d0: DnsView,
    ids: Seq<Seq<char>>,
    cm: CloudView,
    dm: DnsView,
    c1: CloudView,
    d1: DnsView,
)
    requires
        ids.len() > 0,
        stopped_all(c0, d0, ids.drop_last(), cm, dm),
        instance_stopped(cm, dm, ids.last(), c1, d1),
    ensures
        stopped_all(c0, d0, ids, c1, d1),
{
}

/// The identifiers of a listing of firewalls are those that the lookup finds.
pub proof fn lemma_listed_firewall_ids<C: CloudStore, F: Firewall<C>>(
    view: CloudView,
    names: Set<Seq<char>>,
    firewalls: Seq<F>,
)
    requires
        crate::cloud::firewalls_listed(view, names, firewalls),
    ensures
        firewall_ids::<C, F>(firewalls).to_set() == view.firewalls_named(names),
{
    let ids = firewall_ids::<C, F>(firewalls);
    assert forall|id: Seq<char>|
        view.firewalls_named(names).contains(id) implies ids.to_set().contains(id) by {
        let k = choose|k: int| 0 <= k < firewalls.len() && (#[trigger] firewalls[k]).key() == id;
        assert(ids[k] == id);
    }
}

/// The identifiers of a listing of instances are those that the lookup finds.
pub proof fn lemma_listed_instance_ids<C: CloudStore, I: Instance<C>>(
    view: CloudView,
    names: Set<Seq<char>>,
    instances: Seq<I>,
)
    requires
        crate::cloud::instances_listed(view, names, instances),
    ensures
        instance_ids::<C, I>(instances).to_set() == view.instances_named(names),
{
    let ids = instance_ids::<C, I>(instances);
    assert forall|id: Seq<char>|
        view.instances_named(names).contains(id) implies ids.to_set().contains(id) by {
        let k = choose|k: int| 0 <= k < instances.len() && (#[trigger] instances[k]).key() == id;
        assert(ids[k] == id);
    }
}

/// Adding what a firewall lacks and then taking out what it holds beyond the desired
/// rules leaves it with exactly the desired rules. Nothing is added that was there, and
/// nothing is taken out that was not; of the desired rules, those that are not added were
/// there. A firewall that holds the desired rules lacks nothing and holds nothing beyond
/// them, so that a second run asks nothing of the provider.
pub proof fn lemma_rule_changes_converge(existing: Set<IpIngressRule>, desired: Set<IpIngressRule>)
    requires
        existing.finite(),
        desired.finite(),
    ensures
        existing.union(desired.difference(existing)).difference(existing.difference(desired))
            == desired,
        desired.difference(existing).disjoint(existing),
        existing.difference(desired).subset_of(existing),
        desired.difference(existing).len() + desired.intersect(existing).len() == desired.len(),
        existing.difference(desired).len() + existing.intersect(desired).len() == existing.len(),
        desired.difference(desired) == Set::<IpIngressRule>::empty(),
        existing == desired ==> desired.difference(existing).len() == 0 && existing.difference(
            desired,
        ).len() == 0,
{
    vstd::set_lib::lemma_set_difference_len(desired, existing);
    vstd::set_lib::lemma_set_difference_len(existing, desired);
}

/// The requests that bring a firewall to the desired rules: at most one to add and one to
/// take out, the one to add first. Rules are added that are desired and were not there, all
/// of them; rules are taken out that were there and are not desired, all of them. No
/// request is made for no rule, and none at all of a firewall that holds the desired rules.
pub proof fn lemma_reconcile_requests(existing: Set<IpIngressRule>, desired: Set<IpIngressRule>)
    ensures
        reconcile_requests(existing, desired).len() <= 2,
        forall|i: int|
            0 <= i < reconcile_requests(existing, desired).len() ==> match #[trigger] reconcile_requests(
                existing,
                desired,
            )[i] {
                RuleRequest::Add(rules) => {
                    &&& i == 0
                    &&& rules == desired.difference(existing)
                    &&& rules != Set::<IpIngressRule>::empty()
                },
                RuleRequest::Remove(rules) => {
                    &&& i == reconcile_requests(existing, desired).len() - 1
                    &&& rules == existing.difference(desired)
                    &&& rules != Set::<IpIngressRule>::empty()
                },
            },
        desired.difference(existing) != Set::<IpIngressRule>::empty() ==> reconcile_requests(
            existing,
            desired,
        )[0] == RuleRequest::Add(desired.difference(existing)),
        existing.difference(desired) != Set::<IpIngressRule>::empty() ==> reconcile_requests(
            existing,
            desired,
        ).last() == RuleRequest::Remove(existing.difference(desired)),
        existing == desired ==> reconcile_requests(existing, desired) == Seq::<
            RuleRequest,
        >::empty(),
{
    if existing == desired {
        assert(desired.difference(existing) =~= Set::<IpIngressRule>::empty());
        assert(reconcile_requests(existing, desired) =~= Seq::<RuleRequest>::empty());
    }
}

/// Bringing a firewall to the desired rules twice leaves it as it was after the first
/// time: the second time the provider is asked to add nothing and to take out nothing.
pub proof fn lemma_reconciled_twice(firewall: FirewallView, desired: Set<IpIngressRule>)
    ensures
        firewall.reconciled(desired).reconciled(desired) == firewall.reconciled(desired),
{
    lemma_reconcile_requests(desired, desired);
    let once = firewall.reconciled(desired);
    assert(once.requests + Seq::<RuleRequest>::empty() =~= once.requests);
}

/// `Open` and `Close` are idempotent: a second run of the same command leaves the
/// firewalls, the instances and the zones as they were after the first run.
pub proof fn lemma_open_close_idempotent(
    cmd: Command,
    c0: CloudView,
    d0: DnsView,
    c1: CloudView,
    d1: DnsView,
    c2: CloudView,
    d2: DnsView,
)
    requires
        cmd is Open || cmd is Close,
        dispatched(cmd, c0, d0, c1, d1),
        dispatched(cmd, c1, d1, c2, d2),
    ensures
        c2 == c1,
        d2 == d1,
{
    let names = match cmd {
        Command::Open { names, .. } => name_set(names@),
        Command::Close { names } => name_set(names@),
        Command::Start { names, .. } => name_set(names@),
        Command::Stop { names } => name_set(names@),
    };
    let desired = match cmd {
        Command::Open { ip_cidrs, ip_protocols, .. } => cross_product(ip_cidrs@, ip_protocols@),
        _ => Set::<IpIngressRule>::empty(),
    };
    assert forall|id: Seq<char>| c1.firewalls.contains_key(id) implies #[trigger] c2.firewalls[id]
        == c1.firewalls[id] by {
        lemma_reconciled_twice(c0.firewalls[id], desired);
    }
}

/// After `Close`, the named firewalls hold no rule.
pub proof fn lemma_close_empties(
    names: Vec<String>,
    c0: CloudView,
    d0: DnsView,
    c1: CloudView,
    d1: DnsView,
    id: Seq<char>,
)
    requires
        dispatched(Command::Close { names }, c0, d0, c1, d1),
        c0.firewalls_named(name_set(names@)).contains(id),
    ensures
        c1.firewalls.contains_key(id),
        c1.firewalls[id].rules == Set::<IpIngressRule>::empty(),
{
}

/// After `Open`, each named firewall holds exactly the rules that allow each protocol
/// from each network, and the provider was asked for what [`reconcile_requests`] tells,
/// in that order, and for nothing else. Every other firewall is as it was.
pub proof fn lemma_open_converges(
    ip_cidrs: Vec<IpNet>,
    ip_protocols: Vec<IpProtocol>,
    names: Vec<String>,
    c0: CloudView,
    d0: DnsView,
    c1: CloudView,
    d1: DnsView,
    id: Seq<char>,
)
    requires
        dispatched(Command::Open { ip_cidrs, ip_protocols, names }, c0, d0, c1, d1),
        c0.firewalls.contains_key(id),
    ensures
        c1.firewalls.contains_key(id),
        c1.firewalls[id] == if name_set(names@).contains(c0.firewalls[id].name) {
            c0.firewalls[id].reconciled(cross_product(ip_cidrs@, ip_protocols@))
        } else {
            c0.firewalls[id]
        },
        name_set(names@).contains(c0.firewalls[id].name) ==> {
            &&& c1.firewalls[id].rules == cross_product(ip_cidrs@, ip_protocols@)
            &&& c1.firewalls[id].requests == c0.firewalls[id].requests + reconcile_requests(
                c0.firewalls[id].rules,
                cross_product(ip_cidrs@, ip_protocols@),
            )
        },
{
}

/// Starting an instance that was just started changes nothing, where only one zone
/// answers for the name it declares.
pub proof fn lemma_instance_started_twice(
    c0: CloudView,
    d0: DnsView,
    id: Seq<char>,
    instance_type: Option<Seq<char>>,
    c1: CloudView,
    d1: DnsView,
    c2: CloudView,
    d2: DnsView,
)
    requires
        instance_started(c0, d0, id, instance_type, c1, d1),
        instance_started(c1, d1, id, instance_type, c2, d2),
        c0.instances[id].fqdn matches Some(fqdn) ==> d0.authority_unique(fqdn),
    ensures
        c2 == c1,
        d2 == d1,
{
    if let Some(fqdn) = c0.instances[id].fqdn {
        d0.lemma_synced_twice(fqdn, c0.instances[id].addr, d1, d2);
    }
}

/// Stopping an instance that was just stopped changes nothing, where only one zone
/// answers for the name it declares.
pub proof fn lemma_instance_stopped_twice(
    c0: CloudView,
    d0: DnsView,
    id: Seq<char>,
    c1: CloudView,
    d1: DnsView,
    c2: CloudView,
    d2: DnsView,
)
    requires
        instance_stopped(c0, d0, id, c1, d1),
        instance_stopped(c1, d1, id, c2, d2),
        c0.instances[id].fqdn matches Some(fqdn) ==> d0.authority_unique(fqdn),
    ensures
        c2 == c1,
        d2 == d1,
{
    if let Some(fqdn) = c0.instances[id].fqdn {
        d0.lemma_synced_twice(fqdn, None, d1, d2);
    }
}

} // verus!
