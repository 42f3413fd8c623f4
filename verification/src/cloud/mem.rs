//! A cloud provider held in memory.

use crate::cloud::lifecycle::InstanceStateCode;
use crate::cloud::firewall_ids;
use crate::cloud::firewall_named;
use crate::cloud::instance_ids;
use crate::cloud::instance_named;
use crate::cloud::name_set;
use crate::cloud::Cloud;
use crate::cloud::CloudStore;
use crate::cloud::CloudView;
use crate::cloud::Firewall;
use crate::cloud::FirewallView;
use crate::cloud::Instance;
use crate::cloud::InstanceRunningState;
use crate::cloud::InstanceType;
use crate::cloud::InstanceView;
use crate::cloud::RuleRequest;
use crate::dns::DnsTarget;
use crate::dns::DnsTargetView;
use crate::error::Error;
use crate::iprules::IpIngressRule;
use crate::net::host_at;
use crate::net::Ipv4Addr;
use crate::ruleset::RuleSet;
use crate::table::Table;
use crate::text::copy_opt_string;
use crate::text::decimal_text;
use crate::text::label_texts;
use crate::text::opt_text;
use crate::text::str_eq;
use vstd::prelude::*;
use vstd::string::*;

verus! {

/// Whether `name` is one of `names`.
pub fn contains_name(names: &Vec<String>, name: &str) -> (b: bool)
    ensures
        b == name_set(names@).contains(name@),
{
    let mut i: usize = 0;
    while i < names.len()
        invariant
            i <= names.len(),
            forall|j: int| 0 <= j < i ==> label_texts(names@)[j] != name@,
        decreases names.len() - i,
    {
        if str_eq(names[i].as_str(), name) {
            assert(label_texts(names@)[i as int] == name@);
            return true;
        }
        i = i + 1;
    }
    false
}

/// What the provider holds of one firewall.
pub struct FirewallData {
    name: String,
    rules: RuleSet,
    requests: Ghost<Seq<RuleRequest>>,
}

impl View for FirewallData {
    type V = FirewallView;

    closed spec fn view(&self) -> FirewallView {
        FirewallView {
            name: self.name@,
            rules: self.rules@,
            requests: self.requests@,
        }
    }
}

/// What the provider holds of one instance.
pub struct InstanceData {
    name: String,
    fqdn: Option<String>,
    instance_type: InstanceType,
    ip_addr: Ipv4Addr,
    is_running: bool,
}

impl View for InstanceData {
    type V = InstanceView;

    closed spec fn view(&self) -> InstanceView {
        InstanceView {
            name: self.name@,
            fqdn: opt_text(self.fqdn),
            instance_type: self.instance_type@,
            state: if self.is_running {
                InstanceStateCode::Running
            } else {
                InstanceStateCode::Stopped
            },
            addr: Some(DnsTargetView::A(self.ip_addr)),
        }
    }
}

/// A firewall of a [`MemCloud`].
#[derive(Debug)]
pub struct MemFirewall {
    id: String,
    name: String,
}

/// An instance of a [`MemCloud`].
#[derive(Debug)]
pub struct MemInstance {
    id: String,
    name: String,
    fqdn: Option<String>,
}

/// A cloud provider that holds its firewalls and instances in memory. Identifiers are the
/// decimal texts of a counter; each instance gets the next host address of `0.0.0.0/0`.
pub struct MemCloud {
    next_id: u32,
    next_host: u32,
    firewalls: Table<FirewallData>,
    instances: Table<InstanceData>,
}

impl CloudStore for MemCloud {
    open spec fn reliable(&self) -> bool {
        true
    }

    closed spec fn view(&self) -> CloudView {
        CloudView { firewalls: self.firewalls.map(), instances: self.instances.map() }
    }
}

impl MemCloud {
    #[verifier::type_invariant]
    spec fn counter_ahead(self) -> bool {
        self.firewalls.bound() <= self.next_id && self.instances.bound() <= self.next_id
    }

    /// How many identifiers were given out.
    pub closed spec fn ids_given(&self) -> nat {
        self.next_id as nat
    }

    /// How many addresses were given out.
    pub closed spec fn hosts_given(&self) -> nat {
        self.next_host as nat
    }

    /// The identifiers of the firewalls, in the order in which they were made.
    pub closed spec fn firewall_ids(&self) -> Seq<Seq<char>> {
        self.firewalls.ids()
    }

    /// The identifiers of the instances, in the order in which they were made.
    pub closed spec fn instance_ids(&self) -> Seq<Seq<char>> {
        self.instances.ids()
    }

    /// Whether `other` has given out as many identifiers and addresses, and made the same
    /// firewalls and instances in the same order.
    pub open spec fn made_like(&self, other: &MemCloud) -> bool {
        &&& self.ids_given() == other.ids_given()
        &&& self.hosts_given() == other.hosts_given()
        &&& self.firewall_ids() == other.firewall_ids()
        &&& self.instance_ids() == other.instance_ids()
    }

    /// Whether an identifier is left for one more firewall or instance.
    pub open spec fn ids_left(&self) -> bool {
        self.ids_given() < u32::MAX
    }

    /// Whether an address is left for one more instance: the hosts of `0.0.0.0/0` run from
    /// `0.0.0.1` to `255.255.255.254`.
    pub open spec fn hosts_left(&self) -> bool {
        self.hosts_given() < 0xFFFF_FFFE
    }

    /// A provider without firewalls and instances.
    pub fn new() -> (r: Result<MemCloud, Error>)
        ensures
            r matches Ok(cloud) && cloud.view().firewalls == Map::<Seq<char>, FirewallView>::empty()
                && cloud.view().instances == Map::<Seq<char>, InstanceView>::empty()
                && cloud.ids_given() == 0 && cloud.hosts_given() == 0 && cloud.firewall_ids().len()
                == 0 && cloud.instance_ids().len() == 0,
    {
        Ok(MemCloud::starting_at(0, 0))
    }

    /// A provider without firewalls and instances that has given out `ids_given`
    /// identifiers and `hosts_given` addresses before.
    pub fn starting_at(ids_given: u32, hosts_given: u32) -> (cloud: MemCloud)
        ensures
            cloud.view().firewalls == Map::<Seq<char>, FirewallView>::empty(),
            cloud.view().instances == Map::<Seq<char>, InstanceView>::empty(),
            cloud.ids_given() == ids_given,
            cloud.hosts_given() == hosts_given,
            cloud.firewall_ids().len() == 0,
            cloud.instance_ids().len() == 0,
    {
        MemCloud {
            next_id: ids_given,
            next_host: hosts_given,
            firewalls: Table::new(),
            instances: Table::new(),
        }
    }

    /// Makes a firewall named `name`, without rules.
    pub fn create_firewall(&mut self, name: &str) -> (r: Result<MemFirewall, Error>)
        ensures
            r is Ok <==> old(self).ids_left(),
            r matches Ok(fw) ==> {
                &&& fw.key() == decimal_text(old(self).ids_given())
                &&& fw.name_view() == name@
                &&& !old(self).view().firewalls.contains_key(fw.key())
                &&& final(self).view().firewalls == old(self).view().firewalls.insert(
                    fw.key(),
                    FirewallView {
                        name: name@,
                        rules: Set::<IpIngressRule>::empty(),
                        requests: Seq::<RuleRequest>::empty(),
                    },
                )
                &&& final(self).view().instances == old(self).view().instances
                &&& final(self).firewall_ids() == old(self).firewall_ids().push(fw.key())
                &&& final(self).instance_ids() == old(self).instance_ids()
                &&& final(self).ids_given() == old(self).ids_given() + 1
                &&& final(self).hosts_given() == old(self).hosts_given()
            },
            r matches Err(e) ==> e == Error::Exhausted && final(self).view() == old(self).view()
                && final(self).ids_given() == old(self).ids_given() && final(self).hosts_given()
                == old(self).hosts_given() && final(self).firewall_ids() == old(
                self,
            ).firewall_ids() && final(self).instance_ids() == old(self).instance_ids(),
    {
        proof {
            use_type_invariant(&*self);
        }
        if self.next_id == u32::MAX {
            return Err(Error::Exhausted);
        }
        let mut taken = MemCloud {
            next_id: 0,
            next_host: 0,
            firewalls: Table::new(),
            instances: Table::new(),
        };
        core::mem::swap(self, &mut taken);
        let MemCloud { next_id, next_host, mut firewalls, instances } = taken;
        let id = firewalls.add(
            next_id,
            FirewallData {
                name: name.to_owned(),
                rules: RuleSet::new(),
                requests: Ghost(Seq::empty()),
            },
        );
        *self = MemCloud { next_id: next_id + 1, next_host, firewalls, instances };
        Ok(MemFirewall { id, name: name.to_owned() })
    }

    /// Makes a stopped instance named `name`, of the type `instance_type`, which declares
    /// the domain name `fqdn` if one is given.
    pub fn create_instance(
        &mut self,
        name: &str,
        fqdn: Option<&str>,
        instance_type: &InstanceType,
    ) -> (r: Result<MemInstance, Error>)
        ensures
            r is Ok <==> old(self).ids_left() && old(self).hosts_left(),
            final(self).firewall_ids() == old(self).firewall_ids(),
            final(self).ids_given() == if old(self).ids_left() {
                old(self).ids_given() + 1
            } else {
                old(self).ids_given()
            },
            final(self).hosts_given() == if r is Ok {
                old(self).hosts_given() + 1
            } else {
                old(self).hosts_given()
            },
            r is Err ==> final(self).instance_ids() == old(self).instance_ids(),
            r matches Ok(instance) ==> {
                &&& instance.key() == decimal_text(old(self).ids_given())
                &&& instance.name_view() == name@
                &&& final(self).instance_ids() == old(self).instance_ids().push(instance.key())
                &&& final(self).view().instances[instance.key()].addr == Some(
                    DnsTargetView::A(Ipv4Addr((old(self).hosts_given() + 1) as u32)),
                )
                &&& !old(self).view().instances.contains_key(instance.key())
                &&& final(self).view().instances.contains_key(instance.key())
                &&& final(self).view().instances == old(self).view().instances.insert(
                    instance.key(),
                    final(self).view().instances[instance.key()],
                )
                &&& final(self).view().instances[instance.key()].name == name@
                &&& final(self).view().instances[instance.key()].fqdn == instance.fqdn_view()
                &&& instance.fqdn_view() == match fqdn {
                    Some(f) => Some(f@),
                    None => None,
                }
                &&& final(self).view().instances[instance.key()].instance_type == instance_type@
                &&& final(self).view().instances[instance.key()].state
                    == InstanceStateCode::Stopped
                &&& final(self).view().firewalls == old(self).view().firewalls
            },
            r matches Err(e) ==> e == Error::Exhausted && final(self).view() == old(self).view(),
    {
        proof {
            use_type_invariant(&*self);
        }
        if self.next_id == u32::MAX {
            return Err(Error::Exhausted);
        }
        let mut taken = MemCloud {
            next_id: 0,
            next_host: 0,
            firewalls: Table::new(),
            instances: Table::new(),
        };
        core::mem::swap(self, &mut taken);
        let MemCloud { next_id, next_host, firewalls, mut instances } = taken;
        let ip_addr = match host_at(next_host) {
            Some(ip_addr) => ip_addr,
            None => {
                *self = MemCloud { next_id: next_id + 1, next_host, firewalls, instances };
                return Err(Error::Exhausted);
            },
        };
        let declared = match fqdn {
            Some(f) => Some(f.to_owned()),
            None => None,
        };
        let data = InstanceData {
            name: name.to_owned(),
            fqdn: copy_opt_string(&declared),
            instance_type: instance_type.clone(),
            ip_addr,
            is_running: false,
        };
        let id = instances.add(next_id, data);
        *self = MemCloud { next_id: next_id + 1, next_host: next_host + 1, firewalls, instances };
        Ok(MemInstance { id, name: name.to_owned(), fqdn: declared })
    }

    fn replace_firewall(&mut self, i: usize, data: FirewallData)
        requires
            i < old(self).firewalls.ids().len(),
        ensures
            final(self).view() == (CloudView {
                firewalls: old(self).view().firewalls.insert(
                    old(self).firewalls.ids()[i as int],
                    data@,
                ),
                instances: old(self).view().instances,
            }),
            final(self).ids_given() == old(self).ids_given(),
            final(self).hosts_given() == old(self).hosts_given(),
            final(self).firewall_ids() == old(self).firewall_ids(),
            final(self).instance_ids() == old(self).instance_ids(),
    {
        proof {
            use_type_invariant(&*self);
        }
        let mut taken = MemCloud {
            next_id: 0,
            next_host: 0,
            firewalls: Table::new(),
            instances: Table::new(),
        };
        core::mem::swap(self, &mut taken);
        let MemCloud { next_id, next_host, mut firewalls, instances } = taken;
        firewalls.replace(i, data);
        *self = MemCloud { next_id, next_host, firewalls, instances };
    }

    fn replace_instance(&mut self, i: usize, data: InstanceData)
        requires
            i < old(self).instances.ids().len(),
        ensures
            final(self).view() == (CloudView {
                firewalls: old(self).view().firewalls,
                instances: old(self).view().instances.insert(
                    old(self).instances.ids()[i as int],
                    data@,
                ),
            }),
            final(self).ids_given() == old(self).ids_given(),
            final(self).hosts_given() == old(self).hosts_given(),
            final(self).firewall_ids() == old(self).firewall_ids(),
            final(self).instance_ids() == old(self).instance_ids(),
    {
        proof {
            use_type_invariant(&*self);
        }
        let mut taken = MemCloud {
            next_id: 0,
            next_host: 0,
            firewalls: Table::new(),
            instances: Table::new(),
        };
        core::mem::swap(self, &mut taken);
        let MemCloud { next_id, next_host, firewalls, mut instances } = taken;
        instances.replace(i, data);
        *self = MemCloud { next_id, next_host, firewalls, instances };
    }
}

/// Whether `e` is the error of a handle `id` whose firewall or instance the provider does
/// not hold.
pub open spec fn is_unknown_handle(e: Error, id: Seq<char>) -> bool {
    e matches Error::Provider { message } && message@ == "no such resource: "@ + id
}

/// The error of a handle whose firewall or instance the provider does not hold.
fn unknown_handle(id: &str) -> (e: Error)
    ensures
        is_unknown_handle(e, id@),
{
    Error::Provider { message: "no such resource: ".to_owned().concat(id) }
}

impl Firewall<MemCloud> for MemFirewall {
    closed spec fn key(&self) -> Seq<char> {
        self.id@
    }

    closed spec fn name_view(&self) -> Seq<char> {
        self.name@
    }

    fn id(&self) -> (r: &str) {
        self.id.as_str()
    }

    fn name(&self) -> (r: &str) {
        self.name.as_str()
    }

    fn list_ingress_rules(&self, cloud: &MemCloud) -> (r: Result<RuleSet, Error>)
        ensures
            r is Ok <==> cloud.view().firewalls.contains_key(self.key()),
            r matches Err(e) ==> is_unknown_handle(e, self.key()),
    {
        match cloud.firewalls.find(self.id.as_str()) {
            Some(i) => Ok(cloud.firewalls.value_at(i).rules.duplicate()),
            None => Err(unknown_handle(self.id.as_str())),
        }
    }

    fn add_ingress_rules(&self, cloud: &mut MemCloud, rules: &RuleSet) -> (r: Result<(), Error>)
        ensures
            r is Ok <==> old(cloud).view().firewalls.contains_key(self.key()),
            r is Err ==> final(cloud).view() == old(cloud).view(),
            r matches Err(e) ==> is_unknown_handle(e, self.key()),
            final(cloud).made_like(old(cloud)),
    {
        match cloud.firewalls.find(self.id.as_str()) {
            Some(i) => {
                let held = cloud.firewalls.value_at(i);
                let data = FirewallData {
                    name: held.name.clone(),
                    rules: held.rules.union(rules),
                    requests: Ghost(held.requests@.push(RuleRequest::Add(rules@))),
                };
                cloud.replace_firewall(i, data);
                Ok(())
            },
            None => Err(unknown_handle(self.id.as_str())),
        }
    }

    fn remove_ingress_rules(&self, cloud: &mut MemCloud, rules: &RuleSet) -> (r: Result<(), Error>)
        ensures
            r is Ok <==> old(cloud).view().firewalls.contains_key(self.key()),
            r is Err ==> final(cloud).view() == old(cloud).view(),
            r matches Err(e) ==> is_unknown_handle(e, self.key()),
            final(cloud).made_like(old(cloud)),
    {
        match cloud.firewalls.find(self.id.as_str()) {
            Some(i) => {
                let held = cloud.firewalls.value_at(i);
                let data = FirewallData {
                    name: held.name.clone(),
                    rules: held.rules.difference(rules),
                    requests: Ghost(held.requests@.push(RuleRequest::Remove(rules@))),
                };
                cloud.replace_firewall(i, data);
                Ok(())
            },
            None => Err(unknown_handle(self.id.as_str())),
        }
    }
}

impl MemInstance {
    /// Tells the type and address of the instance if it runs, and `None` if it is stopped.
    pub fn try_get_running_state(&self, cloud: &MemCloud) -> (r: Result<
        Option<InstanceRunningState>,
        Error,
    >)
        ensures
            r is Ok <==> cloud.view().instances.contains_key(self.key()),
            r matches Err(e) ==> is_unknown_handle(e, self.key()),
            r matches Ok(found) ==> {
                let held = cloud.view().instances[self.key()];
                match found {
                    Some(running) => held.state == InstanceStateCode::Running
                        && running.instance_type@ == held.instance_type && held.addr == Some(
                        running.addr@,
                    ),
                    None => held.state == InstanceStateCode::Stopped,
                }
            },
    {
        match cloud.instances.find(self.id.as_str()) {
            Some(i) => {
                let held = cloud.instances.value_at(i);
                if held.is_running {
                    Ok(
                        Some(
                            InstanceRunningState {
                                instance_type: held.instance_type.clone(),
                                addr: DnsTarget::A(held.ip_addr),
                            },
                        ),
                    )
                } else {
                    Ok(None)
                }
            },
            None => Err(unknown_handle(self.id.as_str())),
        }
    }
}

impl Instance<MemCloud> for MemInstance {
    closed spec fn key(&self) -> Seq<char> {
        self.id@
    }

    closed spec fn name_view(&self) -> Seq<char> {
        self.name@
    }

    closed spec fn fqdn_view(&self) -> Option<Seq<char>> {
        opt_text(self.fqdn)
    }

    fn id(&self) -> (r: &str) {
        self.id.as_str()
    }

    fn name(&self) -> (r: &str) {
        self.name.as_str()
    }

    fn fqdn(&self) -> (r: Option<&str>) {
        match &self.fqdn {
            Some(f) => Some(f.as_str()),
            None => None,
        }
    }

    fn try_ensure_instance_type(&self, cloud: &mut MemCloud, instance_type: &InstanceType) -> (r:
        Result<(), Error>)
        ensures
            r is Ok <==> old(cloud).view().instances.contains_key(self.key()) && (old(
                cloud,
            ).view().instances[self.key()].instance_type == instance_type@ || old(
                cloud,
            ).view().instances[self.key()].state == InstanceStateCode::Stopped),
            r is Err ==> final(cloud).view() == old(cloud).view(),
            final(cloud).made_like(old(cloud)),
            r matches Err(e) ==> if old(cloud).view().instances.contains_key(self.key()) {
                e == Error::InstanceMustBeStopped
            } else {
                is_unknown_handle(e, self.key())
            },
    {
        match cloud.instances.find(self.id.as_str()) {
            Some(i) => {
                let held = cloud.instances.value_at(i);
                if held.instance_type == *instance_type {
                    Ok(())
                } else if !held.is_running {
                    let data = InstanceData {
                        name: held.name.clone(),
                        fqdn: copy_opt_string(&held.fqdn),
                        instance_type: instance_type.clone(),
                        ip_addr: held.ip_addr,
                        is_running: held.is_running,
                    };
                    cloud.replace_instance(i, data);
                    Ok(())
                } else {
                    Err(Error::InstanceMustBeStopped)
                }
            },
            None => Err(unknown_handle(self.id.as_str())),
        }
    }

    fn ensure_running(&self, cloud: &mut MemCloud) -> (r: Result<InstanceRunningState, Error>)
        ensures
            r is Ok <==> old(cloud).view().instances.contains_key(self.key()),
            r is Err ==> final(cloud).view() == old(cloud).view(),
            r matches Err(e) ==> is_unknown_handle(e, self.key()),
            final(cloud).made_like(old(cloud)),
    {
        match cloud.instances.find(self.id.as_str()) {
            Some(i) => {
                let held = cloud.instances.value_at(i);
                let running_state = InstanceRunningState {
                    instance_type: held.instance_type.clone(),
                    addr: DnsTarget::A(held.ip_addr),
                };
                let data = InstanceData {
                    name: held.name.clone(),
                    fqdn: copy_opt_string(&held.fqdn),
                    instance_type: held.instance_type.clone(),
                    ip_addr: held.ip_addr,
                    is_running: true,
                };
                cloud.replace_instance(i, data);
                Ok(running_state)
            },
            None => Err(unknown_handle(self.id.as_str())),
        }
    }

    fn ensure_stopped(&self, cloud: &mut MemCloud) -> (r: Result<(), Error>)
        ensures
            r is Ok <==> old(cloud).view().instances.contains_key(self.key()),
            r is Err ==> final(cloud).view() == old(cloud).view(),
            r matches Err(e) ==> is_unknown_handle(e, self.key()),
            final(cloud).made_like(old(cloud)),
    {
        match cloud.instances.find(self.id.as_str()) {
            Some(i) => {
                let held = cloud.instances.value_at(i);
                let data = InstanceData {
                    name: held.name.clone(),
                    fqdn: copy_opt_string(&held.fqdn),
                    instance_type: held.instance_type.clone(),
                    ip_addr: held.ip_addr,
                    is_running: false,
                };
                cloud.replace_instance(i, data);
                Ok(())
            },
            None => Err(unknown_handle(self.id.as_str())),
        }
    }
}

impl Cloud for MemCloud {
    type Firewall = MemFirewall;

    type Instance = MemInstance;

    fn list_firewalls(&self, names: &Vec<String>) -> (r: Result<Vec<MemFirewall>, Error>)
        ensures
            r matches Ok(firewalls) && firewall_ids::<MemCloud, MemFirewall>(firewalls@)
                == self.firewall_ids().filter(firewall_named(self.view(), name_set(names@)))
                && forall|k: int|
                0 <= k < firewalls@.len() ==> (#[trigger] firewalls@[k]).name_view()
                    == self.view().firewalls[firewalls@[k].key()].name,
    {
        let n = self.firewalls.len();
        let ghost ids = self.firewalls.ids();
        let ghost wanted = firewall_named(self.view(), name_set(names@));
        let mut out: Vec<MemFirewall> = Vec::new();
        let mut i: usize = 0;
        while i < n
            invariant
                i <= n,
                n == ids.len(),
                n == self.firewalls.values().len(),
                ids == self.firewalls.ids(),
                wanted == firewall_named(self.view(), name_set(names@)),
                firewall_ids::<MemCloud, MemFirewall>(out@) == ids.take(i as int).filter(wanted),
                forall|k: int|
                    0 <= k < out@.len() ==> (#[trigger] out@[k]).name_view()
                        == self.view().firewalls[out@[k].key()].name,
            decreases n - i,
        {
            let held = self.firewalls.value_at(i);
            proof {
                assert(ids.take(i + 1) =~= ids.take(i as int).push(ids[i as int]));
                ids.take(i as int).lemma_filter_push(ids[i as int], wanted);
            }
            if contains_name(names, held.name.as_str()) {
                out.push(
                    MemFirewall {
                        id: self.firewalls.id_at(i).to_owned(),
                        name: held.name.clone(),
                    },
                );
            }
            i = i + 1;
        }
        proof {
            assert(ids.take(n as int) =~= ids);
            let keys = firewall_ids::<MemCloud, MemFirewall>(out@);
            let named = self.view().firewalls_named(name_set(names@));
            assert forall|k: int| 0 <= k < out@.len() implies named.contains(
                (#[trigger] out@[k]).key(),
            ) by {
                ids.lemma_filter_contains_rev(wanted, keys[k]);
            }
            assert forall|id: Seq<char>| #[trigger] named.contains(id) implies exists|k: int|
                0 <= k < out@.len() && (#[trigger] out@[k]).key() == id by {
                let p = choose|p: int| 0 <= p < ids.len() && ids[p] == id;
                ids.lemma_filter_contains(wanted, p);
            }
        }
        Ok(out)
    }

    fn list_instances(&self, names: &Vec<String>) -> (r: Result<Vec<MemInstance>, Error>)
        ensures
            r matches Ok(instances) && instance_ids::<MemCloud, MemInstance>(instances@)
                == self.instance_ids().filter(instance_named(self.view(), name_set(names@)))
                && forall|k: int|
                0 <= k < instances@.len() ==> (#[trigger] instances@[k]).name_view()
                    == self.view().instances[instances@[k].key()].name,
    {
        let n = self.instances.len();
        let ghost ids = self.instances.ids();
        let ghost wanted = instance_named(self.view(), name_set(names@));
        let mut out: Vec<MemInstance> = Vec::new();
        let mut i: usize = 0;
        while i < n
            invariant
                i <= n,
                n == ids.len(),
                n == self.instances.values().len(),
                ids == self.instances.ids(),
                wanted == instance_named(self.view(), name_set(names@)),
                instance_ids::<MemCloud, MemInstance>(out@) == ids.take(i as int).filter(wanted),
                forall|k: int|
                    0 <= k < out@.len() ==> self.view().instances[(#[trigger] out@[k]).key()].fqdn
                        == out@[k].fqdn_view() && out@[k].name_view()
                        == self.view().instances[out@[k].key()].name,
            decreases n - i,
        {
            let held = self.instances.value_at(i);
            proof {
                assert(ids.take(i + 1) =~= ids.take(i as int).push(ids[i as int]));
                ids.take(i as int).lemma_filter_push(ids[i as int], wanted);
            }
            if contains_name(names, held.name.as_str()) {
                out.push(
                    MemInstance {
                        id: self.instances.id_at(i).to_owned(),
                        name: held.name.clone(),
                        fqdn: copy_opt_string(&held.fqdn),
                    },
                );
            }
            i = i + 1;
        }
        proof {
            assert(ids.take(n as int) =~= ids);
            let keys = instance_ids::<MemCloud, MemInstance>(out@);
            let named = self.view().instances_named(name_set(names@));
            assert forall|k: int| 0 <= k < out@.len() implies named.contains(
                (#[trigger] out@[k]).key(),
            ) by {
                ids.lemma_filter_contains_rev(wanted, keys[k]);
            }
            assert forall|id: Seq<char>| #[trigger] named.contains(id) implies exists|k: int|
                0 <= k < out@.len() && (#[trigger] out@[k]).key() == id by {
                let p = choose|p: int| 0 <= p < ids.len() && ids[p] == id;
                ids.lemma_filter_contains(wanted, p);
            }
        }
        Ok(out)
    }
}

} // verus!
