//! Firewalls and instances of a cloud provider, as the reconciliation sees them.

pub mod aws;
pub mod lifecycle;
pub mod mem;

use crate::cloud::lifecycle::InstanceStateCode;
use crate::dns::DnsTarget;
use crate::dns::DnsTargetView;
use crate::error::Error;
use crate::iprules::IpIngressRule;
use crate::ruleset::RuleSet;
use crate::text::label_texts;
use vstd::prelude::*;
use vstd::string::*;

verus! {

/// The type of an instance: a label of the provider, such as a size.
#[derive(Debug, Hash)]
pub struct InstanceType(String);

impl View for InstanceType {
    type V = Seq<char>;

    closed spec fn view(&self) -> Seq<char> {
        self.0@
    }
}

impl InstanceType {
    /// The type with the label `s`.
    pub fn new(s: &str) -> (r: InstanceType)
        ensures
            r@ == s@,
    {
        InstanceType(s.to_owned())
    }

    /// The label.
    pub fn as_str(&self) -> (s: &str)
        ensures
            s@ == self@,
    {
        self.0.as_str()
    }

    /// The label, as a text of its own.
    pub fn to_string(&self) -> (s: String)
        ensures
            s@ == self@,
    {
        self.0.clone()
    }
}

impl Clone for InstanceType {
    fn clone(&self) -> (r: InstanceType)
        ensures
            r@ == self@,
    {
        InstanceType(self.0.clone())
    }
}

impl PartialEq for InstanceType {
    fn eq(&self, other: &InstanceType) -> (b: bool) {
        self.0 == other.0
    }
}

impl Eq for InstanceType {

}

impl vstd::std_specs::cmp::PartialEqSpecImpl for InstanceType {
    open spec fn obeys_eq_spec() -> bool {
        true
    }

    open spec fn eq_spec(&self, other: &InstanceType) -> bool {
        self@ == other@
    }
}

/// What a running instance shows: its type and the one address under which it is reached.
#[derive(Debug, Clone, PartialEq, Eq)]
pub struct InstanceRunningState {
    pub instance_type: InstanceType,
    pub addr: DnsTarget,
}

/// A request made of a provider to change the rules of a firewall.
#[verifier::ext_equal]
pub enum RuleRequest {
    /// Add these rules.
    Add(Set<IpIngressRule>),
    /// Take these rules out.
    Remove(Set<IpIngressRule>),
}

/// One firewall: the name by which it is looked up, its ingress rules, and the requests
/// to change its rules that the provider has carried out so far, in their order.
#[verifier::ext_equal]
pub struct FirewallView {
    pub name: Seq<char>,
    pub rules: Set<IpIngressRule>,
    pub requests: Seq<RuleRequest>,
}

/// The requests that bring a firewall from `existing` to `desired`: first one to add the
/// desired rules that are not there, then one to take out the rules that are there and
/// are not desired. Neither is made for no rule.
pub open spec fn reconcile_requests(
    existing: Set<IpIngressRule>,
    desired: Set<IpIngressRule>,
) -> Seq<RuleRequest> {
    let missing = desired.difference(existing);
    let extra = existing.difference(desired);
    let adding = if missing == Set::<IpIngressRule>::empty() {
        Seq::<RuleRequest>::empty()
    } else {
        seq![RuleRequest::Add(missing)]
    };
    let removing = if extra == Set::<IpIngressRule>::empty() {
        Seq::<RuleRequest>::empty()
    } else {
        seq![RuleRequest::Remove(extra)]
    };
    adding + removing
}

impl FirewallView {
    /// The firewall after a request to add `rules`.
    pub open spec fn after_adding(self, rules: Set<IpIngressRule>) -> FirewallView {
        FirewallView {
            name: self.name,
            rules: self.rules.union(rules),
            requests: self.requests.push(RuleRequest::Add(rules)),
        }
    }

    /// The firewall after a request to take out `rules`.
    pub open spec fn after_removing(self, rules: Set<IpIngressRule>) -> FirewallView {
        FirewallView {
            name: self.name,
            rules: self.rules.difference(rules),
            requests: self.requests.push(RuleRequest::Remove(rules)),
        }
    }

    /// The firewall once it is brought to hold exactly `desired`, by the requests of
    /// [`reconcile_requests`] and no other.
    pub open spec fn reconciled(self, desired: Set<IpIngressRule>) -> FirewallView {
        FirewallView {
            name: self.name,
            rules: desired,
            requests: self.requests + reconcile_requests(self.rules, desired),
        }
    }
}

/// One instance: the name by which it is looked up, the domain name it declares, its type,
/// its power state, and the address it shows while it runs.
#[verifier::ext_equal]
pub struct InstanceView {
    pub name: Seq<char>,
    pub fqdn: Option<Seq<char>>,
    pub instance_type: Seq<char>,
    pub state: InstanceStateCode,
    pub addr: Option<DnsTargetView>,
}

/// The firewalls and the instances of a cloud provider, by identifier.
#[verifier::ext_equal]
pub struct CloudView {
    pub firewalls: Map<Seq<char>, FirewallView>,
    pub instances: Map<Seq<char>, InstanceView>,
}

/// The texts of `names`, as a set.
pub open spec fn name_set(names: Seq<String>) -> Set<Seq<char>> {
    label_texts(names).to_set()
}

impl CloudView {
    /// The view in which `firewall` stands for the firewall `id`.
    pub open spec fn with_firewall(self, id: Seq<char>, firewall: FirewallView) -> CloudView {
        CloudView { firewalls: self.firewalls.insert(id, firewall), instances: self.instances }
    }

    /// The view once the firewall `id` is brought to hold exactly `desired`.
    pub open spec fn reconciled(self, id: Seq<char>, desired: Set<IpIngressRule>) -> CloudView {
        self.with_firewall(id, self.firewalls[id].reconciled(desired))
    }

    /// The view once each firewall whose identifier is in `ids` is brought to hold exactly
    /// `desired`.
    pub open spec fn reconciled_for(
        self,
        ids: Set<Seq<char>>,
        desired: Set<IpIngressRule>,
    ) -> CloudView {
        CloudView {
            firewalls: Map::new(
                |id: Seq<char>| self.firewalls.contains_key(id),
                |id: Seq<char>|
                    if ids.contains(id) {
                        self.firewalls[id].reconciled(desired)
                    } else {
                        self.firewalls[id]
                    },
            ),
            instances: self.instances,
        }
    }

    /// Whether `after` differs from `self` in the firewall `id` at most: every other
    /// firewall and every instance is as it was.
    pub open spec fn same_but_firewall(self, after: CloudView, id: Seq<char>) -> bool {
        &&& after.instances == self.instances
        &&& after.firewalls.remove(id) == self.firewalls.remove(id)
    }

    /// Whether `after` differs from `self` in the instance `id` at most: every other
    /// instance and every firewall is as it was.
    pub open spec fn same_but_instance(self, after: CloudView, id: Seq<char>) -> bool {
        &&& after.firewalls == self.firewalls
        &&& after.instances.remove(id) == self.instances.remove(id)
    }

    /// The identifiers of the firewalls that a lookup by `names` finds.
    pub open spec fn firewalls_named(self, names: Set<Seq<char>>) -> Set<Seq<char>> {
        Set::new(
            |id: Seq<char>|
                self.firewalls.contains_key(id) && names.contains(self.firewalls[id].name),
        )
    }

    /// The identifiers of the instances that a lookup by `names` finds.
    pub open spec fn instances_named(self, names: Set<Seq<char>>) -> Set<Seq<char>> {
        Set::new(
            |id: Seq<char>|
                self.instances.contains_key(id) && names.contains(self.instances[id].name),
        )
    }

    /// The view in which the instance `id` has the type `instance_type`.
    pub open spec fn with_instance_type(
        self,
        id: Seq<char>,
        instance_type: Seq<char>,
    ) -> CloudView {
        CloudView {
            firewalls: self.firewalls,
            instances: self.instances.insert(
                id,
                InstanceView { instance_type, ..self.instances[id] },
            ),
        }
    }

    /// The view in which the instance `id` is in the power state `state`.
    pub open spec fn with_state(self, id: Seq<char>, state: InstanceStateCode) -> CloudView {
        CloudView {
            firewalls: self.firewalls,
            instances: self.instances.insert(id, InstanceView { state, ..self.instances[id] }),
        }
    }
}

/// A cloud provider as far as contracts speak of it: the firewalls and instances it holds.
pub trait CloudStore {
    closed spec fn view(&self) -> CloudView {
        arbitrary()
    }

    /// Whether the provider fails no request that its firewalls and instances allow: a
    /// request fails only for a resource that the provider does not hold, or that is in no
    /// state for it. A provider that does not say so of itself promises nothing of the kind.
    closed spec fn reliable(&self) -> bool {
        false
    }
}

/// One firewall of a cloud provider. The firewall is a handle: the rules live in the provider.
/// Its requests fail with errors of the provider and no other.
pub trait Firewall<C: CloudStore> {
    /// The identifier of the firewall.
    closed spec fn key(&self) -> Seq<char> {
        arbitrary()
    }

    /// The name of the firewall, as the provider shows it.
    closed spec fn name_view(&self) -> Seq<char> {
        arbitrary()
    }

    fn id(&self) -> (r: &str)
        ensures
            r@ == self.key(),
    ;

    fn name(&self) -> (r: &str)
        ensures
            r@ == self.name_view(),
    ;

    /// Reads the ingress rules of the firewall.
    fn list_ingress_rules(&self, cloud: &C) -> (r: Result<RuleSet, Error>)
        ensures
            r matches Ok(rules) ==> cloud.view().firewalls.contains_key(self.key()) && rules@
                == cloud.view().firewalls[self.key()].rules,
            r matches Err(e) ==> e.is_of_provider(),
            cloud.reliable() && cloud.view().firewalls.contains_key(self.key()) ==> r is Ok,
    ;

    /// Adds `rules` to the firewall. The request is made for at least one rule. A request
    /// that fails may have changed this firewall, and nothing else.
    fn add_ingress_rules(&self, cloud: &mut C, rules: &RuleSet) -> (r: Result<(), Error>)
        requires
            rules@.len() > 0,
        ensures
            r is Ok ==> old(cloud).view().firewalls.contains_key(self.key()) && final(cloud).view()
                == old(cloud).view().with_firewall(
                self.key(),
                old(cloud).view().firewalls[self.key()].after_adding(rules@),
            ),
            r is Err ==> old(cloud).view().same_but_firewall(final(cloud).view(), self.key()),
            r matches Err(e) ==> e.is_of_provider(),
            old(cloud).reliable() && old(cloud).view().firewalls.contains_key(self.key())
                ==> r is Ok,
            final(cloud).reliable() == old(cloud).reliable(),
    ;

    /// Takes `rules` out of the firewall. The request is made for at least one rule. A
    /// request that fails may have changed this firewall, and nothing else.
    fn remove_ingress_rules(&self, cloud: &mut C, rules: &RuleSet) -> (r: Result<(), Error>)
        requires
            rules@.len() > 0,
        ensures
            r is Ok ==> old(cloud).view().firewalls.contains_key(self.key()) && final(cloud).view()
                == old(cloud).view().with_firewall(
                self.key(),
                old(cloud).view().firewalls[self.key()].after_removing(rules@),
            ),
            r is Err ==> old(cloud).view().same_but_firewall(final(cloud).view(), self.key()),
            r matches Err(e) ==> e.is_of_provider(),
            old(cloud).reliable() && old(cloud).view().firewalls.contains_key(self.key())
                ==> r is Ok,
            final(cloud).reliable() == old(cloud).reliable(),
    ;
}

/// One instance of a cloud provider. The instance is a handle: its state lives in the provider.
/// Its requests fail with errors of the provider, with the refusal to change the type of an
/// instance that is not stopped, and with what tells that the instance cannot be brought to
/// run or to a stop.
pub trait Instance<C: CloudStore> {
    /// The identifier of the instance.
    closed spec fn key(&self) -> Seq<char> {
        arbitrary()
    }

    /// The name of the instance, as the provider shows it.
    closed spec fn name_view(&self) -> Seq<char> {
        arbitrary()
    }

    /// The domain name that the instance declares.
    closed spec fn fqdn_view(&self) -> Option<Seq<char>> {
        arbitrary()
    }

    fn id(&self) -> (r: &str)
        ensures
            r@ == self.key(),
    ;

    fn name(&self) -> (r: &str)
        ensures
            r@ == self.name_view(),
    ;

    fn fqdn(&self) -> (r: Option<&str>)
        ensures
            r is Some == self.fqdn_view() is Some,
            r matches Some(s) ==> self.fqdn_view() == Some(s@),
    ;

    /// Gives the instance the type `instance_type`. Nothing changes where it has that type
    /// already; otherwise the type changes, which the instance allows only while stopped.
    /// An instance that refuses because it is not stopped stays as it was; it refuses so
    /// only where it has another type and is not stopped.
    fn try_ensure_instance_type(&self, cloud: &mut C, instance_type: &InstanceType) -> (r: Result<
        (),
        Error,
    >)
        ensures
            r is Ok ==> {
                &&& old(cloud).view().instances.contains_key(self.key())
                &&& old(cloud).view().instances[self.key()].instance_type == instance_type@
                    || old(cloud).view().instances[self.key()].state == InstanceStateCode::Stopped
                &&& final(cloud).view() == old(cloud).view().with_instance_type(
                    self.key(),
                    instance_type@,
                )
            },
            r matches Err(Error::InstanceMustBeStopped) ==> {
                &&& final(cloud).view() == old(cloud).view()
                &&& old(cloud).view().instances.contains_key(self.key())
                &&& old(cloud).view().instances[self.key()].instance_type != instance_type@
                &&& old(cloud).view().instances[self.key()].state != InstanceStateCode::Stopped
            },
            r is Err ==> old(cloud).view().same_but_instance(final(cloud).view(), self.key()),
            r matches Err(e) ==> e is InstanceMustBeStopped || e.is_of_provider(),
            ({
                let held = old(cloud).view().instances[self.key()];
                &&& old(cloud).reliable()
                &&& old(cloud).view().instances.contains_key(self.key())
                &&& held.instance_type == instance_type@ || held.state
                    == InstanceStateCode::Stopped
            }) ==> r is Ok,
            final(cloud).reliable() == old(cloud).reliable(),
    ;

    /// Brings the instance to run, and tells its type and address. An instance that is
    /// going or gone is not brought to run. A failure may have changed this instance, and
    /// nothing else.
    fn ensure_running(&self, cloud: &mut C) -> (r: Result<InstanceRunningState, Error>)
        ensures
            r matches Ok(running) ==> {
                &&& old(cloud).view().instances.contains_key(self.key())
                &&& final(cloud).view() == old(cloud).view().with_state(
                    self.key(),
                    InstanceStateCode::Running,
                )
                &&& running.instance_type@ == old(cloud).view().instances[self.key()].instance_type
                &&& old(cloud).view().instances[self.key()].addr == Some(running.addr@)
                &&& old(cloud).view().instances[self.key()].state.is_lasting()
            },
            r is Err ==> old(cloud).view().same_but_instance(final(cloud).view(), self.key()),
            r matches Err(e) ==> e.is_of_provider() || e.is_of_lifecycle(),
            ({
                let held = old(cloud).view().instances[self.key()];
                &&& old(cloud).reliable()
                &&& old(cloud).view().instances.contains_key(self.key())
                &&& held.state.is_lasting()
                &&& held.addr is Some
            }) ==> r is Ok,
            final(cloud).reliable() == old(cloud).reliable(),
    ;

    /// Brings the instance to a stop. An instance that is going or gone is not brought
    /// to a stop. A failure may have changed this instance, and nothing else.
    fn ensure_stopped(&self, cloud: &mut C) -> (r: Result<(), Error>)
        ensures
            r is Ok ==> {
                &&& old(cloud).view().instances.contains_key(self.key())
                &&& old(cloud).view().instances[self.key()].state.is_lasting()
                &&& final(cloud).view() == old(cloud).view().with_state(
                    self.key(),
                    InstanceStateCode::Stopped,
                )
            },
            r is Err ==> old(cloud).view().same_but_instance(final(cloud).view(), self.key()),
            r matches Err(e) ==> e.is_of_provider() || e.is_of_lifecycle(),
            ({
                &&& old(cloud).reliable()
                &&& old(cloud).view().instances.contains_key(self.key())
                &&& old(cloud).view().instances[self.key()].state.is_lasting()
            }) ==> r is Ok,
            final(cloud).reliable() == old(cloud).reliable(),
    ;
}

/// Whether `firewalls` is what a lookup by `names` finds in `view`: handles of the
/// firewalls that bear one of the names, none left out.
pub open spec fn firewalls_listed<C: CloudStore, F: Firewall<C>>(
    view: CloudView,
    names: Set<Seq<char>>,
    firewalls: Seq<F>,
) -> bool {
    &&& forall|i: int|
        0 <= i < firewalls.len() ==> view.firewalls_named(names).contains(
            (#[trigger] firewalls[i]).key(),
        )
    &&& forall|id: Seq<char>| #[trigger]
        view.firewalls_named(names).contains(id) ==> exists|i: int|
            0 <= i < firewalls.len() && (#[trigger] firewalls[i]).key() == id
}

/// Whether `instances` is what a lookup by `names` finds in `view`: handles of the
/// instances that bear one of the names, each with the domain name that the instance
/// declares, none left out.
pub open spec fn instances_listed<C: CloudStore, I: Instance<C>>(
    view: CloudView,
    names: Set<Seq<char>>,
    instances: Seq<I>,
) -> bool {
    &&& forall|i: int|
        0 <= i < instances.len() ==> view.instances_named(names).contains(
            (#[trigger] instances[i]).key(),
        ) && view.instances[instances[i].key()].fqdn == instances[i].fqdn_view()
    &&& forall|id: Seq<char>| #[trigger]
        view.instances_named(names).contains(id) ==> exists|i: int|
            0 <= i < instances.len() && (#[trigger] instances[i]).key() == id
}

/// The identifiers of the handles, in their order.
pub open spec fn firewall_ids<C: CloudStore, F: Firewall<C>>(firewalls: Seq<F>) -> Seq<Seq<char>> {
    Seq::new(firewalls.len(), |i: int| firewalls[i].key())
}

/// The identifiers of the handles, in their order.
pub open spec fn instance_ids<C: CloudStore, I: Instance<C>>(instances: Seq<I>) -> Seq<Seq<char>> {
    Seq::new(instances.len(), |i: int| instances[i].key())
}

/// Whether the firewall `id` of `view` bears one of `names`.
pub open spec fn firewall_named(view: CloudView, names: Set<Seq<char>>) -> spec_fn(
    Seq<char>,
) -> bool {
    |id: Seq<char>| names.contains(view.firewalls[id].name)
}

/// Whether the instance `id` of `view` bears one of `names`.
pub open spec fn instance_named(view: CloudView, names: Set<Seq<char>>) -> spec_fn(
    Seq<char>,
) -> bool {
    |id: Seq<char>| names.contains(view.instances[id].name)
}

/// A cloud provider. Its lookups fail with errors of the provider and no other.
pub trait Cloud: CloudStore + Sized {
    type Firewall: Firewall<Self>;

    type Instance: Instance<Self>;

    /// Looks up the firewalls that bear one of `names`.
    fn list_firewalls(&self, names: &Vec<String>) -> (r: Result<Vec<Self::Firewall>, Error>)
        ensures
            r matches Ok(firewalls) ==> firewalls_listed(
                self.view(),
                name_set(names@),
                firewalls@,
            ),
            r matches Err(e) ==> e.is_of_provider(),
            self.reliable() ==> r is Ok,
    ;

    /// Looks up the instances that bear one of `names`.
    fn list_instances(&self, names: &Vec<String>) -> (r: Result<Vec<Self::Instance>, Error>)
        ensures
            r matches Ok(instances) ==> instances_listed(
                self.view(),
                name_set(names@),
                instances@,
            ),
            r matches Err(e) ==> e.is_of_provider(),
            self.reliable() ==> r is Ok,
    ;
}

} // verus!
