//! Sets of ingress rules.

use crate::iprules::IpIngressRule;
use crate::iprules::IpProtocol;
use crate::net::IpNet;
use vstd::prelude::*;
use vstd::set_lib::lemma_subset_equality;

verus! {

/// A finite set of ingress rules: no rule occurs twice, and the order in which the rules
/// are held means nothing.
#[derive(Debug)]
pub struct RuleSet {
    rules: Vec<IpIngressRule>,
}

impl View for RuleSet {
    type V = Set<IpIngressRule>;

    closed spec fn view(&self) -> Set<IpIngressRule> {
        self.rules@.to_set()
    }
}

/// The rules that allow each of the protocols from each of the networks.
pub open spec fn cross_product(cidrs: Seq<IpNet>, protocols: Seq<IpProtocol>) -> Set<
    IpIngressRule,
> {
    Set::new(|rule: IpIngressRule| cidrs.contains(rule.0) && protocols.contains(rule.1))
}

/// The first `n` rules of `rules`, as a set.
pub open spec fn first_rules(rules: Seq<IpIngressRule>, n: int) -> Set<IpIngressRule> {
    rules.take(n).to_set()
}

/// Taking one more rule of a sequence adds that rule to the set.
pub proof fn lemma_first_rules_step(rules: Seq<IpIngressRule>, n: int)
    requires
        0 <= n < rules.len(),
    ensures
        first_rules(rules, n + 1) == first_rules(rules, n).insert(rules[n]),
        first_rules(rules, 0) == Set::<IpIngressRule>::empty(),
{
    assert(rules.take(n + 1) =~= rules.take(n).push(rules[n]));
    rules.take(n).lemma_push_to_set_commute(rules[n]);
}

/// All the rules of a sequence, taken as the first `len` of them.
pub proof fn lemma_first_rules_all(rules: Seq<IpIngressRule>)
    ensures
        first_rules(rules, rules.len() as int) == rules.to_set(),
        first_rules(rules, 0) == Set::<IpIngressRule>::empty(),
{
    assert(rules.take(rules.len() as int) =~= rules);
}

/// With no network, or with no protocol, there is no rule.
pub proof fn lemma_cross_product_empty(cidrs: Seq<IpNet>, protocols: Seq<IpProtocol>)
    requires
        cidrs.len() == 0 || protocols.len() == 0,
    ensures
        cross_product(cidrs, protocols) == Set::<IpIngressRule>::empty(),
{
}

/// One more protocol for a single network adds one rule.
pub proof fn lemma_cross_product_protocol(
    cidr: IpNet,
    protocols: Seq<IpProtocol>,
    protocol: IpProtocol,
)
    ensures
        cross_product(seq![cidr], protocols.push(protocol)) == cross_product(
            seq![cidr],
            protocols,
        ).insert(IpIngressRule(cidr, protocol)),
{
    let small = cross_product(seq![cidr], protocols);
    let large = cross_product(seq![cidr], protocols.push(protocol));
    assert(seq![cidr][0] == cidr);
    assert forall|rule: IpIngressRule| large.contains(rule) <==> small.insert(
        IpIngressRule(cidr, protocol),
    ).contains(rule) by {
        lemma_contains_push(protocols, protocol, rule.1);
    }
}

/// One more network adds the rules of that network.
pub proof fn lemma_cross_product_cidr(cidrs: Seq<IpNet>, cidr: IpNet, protocols: Seq<IpProtocol>)
    ensures
        cross_product(cidrs.push(cidr), protocols) == cross_product(cidrs, protocols).union(
            cross_product(seq![cidr], protocols),
        ),
{
    let joined = cross_product(cidrs, protocols).union(cross_product(seq![cidr], protocols));
    let large = cross_product(cidrs.push(cidr), protocols);
    assert(seq![cidr][0] == cidr);
    assert forall|rule: IpIngressRule| large.contains(rule) <==> joined.contains(rule) by {
        lemma_contains_push(cidrs, cidr, rule.0);
    }
}

/// A sequence with one more item holds what it held before, and that item.
pub proof fn lemma_contains_push<T>(s: Seq<T>, last: T, x: T)
    ensures
        s.push(last).contains(x) <==> s.contains(x) || x == last,
{
    if s.push(last).contains(x) {
        let k = choose|k: int| 0 <= k < s.push(last).len() && s.push(last)[k] == x;
        assert(k < s.len() ==> s[k] == x);
    }
    if s.contains(x) {
        let k = choose|k: int| 0 <= k < s.len() && s[k] == x;
        assert(s.push(last)[k] == x);
    }
    if x == last {
        assert(s.push(last)[s.len() as int] == x);
    }
}

impl RuleSet {
    #[verifier::type_invariant]
    spec fn no_rule_twice(self) -> bool {
        self.rules@.no_duplicates()
    }

    /// The rules in the order in which they are held.
    pub closed spec fn spec_rules(&self) -> Seq<IpIngressRule> {
        self.rules@
    }

    /// The set is finite, and holds what the sequence of its rules holds, each once.
    pub proof fn lemma_view(&self)
        ensures
            self@.finite(),
            self@ == self.spec_rules().to_set(),
    {
    }

    /// The empty set.
    pub fn new() -> (r: RuleSet)
        ensures
            r@ == Set::<IpIngressRule>::empty(),
    {
        RuleSet { rules: Vec::new() }
    }

    /// The number of rules.
    pub fn len(&self) -> (n: usize)
        ensures
            n == self@.len(),
            self@.finite(),
    {
        proof {
            use_type_invariant(self);
            self.rules@.unique_seq_to_set();
        }
        self.rules.len()
    }

    /// Whether the set holds no rule.
    pub fn is_empty(&self) -> (b: bool)
        ensures
            b == (self@ == Set::<IpIngressRule>::empty()),
            b == (self@.len() == 0),
            self@.finite(),
    {
        proof {
            if self.rules@.len() > 0 {
                assert(self.rules@.to_set().contains(self.rules@[0]));
            } else {
                assert(self@ =~= Set::<IpIngressRule>::empty());
            }
        }
        self.rules.len() == 0
    }

    /// The rules, each once, in the order in which they are held.
    pub fn rules(&self) -> (r: &Vec<IpIngressRule>)
        ensures
            r@ == self.spec_rules(),
            r@.to_set() == self@,
            r@.no_duplicates(),
            r@.len() == self@.len(),
    {
        proof {
            use_type_invariant(self);
            self.rules@.unique_seq_to_set();
        }
        &self.rules
    }

    /// Whether `rule` is in the set.
    pub fn contains(&self, rule: &IpIngressRule) -> (b: bool)
        ensures
            b == self@.contains(*rule),
    {
        let mut i: usize = 0;
        while i < self.rules.len()
            invariant
                i <= self.rules.len(),
                forall|j: int| 0 <= j < i ==> self.rules@[j] != *rule,
            decreases self.rules.len() - i,
        {
            if self.rules[i] == *rule {
                return true;
            }
            i = i + 1;
        }
        false
    }

    /// Adds `rule`; tells whether it was new.
    pub fn insert(&mut self, rule: IpIngressRule) -> (added: bool)
        ensures
            final(self)@ == old(self)@.insert(rule),
            added == !old(self)@.contains(rule),
    {
        proof {
            use_type_invariant(&*self);
        }
        if self.contains(&rule) {
            false
        } else {
            let ghost before = self.rules@;
            let mut taken = RuleSet { rules: Vec::new() };
            core::mem::swap(self, &mut taken);
            let RuleSet { rules: mut held } = taken;
            held.push(rule);
            proof {
                before.lemma_push_to_set_commute(rule);
            }
            *self = RuleSet { rules: held };
            true
        }
    }

    /// Takes `rule` out; tells whether it was there.
    pub fn remove(&mut self, rule: &IpIngressRule) -> (removed: bool)
        ensures
            final(self)@ == old(self)@.remove(*rule),
            removed == old(self)@.contains(*rule),
    {
        proof {
            use_type_invariant(&*self);
        }
        let ghost before = self.rules@;
        let mut kept: Vec<IpIngressRule> = Vec::new();
        let mut found = false;
        let mut i: usize = 0;
        while i < self.rules.len()
            invariant
                i <= self.rules.len(),
                self.rules@ == before,
                before.no_duplicates(),
                kept@.no_duplicates(),
                kept@.to_set() == first_rules(before, i as int).remove(*rule),
                found == first_rules(before, i as int).contains(*rule),
            decreases self.rules.len() - i,
        {
            let current = self.rules[i];
            proof {
                lemma_first_rules_step(before, i as int);
                kept@.lemma_push_to_set_commute(current);
            }
            if current == *rule {
                found = true;
            } else {
                let ghost held = kept@;
                kept.push(current);
                proof {
                    assert(!held.to_set().contains(current)) by {
                        if first_rules(before, i as int).contains(current) {
                            let k = choose|k: int|
                                0 <= k < before.take(i as int).len() && before.take(i as int)[k]
                                    == current;
                        }
                    }
                }
            }
            i = i + 1;
        }
        proof {
            lemma_first_rules_all(before);
        }
        *self = RuleSet { rules: kept };
        found
    }

    /// The rules of `self` that are not in `other`.
    pub fn difference(&self, other: &RuleSet) -> (r: RuleSet)
        ensures
            r@ == self@.difference(other@),
    {
        let mut out = RuleSet::new();
        let mut i: usize = 0;
        while i < self.rules.len()
            invariant
                i <= self.rules.len(),
                out@ == first_rules(self.rules@, i as int).difference(other@),
            decreases self.rules.len() - i,
        {
            let current = self.rules[i];
            proof {
                lemma_first_rules_step(self.rules@, i as int);
            }
            if !other.contains(&current) {
                out.insert(current);
            }
            i = i + 1;
        }
        proof {
            lemma_first_rules_all(self.rules@);
        }
        out
    }

    /// The set of the rules in `rules`; a rule that occurs twice is held once.
    pub fn from_vec(rules: &Vec<IpIngressRule>) -> (r: RuleSet)
        ensures
            r@ == rules@.to_set(),
    {
        let mut out = RuleSet::new();
        let mut i: usize = 0;
        while i < rules.len()
            invariant
                i <= rules.len(),
                out@ == first_rules(rules@, i as int),
            decreases rules.len() - i,
        {
            proof {
                lemma_first_rules_step(rules@, i as int);
            }
            out.insert(rules[i]);
            i = i + 1;
        }
        proof {
            lemma_first_rules_all(rules@);
        }
        out
    }

    /// The rules of the set, each once.
    pub fn to_vec(&self) -> (v: Vec<IpIngressRule>)
        ensures
            v@ == self.spec_rules(),
            v@.to_set() == self@,
            v@.no_duplicates(),
    {
        proof {
            use_type_invariant(self);
        }
        let mut out: Vec<IpIngressRule> = Vec::new();
        let mut i: usize = 0;
        while i < self.rules.len()
            invariant
                i <= self.rules.len(),
                out@ == self.rules@.take(i as int),
            decreases self.rules.len() - i,
        {
            out.push(self.rules[i]);
            i = i + 1;
        }
        assert(out@ =~= self.rules@);
        out
    }

    /// A copy of the set.
    pub fn duplicate(&self) -> (r: RuleSet)
        ensures
            r@ == self@,
    {
        RuleSet { rules: self.to_vec() }
    }

    /// The rules of `self` together with the rules of `other`.
    pub fn union(&self, other: &RuleSet) -> (r: RuleSet)
        ensures
            r@ == self@.union(other@),
    {
        let mut out = self.duplicate();
        let mut i: usize = 0;
        while i < other.rules.len()
            invariant
                i <= other.rules.len(),
                out@ == self@.union(first_rules(other.rules@, i as int)),
            decreases other.rules.len() - i,
        {
            proof {
                lemma_first_rules_step(other.rules@, i as int);
            }
            out.insert(other.rules[i]);
            i = i + 1;
        }
        proof {
            lemma_first_rules_all(other.rules@);
        }
        out
    }

    /// Every rule that allows one of `protocols` from one of `cidrs`.
    pub fn cross(cidrs: &Vec<IpNet>, protocols: &Vec<IpProtocol>) -> (r: RuleSet)
        ensures
            r@ == cross_product(cidrs@, protocols@),
    {
        let mut out = RuleSet::new();
        let mut i: usize = 0;
        while i < cidrs.len()
            invariant
                i <= cidrs.len(),
                out@ == cross_product(cidrs@.take(i as int), protocols@),
            decreases cidrs.len() - i,
        {
            let cidr = cidrs[i];
            let ghost outer = out@;
            let mut j: usize = 0;
            while j < protocols.len()
                invariant
                    j <= protocols.len(),
                    out@ == outer.union(cross_product(seq![cidr], protocols@.take(j as int))),
                decreases protocols.len() - j,
            {
                let protocol = protocols[j];
                out.insert(IpIngressRule(cidr, protocol));
                proof {
                    assert(protocols@.take(j + 1) =~= protocols@.take(j as int).push(protocol));
                    lemma_cross_product_protocol(cidr, protocols@.take(j as int), protocol);
                }
                j = j + 1;
            }
            proof {
                assert(protocols@.take(protocols.len() as int) =~= protocols@);
                assert(cidrs@.take(i + 1) =~= cidrs@.take(i as int).push(cidr));
                lemma_cross_product_cidr(cidrs@.take(i as int), cidr, protocols@);
            }
            i = i + 1;
        }
        assert(cidrs@.take(cidrs.len() as int) =~= cidrs@);
        out
    }

    /// Whether every rule of `self` is in `other`.
    pub fn is_subset_of(&self, other: &RuleSet) -> (b: bool)
        ensures
            b == self@.subset_of(other@),
    {
        let mut i: usize = 0;
        while i < self.rules.len()
            invariant
                i <= self.rules.len(),
                forall|j: int| 0 <= j < i ==> other@.contains(self.rules@[j]),
            decreases self.rules.len() - i,
        {
            if !other.contains(&self.rules[i]) {
                return false;
            }
            i = i + 1;
        }
        true
    }

    /// Whether the two sets hold the same rules.
    pub fn same_rules(&self, other: &RuleSet) -> (b: bool)
        ensures
            b == (self@ == other@),
    {
        let n = self.len();
        let m = other.len();
        if n != m {
            return false;
        }
        let sub = self.is_subset_of(other);
        proof {
            if sub {
                lemma_subset_equality(self@, other@);
            }
        }
        sub
    }
}

impl Clone for RuleSet {
    fn clone(&self) -> (r: RuleSet)
        ensures
            r@ == self@,
    {
        self.duplicate()
    }
}

impl PartialEq for RuleSet {
    fn eq(&self, other: &RuleSet) -> (b: bool) {
        self.same_rules(other)
    }
}

impl Eq for RuleSet {

}

impl vstd::std_specs::cmp::PartialEqSpecImpl for RuleSet {
    open spec fn obeys_eq_spec() -> bool {
        true
    }

    open spec fn eq_spec(&self, other: &RuleSet) -> bool {
        self@ == other@
    }
}

} // verus!
