use drawbridge::cloud::CloudStore;
use drawbridge::cloud::Firewall;
use drawbridge::dispatch::sync_firewall_rules;
use drawbridge::error::Error;
use drawbridge::iprules::IpIngressRule;
use drawbridge::ruleset::RuleSet;

/// A provider with one firewall that keeps count of what is asked of it.
struct Counting {
    rules: RuleSet,
    add_requests: Vec<usize>,
    remove_requests: Vec<usize>,
    log: Vec<&'static str>,
    fail_on: Option<&'static str>,
}

struct Handle;

impl Counting {
    fn with(rules: &[IpIngressRule]) -> Counting {
        Counting {
            rules: RuleSet::from_vec(&rules.to_vec()),
            add_requests: vec![],
            remove_requests: vec![],
            log: vec![],
            fail_on: None,
        }
    }
}

impl CloudStore for Counting {}

impl Firewall<Counting> for Handle {
    fn id(&self) -> &str {
        "fw-1"
    }
    fn name(&self) -> &str {
        "fw"
    }
    fn list_ingress_rules(&self, cloud: &Counting) -> Result<RuleSet, Error> {
        if cloud.fail_on == Some("list") {
            return Err(Error::Provider { message: "list failed".to_owned() });
        }
        Ok(cloud.rules.clone())
    }
    fn add_ingress_rules(&self, cloud: &mut Counting, rules: &RuleSet) -> Result<(), Error> {
        cloud.log.push("add");
        if cloud.fail_on == Some("add") {
            return Err(Error::Provider { message: "add failed".to_owned() });
        }
        assert!(!rules.is_empty(), "asked to add no rule");
        cloud.add_requests.push(rules.len());
        cloud.rules = cloud.rules.union(rules);
        Ok(())
    }
    fn remove_ingress_rules(&self, cloud: &mut Counting, rules: &RuleSet) -> Result<(), Error> {
        cloud.log.push("remove");
        if cloud.fail_on == Some("remove") {
            return Err(Error::Provider { message: "remove failed".to_owned() });
        }
        assert!(!rules.is_empty(), "asked to remove no rule");
        cloud.remove_requests.push(rules.len());
        cloud.rules = cloud.rules.difference(rules);
        Ok(())
    }
}

fn rule(cidr: &str, protocol: &str) -> IpIngressRule {
    IpIngressRule(cidr.parse().unwrap(), protocol.parse().unwrap())
}

fn pool() -> Vec<IpIngressRule> {
    vec![
        rule("1.1.0.0/16", "22/tcp"),
        rule("9.9.9.9/32", "80/tcp"),
        rule("fd00::/8", "443/tcp"),
        rule("10.0.0.0/8", "60000-61000/udp"),
    ]
}

fn subset(mask: usize) -> Vec<IpIngressRule> {
    pool()
        .into_iter()
        .enumerate()
        .filter(|(i, _)| mask & (1 << i) != 0)
        .map(|(_, r)| r)
        .collect()
}

#[test]
fn reconciling_asks_for_the_differences_and_no_more() {
    for existing in 0..16usize {
        for desired in 0..16usize {
            let mut cloud = Counting::with(&subset(existing));
            let want = RuleSet::from_vec(&subset(desired));
            sync_firewall_rules(&Handle, &mut cloud, &want).unwrap();
            assert_eq!(cloud.rules, want);
            let missing = (desired & !existing).count_ones() as usize;
            let extra = (existing & !desired).count_ones() as usize;
            // one request for all that is missing, one for all that is extra, none for nothing
            assert_eq!(cloud.add_requests, if missing > 0 { vec![missing] } else { vec![] });
            assert_eq!(cloud.remove_requests, if extra > 0 { vec![extra] } else { vec![] });
            // what is missing is added before what is extra is taken out
            let mut order = vec![];
            if missing > 0 {
                order.push("add");
            }
            if extra > 0 {
                order.push("remove");
            }
            assert_eq!(cloud.log, order);

            // a second run finds nothing to do
            sync_firewall_rules(&Handle, &mut cloud, &want).unwrap();
            assert_eq!(cloud.rules, want);
            assert_eq!(cloud.log, order);
        }
    }
}

#[test]
fn a_failed_request_ends_the_reconciliation() {
    let want = RuleSet::from_vec(&subset(0b0011));
    for step in ["list", "add", "remove"] {
        let mut cloud = Counting::with(&subset(0b0110));
        cloud.fail_on = Some(step);
        let err = sync_firewall_rules(&Handle, &mut cloud, &want).unwrap_err();
        assert_eq!(err.message(), format!("{} failed", step));
        match step {
            "list" => assert!(cloud.log.is_empty()),
            "add" => assert_eq!(cloud.log, vec!["add"]),
            _ => assert_eq!(cloud.log, vec!["add", "remove"]),
        }
    }
}
