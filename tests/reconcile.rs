use ip_updater::address::Address;
use ip_updater::config::parse_config;
use ip_updater::error::Error;
use ip_updater::records::{ChangeAction, ChangeRequest, RecordSet};
use ip_updater::reconcile::{Action, Outcome, Phase, Reconciler};

/// An in-memory hosted-zone provider that logs every call made to it.
struct FakeProvider {
    records: Vec<(String, String, Vec<String>)>,
    fail_list: bool,
    fail_delete: bool,
    fail_create: bool,
    log: Vec<String>,
}

impl FakeProvider {
    fn new(records: Vec<(&str, &str, Vec<&str>)>) -> FakeProvider {
        FakeProvider {
            records: records
                .into_iter()
                .map(|(z, n, vs)| {
                    (z.to_string(), n.to_string(), vs.into_iter().map(|v| v.to_string()).collect())
                })
                .collect(),
            fail_list: false,
            fail_delete: false,
            fail_create: false,
            log: vec![],
        }
    }

    fn list(&self, zone: &str) -> Result<Vec<RecordSet>, Error> {
        if self.fail_list {
            return Err(Error::Provider);
        }
        Ok(self
            .records
            .iter()
            .filter(|(z, _, _)| z == zone)
            .map(|(_, n, vs)| RecordSet {
                name: format!("{}.", n),
                record_type: "A".to_string(),
                values: Some(vs.clone()),
            })
            .collect())
    }

    fn published(&self, zone: &str, name: &str) -> Vec<String> {
        self.records
            .iter()
            .filter(|(z, n, _)| z == zone && n == name)
            .flat_map(|(_, _, vs)| vs.clone())
            .collect()
    }

    fn apply(&mut self, req: &ChangeRequest) -> bool {
        self.log.push(format!("{} {}", req.action.to_text(), req.value));
        match req.action {
            ChangeAction::Delete => {
                if self.fail_delete {
                    return false;
                }
                for (z, n, vs) in self.records.iter_mut() {
                    if *z == req.hosted_zone_id && *n == req.name {
                        if let Some(i) = vs.iter().position(|v| *v == req.value) {
                            vs.remove(i);
                            return true;
                        }
                    }
                }
                false
            }
            ChangeAction::Create => {
                if self.fail_create {
                    return false;
                }
                for (z, n, vs) in self.records.iter_mut() {
                    if *z == req.hosted_zone_id && *n == req.name {
                        vs.push(req.value.clone());
                        return true;
                    }
                }
                self.records.push((req.hosted_zone_id.clone(), req.name.clone(), vec![req.value.clone()]));
                true
            }
        }
    }
}

fn run(config: &str, address: Address, provider: &mut FakeProvider) -> Reconciler {
    let mut r = Reconciler::new(parse_config(config).ok().unwrap(), address);
    loop {
        match r.next_action() {
            Action::List { hosted_zone_id, domain_name } => {
                provider.log.push(format!("LIST {} {}", hosted_zone_id, domain_name));
                let listed = provider.list(&hosted_zone_id);
                r.on_listed(listed);
            }
            Action::Change(req) => {
                let ok = provider.apply(&req);
                r.on_changed(ok);
            }
            Action::Stop => break,
        }
    }
    r
}

#[test]
fn scenario_a_up_to_date() {
    let mut p = FakeProvider::new(vec![("Z1", "a.example.com", vec!["203.0.113.7"])]);
    let r = run("Z1/a.example.com", Address(203, 0, 113, 7), &mut p);
    assert_eq!(r.outcomes(), &vec![Outcome::UpToDate]);
    assert_eq!(p.log, vec!["LIST Z1 a.example.com"]);
    assert!(r.succeeded());
}

#[test]
fn scenario_b_updated() {
    let mut p = FakeProvider::new(vec![("Z1", "a.example.com", vec!["203.0.113.7"])]);
    let r = run("Z1/a.example.com", Address(203, 0, 113, 9), &mut p);
    assert_eq!(r.outcomes(), &vec![Outcome::Updated]);
    assert_eq!(p.log, vec!["LIST Z1 a.example.com", "DELETE 203.0.113.7", "CREATE 203.0.113.9"]);
    assert_eq!(p.published("Z1", "a.example.com"), vec!["203.0.113.9"]);
    assert_eq!(r.config().domains[0].ip_addresses, vec![Address(203, 0, 113, 7)]);
    assert!(r.succeeded());
}

#[test]
fn scenario_c_first_listing_fails() {
    let mut p = FakeProvider::new(vec![
        ("Z1", "a.example.com", vec!["203.0.113.7"]),
        ("Z2", "b.example.com", vec!["203.0.113.7"]),
    ]);
    p.fail_list = true;
    let r = run("Z1/a.example.com,Z2/b.example.com", Address(203, 0, 113, 9), &mut p);
    assert_eq!(r.outcomes(), &vec![Outcome::Failed(Error::Provider)]);
    assert_eq!(p.log, vec!["LIST Z1 a.example.com"]);
    assert!(r.is_finished());
    assert!(!r.succeeded());
}

#[test]
fn empty_record_set_is_created_without_delete() {
    let mut p = FakeProvider::new(vec![("Z1", "a.example.com", vec![])]);
    let r = run("Z1/a.example.com", Address(203, 0, 113, 9), &mut p);
    assert_eq!(r.outcomes(), &vec![Outcome::Updated]);
    assert_eq!(p.log, vec!["LIST Z1 a.example.com", "CREATE 203.0.113.9"]);
    assert!(r.succeeded());
}

#[test]
fn failed_delete_skips_create() {
    let mut p = FakeProvider::new(vec![("Z1", "a.example.com", vec!["203.0.113.7"])]);
    p.fail_delete = true;
    let r = run("Z1/a.example.com", Address(203, 0, 113, 9), &mut p);
    assert_eq!(r.outcomes(), &vec![Outcome::Failed(Error::Provider)]);
    assert_eq!(p.log, vec!["LIST Z1 a.example.com", "DELETE 203.0.113.7"]);
    assert!(!r.succeeded());
}

#[test]
fn failed_create_leaves_no_record() {
    let mut p = FakeProvider::new(vec![("Z1", "a.example.com", vec!["203.0.113.7"])]);
    p.fail_create = true;
    let r = run("Z1/a.example.com", Address(203, 0, 113, 9), &mut p);
    assert_eq!(r.outcomes(), &vec![Outcome::Failed(Error::Provider)]);
    assert_eq!(
        p.log,
        vec!["LIST Z1 a.example.com", "DELETE 203.0.113.7", "CREATE 203.0.113.9"]
    );
    assert!(p.published("Z1", "a.example.com").is_empty());
    assert!(!r.succeeded());
}

#[test]
fn several_records_replace_only_the_first() {
    let mut p =
        FakeProvider::new(vec![("Z1", "a.example.com", vec!["203.0.113.7", "203.0.113.8"])]);
    let r = run("Z1/a.example.com", Address(203, 0, 113, 9), &mut p);
    assert_eq!(r.outcomes(), &vec![Outcome::Updated]);
    assert_eq!(p.published("Z1", "a.example.com"), vec!["203.0.113.8", "203.0.113.9"]);
}

#[test]
fn malformed_published_value_fails_the_domain() {
    let mut p = FakeProvider::new(vec![("Z1", "a.example.com", vec!["bogus"])]);
    let r = run("Z1/a.example.com,Z1/b.example.com", Address(203, 0, 113, 9), &mut p);
    assert_eq!(r.outcomes(), &vec![Outcome::Failed(Error::Parse)]);
    assert_eq!(p.log, vec!["LIST Z1 a.example.com"]);
}

#[test]
fn empty_configuration_has_nothing_to_do() {
    let r = Reconciler::new(ip_updater::config::Config { domains: vec![] }, Address(1, 2, 3, 4));
    assert!(matches!(r.next_action(), Action::Stop));
    assert!(r.outcomes().is_empty());
    assert!(r.succeeded());
}

#[test]
fn domains_are_reconciled_in_order() {
    let mut p = FakeProvider::new(vec![
        ("Z1", "a.example.com", vec!["203.0.113.9"]),
        ("Z2", "b.example.com", vec!["203.0.113.7"]),
    ]);
    let r = run("Z1/a.example.com,Z2/b.example.com", Address(203, 0, 113, 9), &mut p);
    assert_eq!(r.outcomes(), &vec![Outcome::UpToDate, Outcome::Updated]);
    assert_eq!(
        p.log,
        vec!["LIST Z1 a.example.com", "LIST Z2 b.example.com", "DELETE 203.0.113.7", "CREATE 203.0.113.9"]
    );
    assert_eq!(r.phase(), Phase::Finished);
    assert!(r.succeeded());
}
