use ip_updater::address::Address;
use ip_updater::error::Error;
use ip_updater::records::{
    a_record_addresses, change_request, names_match, ChangeAction, RecordSet, RECORD_TTL,
};

fn set(name: &str, kind: &str, values: Option<Vec<&str>>) -> RecordSet {
    RecordSet {
        name: name.to_string(),
        record_type: kind.to_string(),
        values: values.map(|vs| vs.into_iter().map(|v| v.to_string()).collect()),
    }
}

#[test]
fn collects_a_records_of_the_name() {
    let sets = vec![
        set("a.example.com.", "A", Some(vec!["203.0.113.7", "203.0.113.8"])),
        set("a.example.com.", "TXT", Some(vec!["hello"])),
        set("b.example.com.", "A", Some(vec!["198.51.100.1"])),
        set("a.example.com", "A", None),
    ];
    assert_eq!(
        a_record_addresses(&sets, "a.example.com").ok(),
        Some(vec![Address(203, 0, 113, 7), Address(203, 0, 113, 8)])
    );
    assert_eq!(
        a_record_addresses(&sets, "b.example.com.").ok(),
        Some(vec![Address(198, 51, 100, 1)])
    );
    assert_eq!(a_record_addresses(&sets, "c.example.com").ok(), Some(vec![]));
}

#[test]
fn malformed_published_value_is_a_parse_error() {
    let sets = vec![set("a.example.com.", "A", Some(vec!["203.0.113.7", "not-an-ip"]))];
    assert_eq!(a_record_addresses(&sets, "a.example.com").err(), Some(Error::Parse));
}

#[test]
fn names_match_ignoring_final_dot() {
    assert!(names_match("a.example.com.", "a.example.com"));
    assert!(names_match("a.example.com", "a.example.com"));
    assert!(!names_match("a.example.com", "b.example.com"));
    assert!(!names_match("a.example.com..", "a.example.com"));
}

#[test]
fn change_request_fields() {
    let r = change_request(
        &"Z1".to_string(),
        &"a.example.com".to_string(),
        Address(203, 0, 113, 9),
        ChangeAction::Create,
    );
    assert_eq!(r.hosted_zone_id, "Z1");
    assert_eq!(r.name, "a.example.com");
    assert_eq!(r.action, ChangeAction::Create);
    assert_eq!(r.record_type, "A");
    assert_eq!(r.ttl, 60);
    assert_eq!(RECORD_TTL, 60);
    assert_eq!(r.value, "203.0.113.9");
    assert_eq!(r.action.to_text(), "CREATE");
    assert_eq!(ChangeAction::Delete.to_text(), "DELETE");
}
