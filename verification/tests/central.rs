use fluxvm::central::{
    create_vm, delete_vm, list_nodes, list_targets, list_url, list_vms, pick_least_loaded,
    unanswered, vm_created, vm_deleted, Fleet, NodeAnswer, NodeInfo, RegisterRequest, Timestamp,
    FIRST_SECOND, HEALTHY_WINDOW_SECS, LAST_SECOND,
};
use serde_json::Value;

const NOW: i64 = 1_760_000_000;

fn now() -> Timestamp {
    Timestamp::new(NOW, 0).unwrap()
}

fn node(fleet: &mut Fleet, name: &str, vm_count: usize, age_secs: i64) {
    let req = RegisterRequest {
        name: name.into(),
        fluxvm_url: format!("http://{name}"),
        vcpus_total: 4,
        memory_mib_total: 8192,
        vm_count,
    };
    fleet.register(req, Timestamp::new(NOW - age_secs, 0).unwrap());
}

fn json(text: &str) -> Value {
    serde_json::from_str(text).unwrap()
}

#[test]
fn picks_the_healthy_node_with_the_fewest_vms() {
    let mut nodes = Fleet::new();
    node(&mut nodes, "a", 3, 0);
    node(&mut nodes, "b", 1, 0);
    node(&mut nodes, "c", 2, 0);
    let picked = pick_least_loaded(&nodes, now()).unwrap();
    assert_eq!(picked.name, "b");
}

#[test]
fn skips_stale_nodes_even_if_they_have_the_fewest_vms() {
    let mut nodes = Fleet::new();
    node(&mut nodes, "stale", 0, HEALTHY_WINDOW_SECS + 5);
    node(&mut nodes, "fresh", 5, 0);
    let picked = pick_least_loaded(&nodes, now()).unwrap();
    assert_eq!(picked.name, "fresh");
}

#[test]
fn returns_none_when_no_node_is_healthy() {
    let mut nodes = Fleet::new();
    node(&mut nodes, "stale", 0, HEALTHY_WINDOW_SECS + 5);
    assert!(pick_least_loaded(&nodes, now()).is_none());
}

#[test]
fn ties_break_by_name_for_determinism() {
    let mut nodes = Fleet::new();
    node(&mut nodes, "z", 1, 0);
    node(&mut nodes, "a", 1, 0);
    let picked = pick_least_loaded(&nodes, now()).unwrap();
    assert_eq!(picked.name, "a");
}

#[test]
fn the_choice_ignores_the_order_of_registration() {
    let mut one = Fleet::new();
    let mut other = Fleet::new();
    for name in ["c", "a", "b"] {
        node(&mut one, name, 2, 1);
    }
    for name in ["b", "c", "a"] {
        node(&mut other, name, 2, 1);
    }
    assert_eq!(pick_least_loaded(&one, now()).unwrap().name, "a");
    assert_eq!(pick_least_loaded(&other, now()).unwrap().name, "a");
}

#[test]
fn a_node_is_healthy_until_its_heartbeat_is_older_than_thirty_seconds() {
    let seen = |secs: i64, nanos: u32| NodeInfo {
        name: "n".into(),
        fluxvm_url: "u".into(),
        vcpus_total: 1,
        memory_mib_total: 1,
        vm_count: 0,
        last_seen: Timestamp::new(secs, nanos).unwrap(),
    };
    assert!(seen(NOW - 29, 0).healthy(now()));
    assert!(seen(NOW - 30, 1).healthy(now()));
    assert!(seen(NOW - 30, 0).healthy(now()));
    assert!(!seen(NOW - 31, 0).healthy(now()));
    assert!(!seen(NOW - 31, 999_999_999).healthy(now()));
    assert!(seen(NOW + 3600, 0).healthy(now()));
    assert!(seen(LAST_SECOND, 999_999_999).healthy(Timestamp::new(FIRST_SECOND, 0).unwrap()));
    assert!(!seen(FIRST_SECOND, 0).healthy(Timestamp::new(LAST_SECOND, 999_999_999).unwrap()));
}

#[test]
fn points_in_time_are_those_of_chrono() {
    for (secs, nanos) in [
        (0, 0),
        (FIRST_SECOND, 0),
        (FIRST_SECOND - 1, 0),
        (LAST_SECOND, 999_999_999),
        (LAST_SECOND + 1, 0),
        (i64::MIN, 0),
        (i64::MAX, 0),
    ] {
        let there = chrono::DateTime::from_timestamp(secs, nanos).is_some();
        assert_eq!(Timestamp::new(secs, nanos).is_some(), there, "{secs}");
    }
    assert!(Timestamp::new(0, 1_000_000_000).is_none());
    assert_eq!(Timestamp::new(-5, 7).unwrap().parts(), (-5, 7));
}

#[test]
fn the_last_heartbeat_counts_and_changes_no_other_node() {
    let mut nodes = Fleet::new();
    node(&mut nodes, "a", 3, 20);
    node(&mut nodes, "b", 1, 40);
    node(&mut nodes, "a", 7, 0);
    assert_eq!(nodes.get("a").unwrap().vm_count, 7);
    assert_eq!(nodes.get("b").unwrap().vm_count, 1);
    assert!(nodes.get("c").is_none());
    let listed = list_nodes(&nodes, now());
    assert_eq!(listed.len(), 2);
    assert_eq!((listed[0].node.name.as_str(), listed[0].healthy), ("a", true));
    assert_eq!((listed[1].node.name.as_str(), listed[1].healthy), ("b", false));
}

#[test]
fn a_request_that_names_a_node_goes_there() {
    let mut nodes = Fleet::new();
    node(&mut nodes, "stale", 9, 100);
    node(&mut nodes, "fresh", 0, 0);
    let f = create_vm(&nodes, json(r#"{"node":"stale","image":"i","n":[1,2]}"#), now()).unwrap();
    assert_eq!(f.node, "stale");
    assert_eq!(f.url, "http://stale/v1/vms");
    assert_eq!(f.body, json(r#"{"image":"i","n":[1,2]}"#));
    let e = create_vm(&nodes, json(r#"{"node":"gone"}"#), now()).unwrap_err();
    assert_eq!((e.status, e.message.as_str()), (400, "no registered node named 'gone'"));
}

#[test]
fn a_request_that_names_no_node_goes_to_the_chosen_one() {
    let mut nodes = Fleet::new();
    node(&mut nodes, "busy", 4, 0);
    node(&mut nodes, "idle", 0, 0);
    let f = create_vm(&nodes, json(r#"{"image":"i"}"#), now()).unwrap();
    assert_eq!(f.node, "idle");
    let f = create_vm(&nodes, json(r#"{"image":"i","node":7}"#), now()).unwrap();
    assert_eq!((f.node.as_str(), f.body), ("idle", json(r#"{"image":"i"}"#)));
    let f = create_vm(&nodes, json("[1]"), now()).unwrap();
    assert_eq!(f.body, json("[1]"));
    let e = create_vm(&Fleet::new(), json("{}"), now()).unwrap_err();
    assert_eq!((e.status, e.message.as_str()), (503, "no healthy nodes registered"));
}

#[test]
fn what_a_node_answers_is_passed_on() {
    let c = vm_created("a".into(), true, json(r#"{"id":"1"}"#)).unwrap();
    assert_eq!((c.node.as_str(), c.vm), ("a", json(r#"{"id":"1"}"#)));
    let e = vm_created("a".into(), false, json(r#"{"error": "no image"}"#)).unwrap_err();
    assert_eq!(e.status, 502);
    assert_eq!(e.message, r#"node 'a' rejected create: {"error":"no image"}"#);
    let e = unanswered("connection refused".into());
    assert_eq!((e.status, e.message.as_str()), (502, "connection refused"));
}

#[test]
fn every_listed_vm_names_its_node() {
    let answers = vec![
        NodeAnswer {
            node: "a".into(),
            body: Some(json(r#"{"items":[{"id":"1","node":"x"},{"id":"2"},3]}"#)),
        },
        NodeAnswer { node: "b".into(), body: None },
        NodeAnswer { node: "c".into(), body: Some(json(r#"{"items":{}}"#)) },
        NodeAnswer { node: "d".into(), body: Some(json("[]")) },
        NodeAnswer { node: "e".into(), body: Some(json(r#"{"items":[{}]}"#)) },
    ];
    let all = list_vms(&answers);
    assert_eq!(
        Value::Array(all),
        json(r#"[{"id":"1","node":"a"},{"id":"2","node":"a"},3,{"node":"e"}]"#)
    );
}

#[test]
fn only_healthy_nodes_are_asked_for_their_vms() {
    let mut nodes = Fleet::new();
    node(&mut nodes, "a", 0, 0);
    node(&mut nodes, "b", 0, 31);
    node(&mut nodes, "c", 0, 29);
    let urls: Vec<String> = list_targets(&nodes, now()).iter().map(list_url).collect();
    assert_eq!(urls, ["http://a/v1/vms", "http://c/v1/vms"]);
}

#[test]
fn deleting_asks_the_node_that_is_named() {
    let mut nodes = Fleet::new();
    node(&mut nodes, "a", 0, 500);
    assert_eq!(delete_vm(&nodes, "a", "42").unwrap(), "http://a/v1/vms/42");
    let e = delete_vm(&nodes, "b", "42").unwrap_err();
    assert_eq!((e.status, e.message.as_str()), (400, "no registered node named 'b'"));
    assert_eq!(vm_deleted("a", true, "ignored").unwrap(), 204);
    let e = vm_deleted("a", false, "busy").unwrap_err();
    assert_eq!((e.status, e.message.as_str()), (502, "node 'a' rejected delete: busy"));
}
