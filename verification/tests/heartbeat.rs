use xline_operator::heartbeat::{gather_from_probes, HeartbeatStatus};

#[test]
fn heartbeat_new_keeps_fields() {
    let status = HeartbeatStatus::new(
        "c1".to_owned(),
        "node1".to_owned(),
        42,
        vec!["node1".to_owned(), "node2".to_owned()],
    );
    assert_eq!(status.cluster_name, "c1");
    assert_eq!(status.name, "node1");
    assert_eq!(status.timestamp, 42);
    assert_eq!(status.reachable, vec!["node1".to_owned(), "node2".to_owned()]);
}

#[test]
fn gather_includes_self_when_own_probe_fails() {
    let probes = vec![
        ("node2".to_owned(), true),
        ("node1".to_owned(), false),
        ("node3".to_owned(), false),
    ];
    let status = gather_from_probes("c1".to_owned(), "node1".to_owned(), 7, &probes);
    assert_eq!(status.reachable, vec!["node2".to_owned(), "node1".to_owned()]);
    assert_eq!(status.timestamp, 7);
}

#[test]
fn gather_does_not_duplicate_self() {
    let probes = vec![
        ("node1".to_owned(), true),
        ("node2".to_owned(), true),
    ];
    let status = gather_from_probes("c1".to_owned(), "node1".to_owned(), 7, &probes);
    assert_eq!(status.reachable, vec!["node1".to_owned(), "node2".to_owned()]);
}
