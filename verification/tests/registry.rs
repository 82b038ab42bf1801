use xline_operator::registry::{
    sts_members, wait_decision, Config, DummyRegistry, HttpRegistry, RegistryServer, WaitOutcome,
    WAIT_THRESHOLD,
};

#[test]
fn wait_until_full() {
    let full = Config {
        members: vec![
            ("a".to_owned(), "ha".to_owned()),
            ("b".to_owned(), "hb".to_owned()),
        ],
        cluster_size: 2,
    };
    assert_eq!(wait_decision(&full, 0), WaitOutcome::Done);
    let partial = Config {
        members: vec![("a".to_owned(), "ha".to_owned())],
        cluster_size: 2,
    };
    assert_eq!(wait_decision(&partial, 0), WaitOutcome::Retry);
    assert_eq!(wait_decision(&partial, WAIT_THRESHOLD), WaitOutcome::TimedOut);
}

#[test]
fn workload_members_have_stable_names() {
    let config = sts_members("xline", "xline-svc", "default", "cluster.local", 3, 0);
    assert_eq!(config.cluster_size, 3);
    assert_eq!(config.members.len(), 3);
    assert_eq!(config.members[0].0, "xline-0");
    assert_eq!(
        config.members[0].1,
        "xline-0.xline-svc.default.svc.cluster.local"
    );
    assert_eq!(config.members[2].0, "xline-2");

    let offset = sts_members("xline", "xline-svc", "default", "cluster.local", 2, 5);
    assert_eq!(offset.members[0].0, "xline-5");
    assert_eq!(offset.members[1].0, "xline-6");
}

#[test]
fn dummy_registry_returns_its_table() {
    let registry = DummyRegistry::new(vec![
        ("a".to_owned(), "ha".to_owned()),
        ("b".to_owned(), "hb".to_owned()),
    ]);
    let config = registry.fetch();
    assert_eq!(config.cluster_size, 2);
    assert_eq!(config.members[0], ("a".to_owned(), "ha".to_owned()));
    assert_eq!(config.members[1], ("b".to_owned(), "hb".to_owned()));
}

#[test]
fn http_registry_builds_query() {
    let registry = HttpRegistry::new("reg:8080".to_owned(), "c1".to_owned());
    let query = registry.register_query(&"node1".to_owned(), &"10.0.0.1".to_owned());
    assert_eq!(query.cluster, "c1");
    assert_eq!(query.name, "node1");
    assert_eq!(query.host, "10.0.0.1");
}

#[test]
fn server_prunes_expired_members() {
    let mut server = RegistryServer::new();
    let config = server.receive(&"a".to_owned(), &"ha".to_owned(), 100, 30, 3);
    assert_eq!(config.members, vec![("a".to_owned(), "ha".to_owned())]);
    assert_eq!(config.cluster_size, 3);

    let config = server.receive(&"b".to_owned(), &"hb".to_owned(), 110, 30, 3);
    assert_eq!(config.members.len(), 2);

    // Member a last registered at 100; at 139 it is beyond the TTL.
    let config = server.receive(&"c".to_owned(), &"hc".to_owned(), 139, 30, 3);
    assert_eq!(
        config.members,
        vec![("b".to_owned(), "hb".to_owned()), ("c".to_owned(), "hc".to_owned())]
    );

    // Re-registering refreshes the host and the clock.
    let config = server.receive(&"b".to_owned(), &"hb2".to_owned(), 141, 30, 3);
    assert!(config
        .members
        .contains(&("b".to_owned(), "hb2".to_owned())));
}
