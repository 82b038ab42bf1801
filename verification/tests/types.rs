use xline_operator::types::{
    make_addr, BackendConfig, Config, MonitorConfig, State, StatePayload, StateStatus,
    XlineConfig,
};

fn config() -> Config {
    Config {
        name: "node1".to_owned(),
        cluster_name: "my-xline-cluster".to_owned(),
        init_members: vec![
            ("node1".to_owned(), "127.0.0.1".to_owned()),
            ("node2".to_owned(), "127.0.0.2".to_owned()),
        ],
        xline_port: 2379,
        sidecar_port: 2380,
        reconcile_interval_secs: 20,
        xline: XlineConfig {
            name: "node1".to_owned(),
            executable: "xline".to_owned(),
            storage_engine: "rocksdb".to_owned(),
            data_dir: "/usr/local/xline/data-dir".to_owned(),
            is_leader: false,
            additional: None,
        },
        backend: BackendConfig::Local,
        monitor: Some(MonitorConfig {
            monitor_addr: "op:8080".to_owned(),
            heartbeat_interval_secs: 10,
        }),
        backup: None,
        registry: None,
    }
}

#[test]
fn init_sidecar_members() {
    let members = config().init_sidecar_members();
    assert_eq!(
        members,
        vec![
            ("node1".to_owned(), "127.0.0.1:2380".to_owned()),
            ("node2".to_owned(), "127.0.0.2:2380".to_owned()),
        ]
    );
}

#[test]
fn init_xline_members() {
    let members = config().init_xline_members();
    assert_eq!(
        members,
        vec![
            ("node1".to_owned(), "127.0.0.1:2379".to_owned()),
            ("node2".to_owned(), "127.0.0.2:2379".to_owned()),
        ]
    );
}

#[test]
fn addr_appends_port() {
    assert_eq!(make_addr(&"10.0.0.1".to_owned(), 80), "10.0.0.1:80");
    assert_eq!(make_addr(&"host".to_owned(), 65535), "host:65535");
}

#[test]
fn revision_never_decreases() {
    let mut payload = StatePayload::new(State::Start, 5);
    payload.observe_revision(3);
    assert_eq!(payload.revision, 5);
    payload.observe_revision(9);
    assert_eq!(payload.revision, 9);
    payload.refresh_revision(Some(7), Some(12), None);
    assert_eq!(payload.revision, 12);
    payload.refresh_revision(None, None, Some(2));
    assert_eq!(payload.revision, 12);
    payload.set_state(State::OK);
    assert_eq!(payload.revision, 12);
    assert_eq!(payload.state, State::OK);
}

#[test]
fn gather_counts_and_picks_seeder() {
    let payloads = vec![
        ("c-1".to_owned(), StatePayload::new(State::Start, 4)),
        ("c-0".to_owned(), StatePayload::new(State::Start, 9)),
        ("c-2".to_owned(), StatePayload::new(State::Pending, 9)),
    ];
    let status = StateStatus::gather(&payloads);
    assert_eq!(status.start_count, 2);
    assert_eq!(status.pending_count, 1);
    assert_eq!(status.ok_count, 0);
    // Highest revision is 9, shared by c-0 and c-2: the smaller name wins.
    assert_eq!(status.seeder, "c-0");

    let empty: Vec<(String, StatePayload)> = vec![];
    assert_eq!(StateStatus::gather(&empty).seeder, "");
}
