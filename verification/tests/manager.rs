use xline_operator::crd::{
    BackupSpec, ClusterSpec, ContainerSpec, MountSpec, PortSpec, PvcSpec, S3Spec, StorageSpec,
};
use xline_operator::manager::{
    validate_mounts, Cluster, Component, Extractor, Factory, MaterializeError,
};

/// The first example cluster: labels, an inherit-label annotation, and a
/// declared store port.
fn cluster_1() -> Cluster {
    Cluster {
        name: Some("my-xline-cluster".to_owned()),
        namespace: Some("default".to_owned()),
        uid: Some("this-is-a-random-uid".to_owned()),
        labels: vec![
            ("app".to_owned(), "my-xline-cluster".to_owned()),
            ("appNamespace".to_owned(), "default".to_owned()),
        ],
        annotations: vec![(
            "xlineoperator.datenlord.io/inherit-label-prefix".to_owned(),
            "app".to_owned(),
        )],
        spec: ClusterSpec {
            size: 3,
            container: ContainerSpec {
                ports: Some(vec![PortSpec {
                    name: Some("xline".to_owned()),
                    container_port: 2379,
                }]),
                volume_mounts: None,
            },
            backup: None,
            data: None,
            pvcs: None,
        },
    }
}

/// The second example cluster: both ports declared, and a data claim.
fn cluster_2() -> Cluster {
    Cluster {
        name: Some("my-xline-cluster".to_owned()),
        namespace: Some("default".to_owned()),
        uid: Some("this-is-a-random-uid".to_owned()),
        labels: vec![],
        annotations: vec![],
        spec: ClusterSpec {
            size: 5,
            container: ContainerSpec {
                ports: Some(vec![
                    PortSpec {
                        name: Some("xline".to_owned()),
                        container_port: 3000,
                    },
                    PortSpec {
                        name: Some("sidecar".to_owned()),
                        container_port: 3001,
                    },
                ]),
                volume_mounts: None,
            },
            backup: None,
            data: Some(PvcSpec {
                name: Some("my-xline-cluster-data".to_owned()),
            }),
            pvcs: None,
        },
    }
}

/// The third example cluster: a volume-backed backup.
fn cluster_3() -> Cluster {
    Cluster {
        name: Some("my-xline-cluster".to_owned()),
        namespace: Some("default".to_owned()),
        uid: Some("this-is-a-random-uid".to_owned()),
        labels: vec![],
        annotations: vec![],
        spec: ClusterSpec {
            size: 3,
            container: ContainerSpec {
                ports: Some(vec![PortSpec {
                    name: Some("xline".to_owned()),
                    container_port: 2379,
                }]),
                volume_mounts: None,
            },
            backup: Some(BackupSpec {
                cron: "*/15 * * * *".to_owned(),
                storage: StorageSpec::Pvc {
                    pvc: PvcSpec {
                        name: Some("backup-pvc".to_owned()),
                    },
                },
            }),
            data: None,
            pvcs: None,
        },
    }
}

/// The fourth example cluster: a user-defined claim.
fn cluster_4() -> Cluster {
    Cluster {
        name: Some("my-xline-cluster".to_owned()),
        namespace: Some("default".to_owned()),
        uid: Some("this-is-a-random-uid".to_owned()),
        labels: vec![],
        annotations: vec![],
        spec: ClusterSpec {
            size: 3,
            container: ContainerSpec {
                ports: Some(vec![PortSpec {
                    name: Some("xline".to_owned()),
                    container_port: 2379,
                }]),
                volume_mounts: None,
            },
            backup: None,
            data: None,
            pvcs: Some(vec![PvcSpec {
                name: Some("xline-pvc".to_owned()),
            }]),
        },
    }
}

#[test]
fn extract_ports_should_work() {
    for (cluster, xline, sidecar) in [
        (cluster_1(), 2379, 2380),
        (cluster_2(), 3000, 3001),
        (cluster_3(), 2379, 2380),
        (cluster_4(), 2379, 2380),
    ] {
        let extractor = Extractor::new(&cluster);
        let (xline_port, sidecar_port, service_ports) = extractor.extract_ports();
        assert_eq!(xline_port.container_port, xline);
        assert_eq!(sidecar_port.container_port, sidecar);
        assert_eq!(service_ports.len(), 2);
        assert_eq!(service_ports[0].name.as_deref(), Some("xline"));
        assert_eq!(service_ports[0].port, xline);
        assert_eq!(service_ports[1].name.as_deref(), Some("sidecar"));
        assert_eq!(service_ports[1].port, sidecar);
    }
}

#[test]
fn extract_id_should_work() {
    for cluster in [cluster_1(), cluster_2(), cluster_3(), cluster_4()] {
        let extractor = Extractor::new(&cluster);
        let (name, namespace) = extractor.extract_id();
        assert_eq!(name, "my-xline-cluster");
        assert_eq!(namespace, "default");
    }
}

#[test]
fn extract_pvc_should_work() {
    let c = cluster_1();
    assert_eq!(Extractor::new(&c).extract_pvc_template().len(), 0);

    let c = cluster_2();
    let pvcs = Extractor::new(&c).extract_pvc_template();
    assert_eq!(pvcs.len(), 1);
    assert_eq!(pvcs[0].name.as_deref(), Some("my-xline-cluster-data"));

    let c = cluster_3();
    let pvcs = Extractor::new(&c).extract_pvc_template();
    assert_eq!(pvcs.len(), 1);
    assert_eq!(pvcs[0].name.as_deref(), Some("backup-pvc"));

    let c = cluster_4();
    let pvcs = Extractor::new(&c).extract_pvc_template();
    assert_eq!(pvcs.len(), 1);
    assert_eq!(pvcs[0].name.as_deref(), Some("xline-pvc"));
}

#[test]
fn extract_volume_mount_should_work() {
    let c = cluster_1();
    assert_eq!(Extractor::new(&c).extract_additional_volume_mount().len(), 0);

    let c = cluster_2();
    let mounts = Extractor::new(&c).extract_additional_volume_mount();
    assert_eq!(mounts.len(), 1);
    assert_eq!(mounts[0].name, "my-xline-cluster-data");
    assert_eq!(mounts[0].mount_path, "/usr/local/xline/data-dir");

    let c = cluster_3();
    let mounts = Extractor::new(&c).extract_additional_volume_mount();
    assert_eq!(mounts.len(), 1);
    assert_eq!(mounts[0].name, "backup-pvc");
    assert_eq!(mounts[0].mount_path, "/xline-backup");

    let c = cluster_4();
    assert_eq!(Extractor::new(&c).extract_additional_volume_mount().len(), 0);
}

#[test]
fn extract_owner_ref_should_work() {
    for cluster in [cluster_1(), cluster_2(), cluster_3(), cluster_4()] {
        let owner_ref = Extractor::new(&cluster).extract_owner_ref();
        assert_eq!(owner_ref.name, "my-xline-cluster");
        assert_eq!(owner_ref.uid, "this-is-a-random-uid");
        assert!(owner_ref.controller);
    }
}

#[test]
fn extract_inherit_labels_should_work() {
    let c = cluster_1();
    let labels = Extractor::new(&c).extract_inherit_labels();
    assert_eq!(labels.len(), 2);
    assert_eq!(labels[0], ("app".to_owned(), "my-xline-cluster".to_owned()));
    assert_eq!(labels[1], ("appNamespace".to_owned(), "default".to_owned()));
}

#[test]
fn factory_component_name_should_work() {
    assert_eq!(
        Factory::component_name("my-xline-cluster", Component::Nodes),
        "my-xline-cluster-nodes"
    );
    assert_eq!(
        Factory::component_name("my-xline-cluster", Component::Service),
        "my-xline-cluster-svc"
    );
    assert_eq!(
        Factory::component_name("my-xline-cluster", Component::BackupJob),
        "my-xline-cluster-backup"
    );
}

#[test]
fn factory_general_metadata_should_work() {
    let c = cluster_1();
    let factory = Factory::new(&c, "cluster.local", "0.1.0");
    let metadata = factory.general_metadata(Component::Nodes);
    assert_eq!(metadata.name, "my-xline-cluster-nodes");
    assert_eq!(metadata.namespace, "default");
    assert_eq!(metadata.owner_references.len(), 1);
    assert_eq!(metadata.owner_references[0].name, "my-xline-cluster");
    assert_eq!(metadata.owner_references[0].uid, "this-is-a-random-uid");
    assert_eq!(metadata.owner_references[0].kind, "XlineCluster");
    assert!(metadata.owner_references[0].controller);
    let labels = &metadata.labels;
    assert!(labels.contains(&("app".to_owned(), "my-xline-cluster".to_owned())));
    assert!(labels.contains(&("appNamespace".to_owned(), "default".to_owned())));
    assert!(labels.contains(&("xlinecluster/name".to_owned(), "my-xline-cluster".to_owned())));
    assert!(labels.contains(&("xlinecluster/component".to_owned(), "nodes".to_owned())));
    assert!(labels.contains(&("xlinecluster/operator-version".to_owned(), "0.1.0".to_owned())));
}

#[test]
fn factory_node_service_should_work() {
    for cluster in [cluster_1(), cluster_3(), cluster_4()] {
        let factory = Factory::new(&cluster, "cluster.local", "0.1.0");
        let service = factory.node_service();
        assert_eq!(service.ports.len(), 2);
        assert_eq!(service.ports[0].name.as_deref(), Some("xline"));
        assert_eq!(service.ports[0].port, 2379);
        assert_eq!(service.ports[1].name.as_deref(), Some("sidecar"));
        assert_eq!(service.ports[1].port, 2380);
        assert_eq!(
            service.selector,
            vec![
                ("xlinecluster/name".to_owned(), "my-xline-cluster".to_owned()),
                ("xlinecluster/component".to_owned(), "nodes".to_owned()),
            ]
        );
        assert_eq!(service.metadata.name, "my-xline-cluster-svc");
    }
}

#[test]
fn factory_sts_builds_member_command() {
    let c = cluster_1();
    let factory = Factory::new(&c, "cluster.local", "0.1.0");
    let sts = factory.sts();
    assert_eq!(sts.replicas, 3);
    assert_eq!(
        sts.selector,
        vec![
            ("xlinecluster/name".to_owned(), "my-xline-cluster".to_owned()),
            ("xlinecluster/component".to_owned(), "nodes".to_owned()),
        ]
    );
    // No data claim: the pod gets an ephemeral data volume at the data path.
    assert_eq!(sts.empty_dir_volume.as_deref(), Some("xline-data-empty-dir"));
    assert_eq!(sts.mounts.len(), 1);
    assert_eq!(sts.mounts[0].name, "xline-data-empty-dir");
    assert_eq!(sts.mounts[0].mount_path, "/usr/local/xline/data-dir");
    assert_eq!(sts.service_name, "my-xline-cluster-svc");
    assert_eq!(sts.max_unavailable, "50%");
    assert_eq!(sts.command[0], "xline");
    assert_eq!(sts.command[7], "--members");
    let members = &sts.command[8];
    let expected = "my-xline-cluster-nodes-0=my-xline-cluster-nodes-0.my-xline-cluster-svc.default.svc.cluster.local:2379,\
my-xline-cluster-nodes-1=my-xline-cluster-nodes-1.my-xline-cluster-svc.default.svc.cluster.local:2379,\
my-xline-cluster-nodes-2=my-xline-cluster-nodes-2.my-xline-cluster-svc.default.svc.cluster.local:2379";
    assert_eq!(members, expected);
}

#[test]
fn factory_backup_cron_job_should_work() {
    let c = cluster_3();
    let factory = Factory::new(&c, "cluster.local", "0.1.0");
    let job = factory.backup_cron_job(2380).unwrap();
    assert_eq!(job.schedule, "*/15 * * * *");
    assert_eq!(job.concurrency_policy, "Forbid");
    assert_eq!(job.command[0], "/bin/sh");
    assert_eq!(job.command[1], "-ecx");
    assert_eq!(
        job.command[2],
        "curl http://my-xline-cluster-$((RANDOM % 3)).my-xline-cluster-svc.default.svc.cluster.local:2380/backup"
    );

    let without = cluster_1();
    let factory = Factory::new(&without, "cluster.local", "0.1.0");
    assert!(factory.backup_cron_job(2380).is_none());
}

#[test]
fn mounts_under_reserved_paths_are_rejected() {
    let mut c = cluster_1();
    c.spec.container.volume_mounts = Some(vec![MountSpec {
        name: "v".to_owned(),
        mount_path: "/xline-backup/sub".to_owned(),
    }]);
    assert_eq!(
        validate_mounts(&c),
        Err(MaterializeError::CannotMount("/xline-backup".to_owned()))
    );

    c.spec.container.volume_mounts = Some(vec![MountSpec {
        name: "v".to_owned(),
        mount_path: "/usr/local/xline/data-dir".to_owned(),
    }]);
    assert_eq!(
        validate_mounts(&c),
        Err(MaterializeError::CannotMount("/usr/local/xline/data-dir".to_owned()))
    );

    c.spec.container.volume_mounts = Some(vec![MountSpec {
        name: "v".to_owned(),
        mount_path: "/data".to_owned(),
    }]);
    assert_eq!(validate_mounts(&c), Ok(()));

    c.spec.pvcs = Some(vec![PvcSpec {
        name: Some("xline-data-empty-dir".to_owned()),
    }]);
    assert_eq!(validate_mounts(&c), Err(MaterializeError::InvalidVolumeName));
}

#[test]
fn s3_backup_is_not_a_claim() {
    let storage = StorageSpec::S3 {
        s3: S3Spec {
            bucket: "mybucket".to_owned(),
        },
    };
    assert!(storage.as_pvc().is_none());
    let storage = StorageSpec::Pvc {
        pvc: PvcSpec {
            name: Some("backup-pvc".to_owned()),
        },
    };
    assert_eq!(storage.as_pvc().unwrap().name.as_deref(), Some("backup-pvc"));
}

#[test]
fn factory_sts_mounts_configured_claims() {
    let c = cluster_2();
    let factory = Factory::new(&c, "cluster.local", "0.1.0");
    let sts = factory.sts();
    // A data claim replaces the ephemeral fallback.
    assert!(sts.empty_dir_volume.is_none());
    assert_eq!(sts.mounts.len(), 1);
    assert_eq!(sts.mounts[0].name, "my-xline-cluster-data");
    assert_eq!(sts.mounts[0].mount_path, "/usr/local/xline/data-dir");

    let c = cluster_3();
    let factory = Factory::new(&c, "cluster.local", "0.1.0");
    let sts = factory.sts();
    // A backup claim mounts at the backup path before the data mount.
    assert_eq!(sts.mounts.len(), 2);
    assert_eq!(sts.mounts[0].name, "backup-pvc");
    assert_eq!(sts.mounts[0].mount_path, "/xline-backup");
    assert_eq!(sts.mounts[1].name, "xline-data-empty-dir");
}
