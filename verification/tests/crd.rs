use xline_operator::crd::{
    BackupSpec, ClusterSpec, ClusterStatus, ContainerSpec, PvcSpec, S3Spec, StorageSpec,
};

fn container() -> ContainerSpec {
    ContainerSpec {
        ports: None,
        volume_mounts: None,
    }
}

#[test]
fn cluster_validation_ok() {
    let ok = ClusterSpec {
        size: 3,
        backup: Some(BackupSpec {
            cron: "*/15 * * * *".to_owned(),
            storage: StorageSpec::Pvc {
                pvc: PvcSpec { name: None },
            },
        }),
        container: container(),
        pvcs: None,
        data: None,
    };
    assert!(ok.validate().is_ok());
}

#[test]
fn cluster_validation_bad_size() {
    let bad_size = ClusterSpec {
        size: 1,
        backup: Some(BackupSpec {
            cron: "*/15 * * * *".to_owned(),
            storage: StorageSpec::Pvc {
                pvc: PvcSpec { name: None },
            },
        }),
        container: container(),
        pvcs: None,
        data: None,
    };
    assert!(bad_size.validate().unwrap_err().path.contains("size"));
}

#[test]
fn cluster_validation_bad_cron() {
    let bad_cron = ClusterSpec {
        size: 5,
        backup: Some(BackupSpec {
            cron: "1 day".to_owned(),
            storage: StorageSpec::Pvc {
                pvc: PvcSpec { name: None },
            },
        }),
        container: container(),
        pvcs: None,
        data: None,
    };
    assert!(bad_cron.validate().unwrap_err().path.contains("backup.cron"));
}

#[test]
fn cluster_validation_bad_s3_bucket() {
    let bad_bucket = ClusterSpec {
        size: 5,
        backup: Some(BackupSpec {
            cron: "*/15 * * * *".to_owned(),
            storage: StorageSpec::S3 {
                s3: S3Spec {
                    bucket: "&%$# /".to_owned(),
                },
            },
        }),
        container: container(),
        pvcs: None,
        data: None,
    };
    assert!(bad_bucket
        .validate()
        .unwrap_err()
        .path
        .contains("backup.storage.s3.bucket"));
}

#[test]
fn bucket_grammar_boundaries() {
    let spec = |bucket: &str| ClusterSpec {
        size: 3,
        backup: Some(BackupSpec {
            cron: "*/15 * * * *".to_owned(),
            storage: StorageSpec::S3 {
                s3: S3Spec {
                    bucket: bucket.to_owned(),
                },
            },
        }),
        container: container(),
        pvcs: None,
        data: None,
    };
    assert!(spec("mybucket").validate().is_ok());
    assert!(spec("my-bucket-01").validate().is_ok());
    assert!(spec("ab").validate().is_err());
    assert!(spec("-bucket").validate().is_err());
    assert!(spec("bucket-").validate().is_err());
    assert!(spec("MyBucket").validate().is_err());
}

#[test]
fn cron_grammar_boundaries() {
    let spec = |cron: &str| ClusterSpec {
        size: 3,
        backup: Some(BackupSpec {
            cron: cron.to_owned(),
            storage: StorageSpec::Pvc {
                pvc: PvcSpec { name: None },
            },
        }),
        container: container(),
        pvcs: None,
        data: None,
    };
    assert!(spec("* * * * *").validate().is_ok());
    assert!(spec("0 1,2 3-4 */5 6").validate().is_ok());
    assert!(spec("1 day").validate().is_err());
    assert!(spec("* * * *").validate().is_err());
    assert!(spec("* * * * * *").validate().is_err());
    assert!(spec(" * * * * *").validate().is_err());
    assert!(spec("* * * * * ").validate().is_err());
    assert!(spec("*- * * * *").validate().is_err());
}

#[test]
fn status_available_bounded_by_size() {
    let spec = ClusterSpec {
        size: 3,
        backup: None,
        container: container(),
        pvcs: None,
        data: None,
    };
    let ok = ClusterStatus {
        available: 3,
        members: vec![],
    };
    assert!(ok.validate(&spec).is_ok());
    let too_many = ClusterStatus {
        available: 4,
        members: vec![],
    };
    assert!(too_many.validate(&spec).unwrap_err().path.contains("available"));
}
