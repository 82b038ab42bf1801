use xline_operator::parse::{parse_backend, parse_backup_type, parse_members, parse_registry};
use xline_operator::types::{BackendConfig, BackupConfig, RegistryConfig};

#[test]
fn test_parse_backup_type() {
    let test_cases = [
        ("", Err("backup type is empty".to_owned())),
        (
            "s3:bucket_name",
            Ok(BackupConfig::S3 {
                bucket: "bucket_name".to_owned(),
            }),
        ),
        (
            "s3:bucket:name",
            Err("s3 backup type requires 1 arguments, got 2".to_owned()),
        ),
        (
            "s3",
            Err("s3 backup type requires 1 arguments, got 0".to_owned()),
        ),
        (
            "pv:/home",
            Ok(BackupConfig::PV {
                path: "/home".to_owned(),
            }),
        ),
        (
            "pv:/home:/paopao",
            Err("pv backup type requires 1 argument, got 2".to_owned()),
        ),
        (
            "pv",
            Err("pv backup type requires 1 argument, got 0".to_owned()),
        ),
        ("_invalid_", Err("unknown backup type: _invalid_".to_owned())),
    ];
    for (test_case, res) in test_cases {
        assert_eq!(parse_backup_type(test_case), res);
    }
}

#[test]
fn test_parse_backend() {
    let test_cases = [
        (
            "k8s,pod=my-pod,container=my-container,namespace=my-namespace",
            Ok(BackendConfig::K8s {
                pod_name: "my-pod".to_owned(),
                container_name: "my-container".to_owned(),
                namespace: "my-namespace".to_owned(),
            }),
        ),
        ("local", Ok(BackendConfig::Local)),
        ("", Err("backend is empty".to_owned())),
        (
            "k8s,pod=my-pod,invalid-arg,namespace=my-namespace",
            Err("k8s backend got unexpected argument invalid-arg, expect <key>=<value>".to_owned()),
        ),
        (
            "k8s,pod=my-pod,container=my-container",
            Err("k8s backend must set 'pod', 'container', 'namespace'".to_owned()),
        ),
        (
            "unknown-backend",
            Err("unknown backend: unknown-backend".to_owned()),
        ),
    ];
    for (input, expected) in test_cases {
        let result = parse_backend(input);
        assert_eq!(result, expected);
    }
}

#[test]
fn test_parse_members() {
    let test_cases = vec![
        (
            "id1=addr1,id2=addr2,id3=addr3",
            Ok([("id1", "addr1"), ("id2", "addr2"), ("id3", "addr3")]
                .iter()
                .map(|&(id, addr)| (id.to_owned(), addr.to_owned()))
                .collect()),
        ),
        (
            "id1=addr1",
            Ok(std::iter::once(&("id1", "addr1"))
                .map(|&(id, addr)| (id.to_owned(), addr.to_owned()))
                .collect()),
        ),
        (
            "",
            Err("parse the pair '' error, expect '<id>=<addr>'".to_owned()),
        ),
        (
            "id1=addr1,id2",
            Err("parse the pair 'id2' error, expect '<id>=<addr>'".to_owned()),
        ),
        (
            "id1=addr1,id2=addr2,",
            Err("parse the pair '' error, expect '<id>=<addr>'".to_owned()),
        ),
    ];

    for (input, expected) in test_cases {
        let result: Result<Vec<(String, String)>, String> = parse_members(input);
        assert_eq!(result, expected);
    }
}

#[test]
fn test_parse_registry() {
    let test_cases = [
        (
            "sts",
            Err("sts registry type requires 2 argument, got 0".to_owned()),
        ),
        (
            "http",
            Err("http registry type requires 1 argument, got 0".to_owned()),
        ),
        ("", Err("registry type is empty".to_owned())),
        (
            "sts:sts_name",
            Err("sts registry type requires 2 argument, got 1".to_owned()),
        ),
        (
            "sts:sts_name:sts_namespace",
            Ok(RegistryConfig::Sts {
                name: "sts_name".to_owned(),
                namespace: "sts_namespace".to_owned(),
            }),
        ),
        (
            "http:server_addr",
            Ok(RegistryConfig::Http {
                server_addr: "server_addr".to_owned(),
            }),
        ),
        ("unknown", Err("unknown registry type: unknown".to_owned())),
    ];
    for (input, expected) in test_cases {
        let result = parse_registry(input);
        assert_eq!(result, expected);
    }
}

#[test]
fn duplicate_member_ids_keep_the_later_address() {
    assert_eq!(
        parse_members("id1=a,id2=b,id1=c"),
        Ok(vec![("id1".to_owned(), "c".to_owned()), ("id2".to_owned(), "b".to_owned())])
    );
}
