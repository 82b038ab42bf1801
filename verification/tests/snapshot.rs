use xline_operator::snapshot::{latest_of, purge_decision, Metadata};

#[test]
fn test_metadata() {
    let metadata = Metadata {
        name: "xline-cluster-0".to_owned(),
        revision: 1,
    };
    let filename: String = metadata.to_string();
    let expect = "xline-cluster-0.1.xline.backup";
    assert_eq!(filename, expect);
    let metadata = Metadata::parse(expect).unwrap();
    assert_eq!(
        &metadata,
        &Metadata {
            name: "xline-cluster-0".to_owned(),
            revision: 1,
        }
    );
}

#[test]
fn mod_test_metadata() {
    let metadata = Metadata {
        name: "xline-cluster-0".to_owned(),
        revision: 1,
    };
    let filename: String = metadata.to_string();
    let expect = "xline-cluster-0.1.xline.backup";
    assert_eq!(filename, expect);
    let metadata = Metadata::parse(expect).unwrap();
    assert_eq!(
        &metadata,
        &Metadata {
            name: "xline-cluster-0".to_owned(),
            revision: 1,
        }
    );
}

#[test]
fn metadata_round_trips_odd_names() {
    for (name, revision) in [
        ("a.b", 7),
        ("c-9", -3),
        ("x", i64::MAX),
        ("x", i64::MIN),
        ("ends-with-digit7", 0),
    ] {
        let meta = Metadata {
            name: name.to_owned(),
            revision,
        };
        let rendered = meta.to_string();
        assert_eq!(Metadata::parse(&rendered).unwrap(), meta);
    }
}

#[test]
fn metadata_parse_rejects_junk() {
    for bad in [
        "",
        "xline.backup",
        ".xline.backup",
        "a..xline.backup",
        "a.05.xline.backup",
        "a.-0.xline.backup",
        "a.1",
        "a.1.other.suffix",
    ] {
        assert!(Metadata::parse(bad).is_none(), "{bad:?} should not parse");
    }
}

#[test]
fn latest_picks_highest_revision() {
    let files = vec![
        "xline-cluster-0.10.xline.backup".to_owned(),
        "notes.txt".to_owned(),
        "xline-cluster-1.8.xline.backup".to_owned(),
        "xline-cluster-0.8.xline.backup".to_owned(),
    ];
    let latest = latest_of(&files).unwrap().unwrap();
    assert_eq!(latest.name, "xline-cluster-0");
    assert_eq!(latest.revision, 10);

    let none = latest_of(&vec!["notes.txt".to_owned()]).unwrap();
    assert!(none.is_none());

    let malformed = vec!["bad..xline.backup".to_owned()];
    assert_eq!(latest_of(&malformed), Err(0));
}

#[test]
fn purge_is_by_age() {
    assert_eq!(purge_decision(100, 200, 50), Ok(true));
    assert_eq!(purge_decision(100, 140, 50), Ok(false));
    assert_eq!(purge_decision(300, 200, 50), Err(()));
}
