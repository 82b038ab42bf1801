use core::cmp::Ordering;
use xline_operator::migration::{
    compare_versions, merged_version_names, prepare_crd_action, should_migrate, ApiVersion,
    CrdAction,
};

fn parse(s: &str) -> ApiVersion {
    ApiVersion::parse(s).unwrap()
}

#[test]
fn test_api_version() {
    let test_cases = [
        ("v1alpha", ApiVersion::Alpha(1, 0)),
        ("v10alpha", ApiVersion::Alpha(10, 0)),
        ("v1beta", ApiVersion::Beta(1, 0)),
        ("v10beta", ApiVersion::Beta(10, 0)),
        ("v1alpha1", ApiVersion::Alpha(1, 1)),
        ("v10alpha1", ApiVersion::Alpha(10, 1)),
        ("v10alpha10", ApiVersion::Alpha(10, 10)),
        ("v1beta1", ApiVersion::Beta(1, 1)),
        ("v1beta10", ApiVersion::Beta(1, 10)),
        ("v10beta10", ApiVersion::Beta(10, 10)),
        ("v1", ApiVersion::Stable(1)),
        ("v10", ApiVersion::Stable(10)),
    ];
    for (raw, ver) in test_cases {
        let parsed = parse(raw);
        assert_eq!(parsed, ver);
        assert_eq!(parsed.to_string(), raw);
    }
    let test_cases = [
        ("v1alpha", "v1alpha", Ordering::Equal),
        ("v1beta", "v1beta", Ordering::Equal),
        ("v1", "v1", Ordering::Equal),
        ("v1alpha", "v2alpha", Ordering::Less),
        ("v2alpha", "v1alpha", Ordering::Greater),
        ("v1beta", "v2beta", Ordering::Less),
        ("v2beta", "v1beta", Ordering::Greater),
        ("v1", "v2", Ordering::Less),
        ("v2", "v1", Ordering::Greater),
        ("v1alpha", "v1alpha1", Ordering::Less),
        ("v1alpha1", "v1alpha", Ordering::Greater),
        ("v1beta", "v1beta1", Ordering::Less),
        ("v1beta1", "v1beta", Ordering::Greater),
        ("v2alpha", "v1beta", Ordering::Greater),
        ("v1beta", "v2alpha", Ordering::Less),
        ("v2alpha", "v1", Ordering::Greater),
        ("v1", "v2alpha", Ordering::Less),
    ];
    for (lh, rh, cmp) in test_cases {
        assert_eq!(parse(lh).partial_cmp(&parse(rh)), Some(cmp));
    }
}

#[test]
fn test_cmp_version() {
    assert_eq!(Some(Ordering::Greater), compare_versions("v2", "v1"));
    assert_eq!(Some(Ordering::Less), compare_versions("v1", "v2"));
    assert_eq!(Some(Ordering::Equal), compare_versions("v1", "v1"));
}

#[test]
fn version_ordering_chain() {
    // v1alpha < v1alpha1 < v1beta < v1beta1 < v1 < v2alpha < v2
    let chain = ["v1alpha", "v1alpha1", "v1beta", "v1beta1", "v1", "v2alpha", "v2"];
    for w in chain.windows(2) {
        assert!(parse(w[0]) < parse(w[1]), "{} should order before {}", w[0], w[1]);
    }
    assert!(parse("v1").compat_with(&parse("v1alpha1")));
    assert!(!parse("v1").compat_with(&parse("v2")));
}

#[test]
fn version_parse_rejects_junk() {
    for bad in ["", "1", "v", "valpha", "v01", "v1gamma", "v1alpha01", "v1alpha0", "x1"] {
        assert_eq!(ApiVersion::parse(bad), None, "{bad:?} should not parse");
    }
}

#[test]
fn compare_versions_rejects_junk() {
    assert_eq!(compare_versions("v1x", "v2"), None);
    assert_eq!(compare_versions("v1", ""), None);
}

#[test]
fn migration_is_conservative() {
    let current = parse("v1beta1");
    let storage = parse("v1beta");
    let versions = vec![parse("v1alpha1"), parse("v1beta"), parse("v1beta1")];
    // Newest version, compatible storage: migrate.
    assert!(should_migrate(&current, &storage, &versions, true, true));
    // Auto migration off: never.
    assert!(!should_migrate(&current, &storage, &versions, true, false));
    // Already the storage version: nothing to do.
    assert!(!should_migrate(&storage, &storage, &versions, false, true));
    // A newer version is installed: do not guess.
    let newer = vec![parse("v2")];
    assert!(!should_migrate(&current, &storage, &newer, false, true));
    // Instances stored under an incompatible version: keep them.
    let old_storage = parse("v1beta");
    let v2 = parse("v2");
    assert!(!should_migrate(&v2, &old_storage, &versions, true, true));
    assert!(should_migrate(&v2, &old_storage, &versions, false, true));
}

#[test]
fn crd_setup_action() {
    let installed = vec!["v1".to_owned(), "v2".to_owned()];
    // With no schema installed, creation needs the explicit opt-in flag.
    assert_eq!(prepare_crd_action("v3", &installed, false, true), CrdAction::Create);
    assert_eq!(prepare_crd_action("v3", &installed, false, false), CrdAction::Fail);
    assert_eq!(prepare_crd_action("v3", &installed, true, false), CrdAction::Patch);
    assert_eq!(prepare_crd_action("v2", &installed, true, false), CrdAction::Keep);
    assert_eq!(prepare_crd_action("v1", &installed, true, false), CrdAction::Fail);
    assert_eq!(prepare_crd_action("v1", &installed, true, true), CrdAction::Patch);
}

#[test]
fn merged_versions_append_once() {
    let installed = vec!["v1alpha1".to_owned(), "v1beta1".to_owned()];
    let merged = merged_version_names("v1", &installed);
    assert_eq!(merged, vec!["v1alpha1".to_owned(), "v1beta1".to_owned(), "v1".to_owned()]);
    let merged = merged_version_names("v1beta1", &installed);
    assert_eq!(merged, installed);
}
