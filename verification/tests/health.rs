use xline_operator::health::volume_verdict;

#[test]
fn volume_round_trip_verdict() {
    let text = "check".to_owned();
    assert!(volume_verdict(true, Some(&text), "check", true));
    assert!(!volume_verdict(false, Some(&text), "check", true));
    assert!(!volume_verdict(true, None, "check", true));
    assert!(!volume_verdict(true, Some(&text), "other", true));
    assert!(!volume_verdict(true, Some(&text), "check", false));
}
