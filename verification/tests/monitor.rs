use std::time::SystemTime;
use xline_operator::heartbeat::HeartbeatStatus;
use xline_operator::monitor::{
    count_of, get_reachable_counts, reachable_counts_within, ClusterSupervisor, SupervisorAction,
};

fn now_secs() -> u64 {
    SystemTime::now()
        .duration_since(SystemTime::UNIX_EPOCH)
        .unwrap()
        .as_secs()
}

#[test]
fn reachable_counts_should_be_correct() {
    let majority = 2;
    let heartbeat_period = 1;
    let id0 = "o0".to_owned();
    let id1 = "o1".to_owned();
    let id2 = "o2".to_owned();
    let cur_ts = now_secs();

    let statuses1 = vec![
        HeartbeatStatus::new("c1".to_owned(), id0.clone(), cur_ts, vec![]),
        HeartbeatStatus::new("c1".to_owned(), id1.clone(), cur_ts + 1, vec![]),
        HeartbeatStatus::new("c1".to_owned(), id1.clone(), cur_ts + 10, vec![]),
    ];

    assert!(
        get_reachable_counts(&statuses1, heartbeat_period, majority, now_secs()).is_none(),
        "the reachable status should not be accepted"
    );

    let statuses0 = vec![
        HeartbeatStatus::new(
            "c1".to_owned(),
            id0.clone(),
            cur_ts - 10,
            vec![id0.clone(), id1.clone(), id2.clone()],
        ),
        HeartbeatStatus::new(
            "c1".to_owned(),
            id1.clone(),
            cur_ts,
            vec![id1.clone(), id2.clone()],
        ),
        HeartbeatStatus::new(
            "c1".to_owned(),
            id1.clone(),
            cur_ts + 1,
            vec![id2.clone(), id0.clone(), id1.clone()],
        ),
    ];

    let counts = get_reachable_counts(&statuses0, heartbeat_period, majority, now_secs())
        .expect("the status not accepted");

    assert_eq!(count_of(&counts, &id0), 1);
    assert_eq!(count_of(&counts, &id1), 2);
    assert_eq!(count_of(&counts, &id2), 2);
}

#[test]
fn serious_clock_skew_should_be_detected() {
    let id0 = "o0".to_owned();
    let id1 = "o1".to_owned();
    let id2 = "o2".to_owned();

    let statuses = vec![
        HeartbeatStatus::new("c1".to_owned(), id0.clone(), 10, vec![id0.clone(), id1.clone()]),
        HeartbeatStatus::new("c1".to_owned(), id1.clone(), 10, vec![id0.clone(), id1.clone()]),
        HeartbeatStatus::new("c1".to_owned(), id1.clone(), 10, vec![id0, id2, id1]),
    ];

    assert!(
        get_reachable_counts(&statuses, 20, 2, now_secs()).is_none(),
        "Did you test it on the original computer?"
    );
}

#[test]
fn sidecar_state_reachable_counts_should_be_correct() {
    let majority = 2;
    let heartbeat_period = 1;
    let id0 = "o0".to_owned();
    let id1 = "o1".to_owned();
    let id2 = "o2".to_owned();

    let statuses1 = vec![
        HeartbeatStatus::new("c1".to_owned(), id0.clone(), 0, vec![]),
        HeartbeatStatus::new("c1".to_owned(), id1.clone(), 1, vec![]),
        HeartbeatStatus::new("c1".to_owned(), id1.clone(), 10, vec![]),
    ];

    assert!(
        reachable_counts_within(&statuses1, heartbeat_period, majority).is_none(),
        "the reachable status should not be accepted"
    );

    let statuses0 = vec![
        HeartbeatStatus::new(
            "c1".to_owned(),
            id0.clone(),
            0,
            vec![id0.clone(), id1.clone(), id2.clone()],
        ),
        HeartbeatStatus::new("c1".to_owned(), id1.clone(), 10, vec![id1.clone(), id2.clone()]),
        HeartbeatStatus::new(
            "c1".to_owned(),
            id1.clone(),
            11,
            vec![id2.clone(), id0.clone(), id1.clone()],
        ),
    ];

    let counts =
        reachable_counts_within(&statuses0, heartbeat_period, majority).expect("the status not accepted");

    assert_eq!(count_of(&counts, &id0), 1);
    assert_eq!(count_of(&counts, &id1), 2);
    assert_eq!(count_of(&counts, &id2), 2);
}

fn beat(name: &str, ts: u64, reachable: &[&str]) -> HeartbeatStatus {
    HeartbeatStatus::new(
        "c".to_owned(),
        name.to_owned(),
        ts,
        reachable.iter().map(|s| s.to_string()).collect(),
    )
}

#[test]
fn supervisor_deletes_unreachable_member_pod() {
    // From steady state, member c-1 stops answering: the two remaining
    // members report it unreachable, and the supervisor deletes its pod.
    let mut sup = ClusterSupervisor::new();
    let now = 1000;
    assert!(sup
        .handle_heartbeat(beat("c-0", now, &["c-0", "c-2"]), 3, 5, now, 4)
        .is_empty());
    let acts = sup.handle_heartbeat(beat("c-2", now + 1, &["c-2", "c-0"]), 3, 5, now + 1, 4);
    assert!(acts.contains(&SupervisorAction::DeletePod("c-1".to_owned())) == false);
    // c-1 is not yet tracked at all; once it has reported, its low count
    // gets its pod deleted.
    let acts = sup.handle_heartbeat(beat("c-1", now + 2, &["c-1"]), 3, 5, now + 2, 4);
    assert!(acts.contains(&SupervisorAction::DeletePod("c-1".to_owned())));
    // A majority-reachable member is never deleted.
    assert!(!acts.contains(&SupervisorAction::DeletePod("c-0".to_owned())));
    assert!(!acts.contains(&SupervisorAction::DeletePod("c-2".to_owned())));
}

#[test]
fn supervisor_suppresses_under_clock_skew() {
    let mut sup = ClusterSupervisor::new();
    // The heartbeat claims a time far from the supervisor's clock.
    let acts = sup.handle_heartbeat(beat("c-0", 10, &["c-0"]), 3, 2, 1000, 4);
    assert!(acts.is_empty());
}

#[test]
fn supervisor_requires_majority_of_accepted() {
    let mut sup = ClusterSupervisor::new();
    // A single accepted heartbeat out of three members is no majority.
    let acts = sup.handle_heartbeat(beat("c-0", 1000, &["c-0"]), 3, 2, 1000, 4);
    assert!(acts.is_empty());
}

#[test]
fn supervisor_gives_up_after_threshold() {
    let mut sup = ClusterSupervisor::new();
    let thresh = 2;
    let mut t = 1000;
    // Two members report, both seeing only themselves and each other is
    // missing: member "c-1" never reports and keeps a low count.
    let mut saw_delete = false;
    let mut saw_give_up = false;
    for _ in 0..6 {
        let acts = sup.handle_heartbeat(beat("c-0", t, &["c-0", "c-2"]), 3, 5, t, thresh);
        for a in &acts {
            match a {
                SupervisorAction::DeletePod(n) => {
                    if n == "c-1" {
                        saw_delete = true;
                    }
                }
                SupervisorAction::GiveUp(n) => {
                    if n == "c-1" {
                        saw_give_up = true;
                    }
                }
            }
        }
        let acts = sup.handle_heartbeat(beat("c-2", t + 1, &["c-2", "c-0"]), 3, 5, t + 1, thresh);
        for a in &acts {
            match a {
                SupervisorAction::DeletePod(n) => {
                    if n == "c-1" {
                        saw_delete = true;
                    }
                }
                SupervisorAction::GiveUp(n) => {
                    if n == "c-1" {
                        saw_give_up = true;
                    }
                }
            }
        }
        let acts = sup.handle_heartbeat(beat("c-1", t + 2, &["c-1"]), 3, 5, t + 2, thresh);
        for a in &acts {
            match a {
                SupervisorAction::DeletePod(n) => {
                    if n == "c-1" {
                        saw_delete = true;
                    }
                }
                SupervisorAction::GiveUp(n) => {
                    if n == "c-1" {
                        saw_give_up = true;
                    }
                }
            }
        }
        t += 10;
    }
    assert!(saw_delete);
    assert!(saw_give_up);
}

#[test]
fn out_of_order_heartbeats_keep_the_most_recent() {
    let mut sup = ClusterSupervisor::new();
    let _acts = sup.handle_heartbeat(beat("c-0", 1000, &["c-0"]), 3, 5, 1000, 4);
    // An older heartbeat of the same member arrives late.
    let _acts = sup.handle_heartbeat(beat("c-0", 990, &["c-0"]), 3, 5, 1000, 4);
    assert_eq!(sup.statuses.len(), 1);
    assert_eq!(sup.statuses[0].timestamp, 1000);
    // A newer one replaces it.
    let _acts = sup.handle_heartbeat(beat("c-0", 1010, &["c-0"]), 3, 5, 1010, 4);
    assert_eq!(sup.statuses[0].timestamp, 1010);
}
