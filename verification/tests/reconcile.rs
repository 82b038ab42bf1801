use xline_operator::reconcile::{
    any_probe_ok, install_plan, member_plan, offline_revision, reconcile_step, should_backup,
    start_members, stop_plan, InstallPlan, MemberPlan, ReconcileOp, ReconcilePlan,
};
use xline_operator::snapshot::Metadata;
use xline_operator::types::{State, StateStatus};

fn status(seeder: &str, start: usize, pending: usize, ok: usize) -> StateStatus {
    StateStatus {
        seeder: seeder.to_owned(),
        start_count: start,
        pending_count: pending,
        ok_count: ok,
    }
}

#[test]
fn healthy_running_publishes_ok() {
    let plan = reconcile_step(true, true, &status("c-0", 0, 0, 3), "c-1", 3, 2);
    assert_eq!(
        plan,
        ReconcilePlan {
            publish: State::OK,
            install_backup: false,
            op: ReconcileOp::Wait
        }
    );
}

#[test]
fn healthy_not_running_joins() {
    let plan = reconcile_step(true, false, &status("c-0", 0, 0, 2), "c-1", 3, 2);
    assert_eq!(plan.publish, State::Pending);
    assert_eq!(plan.op, ReconcileOp::Start);
}

#[test]
fn unhealthy_running_waits_on_quorum() {
    let plan = reconcile_step(false, true, &status("c-0", 0, 1, 2), "c-1", 3, 2);
    assert_eq!(plan.publish, State::Pending);
    assert_eq!(plan.op, ReconcileOp::Wait);
}

#[test]
fn quorum_loss_backs_up_then_stops() {
    // Two of three pods lost: the survivor sees an unhealthy cluster with
    // fewer than a majority of peers reporting OK.
    let plan = reconcile_step(false, true, &status("c-0", 0, 0, 1), "c-0", 3, 2);
    assert_eq!(plan.publish, State::Pending);
    assert_eq!(plan.op, ReconcileOp::BackupThenStop);
}

#[test]
fn cold_start_waits_for_all_then_seeder_seeds() {
    // Not all peers report Start yet: everyone waits; the non-seeder
    // installs the latest snapshot first.
    let plan = reconcile_step(false, false, &status("c-0", 2, 1, 0), "c-1", 3, 2);
    assert_eq!(plan.publish, State::Start);
    assert!(plan.install_backup);
    assert_eq!(plan.op, ReconcileOp::Wait);

    // All peers report Start: the seeder, and only the seeder, seeds.
    let all_start = status("c-0", 3, 0, 0);
    let seeder_plan = reconcile_step(false, false, &all_start, "c-0", 3, 2);
    assert!(!seeder_plan.install_backup);
    assert_eq!(seeder_plan.op, ReconcileOp::Seed);
    let other_plan = reconcile_step(false, false, &all_start, "c-1", 3, 2);
    assert_eq!(other_plan.op, ReconcileOp::Wait);
}

#[test]
fn start_members_seeds_alone_and_joins_peers() {
    let members = vec![
        ("c-0".to_owned(), "c-0:2379".to_owned()),
        ("c-1".to_owned(), "c-1:2379".to_owned()),
        ("c-2".to_owned(), "c-2:2379".to_owned()),
    ];
    // Cold bootstrap: no peer answers, so the member starts with itself
    // only and the cluster does not count as started.
    let (picked, started) = start_members(&members, "c-0", &vec![false, false, false]).unwrap();
    assert_eq!(picked, vec![("c-0".to_owned(), "c-0:2379".to_owned())]);
    assert!(!started);

    // One peer answers: it is included and the member joins.
    let (picked, started) = start_members(&members, "c-0", &vec![false, false, true]).unwrap();
    assert_eq!(
        picked,
        vec![
            ("c-0".to_owned(), "c-0:2379".to_owned()),
            ("c-2".to_owned(), "c-2:2379".to_owned()),
        ]
    );
    assert!(started);

    // A member table without the member itself is rejected.
    assert!(start_members(&members, "c-9", &vec![false, false, false]).is_none());
}

#[test]
fn member_plan_updates_or_adds() {
    let members = vec![("c-0".to_owned(), 7u64), ("c-1".to_owned(), 8u64)];
    assert_eq!(member_plan(true, &members, "c-1"), Some(MemberPlan::Update(8)));
    assert_eq!(member_plan(true, &members, "c-9"), Some(MemberPlan::Add));
    let single = vec![("c-0".to_owned(), 7u64)];
    assert_eq!(member_plan(false, &single, "c-0"), Some(MemberPlan::UseSingle(7)));
    assert_eq!(member_plan(false, &members, "c-0"), None);
}

#[test]
fn backup_defers_to_newer_remote() {
    assert!(should_backup(10, None));
    assert!(should_backup(10, Some(10)));
    assert!(should_backup(10, Some(9)));
    assert!(!should_backup(10, Some(11)));
}

#[test]
fn install_only_over_older_data() {
    let latest = Metadata {
        name: "c-0".to_owned(),
        revision: 10,
    };
    assert_eq!(install_plan(None, true, 5), InstallPlan::Skip);
    assert_eq!(install_plan(Some(&latest), false, 5), InstallPlan::CopyFresh);
    assert_eq!(install_plan(Some(&latest), true, 10), InstallPlan::Skip);
    assert_eq!(install_plan(Some(&latest), true, 5), InstallPlan::Replace);
}

#[test]
fn stop_removes_member_only_when_healthy() {
    assert_eq!(stop_plan(Some(9), true), Some((true, 9)));
    assert_eq!(stop_plan(Some(9), false), Some((false, 9)));
    assert_eq!(stop_plan(None, true), None);
}

#[test]
fn offline_revision_reads_big_endian_key() {
    assert_eq!(offline_revision(None), 1);
    let key = vec![0u8, 0, 0, 0, 0, 0, 0, 42];
    assert_eq!(offline_revision(Some(&key)), 42);
    let key = vec![0u8, 0, 0, 0, 1, 0, 0, 0, 99];
    assert_eq!(offline_revision(Some(&key)), 1 << 24);
    let key = vec![0xffu8; 8];
    assert_eq!(offline_revision(Some(&key)), -1);
}

#[test]
fn healthy_iff_any_probe_succeeds() {
    assert!(any_probe_ok(&vec![false, false, true]));
    assert!(!any_probe_ok(&vec![false, false, false]));
    assert!(!any_probe_ok(&vec![]));
}
