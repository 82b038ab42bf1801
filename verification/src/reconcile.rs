//! The sidecar reconcile state machine: from one observation of cluster
//! health, local process state and peer states, decide the one transition to
//! apply. Also the member-handle decisions that back it: whom to start with,
//! whether to back up, and whether to install a snapshot.

use crate::snapshot::Metadata;
use crate::text::str_eq;
use crate::types::{State, StateStatus};
use vstd::prelude::*;

verus! {

/// How often a health probe is retried before the cluster counts as
/// unhealthy.
pub const IS_HEALTHY_RETRIES: usize = 5;

/// The one effect a reconcile tick applies after publishing its state.
#[derive(Clone, Copy, Debug, PartialEq, Eq, Structural)]
pub enum ReconcileOp {
    /// Nothing to do, or waiting for peers.
    Wait,
    /// Start the managed process to join the running cluster.
    Start,
    /// Back up, then stop the managed process: quorum is lost.
    BackupThenStop,
    /// Seed the cold cluster: start as the designated seeder.
    Seed,
}

/// The decision of one reconcile tick.
#[derive(Clone, Debug, PartialEq, Eq)]
pub struct ReconcilePlan {
    /// The state to publish to peers.
    pub publish: State,
    /// Whether to install the latest snapshot before anything else.
    pub install_backup: bool,
    /// The effect to apply.
    pub op: ReconcileOp,
}

/// Whether a plan starts the managed process.
pub open spec fn plan_starts(p: ReconcilePlan) -> bool {
    p.op == ReconcileOp::Start || p.op == ReconcileOp::Seed
}

/// Whether a plan stops the managed process.
pub open spec fn plan_stops(p: ReconcilePlan) -> bool {
    p.op == ReconcileOp::BackupThenStop
}

/// Decide one reconcile tick from the observation:
///
/// | cluster healthy | process running | decision |
/// |---|---|---|
/// | yes | yes | publish `OK` |
/// | yes | no  | publish `Pending`, join |
/// | no  | yes | publish `Pending`; wait if a majority of peers are `OK`, else back up and stop |
/// | no  | no  | install the snapshot unless seeder; publish `Start`; seed once all peers report `Start`, seeder only |
pub fn reconcile_step(
    cluster_health: bool,
    xline_running: bool,
    status: &StateStatus,
    self_name: &str,
    cluster_size: usize,
    majority: usize,
) -> (r: ReconcilePlan)
    ensures
        r == spec_reconcile_step(
            cluster_health,
            xline_running,
            *status,
            self_name@,
            cluster_size,
            majority,
        ),
        cluster_health && xline_running ==> r == (ReconcilePlan {
            publish: State::OK,
            install_backup: false,
            op: ReconcileOp::Wait,
        }),
        cluster_health && !xline_running ==> r == (ReconcilePlan {
            publish: State::Pending,
            install_backup: false,
            op: ReconcileOp::Start,
        }),
        !cluster_health && xline_running && status.ok_count >= majority ==> r == (ReconcilePlan {
            publish: State::Pending,
            install_backup: false,
            op: ReconcileOp::Wait,
        }),
        !cluster_health && xline_running && status.ok_count < majority ==> r == (ReconcilePlan {
            publish: State::Pending,
            install_backup: false,
            op: ReconcileOp::BackupThenStop,
        }),
        !cluster_health && !xline_running ==> r == (ReconcilePlan {
            publish: State::Start,
            install_backup: status.seeder@ != self_name@,
            op: if status.seeder@ == self_name@ && status.start_count == cluster_size {
                ReconcileOp::Seed
            } else {
                ReconcileOp::Wait
            },
        }),
{
    if cluster_health {
        if xline_running {
            ReconcilePlan { publish: State::OK, install_backup: false, op: ReconcileOp::Wait }
        } else {
            ReconcilePlan {
                publish: State::Pending,
                install_backup: false,
                op: ReconcileOp::Start,
            }
        }
    } else {
        if xline_running {
            if status.ok_count >= majority {
                ReconcilePlan {
                    publish: State::Pending,
                    install_backup: false,
                    op: ReconcileOp::Wait,
                }
            } else {
                ReconcilePlan {
                    publish: State::Pending,
                    install_backup: false,
                    op: ReconcileOp::BackupThenStop,
                }
            }
        } else {
            let is_seeder = str_eq(status.seeder.as_str(), self_name);
            ReconcilePlan {
                publish: State::Start,
                install_backup: !is_seeder,
                op: if is_seeder && status.start_count == cluster_size {
                    ReconcileOp::Seed
                } else {
                    ReconcileOp::Wait
                },
            }
        }
    }
}

/// No single reconcile decision both starts and stops the managed process;
/// ticks are serialized, so a start is never in flight with a stop.
pub proof fn lemma_start_stop_exclusive(p: ReconcilePlan)
    ensures
        !(plan_starts(p) && plan_stops(p)),
{
}

/// At most one member seeds per recovery episode: two members that decide
/// over the same gathered peer view cannot both seed, whatever each
/// observed, unless they are the same member.
pub proof fn lemma_single_seeder(
    health_a: bool,
    running_a: bool,
    health_b: bool,
    running_b: bool,
    status: StateStatus,
    name_a: Seq<char>,
    name_b: Seq<char>,
    plan_a: ReconcilePlan,
    plan_b: ReconcilePlan,
    cluster_size: usize,
    majority: usize,
)
    requires
        name_a != name_b,
        plan_a == spec_reconcile_step(health_a, running_a, status, name_a, cluster_size, majority),
        plan_b == spec_reconcile_step(health_b, running_b, status, name_b, cluster_size, majority),
    ensures
        !(plan_a.op == ReconcileOp::Seed && plan_b.op == ReconcileOp::Seed),
{
}

/// The reconcile decision as a function of the observation: what
/// `reconcile_step` returns.
pub open spec fn spec_reconcile_step(
    cluster_health: bool,
    xline_running: bool,
    status: StateStatus,
    self_name: Seq<char>,
    cluster_size: usize,
    majority: usize,
) -> ReconcilePlan {
    if cluster_health {
        if xline_running {
            ReconcilePlan { publish: State::OK, install_backup: false, op: ReconcileOp::Wait }
        } else {
            ReconcilePlan { publish: State::Pending, install_backup: false, op: ReconcileOp::Start }
        }
    } else if xline_running {
        if status.ok_count >= majority {
            ReconcilePlan { publish: State::Pending, install_backup: false, op: ReconcileOp::Wait }
        } else {
            ReconcilePlan {
                publish: State::Pending,
                install_backup: false,
                op: ReconcileOp::BackupThenStop,
            }
        }
    } else {
        ReconcilePlan {
            publish: State::Start,
            install_backup: status.seeder@ != self_name,
            op: if status.seeder@ == self_name && status.start_count == cluster_size {
                ReconcileOp::Seed
            } else {
                ReconcileOp::Wait
            },
        }
    }
}

/// The members a starting process is handed: the member itself, plus every
/// peer whose test connection succeeded, in table order.
pub open spec fn spec_start_members(
    ms: Seq<(String, String)>,
    online: Seq<bool>,
    self_name: Seq<char>,
) -> Seq<(String, String)>
    decreases ms.len(),
{
    if ms.len() == 0 {
        Seq::<(String, String)>::empty()
    } else {
        spec_start_members(ms.drop_last(), online.drop_last(), self_name) + (if ms.last().0@
            == self_name || online[ms.len() - 1] {
            seq![ms.last()]
        } else {
            Seq::<(String, String)>::empty()
        })
    }
}

/// The set of members to hand to a starting process: the member itself,
/// plus every peer whose test connection succeeded. The second result says
/// whether any peer was reachable, which means the cluster is already
/// running and the member joins instead of seeding. A member table that
/// does not list the member itself is rejected.
pub fn start_members(
    members: &Vec<(String, String)>,
    self_name: &str,
    online: &Vec<bool>,
) -> (r: Option<(Vec<(String, String)>, bool)>)
    requires
        online@.len() == members@.len(),
    ensures
        match r {
            Some(plan) => {
                &&& exists|i: int|
                    0 <= i < members@.len() && (#[trigger] members@[i]).0@ == self_name@
                &&& plan.0@ == spec_start_members(members@, online@, self_name@)
                &&& plan.1 == exists|i: int|
                    0 <= i < members@.len() && (#[trigger] members@[i]).0@ != self_name@
                        && online@[i]
            },
            None => forall|i: int|
                0 <= i < members@.len() ==> (#[trigger] members@[i]).0@ != self_name@,
        },
{
    let mut found_self = false;
    let mut started = false;
    let mut picked: Vec<(String, String)> = Vec::new();
    let mut i: usize = 0;
    proof {
        assert(members@.take(0) =~= Seq::<(String, String)>::empty());
        assert(online@.take(0) =~= Seq::<bool>::empty());
    }
    while i < members.len()
        invariant
            0 <= i <= members@.len(),
            online@.len() == members@.len(),
            found_self == exists|j: int|
                0 <= j < i && (#[trigger] members@[j]).0@ == self_name@,
            started == exists|j: int|
                0 <= j < i && (#[trigger] members@[j]).0@ != self_name@ && online@[j],
            picked@ == spec_start_members(
                members@.take(i as int),
                online@.take(i as int),
                self_name@,
            ),
        decreases members@.len() - i,
    {
        proof {
            let tm = members@.take(i + 1);
            let to = online@.take(i + 1);
            assert(tm.drop_last() =~= members@.take(i as int));
            assert(to.drop_last() =~= online@.take(i as int));
            assert(tm.last() == members@[i as int]);
            assert(to[tm.len() - 1] == online@[i as int]);
        }
        let is_self = str_eq(members[i].0.as_str(), self_name);
        if is_self {
            found_self = true;
        }
        if is_self || online[i] {
            if !is_self && online[i] {
                started = true;
            }
            let entry = (members[i].0.clone(), members[i].1.clone());
            proof {
                assert(entry == members@[i as int]);
            }
            picked.push(entry);
        }
        proof {
            assert(picked@ =~= spec_start_members(
                members@.take(i + 1),
                online@.take(i + 1),
                self_name@,
            ));
        }
        i = i + 1;
    }
    proof {
        assert(members@.take(members@.len() as int) =~= members@);
        assert(online@.take(online@.len() as int) =~= online@);
    }
    if !found_self {
        return None;
    }
    Some((picked, started))
}

/// How a freshly started member obtains its server id from the cluster's
/// member list.
#[derive(Clone, Copy, Debug, PartialEq, Eq, Structural)]
pub enum MemberPlan {
    /// The member is already listed: update its host, keep the listed id.
    Update(u64),
    /// The member is not listed: add it and take the returned id.
    Add,
    /// The cluster was not running: the single listed member is itself.
    UseSingle(u64),
}

/// Decide how to register with the cluster after a start: when the cluster
/// was already running, update the own entry if present and add it
/// otherwise; when it was not, the member list must hold exactly the one
/// freshly seeded member.
#[verifier::loop_isolation(false)]
pub fn member_plan(
    cluster_started: bool,
    members: &Vec<(String, u64)>,
    self_name: &str,
) -> (r: Option<MemberPlan>)
    ensures
        match r {
            Some(plan) => match plan {
                MemberPlan::Update(id) => cluster_started && exists|i: int|
                    0 <= i < members@.len() && (#[trigger] members@[i]).0@ == self_name@
                        && members@[i].1 == id,
                MemberPlan::Add => cluster_started && forall|i: int|
                    0 <= i < members@.len() ==> (#[trigger] members@[i]).0@ != self_name@,
                MemberPlan::UseSingle(id) => !cluster_started && members@.len() == 1
                    && members@[0].1 == id,
            },
            None => !cluster_started && members@.len() != 1,
        },
{
    if cluster_started {
        let mut i: usize = 0;
        while i < members.len()
            invariant
                0 <= i <= members@.len(),
                forall|j: int| 0 <= j < i ==> (#[trigger] members@[j]).0@ != self_name@,
            decreases members@.len() - i,
        {
            if str_eq(members[i].0.as_str(), self_name) {
                let id = members[i].1;
                proof {
                    assert((members@[i as int]).0@ == self_name@);
                    assert(exists|j: int|
                        0 <= j < members@.len() && (#[trigger] members@[j]).0@ == self_name@
                            && members@[j].1 == id);
                }
                return Some(MemberPlan::Update(id));
            }
            i = i + 1;
        }
        Some(MemberPlan::Add)
    } else {
        if members.len() != 1 {
            None
        } else {
            Some(MemberPlan::UseSingle(members[0].1))
        }
    }
}

/// Whether the cluster counts as healthy after a round of probes: it is
/// exactly when any probe succeeded.
pub fn any_probe_ok(probes: &Vec<bool>) -> (r: bool)
    ensures
        r == exists|i: int| 0 <= i < probes@.len() && probes@[i],
{
    let mut i: usize = 0;
    while i < probes.len()
        invariant
            0 <= i <= probes@.len(),
            forall|j: int| 0 <= j < i ==> !probes@[j],
        decreases probes@.len() - i,
    {
        if probes[i] {
            return true;
        }
        i = i + 1;
    }
    false
}

/// Whether to take a snapshot: only when no stored snapshot is newer than
/// the live store — when the remote side is ahead, it is authoritative and
/// backing up would regress it.
pub fn should_backup(local_revision: i64, remote_revision: Option<i64>) -> (r: bool)
    ensures
        r == match remote_revision {
            Some(remote) => local_revision >= remote,
            None => true,
        },
{
    match remote_revision {
        Some(remote) => local_revision >= remote,
        None => true,
    }
}

/// What to do with the latest stored snapshot before starting from cold.
#[derive(Clone, Copy, Debug, PartialEq, Eq, Structural)]
pub enum InstallPlan {
    /// Leave the data directory as it is.
    Skip,
    /// No data directory yet: copy the snapshot in.
    CopyFresh,
    /// The snapshot is newer than the local data: erase and copy.
    Replace,
}

/// Decide whether to install the latest stored snapshot. The local data
/// directory is only ever erased when the snapshot's revision is strictly
/// newer than the revision on disk. The managed process must be stopped.
pub fn install_plan(
    latest: Option<&Metadata>,
    data_dir_exists: bool,
    offline_revision: i64,
) -> (r: InstallPlan)
    ensures
        latest is None ==> r == InstallPlan::Skip,
        latest is Some && !data_dir_exists ==> r == InstallPlan::CopyFresh,
        latest is Some && data_dir_exists && latest->Some_0.revision <= offline_revision ==> r
            == InstallPlan::Skip,
        latest is Some && data_dir_exists && latest->Some_0.revision > offline_revision ==> r
            == InstallPlan::Replace,
{
    match latest {
        None => InstallPlan::Skip,
        Some(meta) => {
            if !data_dir_exists {
                InstallPlan::CopyFresh
            } else if meta.revision <= offline_revision {
                InstallPlan::Skip
            } else {
                InstallPlan::Replace
            }
        },
    }
}

/// How to stop: a member still part of a healthy cluster first removes
/// itself, then the process is killed; one that was never started cannot
/// stop.
pub fn stop_plan(server_id: Option<u64>, cluster_healthy: bool) -> (r: Option<(bool, u64)>)
    ensures
        match r {
            Some(p) => server_id == Some(p.1) && p.0 == cluster_healthy,
            None => server_id is None,
        },
{
    match server_id {
        Some(id) => Some((cluster_healthy, id)),
        None => None,
    }
}

/// The unsigned big-endian value of eight bytes.
pub open spec fn be_u64(b: Seq<u8>) -> int
    decreases b.len(),
{
    if b.len() == 0 {
        0
    } else {
        be_u64(b.drop_last()) * 256 + b.last()
    }
}

/// The signed big-endian value of eight bytes, in two's complement.
pub open spec fn be_i64(b: Seq<u8>) -> int {
    if be_u64(b) >= 0x8000_0000_0000_0000 {
        be_u64(b) - 0x1_0000_0000_0000_0000
    } else {
        be_u64(b)
    }
}

/// 256 raised to a small power.
pub open spec fn pow256(k: int) -> int
    decreases k,
{
    if k <= 0 {
        1
    } else {
        256 * pow256(k - 1)
    }
}

/// The store's revision as encoded in the last key of its key-value table:
/// the first eight bytes, big-endian; revision 1 when the table is empty.
/// Reading it is only sound while the managed process is stopped.
pub fn offline_revision(last_key: Option<&Vec<u8>>) -> (r: i64)
    requires
        match last_key {
            Some(k) => k@.len() >= 8,
            None => true,
        },
    ensures
        match last_key {
            Some(k) => r as int == be_i64(k@.take(8)),
            None => r == 1,
        },
{
    let key = match last_key {
        Some(k) => k,
        None => {
            return 1;
        },
    };
    let ghost prefix = key@.take(8);
    let mut acc: u64 = 0;
    let mut i: usize = 0;
    proof {
        assert(prefix.take(0) =~= Seq::<u8>::empty());
        assert(pow256(0) == 1);
    }
    while i < 8
        invariant
            0 <= i <= 8,
            prefix == key@.take(8),
            key@.len() >= 8,
            acc as int == be_u64(prefix.take(i as int)),
            (acc as int) < pow256(i as int),
        decreases 8 - i,
    {
        proof {
            let t = prefix.take(i + 1);
            assert(t.drop_last() =~= prefix.take(i as int));
            assert(t.last() == prefix[i as int]);
            assert(prefix[i as int] == key@[i as int]);
            assert(pow256(i + 1) == 256 * pow256(i as int));
            assert((acc as int) * 256 + 256 <= pow256(i as int) * 256) by (nonlinear_arith)
                requires
                    (acc as int) < pow256(i as int),
            ;
            assert(pow256(i as int) <= pow256(7)) by {
                lemma_pow256_mono(i as int, 7);
            }
            assert(pow256(0) == 1);
            assert(pow256(1) == 256);
            assert(pow256(2) == 65536);
            assert(pow256(3) == 16777216);
            assert(pow256(4) == 4294967296);
            assert(pow256(5) == 1099511627776);
            assert(pow256(6) == 281474976710656);
            assert(pow256(7) == 72057594037927936);
        }
        acc = acc * 256 + key[i] as u64;
        i = i + 1;
    }
    proof {
        assert(prefix.take(8) =~= prefix);
    }
    if acc <= i64::MAX as u64 {
        acc as i64
    } else {
        -((u64::MAX - acc) as i64) - 1
    }
}

/// Powers of 256 grow with the exponent.
proof fn lemma_pow256_mono(a: int, b: int)
    requires
        a <= b,
    ensures
        pow256(a) <= pow256(b),
    decreases b - a,
{
    if a < b {
        if b <= 0 {
        } else {
            lemma_pow256_mono(a, b - 1);
            assert(pow256(b) == 256 * pow256(b - 1));
            assert(pow256(b - 1) >= 1) by {
                lemma_pow256_pos(b - 1);
            }
        }
    }
}

/// Powers of 256 are positive.
proof fn lemma_pow256_pos(k: int)
    ensures
        pow256(k) >= 1,
    decreases (if k > 0 {
        k
    } else {
        0
    }),
{
    if k > 0 {
        lemma_pow256_pos(k - 1);
    }
}

} // verus!
