//! The fleet supervisor: ingests heartbeats, computes per-member
//! reachability over the accepted, time-proximate reports, and decides which
//! member pods to delete so the platform recreates them.

use crate::heartbeat::HeartbeatStatus;
use crate::text::str_eq;
use vstd::prelude::*;

verus! {

/// The greatest timestamp among a set of heartbeats; 0 when there are none.
pub open spec fn latest_ts(ss: Seq<HeartbeatStatus>) -> int
    decreases ss.len(),
{
    if ss.len() == 0 {
        0
    } else {
        let rest = latest_ts(ss.drop_last());
        if ss.last().timestamp as int > rest {
            ss.last().timestamp as int
        } else {
            rest
        }
    }
}

/// A heartbeat is accepted when its timestamp lies within the heartbeat
/// period of the latest timestamp.
pub open spec fn accepted(s: HeartbeatStatus, latest: int, period: int) -> bool {
    s.timestamp + period >= latest
}

/// How many heartbeats are accepted.
pub open spec fn accepted_count(ss: Seq<HeartbeatStatus>, latest: int, period: int) -> int
    decreases ss.len(),
{
    if ss.len() == 0 {
        0
    } else {
        accepted_count(ss.drop_last(), latest, period) + if accepted(ss.last(), latest, period) {
            1int
        } else {
            0int
        }
    }
}

/// Whether a name appears in a list of names.
pub open spec fn contains_name(names: Seq<String>, name: Seq<char>) -> bool {
    exists|j: int| 0 <= j < names.len() && names[j]@ == name
}

/// How many accepted heartbeats report the named member as reachable.
pub open spec fn reachable_count(
    ss: Seq<HeartbeatStatus>,
    latest: int,
    period: int,
    name: Seq<char>,
) -> int
    decreases ss.len(),
{
    if ss.len() == 0 {
        0
    } else {
        reachable_count(ss.drop_last(), latest, period, name) + if accepted(
            ss.last(),
            latest,
            period,
        ) && contains_name(ss.last().reachable@, name) {
            1int
        } else {
            0int
        }
    }
}

/// Reachability counts never exceed the accepted count, which never exceeds
/// the number of heartbeats.
pub proof fn lemma_count_bounds(ss: Seq<HeartbeatStatus>, latest: int, period: int, name: Seq<char>)
    ensures
        0 <= reachable_count(ss, latest, period, name) <= accepted_count(ss, latest, period)
            <= ss.len(),
    decreases ss.len(),
{
    if ss.len() > 0 {
        lemma_count_bounds(ss.drop_last(), latest, period, name);
    }
}

/// Whether a name is listed among the count entries.
pub open spec fn listed(counts: Seq<(String, u64)>, name: Seq<char>) -> bool {
    exists|k: int| 0 <= k < counts.len() && counts[k].0@ == name
}

/// The greatest timestamp among the given heartbeats.
pub fn latest_timestamp(statuses: &Vec<HeartbeatStatus>) -> (r: Option<u64>)
    ensures
        statuses@.len() == 0 <==> r is None,
        r is Some ==> r->Some_0 as int == latest_ts(statuses@),
{
    if statuses.len() == 0 {
        return None;
    }
    let mut best: u64 = 0;
    let mut i: usize = 0;
    proof {
        assert(statuses@.take(0) =~= Seq::<HeartbeatStatus>::empty());
    }
    while i < statuses.len()
        invariant
            0 <= i <= statuses@.len(),
            best as int == latest_ts(statuses@.take(i as int)),
        decreases statuses@.len() - i,
    {
        proof {
            let t = statuses@.take(i + 1);
            assert(t.drop_last() =~= statuses@.take(i as int));
            assert(t.last() == statuses@[i as int]);
        }
        if statuses[i].timestamp > best {
            best = statuses[i].timestamp;
        }
        i = i + 1;
    }
    proof {
        assert(statuses@.take(statuses@.len() as int) =~= statuses@);
    }
    Some(best)
}

/// Count the accepted heartbeats.
fn count_accepted(statuses: &Vec<HeartbeatStatus>, latest: u64, period: u64) -> (r: usize)
    ensures
        r as int == accepted_count(statuses@, latest as int, period as int),
{
    let mut n: usize = 0;
    let mut i: usize = 0;
    proof {
        assert(statuses@.take(0) =~= Seq::<HeartbeatStatus>::empty());
        lemma_accepted_count_bounds(statuses@, latest as int, period as int);
    }
    while i < statuses.len()
        invariant
            0 <= i <= statuses@.len(),
            n as int == accepted_count(statuses@.take(i as int), latest as int, period as int),
            n <= i,
        decreases statuses@.len() - i,
    {
        proof {
            let t = statuses@.take(i + 1);
            assert(t.drop_last() =~= statuses@.take(i as int));
            assert(t.last() == statuses@[i as int]);
        }
        let s = &statuses[i];
        if period >= latest || s.timestamp >= latest - period {
            n = n + 1;
        }
        i = i + 1;
    }
    proof {
        assert(statuses@.take(statuses@.len() as int) =~= statuses@);
    }
    n
}

/// The accepted count never exceeds the number of heartbeats.
proof fn lemma_accepted_count_bounds(ss: Seq<HeartbeatStatus>, latest: int, period: int)
    ensures
        0 <= accepted_count(ss, latest, period) <= ss.len(),
    decreases ss.len(),
{
    if ss.len() > 0 {
        lemma_accepted_count_bounds(ss.drop_last(), latest, period);
    }
}

/// Whether a list of names holds the given name.
fn names_contain(names: &Vec<String>, name: &str) -> (r: bool)
    ensures
        r == contains_name(names@, name@),
{
    let mut j: usize = 0;
    while j < names.len()
        invariant
            0 <= j <= names@.len(),
            forall|k: int| 0 <= k < j ==> names@[k]@ != name@,
        decreases names@.len() - j,
    {
        if str_eq(names[j].as_str(), name) {
            return true;
        }
        j = j + 1;
    }
    false
}

/// Count the accepted heartbeats that report the named member reachable.
pub fn count_reachable_for(
    statuses: &Vec<HeartbeatStatus>,
    latest: u64,
    period: u64,
    name: &str,
) -> (r: u64)
    ensures
        r as int == reachable_count(statuses@, latest as int, period as int, name@),
{
    let mut n: u64 = 0;
    let mut i: usize = 0;
    proof {
        assert(statuses@.take(0) =~= Seq::<HeartbeatStatus>::empty());
    }
    while i < statuses.len()
        invariant
            0 <= i <= statuses@.len(),
            n as int == reachable_count(
                statuses@.take(i as int),
                latest as int,
                period as int,
                name@,
            ),
            n <= i,
        decreases statuses@.len() - i,
    {
        proof {
            let t = statuses@.take(i + 1);
            assert(t.drop_last() =~= statuses@.take(i as int));
            assert(t.last() == statuses@[i as int]);
        }
        let s = &statuses[i];
        if (period >= latest || s.timestamp >= latest - period) && names_contain(
            &s.reachable,
            name,
        ) {
            n = n + 1;
        }
        i = i + 1;
    }
    proof {
        assert(statuses@.take(statuses@.len() as int) =~= statuses@);
    }
    n
}

/// What a correct counts map promises: every entry carries the exact
/// reachable count of its name, every name reported reachable by an
/// accepted heartbeat is listed, and no name is listed twice.
pub open spec fn counts_correct(
    counts: Seq<(String, u64)>,
    ss: Seq<HeartbeatStatus>,
    latest: int,
    period: int,
) -> bool {
    &&& forall|k: int|
        0 <= k < counts.len() ==> (#[trigger] counts[k]).1 as int == reachable_count(
            ss,
            latest,
            period,
            counts[k].0@,
        )
    &&& forall|i: int, j: int|
        0 <= i < ss.len() && accepted(#[trigger] ss[i], latest, period) && 0 <= j
            < ss[i].reachable@.len() ==> listed(counts, #[trigger] ss[i].reachable@[j]@)
    &&& forall|k1: int, k2: int|
        0 <= k1 < k2 < counts.len() ==> (#[trigger] counts[k1]).0@ != (
        #[trigger] counts[k2]).0@
}

/// Compute the per-member reachability counts over the accepted heartbeats;
/// nothing when there are no heartbeats or fewer than `majority` of them
/// are accepted.
pub fn reachable_counts_within(
    statuses: &Vec<HeartbeatStatus>,
    heartbeat_period: u64,
    majority: usize,
) -> (r: Option<Vec<(String, u64)>>)
    ensures
        r is None <==> (statuses@.len() == 0 || accepted_count(
            statuses@,
            latest_ts(statuses@),
            heartbeat_period as int,
        ) < majority),
        r is Some ==> counts_correct(
            r->Some_0@,
            statuses@,
            latest_ts(statuses@),
            heartbeat_period as int,
        ),
{
    let latest = match latest_timestamp(statuses) {
        Some(l) => l,
        None => {
            return None;
        },
    };
    if count_accepted(statuses, latest, heartbeat_period) < majority {
        return None;
    }
    let ghost ss = statuses@;
    let ghost glatest = latest_ts(statuses@);
    let ghost period = heartbeat_period as int;
    // First, the distinct names that any accepted heartbeat reports.
    let mut names: Vec<String> = Vec::new();
    let mut i: usize = 0;
    while i < statuses.len()
        invariant
            0 <= i <= ss.len(),
            ss == statuses@,
            glatest == latest_ts(statuses@),
            period == heartbeat_period as int,
            latest as int == glatest,
            forall|a: int, b: int|
                0 <= a < i && accepted(#[trigger] ss[a], glatest, period) && 0 <= b
                    < ss[a].reachable@.len() ==> contains_name(
                    names@,
                    #[trigger] ss[a].reachable@[b]@,
                ),
            forall|k1: int, k2: int|
                0 <= k1 < k2 < names@.len() ==> (#[trigger] names@[k1])@ != (
                #[trigger] names@[k2])@,
        decreases ss.len() - i,
    {
        let s = &statuses[i];
        if period_accepts(s.timestamp, latest, heartbeat_period) {
            let mut j: usize = 0;
            while j < s.reachable.len()
                invariant
                    0 <= j <= s.reachable@.len(),
                    s == &statuses@[i as int],
                    0 <= i < ss.len(),
                    ss == statuses@,
                    forall|a: int, b: int|
                        0 <= a < i && accepted(#[trigger] ss[a], glatest, period) && 0 <= b
                            < ss[a].reachable@.len() ==> contains_name(
                            names@,
                            #[trigger] ss[a].reachable@[b]@,
                        ),
                    forall|b: int|
                        0 <= b < j ==> contains_name(names@, #[trigger] s.reachable@[b]@),
                    forall|k1: int, k2: int|
                        0 <= k1 < k2 < names@.len() ==> (#[trigger] names@[k1])@ != (
                        #[trigger] names@[k2])@,
                decreases s.reachable@.len() - j,
            {
                let nm = &s.reachable[j];
                let ghost pre = names@;
                let present = names_contain(&names, nm.as_str());
                if !present {
                    let entry = nm.clone();
                    proof {
                        assert(entry@ == s.reachable@[j as int]@);
                    }
                    names.push(entry);
                }
                proof {
                    assert forall|n: Seq<char>| contains_name(pre, n) implies contains_name(
                        names@,
                        n,
                    ) by {
                        let q = choose|q: int| 0 <= q < pre.len() && pre[q]@ == n;
                        assert(names@[q]@ == n);
                    }
                    if present {
                        assert(contains_name(names@, s.reachable@[j as int]@));
                    } else {
                        assert(names@[names@.len() - 1]@ == s.reachable@[j as int]@);
                        assert(contains_name(names@, s.reachable@[j as int]@));
                        assert(forall|k: int| 0 <= k < pre.len() ==> (#[trigger] pre[k])@ != nm@);
                    }
                }
                j = j + 1;
            }
        }
        i = i + 1;
    }
    // Then one exact count per name.
    let mut counts: Vec<(String, u64)> = Vec::new();
    let mut k: usize = 0;
    while k < names.len()
        invariant
            0 <= k <= names@.len(),
            ss == statuses@,
            glatest == latest_ts(statuses@),
            period == heartbeat_period as int,
            latest as int == glatest,
            counts@.len() == k,
            forall|q: int| 0 <= q < k ==> (#[trigger] counts@[q]).0@ == names@[q]@,
            forall|q: int|
                0 <= q < k ==> (#[trigger] counts@[q]).1 as int == reachable_count(
                    ss,
                    glatest,
                    period,
                    counts@[q].0@,
                ),
            forall|k1: int, k2: int|
                0 <= k1 < k2 < names@.len() ==> (#[trigger] names@[k1])@ != (
                #[trigger] names@[k2])@,
        decreases names@.len() - k,
    {
        let nm = names[k].clone();
        proof {
            assert(nm@ == names@[k as int]@);
        }
        let c = count_reachable_for(statuses, latest, heartbeat_period, nm.as_str());
        counts.push((nm, c));
        k = k + 1;
    }
    proof {
        assert(forall|a: int, b: int|
            0 <= a < ss.len() && accepted(#[trigger] ss[a], glatest, period) && 0 <= b
                < ss[a].reachable@.len() ==> listed(counts@, #[trigger] ss[a].reachable@[b]@))
            by {
            assert(forall|n: Seq<char>|
                contains_name(names@, n) ==> listed(counts@, n)) by {
                assert forall|n: Seq<char>| contains_name(names@, n) implies listed(
                    counts@,
                    n,
                ) by {
                    let j = choose|j: int| 0 <= j < names@.len() && names@[j]@ == n;
                    assert(counts@[j].0@ == n);
                }
            }
        }
    }
    Some(counts)
}

/// Whether a heartbeat's timestamp lies within the period of the latest.
fn period_accepts(timestamp: u64, latest: u64, period: u64) -> (r: bool)
    ensures
        r == (timestamp + period >= latest),
{
    period >= latest || timestamp >= latest - period
}

/// Compute the reachability counts as `reachable_counts_within`, but first
/// suppress the whole round when the supervisor's own clock and the latest
/// heartbeat disagree by more than the heartbeat period — under gross clock
/// skew the reports prove nothing.
pub fn get_reachable_counts(
    statuses: &Vec<HeartbeatStatus>,
    heartbeat_period: u64,
    majority: usize,
    now_ts: u64,
) -> (r: Option<Vec<(String, u64)>>)
    ensures
        r is None <==> (statuses@.len() == 0 || clock_skewed(
            now_ts as int,
            latest_ts(statuses@),
            heartbeat_period as int,
        ) || accepted_count(statuses@, latest_ts(statuses@), heartbeat_period as int)
            < majority),
        r is Some ==> counts_correct(
            r->Some_0@,
            statuses@,
            latest_ts(statuses@),
            heartbeat_period as int,
        ),
{
    let latest = match latest_timestamp(statuses) {
        Some(l) => l,
        None => {
            return None;
        },
    };
    let diff = if now_ts >= latest {
        now_ts - latest
    } else {
        latest - now_ts
    };
    if diff > heartbeat_period {
        return None;
    }
    reachable_counts_within(statuses, heartbeat_period, majority)
}

/// Whether two clock readings disagree by more than the heartbeat period.
pub open spec fn clock_skewed(now: int, latest: int, period: int) -> bool {
    (if now >= latest {
        now - latest
    } else {
        latest - now
    }) > period
}

/// Look a name up in a counts map: its count, or 0 when it is not listed.
pub fn count_of(counts: &Vec<(String, u64)>, name: &str) -> (r: u64)
    ensures
        listed(counts@, name@) ==> exists|k: int|
            0 <= k < counts@.len() && (#[trigger] counts@[k]).0@ == name@ && r == counts@[k].1,
        !listed(counts@, name@) ==> r == 0,
{
    let mut k: usize = 0;
    while k < counts.len()
        invariant
            0 <= k <= counts@.len(),
            forall|q: int| 0 <= q < k ==> (#[trigger] counts@[q]).0@ != name@,
        decreases counts@.len() - k,
    {
        if str_eq(counts[k].0.as_str(), name) {
            return counts[k].1;
        }
        k = k + 1;
    }
    0
}

/// If some accepted heartbeat reports the name reachable, it is reported by
/// a concrete one.
pub proof fn lemma_reachable_count_witness(
    ss: Seq<HeartbeatStatus>,
    latest: int,
    period: int,
    name: Seq<char>,
)
    requires
        reachable_count(ss, latest, period, name) > 0,
    ensures
        exists|i: int|
            0 <= i < ss.len() && accepted(#[trigger] ss[i], latest, period) && contains_name(
                ss[i].reachable@,
                name,
            ),
    decreases ss.len(),
{
    if ss.len() > 0 {
        if accepted(ss.last(), latest, period) && contains_name(ss.last().reachable@, name) {
            assert(ss[ss.len() - 1] == ss.last());
        } else {
            lemma_reachable_count_witness(ss.drop_last(), latest, period, name);
            let i = choose|i: int|
                0 <= i < ss.drop_last().len() && accepted(
                    #[trigger] ss.drop_last()[i],
                    latest,
                    period,
                ) && contains_name(ss.drop_last()[i].reachable@, name);
            assert(ss[i] == ss.drop_last()[i]);
        }
    }
}

/// How two heartbeats of one member reconcile: the one with the greater
/// timestamp wins; on a tie the newly arrived one wins.
pub open spec fn merge_status(cur: HeartbeatStatus, st: HeartbeatStatus) -> HeartbeatStatus {
    if st.timestamp >= cur.timestamp {
        st
    } else {
        cur
    }
}

/// Reconcile a heartbeat into the table: the member's entry keeps the most
/// recent heartbeat by timestamp; a member without an entry is added.
pub open spec fn upsert_status(ss: Seq<HeartbeatStatus>, st: HeartbeatStatus) -> Seq<
    HeartbeatStatus,
>
    decreases ss.len(),
{
    if ss.len() == 0 {
        seq![st]
    } else if ss[0].name@ == st.name@ {
        seq![merge_status(ss[0], st)] + ss.drop_first()
    } else {
        seq![ss[0]] + upsert_status(ss.drop_first(), st)
    }
}

/// When the member is present, upserting reconciles its entry in place.
proof fn lemma_upsert_found(ss: Seq<HeartbeatStatus>, st: HeartbeatStatus, k: int)
    requires
        0 <= k < ss.len(),
        ss[k].name@ == st.name@,
        forall|j: int| 0 <= j < k ==> (#[trigger] ss[j]).name@ != st.name@,
    ensures
        upsert_status(ss, st) =~= ss.update(k, merge_status(ss[k], st)),
    decreases k,
{
    if k == 0 {
        assert(upsert_status(ss, st) =~= seq![merge_status(ss[0], st)] + ss.drop_first());
    } else {
        let t = ss.drop_first();
        assert(forall|j: int| 0 <= j < k - 1 ==> (#[trigger] t[j]).name@ != st.name@) by {
            assert(forall|j: int| 0 <= j < k - 1 ==> t[j] == ss[j + 1]);
        }
        assert(t[k - 1] == ss[k]);
        lemma_upsert_found(t, st, k - 1);
        assert(upsert_status(ss, st) =~= seq![ss[0]] + t.update(k - 1, merge_status(ss[k], st)));
    }
}

/// When the member is absent, upserting appends its heartbeat.
proof fn lemma_upsert_absent(ss: Seq<HeartbeatStatus>, st: HeartbeatStatus)
    requires
        forall|j: int| 0 <= j < ss.len() ==> (#[trigger] ss[j]).name@ != st.name@,
    ensures
        upsert_status(ss, st) =~= ss.push(st),
    decreases ss.len(),
{
    if ss.len() > 0 {
        let t = ss.drop_first();
        assert(forall|j: int| 0 <= j < t.len() ==> (#[trigger] t[j]).name@ != st.name@) by {
            assert(forall|j: int| 0 <= j < t.len() ==> t[j] == ss[j + 1]);
        }
        lemma_upsert_absent(t, st);
        assert(upsert_status(ss, st) =~= seq![ss[0]] + t.push(st));
    }
}

/// What the supervisor decides to do about one member.
#[derive(Clone, Debug, PartialEq, Eq)]
pub enum SupervisorAction {
    /// Delete the member's pod so the platform recreates it.
    DeletePod(String),
    /// Recovery attempts are exhausted: stop tracking the member.
    GiveUp(String),
}

/// Whether a member is listed in the heartbeat table.
pub open spec fn has_member(ss: Seq<HeartbeatStatus>, n: Seq<char>) -> bool {
    exists|i: int| 0 <= i < ss.len() && (#[trigger] ss[i]).name@ == n
}

/// Whether the exact heartbeat record is in the table.
pub open spec fn has_record(ss: Seq<HeartbeatStatus>, st: HeartbeatStatus) -> bool {
    exists|j: int| 0 <= j < ss.len() && (#[trigger] ss[j]) == st
}

/// The member an action names.
pub open spec fn act_member(a: SupervisorAction) -> Seq<char> {
    match a {
        SupervisorAction::DeletePod(n) => n@,
        SupervisorAction::GiveUp(n) => n@,
    }
}

/// Whether a member is listed in a failure-counter table.
pub open spec fn table_has(u: Seq<(String, u64)>, n: Seq<char>) -> bool {
    exists|j: int| 0 <= j < u.len() && (#[trigger] u[j]).0@ == n
}

/// Whether a member is listed with the given counter value.
pub open spec fn table_has_at(u: Seq<(String, u64)>, n: Seq<char>, c: u64) -> bool {
    exists|j: int| 0 <= j < u.len() && (#[trigger] u[j]).0@ == n && u[j].1 == c
}

/// The counter a failure table holds for a member; 0 when it is not listed.
pub open spec fn counter_of(u: Seq<(String, u64)>, n: Seq<char>) -> u64
    decreases u.len(),
{
    if u.len() == 0 {
        0
    } else if u[0].0@ == n {
        u[0].1
    } else {
        counter_of(u.drop_first(), n)
    }
}

/// No two entries of a failure table name the same member.
pub open spec fn names_distinct(u: Seq<(String, u64)>) -> bool {
    forall|i: int, j: int| 0 <= i < j < u.len() ==> (#[trigger] u[i]).0@ != (#[trigger] u[j]).0@
}

/// In a distinct table, the counter is the one at any matching index.
proof fn lemma_counter_at(u: Seq<(String, u64)>, n: Seq<char>, k: int)
    requires
        0 <= k < u.len(),
        u[k].0@ == n,
        names_distinct(u),
    ensures
        counter_of(u, n) == u[k].1,
        table_has(u, n),
    decreases k,
{
    if k == 0 {
    } else {
        let t = u.drop_first();
        assert(u[0].0@ != n);
        assert(forall|i: int, j: int|
            0 <= i < j < t.len() ==> (#[trigger] t[i]).0@ != (#[trigger] t[j]).0@) by {
            assert(forall|i: int| 0 <= i < t.len() ==> t[i] == u[i + 1]);
        }
        assert(t[k - 1] == u[k]);
        lemma_counter_at(t, n, k - 1);
    }
}

/// A raised failure counter; it stops at the greatest representable value.
pub open spec fn bump(c: u64) -> u64 {
    if c < u64::MAX {
        (c + 1) as u64
    } else {
        c
    }
}

/// Whether the result holds a pod deletion for the member.
pub open spec fn has_delete(acts: Seq<SupervisorAction>, n: Seq<char>) -> bool {
    exists|k: int|
        0 <= k < acts.len() && (#[trigger] acts[k]) is DeletePod && acts[k]->DeletePod_0@ == n
}

/// Whether the result gives the member up.
pub open spec fn has_give_up(acts: Seq<SupervisorAction>, n: Seq<char>) -> bool {
    exists|k: int|
        0 <= k < acts.len() && (#[trigger] acts[k]) is GiveUp && acts[k]->GiveUp_0@ == n
}

/// Whether an active round gives the member up: reported reachable by
/// fewer than a majority while already listed, with its raised counter
/// reaching the threshold.
pub open spec fn gives_up(
    cnt: int,
    majority: int,
    old_u: Seq<(String, u64)>,
    thresh: u64,
    n: Seq<char>,
) -> bool {
    cnt < majority && table_has(old_u, n) && bump(counter_of(old_u, n)) == thresh
}

/// What an active supervisor round owes for one member, reported reachable
/// by `cnt` of the accepted heartbeats, against the failure table `old_u`
/// as the round began: a first offender has its pod deleted and a counter
/// seeded at 0; a listed offender has its counter raised, and leaves both
/// tables with a give-up once the raised counter reaches the threshold; a
/// member at or above the majority leaves tracking; everyone else keeps a
/// heartbeat entry.
pub open spec fn member_verdict(
    n: Seq<char>,
    cnt: int,
    majority: int,
    old_u: Seq<(String, u64)>,
    thresh: u64,
    acts: Seq<SupervisorAction>,
    new_u: Seq<(String, u64)>,
    new_ss: Seq<HeartbeatStatus>,
) -> bool {
    let was = table_has(old_u, n);
    let raised = bump(counter_of(old_u, n));
    &&& (cnt < majority && !was ==> has_delete(acts, n) && table_has_at(new_u, n, 0))
    &&& (cnt < majority && was && raised == thresh ==> has_give_up(acts, n) && !table_has(new_u, n)
        && !has_member(new_ss, n))
    &&& (cnt < majority && was && raised != thresh ==> table_has_at(new_u, n, raised))
    &&& (cnt >= majority ==> !table_has(new_u, n))
    &&& (!gives_up(cnt, majority, old_u, thresh, n) ==> has_member(new_ss, n))
}

/// The supervisor's state for one cluster: the most recent heartbeat of
/// each member, and a counter of failed recovery attempts per unreachable
/// member.
pub struct ClusterSupervisor {
    /// The most recent heartbeat of each member, at most one per member.
    pub statuses: Vec<HeartbeatStatus>,
    /// Failed recovery attempts per member currently deemed unreachable.
    pub unreachable: Vec<(String, u64)>,
}

impl ClusterSupervisor {
    /// Each member appears at most once in either table.
    pub open spec fn wf(self) -> bool {
        &&& forall|i: int, j: int|
            0 <= i < j < self.statuses@.len() ==> (#[trigger] self.statuses@[i]).name@ != (
            #[trigger] self.statuses@[j]).name@
        &&& names_distinct(self.unreachable@)
    }

    /// A supervisor that has seen nothing yet.
    pub fn new() -> (r: ClusterSupervisor)
        ensures
            r.wf(),
            r.statuses@.len() == 0,
            r.unreachable@.len() == 0,
    {
        ClusterSupervisor { statuses: Vec::new(), unreachable: Vec::new() }
    }

    /// Store a heartbeat: the member's entry keeps the most recent
    /// heartbeat by timestamp, so an out-of-order arrival never replaces a
    /// newer one.
    #[verifier::loop_isolation(false)]
    fn store(&mut self, status: HeartbeatStatus)
        requires
            old(self).wf(),
        ensures
            final(self).wf(),
            final(self).statuses@ == upsert_status(old(self).statuses@, status),
            final(self).unreachable@ == old(self).unreachable@,
    {
        let ghost pre = self.statuses@;
        let mut k: usize = 0;
        let n = self.statuses.len();
        while k < n
            invariant
                0 <= k <= n,
                n == self.statuses@.len(),
                *self == *old(self),
                forall|j: int| 0 <= j < k ==> (#[trigger] self.statuses@[j]).name@ != status.name@,
            decreases n - k,
        {
            if str_eq(self.statuses[k].name.as_str(), status.name.as_str()) {
                proof {
                    lemma_upsert_found(pre, status, k as int);
                }
                if status.timestamp >= self.statuses[k].timestamp {
                    let _prev = self.statuses.remove(k);
                    self.statuses.insert(k, status);
                    proof {
                        assert(self.statuses@ =~= pre.update(
                            k as int,
                            merge_status(pre[k as int], status),
                        ));
                    }
                } else {
                    proof {
                        assert(self.statuses@ =~= pre.update(
                            k as int,
                            merge_status(pre[k as int], status),
                        ));
                    }
                }
                proof {
                    assert(forall|i: int|
                        0 <= i < self.statuses@.len() ==> (#[trigger] self.statuses@[i]).name@
                            == pre[i].name@);
                }
                return ;
            }
            k = k + 1;
        }
        proof {
            lemma_upsert_absent(pre, status);
        }
        self.statuses.push(status);
    }

    /// Drop the stored heartbeat of a member; other members keep theirs.
    #[verifier::loop_isolation(false)]
    fn drop_status(&mut self, name: &str)
        requires
            old(self).wf(),
        ensures
            final(self).wf(),
            final(self).unreachable@ == old(self).unreachable@,
            !has_member(final(self).statuses@, name@),
            forall|n: Seq<char>|
                n != name@ ==> #[trigger] has_member(final(self).statuses@, n) == has_member(
                    old(self).statuses@,
                    n,
                ),
            forall|i: int|
                0 <= i < old(self).statuses@.len() && (#[trigger] old(self).statuses@[i]).name@
                    != name@ ==> has_record(final(self).statuses@, old(self).statuses@[i]),
            forall|j: int|
                0 <= j < final(self).statuses@.len() ==> has_record(
                    old(self).statuses@,
                    #[trigger] final(self).statuses@[j],
                ),
    {
        let mut k: usize = 0;
        let n = self.statuses.len();
        while k < n
            invariant
                0 <= k <= n,
                n == self.statuses@.len(),
                *self == *old(self),
                forall|j: int| 0 <= j < k ==> (#[trigger] self.statuses@[j]).name@ != name@,
            decreases n - k,
        {
            if str_eq(self.statuses[k].name.as_str(), name) {
                let ghost pre = self.statuses@;
                let _prev = self.statuses.remove(k);
                proof {
                    assert(forall|i: int|
                        0 <= i < self.statuses@.len() ==> #[trigger] self.statuses@[i] == (
                        if i < k {
                            pre[i]
                        } else {
                            pre[i + 1]
                        }));
                    assert(forall|i: int, j: int|
                        0 <= i < j < self.statuses@.len() ==> (
                        #[trigger] self.statuses@[i]).name@ != (
                        #[trigger] self.statuses@[j]).name@);
                    assert forall|i: int|
                        0 <= i < self.statuses@.len() implies (
                    #[trigger] self.statuses@[i]).name@ != name@ by {
                        if i >= k {
                            assert(self.statuses@[i] == pre[i + 1]);
                            assert(pre[k as int].name@ == name@);
                        }
                    }
                    assert(!has_member(self.statuses@, name@));
                    assert forall|i: int|
                        0 <= i < pre.len() && (#[trigger] pre[i]).name@ != name@ implies
                        has_record(self.statuses@, pre[i]) by {
                        if i < k {
                            assert(self.statuses@[i] == pre[i]);
                        } else {
                            assert(i != k);
                            assert(self.statuses@[i - 1] == pre[i]);
                        }
                    }
                    assert forall|j: int| 0 <= j < self.statuses@.len() implies has_record(
                        pre,
                        #[trigger] self.statuses@[j],
                    ) by {
                        if j < k {
                            assert(self.statuses@[j] == pre[j]);
                        } else {
                            assert(self.statuses@[j] == pre[j + 1]);
                        }
                    }
                    assert forall|nm: Seq<char>| nm != name@ implies #[trigger] has_member(
                        self.statuses@,
                        nm,
                    ) == has_member(pre, nm) by {
                        if has_member(pre, nm) {
                            let i = choose|i: int|
                                0 <= i < pre.len() && (#[trigger] pre[i]).name@ == nm;
                            if i < k {
                                assert(self.statuses@[i].name@ == nm);
                            } else {
                                assert(i != k);
                                assert(self.statuses@[i - 1].name@ == nm);
                            }
                        }
                        if has_member(self.statuses@, nm) {
                            let i = choose|i: int|
                                0 <= i < self.statuses@.len() && (
                                #[trigger] self.statuses@[i]).name@ == nm;
                            assert(self.statuses@[i] == (if i < k {
                                pre[i]
                            } else {
                                pre[i + 1]
                            }));
                        }
                    }
                }
                return ;
            }
            k = k + 1;
        }
        proof {
            assert(!has_member(self.statuses@, name@));
            assert(forall|i: int|
                0 <= i < self.statuses@.len() ==> has_record(
                    self.statuses@,
                    #[trigger] self.statuses@[i],
                ));
        }
    }

    /// The position of a member in the failure-counter table.
    fn find_unreachable(&self, name: &str) -> (r: Option<usize>)
        ensures
            match r {
                Some(k) => 0 <= k < self.unreachable@.len() && self.unreachable@[k as int].0@
                    == name@,
                None => forall|j: int|
                    0 <= j < self.unreachable@.len() ==> (#[trigger] self.unreachable@[j]).0@
                        != name@,
            },
    {
        let mut k: usize = 0;
        let n = self.unreachable.len();
        while k < n
            invariant
                0 <= k <= n,
                n == self.unreachable@.len(),
                forall|j: int| 0 <= j < k ==> (#[trigger] self.unreachable@[j]).0@ != name@,
            decreases n - k,
        {
            if str_eq(self.unreachable[k].0.as_str(), name) {
                return Some(k);
            }
            k = k + 1;
        }
        None
    }

    /// Ingest one heartbeat and decide what to do about each member.
    ///
    /// The heartbeat is reconciled into the table, each member keeping its
    /// most recent heartbeat by timestamp. When the supervisor's clock
    /// disagrees with the latest heartbeat by more than the heartbeat
    /// period, or fewer than a majority of the stored heartbeats are
    /// accepted, nothing else happens. Otherwise the failure-counter
    /// table is computed anew over the current members, and each member
    /// is acted on: a first offender below the majority has its pod
    /// deleted and a counter seeded at 0; a listed offender has its
    /// counter raised and, at the threshold, is given up and dropped from
    /// both tables; a member reported reachable by a majority leaves
    /// tracking.
    /// A pod deletion is only ever decided for a member whose reachable
    /// count is below the majority.
    #[verifier::loop_isolation(false)]
    #[verifier::rlimit(80)]
    pub fn handle_heartbeat(
        &mut self,
        status: HeartbeatStatus,
        spec_size: usize,
        heartbeat_period: u64,
        now_ts: u64,
        unreachable_thresh: u64,
    ) -> (acts: Vec<SupervisorAction>)
        requires
            old(self).wf(),
        ensures
            final(self).wf(),
            ({
                let gss = upsert_status(old(self).statuses@, status);
                let glatest = latest_ts(gss);
                let period = heartbeat_period as int;
                let majority = spec_size / 2 + 1;
                let suppressed = clock_skewed(now_ts as int, glatest, period) || accepted_count(
                    gss,
                    glatest,
                    period,
                ) < majority;
                &&& forall|k: int|
                    0 <= k < acts@.len() && acts@[k] is DeletePod ==> reachable_count(
                        gss,
                        glatest,
                        period,
                        (#[trigger] acts@[k])->DeletePod_0@,
                    ) < majority
                &&& suppressed ==> (acts@.len() == 0 && final(self).statuses@ == gss
                    && final(self).unreachable@ == old(self).unreachable@)
                &&& !suppressed ==> forall|i: int|
                    0 <= i < gss.len() ==> member_verdict(
                        (#[trigger] gss[i]).name@,
                        reachable_count(gss, glatest, period, gss[i].name@),
                        majority as int,
                        old(self).unreachable@,
                        unreachable_thresh,
                        acts@,
                        final(self).unreachable@,
                        final(self).statuses@,
                    )
                // Nothing else is decided: every action names a member, a
                // pod deletion is issued only for a first offender, a
                // give-up only at the threshold, and no member is named by
                // two actions.
                &&& forall|k: int|
                    0 <= k < acts@.len() ==> has_member(gss, act_member(#[trigger] acts@[k])) && (
                    acts@[k] is DeletePod ==> reachable_count(
                        gss,
                        glatest,
                        period,
                        act_member(acts@[k]),
                    ) < majority && !table_has(old(self).unreachable@, act_member(acts@[k]))) && (
                    acts@[k] is GiveUp ==> gives_up(
                        reachable_count(gss, glatest, period, act_member(acts@[k])),
                        majority as int,
                        old(self).unreachable@,
                        unreachable_thresh,
                        act_member(acts@[k]),
                    ))
                &&& forall|k1: int, k2: int|
                    0 <= k1 < k2 < acts@.len() ==> act_member(#[trigger] acts@[k1]) != act_member(
                        #[trigger] acts@[k2],
                    )
                // The stored table after an active round is exactly the
                // reconciled table minus the given-up members: every
                // surviving member keeps its merged record, and no other
                // record appears.
                &&& !suppressed ==> forall|i: int|
                    0 <= i < gss.len() && !gives_up(
                        reachable_count(gss, glatest, period, (#[trigger] gss[i]).name@),
                        majority as int,
                        old(self).unreachable@,
                        unreachable_thresh,
                        gss[i].name@,
                    ) ==> has_record(final(self).statuses@, gss[i])
                &&& !suppressed ==> forall|j: int|
                    0 <= j < final(self).statuses@.len() ==> has_record(
                        gss,
                        #[trigger] final(self).statuses@[j],
                    )
            }),
    {
        let majority = spec_size / 2 + 1;
        self.store(status);
        let ghost gss = self.statuses@;
        let ghost glatest = latest_ts(gss);
        let ghost period = heartbeat_period as int;
        let ghost old_u = self.unreachable@;
        let counts = match get_reachable_counts(
            &self.statuses,
            heartbeat_period,
            majority,
            now_ts,
        ) {
            Some(c) => c,
            None => {
                return Vec::new();
            },
        };
        // The member names under supervision, in table order.
        let mut members: Vec<String> = Vec::new();
        let mut i: usize = 0;
        while i < self.statuses.len()
            invariant
                0 <= i <= self.statuses@.len(),
                members@.len() == i,
                forall|j: int| 0 <= j < i ==> (#[trigger] members@[j])@ == gss[j].name@,
            decreases self.statuses@.len() - i,
        {
            let nm = self.statuses[i].name.clone();
            proof {
                assert(nm@ == gss[i as int].name@);
            }
            members.push(nm);
            i = i + 1;
        }
        proof {
            assert(forall|a: int, b: int|
                0 <= a < b < members@.len() ==> (#[trigger] members@[a])@ != (
                #[trigger] members@[b])@);
            assert(forall|j: int|
                0 <= j < gss.len() ==> has_member(self.statuses@, (#[trigger] gss[j]).name@));
            assert(forall|j: int|
                0 <= j < gss.len() ==> has_record(self.statuses@, #[trigger] gss[j]));
            assert(forall|j: int|
                0 <= j < self.statuses@.len() ==> has_record(
                    gss,
                    #[trigger] self.statuses@[j],
                ));
        }
        // The failure-counter table is rebuilt from scratch this round.
        let mut new_u: Vec<(String, u64)> = Vec::new();
        let mut acts: Vec<SupervisorAction> = Vec::new();
        let mut m: usize = 0;
        while m < members.len()
            invariant
                0 <= m <= members@.len(),
                members@.len() == gss.len(),
                forall|j: int| 0 <= j < gss.len() ==> (#[trigger] members@[j])@ == gss[j].name@,
                forall|a: int, b: int|
                    0 <= a < b < members@.len() ==> (#[trigger] members@[a])@ != (
                    #[trigger] members@[b])@,
                self.wf(),
                self.unreachable@ == old_u,
                counts_correct(counts@, gss, glatest, period),
                names_distinct(new_u@),
                forall|q: int|
                    0 <= q < new_u@.len() ==> exists|j: int|
                        0 <= j < m && (#[trigger] new_u@[q]).0@ == members@[j]@,
                forall|k: int|
                    0 <= k < acts@.len() && acts@[k] is DeletePod ==> reachable_count(
                        gss,
                        glatest,
                        period,
                        (#[trigger] acts@[k])->DeletePod_0@,
                    ) < majority,
                forall|j: int|
                    0 <= j < gss.len() ==> #[trigger] has_member(self.statuses@, gss[j].name@)
                        == !(j < m && gives_up(
                        reachable_count(gss, glatest, period, gss[j].name@),
                        majority as int,
                        old_u,
                        unreachable_thresh,
                        gss[j].name@,
                    )),
                forall|k: int|
                    0 <= k < acts@.len() ==> exists|j: int|
                        0 <= j < m && act_member(#[trigger] acts@[k]) == members@[j]@,
                forall|k: int|
                    0 <= k < acts@.len() ==> ((#[trigger] acts@[k]) is DeletePod
                        ==> reachable_count(gss, glatest, period, act_member(acts@[k]))
                        < majority && !table_has(old_u, act_member(acts@[k]))) && (
                    acts@[k] is GiveUp ==> gives_up(
                        reachable_count(gss, glatest, period, act_member(acts@[k])),
                        majority as int,
                        old_u,
                        unreachable_thresh,
                        act_member(acts@[k]),
                    )),
                forall|k1: int, k2: int|
                    0 <= k1 < k2 < acts@.len() ==> act_member(#[trigger] acts@[k1])
                        != act_member(#[trigger] acts@[k2]),
                forall|i: int|
                    0 <= i < gss.len() && !(i < m && gives_up(
                        reachable_count(gss, glatest, period, (#[trigger] gss[i]).name@),
                        majority as int,
                        old_u,
                        unreachable_thresh,
                        gss[i].name@,
                    )) ==> has_record(self.statuses@, gss[i]),
                forall|j: int|
                    0 <= j < self.statuses@.len() ==> has_record(
                        gss,
                        #[trigger] self.statuses@[j],
                    ),
                forall|j: int|
                    0 <= j < m ==> member_verdict(
                        (#[trigger] gss[j]).name@,
                        reachable_count(gss, glatest, period, gss[j].name@),
                        majority as int,
                        old_u,
                        unreachable_thresh,
                        acts@,
                        new_u@,
                        self.statuses@,
                    ),
            decreases members@.len() - m,
        {
            let name = &members[m];
            let name_s = name.as_str();
            let count = count_of(&counts, name_s);
            proof {
                assert(name_s@ == name@);
                lemma_count_bounds(gss, glatest, period, name@);
                if listed(counts@, name@) {
                    let k = choose|k: int|
                        0 <= k < counts@.len() && (#[trigger] counts@[k]).0@ == name@ && count
                            == counts@[k].1;
                    assert(counts@[k].1 as int == reachable_count(gss, glatest, period, name@));
                } else {
                    if reachable_count(gss, glatest, period, name@) > 0 {
                        lemma_reachable_count_witness(gss, glatest, period, name@);
                        let w = choose|w: int|
                            0 <= w < gss.len() && accepted(#[trigger] gss[w], glatest, period)
                                && contains_name(gss[w].reachable@, name@);
                        let j = choose|j: int|
                            0 <= j < gss[w].reachable@.len() && gss[w].reachable@[j]@ == name@;
                        assert(listed(counts@, gss[w].reachable@[j]@));
                        assert(false);
                    }
                }
                assert(count as int == reachable_count(gss, glatest, period, name@));
            }
            let ghost cnt = reachable_count(gss, glatest, period, name@);
            let ghost pre_acts = acts@;
            let ghost pre_new_u = new_u@;
            let ghost pre_ss = self.statuses@;
            let ghost mut gave_up_now = false;
            if count < majority as u64 {
                match self.find_unreachable(name_s) {
                    Some(k) => {
                        proof {
                            lemma_counter_at(old_u, name@, k as int);
                        }
                        let cur = self.unreachable[k].1;
                        let raised = if cur < u64::MAX {
                            cur + 1
                        } else {
                            cur
                        };
                        proof {
                            assert(raised == bump(counter_of(old_u, name@)));
                        }
                        if raised == unreachable_thresh {
                            self.drop_status(name_s);
                            acts.push(SupervisorAction::GiveUp(name.clone()));
                            proof {
                                gave_up_now = true;
                                assert(acts@.last() is GiveUp && acts@.last()->GiveUp_0@
                                    == name@);
                                assert(act_member(acts@.last()) == name@);
                                assert(gives_up(
                                    cnt,
                                    majority as int,
                                    old_u,
                                    unreachable_thresh,
                                    name@,
                                ));
                                assert(has_give_up(acts@, name@));
                                assert(!table_has(new_u@, name@)) by {
                                    if table_has(new_u@, name@) {
                                        let q = choose|q: int|
                                            0 <= q < new_u@.len() && (#[trigger] new_u@[q]).0@
                                                == name@;
                                        let j = choose|j: int|
                                            0 <= j < m && (#[trigger] new_u@[q]).0@
                                                == members@[j]@;
                                        assert(members@[j]@ == members@[m as int]@);
                                        assert(false);
                                    }
                                }
                            }
                        } else {
                            let entry = (name.clone(), raised);
                            proof {
                                assert(entry.0@ == name@);
                                assert(forall|q: int|
                                    0 <= q < new_u@.len() ==> (#[trigger] new_u@[q]).0@
                                        != name@) by {
                                    assert forall|q: int|
                                        0 <= q < new_u@.len() implies (
                                    #[trigger] new_u@[q]).0@ != name@ by {
                                        let j = choose|j: int|
                                            0 <= j < m && (#[trigger] new_u@[q]).0@
                                                == members@[j]@;
                                        assert(members@[j]@ != members@[m as int]@);
                                    }
                                }
                            }
                            new_u.push(entry);
                            proof {
                                assert(new_u@.last().0@ == name@ && new_u@.last().1 == raised);
                                assert(table_has_at(new_u@, name@, raised));
                            }
                        }
                    },
                    None => {
                        proof {
                            assert(!table_has(old_u, name@));
                        }
                        let cloned = name.clone();
                        proof {
                            assert(cloned@ == name@);
                        }
                        acts.push(SupervisorAction::DeletePod(cloned));
                        let entry = (name.clone(), 0u64);
                        proof {
                            assert(entry.0@ == name@);
                            assert(forall|q: int|
                                0 <= q < new_u@.len() ==> (#[trigger] new_u@[q]).0@ != name@) by {
                                assert forall|q: int|
                                    0 <= q < new_u@.len() implies (#[trigger] new_u@[q]).0@
                                    != name@ by {
                                    let j = choose|j: int|
                                        0 <= j < m && (#[trigger] new_u@[q]).0@ == members@[j]@;
                                    assert(members@[j]@ != members@[m as int]@);
                                }
                            }
                        }
                        new_u.push(entry);
                        proof {
                            assert(acts@.last() is DeletePod && acts@.last()->DeletePod_0@
                                == name@);
                            assert(act_member(acts@.last()) == name@);
                            assert(has_delete(acts@, name@));
                            assert(new_u@.last().0@ == name@ && new_u@.last().1 == 0);
                            assert(table_has_at(new_u@, name@, 0));
                            assert(forall|j: int|
                                0 <= j < pre_acts.len() ==> acts@[j] == pre_acts[j]);
                        }
                    },
                }
            } else {
                proof {
                    assert(!table_has(new_u@, name@)) by {
                        if table_has(new_u@, name@) {
                            let q = choose|q: int|
                                0 <= q < new_u@.len() && (#[trigger] new_u@[q]).0@ == name@;
                            let j = choose|j: int|
                                0 <= j < m && (#[trigger] new_u@[q]).0@ == members@[j]@;
                            assert(members@[j]@ == members@[m as int]@);
                            assert(false);
                        }
                    }
                }
            }
            proof {
                // The current member's verdict holds of the grown tables.
                assert(member_verdict(
                    gss[m as int].name@,
                    cnt,
                    majority as int,
                    old_u,
                    unreachable_thresh,
                    acts@,
                    new_u@,
                    self.statuses@,
                ));
                // Earlier verdicts survive: this iteration only appended
                // actions and entries named after the current member, and
                // only ever dropped the current member's heartbeat.
                assert forall|j: int| 0 <= j < m implies member_verdict(
                    (#[trigger] gss[j]).name@,
                    reachable_count(gss, glatest, period, gss[j].name@),
                    majority as int,
                    old_u,
                    unreachable_thresh,
                    acts@,
                    new_u@,
                    self.statuses@,
                ) by {
                    let n = gss[j].name@;
                    assert(n == members@[j]@ && n != members@[m as int]@);
                    let cj = reachable_count(gss, glatest, period, n);
                    assert(forall|q: int|
                        0 <= q < pre_acts.len() ==> acts@[q] == pre_acts[q]);
                    assert(forall|q: int|
                        0 <= q < pre_new_u.len() ==> new_u@[q] == pre_new_u[q]);
                    if has_delete(pre_acts, n) {
                        let q = choose|q: int|
                            0 <= q < pre_acts.len() && (#[trigger] pre_acts[q]) is DeletePod
                                && pre_acts[q]->DeletePod_0@ == n;
                        assert(acts@[q] is DeletePod && acts@[q]->DeletePod_0@ == n);
                    }
                    if has_give_up(pre_acts, n) {
                        let q = choose|q: int|
                            0 <= q < pre_acts.len() && (#[trigger] pre_acts[q]) is GiveUp
                                && pre_acts[q]->GiveUp_0@ == n;
                        assert(acts@[q] is GiveUp && acts@[q]->GiveUp_0@ == n);
                    }
                    if table_has_at(pre_new_u, n, 0) {
                        let q = choose|q: int|
                            0 <= q < pre_new_u.len() && (#[trigger] pre_new_u[q]).0@ == n
                                && pre_new_u[q].1 == 0;
                        assert(new_u@[q].0@ == n && new_u@[q].1 == 0);
                    }
                    if table_has_at(pre_new_u, n, bump(counter_of(old_u, n))) {
                        let q = choose|q: int|
                            0 <= q < pre_new_u.len() && (#[trigger] pre_new_u[q]).0@ == n
                                && pre_new_u[q].1 == bump(counter_of(old_u, n));
                        assert(new_u@[q].0@ == n && new_u@[q].1 == bump(counter_of(old_u, n)));
                    }
                    if !table_has(pre_new_u, n) {
                        assert(!table_has(new_u@, n)) by {
                            if table_has(new_u@, n) {
                                let q = choose|q: int|
                                    0 <= q < new_u@.len() && (#[trigger] new_u@[q]).0@ == n;
                                if q < pre_new_u.len() {
                                    assert(pre_new_u[q].0@ == n);
                                } else {
                                    assert(new_u@[q].0@ == members@[m as int]@);
                                }
                                assert(false);
                            }
                        }
                    }
                }
                // Action bookkeeping: at most one action was appended, it
                // names the current member, and it is justified by the
                // branch that issued it.
                assert forall|k: int|
                    0 <= k < acts@.len() implies exists|j: int|
                    0 <= j < m + 1 && act_member(#[trigger] acts@[k]) == members@[j]@ by {
                    if k < pre_acts.len() {
                        assert(acts@[k] == pre_acts[k]);
                        let j = choose|j: int|
                            0 <= j < m && act_member(#[trigger] pre_acts[k]) == members@[j]@;
                        assert(act_member(acts@[k]) == members@[j]@);
                    } else {
                        assert(k == acts@.len() - 1);
                        assert(act_member(acts@[k]) == members@[m as int]@);
                    }
                }
                assert forall|k1: int, k2: int|
                    0 <= k1 < k2 < acts@.len() implies act_member(#[trigger] acts@[k1])
                    != act_member(#[trigger] acts@[k2]) by {
                    if k2 < pre_acts.len() {
                        assert(acts@[k1] == pre_acts[k1] && acts@[k2] == pre_acts[k2]);
                    } else {
                        assert(acts@[k1] == pre_acts[k1]);
                        let j = choose|j: int|
                            0 <= j < m && act_member(#[trigger] pre_acts[k1]) == members@[j]@;
                        assert(act_member(acts@[k2]) == members@[m as int]@);
                        assert(members@[j]@ != members@[m as int]@);
                    }
                }
                // The stored records: only the current member's heartbeat
                // can have been dropped, and only on a give-up.
                assert forall|i: int|
                    0 <= i < gss.len() && !(i < m + 1 && gives_up(
                        reachable_count(gss, glatest, period, (#[trigger] gss[i]).name@),
                        majority as int,
                        old_u,
                        unreachable_thresh,
                        gss[i].name@,
                    )) implies has_record(self.statuses@, gss[i]) by {
                    assert(has_record(pre_ss, gss[i]));
                    if gave_up_now {
                        let w = choose|w: int|
                            0 <= w < pre_ss.len() && (#[trigger] pre_ss[w]) == gss[i];
                        assert(i != m);
                        assert(gss[i].name@ == members@[i]@);
                        assert(pre_ss[w].name@ != members@[m as int]@);
                        assert(has_record(self.statuses@, pre_ss[w]));
                    } else {
                        assert(self.statuses@ == pre_ss);
                    }
                }
                assert forall|j: int|
                    0 <= j < self.statuses@.len() implies has_record(
                    gss,
                    #[trigger] self.statuses@[j],
                ) by {
                    if gave_up_now {
                        assert(has_record(pre_ss, self.statuses@[j]));
                        let w = choose|w: int|
                            0 <= w < pre_ss.len() && (#[trigger] pre_ss[w])
                                == self.statuses@[j];
                        assert(has_record(gss, pre_ss[w]));
                    } else {
                        assert(self.statuses@ == pre_ss);
                    }
                }
            }
            m = m + 1;
        }
        self.unreachable = new_u;
        acts
    }
}

} // verus!
