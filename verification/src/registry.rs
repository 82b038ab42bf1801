//! Membership rendezvous: each sidecar registers its name and host and
//! receives the full member table once the cluster is at target size.
//! Variants: derived from a platform stateful workload, served over HTTP,
//! or static.

use crate::text::{dec_u64, spec_dec, str_eq};
use vstd::prelude::*;

verus! {

/// Seconds between two polls while waiting for the full member table.
pub const WAIT_DELAY_SECS: u64 = 5;

/// How many polls are attempted before the wait fails.
pub const WAIT_THRESHOLD: usize = 60;

/// A fetched member table: the registered members and the target size.
#[derive(Clone, Debug)]
pub struct Config {
    /// The registered members: name and host.
    pub members: Vec<(String, String)>,
    /// The target cluster size.
    pub cluster_size: usize,
}

/// What to do after one fetch while waiting for the full member table.
#[derive(Clone, Copy, Debug, PartialEq, Eq, Structural)]
pub enum WaitOutcome {
    /// Every member is registered: the table is complete.
    Done,
    /// Not complete yet: poll again after the delay.
    Retry,
    /// The attempt budget is exhausted: fail with a timeout.
    TimedOut,
}

/// Decide after one fetch: done when the table holds as many members as
/// the target size, timed out when the attempt budget is spent, and retry
/// otherwise.
pub fn wait_decision(config: &Config, retries: usize) -> (r: WaitOutcome)
    ensures
        config.members@.len() == config.cluster_size ==> r == WaitOutcome::Done,
        config.members@.len() != config.cluster_size && retries >= WAIT_THRESHOLD ==> r
            == WaitOutcome::TimedOut,
        config.members@.len() != config.cluster_size && retries < WAIT_THRESHOLD ==> r
            == WaitOutcome::Retry,
{
    if config.members.len() == config.cluster_size {
        WaitOutcome::Done
    } else if retries >= WAIT_THRESHOLD {
        WaitOutcome::TimedOut
    } else {
        WaitOutcome::Retry
    }
}

/// The stable name of the workload's member at an ordinal.
pub open spec fn sts_member_name(sts_name: Seq<char>, ordinal: nat) -> Seq<char> {
    sts_name + "-"@ + spec_dec(ordinal)
}

/// The stable DNS name of the workload's member at an ordinal.
pub open spec fn sts_member_host(
    sts_name: Seq<char>,
    service_name: Seq<char>,
    namespace: Seq<char>,
    dns_suffix: Seq<char>,
    ordinal: nat,
) -> Seq<char> {
    sts_member_name(sts_name, ordinal) + "."@ + service_name + "."@ + namespace + ".svc."@
        + dns_suffix
}

/// Synthesize the member table of a platform stateful workload: one member
/// per replica, named by the workload and its ordinal, with the stable DNS
/// name under the governing service. Never writes to the platform.
pub fn sts_members(
    sts_name: &str,
    service_name: &str,
    namespace: &str,
    dns_suffix: &str,
    replicas: usize,
    start_at: usize,
) -> (r: Config)
    requires
        start_at + replicas <= usize::MAX,
    ensures
        r.cluster_size == replicas,
        r.members@.len() == replicas,
        forall|i: int|
            0 <= i < replicas ==> (#[trigger] r.members@[i]).0@ == sts_member_name(
                sts_name@,
                (start_at + i) as nat,
            ) && r.members@[i].1@ == sts_member_host(
                sts_name@,
                service_name@,
                namespace@,
                dns_suffix@,
                (start_at + i) as nat,
            ),
{
    let mut members: Vec<(String, String)> = Vec::new();
    let mut i: usize = 0;
    while i < replicas
        invariant
            0 <= i <= replicas,
            start_at + replicas <= usize::MAX,
            members@.len() == i,
            forall|j: int|
                0 <= j < i ==> (#[trigger] members@[j]).0@ == sts_member_name(
                    sts_name@,
                    (start_at + j) as nat,
                ) && members@[j].1@ == sts_member_host(
                    sts_name@,
                    service_name@,
                    namespace@,
                    dns_suffix@,
                    (start_at + j) as nat,
                ),
        decreases replicas - i,
    {
        proof {
            reveal_strlit("-");
            reveal_strlit(".");
            reveal_strlit(".svc.");
        }
        let ordinal = start_at + i;
        let mut name = sts_name.to_owned();
        name.append("-");
        let d = dec_u64(ordinal as u64);
        name.append(d.as_str());
        proof {
            assert(name@ =~= sts_member_name(sts_name@, ordinal as nat));
        }
        let mut host = name.clone();
        host.append(".");
        host.append(service_name);
        host.append(".");
        host.append(namespace);
        host.append(".svc.");
        host.append(dns_suffix);
        proof {
            assert(host@ =~= sts_member_host(
                sts_name@,
                service_name@,
                namespace@,
                dns_suffix@,
                ordinal as nat,
            ));
        }
        members.push((name, host));
        i = i + 1;
    }
    Config { members, cluster_size: replicas }
}

/// The registration a sidecar sends to the registry server.
#[derive(Clone, Debug, PartialEq, Eq)]
pub struct RegisterQuery {
    /// The cluster registered for.
    pub cluster: String,
    /// The member's name.
    pub name: String,
    /// The member's host.
    pub host: String,
}

/// A registry served over HTTP: registration is a request against the
/// server, carrying the cluster and the member's name and host.
#[derive(Clone, Debug)]
pub struct HttpRegistry {
    /// The registry server's address.
    pub server_addr: String,
    /// The cluster registered for.
    pub cluster_name: String,
}

impl HttpRegistry {
    /// A registry client against the given server.
    pub fn new(server_addr: String, cluster_name: String) -> (r: HttpRegistry)
        ensures
            r.server_addr == server_addr,
            r.cluster_name == cluster_name,
    {
        HttpRegistry { server_addr, cluster_name }
    }

    /// The registration this registry sends for a member.
    pub fn register_query(&self, self_name: &String, self_host: &String) -> (r: RegisterQuery)
        ensures
            r.cluster@ == self.cluster_name@,
            r.name@ == self_name@,
            r.host@ == self_host@,
    {
        RegisterQuery {
            cluster: self.cluster_name.clone(),
            name: self_name.clone(),
            host: self_host.clone(),
        }
    }
}

/// A registry that registers nothing: it always returns its initial
/// member table.
#[derive(Clone, Debug)]
pub struct DummyRegistry {
    /// The fixed member table.
    pub init_members: Vec<(String, String)>,
}

impl DummyRegistry {
    /// A static registry over the given table.
    pub fn new(init_members: Vec<(String, String)>) -> (r: DummyRegistry)
        ensures
            r.init_members == init_members,
    {
        DummyRegistry { init_members }
    }

    /// The fixed table, with the target size equal to its length.
    pub fn fetch(&self) -> (r: Config)
        ensures
            r.members@.len() == self.init_members@.len(),
            forall|i: int|
                0 <= i < r.members@.len() ==> (#[trigger] r.members@[i]).0@
                    == self.init_members@[i].0@ && r.members@[i].1@ == self.init_members@[i].1@,
            r.cluster_size == self.init_members@.len(),
    {
        let mut members: Vec<(String, String)> = Vec::new();
        let mut i: usize = 0;
        while i < self.init_members.len()
            invariant
                0 <= i <= self.init_members@.len(),
                members@.len() == i,
                forall|j: int|
                    0 <= j < i ==> (#[trigger] members@[j]).0@ == self.init_members@[j].0@
                        && members@[j].1@ == self.init_members@[j].1@,
            decreases self.init_members@.len() - i,
        {
            let entry = (self.init_members[i].0.clone(), self.init_members[i].1.clone());
            members.push(entry);
            i = i + 1;
        }
        Config { members, cluster_size: self.init_members.len() }
    }
}

/// One member as the registry server tracks it: name, host, and when it
/// last registered.
#[derive(Clone, Debug)]
pub struct MemberRecord {
    /// The member's name.
    pub name: String,
    /// The member's host.
    pub host: String,
    /// Seconds since the epoch of the last registration.
    pub last_seen: u64,
}

/// The registry server's table for one cluster. Entries expire: a member
/// that has not registered within the time-to-live is pruned on read.
pub struct RegistryServer {
    /// The tracked members, at most one per name.
    pub records: Vec<MemberRecord>,
}

impl RegistryServer {
    /// Each member appears at most once.
    pub open spec fn wf(self) -> bool {
        forall|i: int, j: int|
            0 <= i < j < self.records@.len() ==> (#[trigger] self.records@[i]).name@ != (
            #[trigger] self.records@[j]).name@
    }

    /// A server that has seen nobody yet.
    pub fn new() -> (r: RegistryServer)
        ensures
            r.wf(),
            r.records@.len() == 0,
    {
        RegistryServer { records: Vec::new() }
    }

    /// Register a member and return the current table: the member's record
    /// is stored with the current time, entries older than the
    /// time-to-live are pruned, and the remaining members are returned
    /// with the given target size.
    #[verifier::loop_isolation(false)]
    #[verifier::rlimit(60)]
    pub fn receive(
        &mut self,
        name: &String,
        host: &String,
        now: u64,
        ttl_secs: u64,
        cluster_size: usize,
    ) -> (r: Config)
        requires
            old(self).wf(),
            ttl_secs > 0,
        ensures
            final(self).wf(),
            r.cluster_size == cluster_size,
            // The registering member is present, with its new host and time.
            exists|i: int|
                0 <= i < final(self).records@.len() && (#[trigger] final(self).records@[i]).name@
                    == name@ && final(self).records@[i].host@ == host@ && final(self).records@[i].last_seen == now,
            // Every kept record is fresh.
            forall|i: int|
                0 <= i < final(self).records@.len() ==> now - (
                #[trigger] final(self).records@[i]).last_seen < ttl_secs,
            // The returned table mirrors the kept records.
            r.members@.len() == final(self).records@.len(),
            forall|i: int|
                0 <= i < r.members@.len() ==> (#[trigger] r.members@[i]).0@ == final(self).records@[i].name@ && r.members@[i].1@ == final(self).records@[i].host@,
            // Every record that was fresh survives, under its old host
            // unless it is the registering member.
            forall|i: int|
                0 <= i < old(self).records@.len() && now - (
                #[trigger] old(self).records@[i]).last_seen < ttl_secs && old(
                    self,
                ).records@[i].name@ != name@ ==> exists|j: int|
                    0 <= j < final(self).records@.len() && (#[trigger] final(self).records@[j]).name@ == old(self).records@[i].name@ && final(self).records@[j].host@ == old(self).records@[i].host@,
    {
        // Keep the fresh records of other members.
        let mut kept: Vec<MemberRecord> = Vec::new();
        let mut i: usize = 0;
        let ghost pre = self.records@;
        while i < self.records.len()
            invariant
                0 <= i <= pre.len(),
                pre == self.records@,
                old(self).wf(),
                pre == old(self).records@,
                forall|a: int, b: int|
                    0 <= a < b < kept@.len() ==> (#[trigger] kept@[a]).name@ != (
                    #[trigger] kept@[b]).name@,
                forall|a: int|
                    0 <= a < kept@.len() ==> (#[trigger] kept@[a]).name@ != name@ && now
                        - kept@[a].last_seen < ttl_secs,
                forall|a: int|
                    0 <= a < kept@.len() ==> exists|b: int|
                        0 <= b < i && #[trigger] kept@[a] == pre[b],
                forall|b: int|
                    0 <= b < i && now - (#[trigger] pre[b]).last_seen < ttl_secs && pre[b].name@
                        != name@ ==> exists|a: int|
                        0 <= a < kept@.len() && (#[trigger] kept@[a]).name@ == pre[b].name@
                            && kept@[a].host@ == pre[b].host@,
            decreases pre.len() - i,
        {
            let rec = &self.records[i];
            let fresh = now < ttl_secs || rec.last_seen > now - ttl_secs;
            let ghost pre_kept = kept@;
            let is_self = str_eq(rec.name.as_str(), name.as_str());
            if fresh && !is_self {
                let copy = MemberRecord {
                    name: rec.name.clone(),
                    host: rec.host.clone(),
                    last_seen: rec.last_seen,
                };
                proof {
                    assert(copy.name@ == pre[i as int].name@ && copy.host@ == pre[i as int].host@
                        && copy.last_seen == pre[i as int].last_seen);
                    assert forall|a: int|
                        0 <= a < pre_kept.len() implies (#[trigger] pre_kept[a]).name@
                        != pre[i as int].name@ by {
                        let b = choose|b: int| 0 <= b < i && pre_kept[a] == #[trigger] pre[b];
                        assert(pre[b].name@ != pre[i as int].name@);
                    }
                }
                kept.push(copy);
                proof {
                    assert(kept@[kept@.len() - 1] == copy);
                    assert(copy == pre[i as int]);
                    assert(exists|b: int| 0 <= b < i + 1 && copy == #[trigger] pre[b]);
                }
            }
            proof {
                assert forall|b: int|
                    0 <= b < i + 1 && now - (#[trigger] pre[b]).last_seen < ttl_secs
                        && pre[b].name@ != name@ implies exists|a: int|
                    0 <= a < kept@.len() && (#[trigger] kept@[a]).name@ == pre[b].name@
                        && kept@[a].host@ == pre[b].host@ by {
                    if b == i {
                        assert(kept@[kept@.len() - 1].name@ == pre[b].name@);
                    } else {
                        let a = choose|a: int|
                            0 <= a < pre_kept.len() && (#[trigger] pre_kept[a]).name@
                                == pre[b].name@ && pre_kept[a].host@ == pre[b].host@;
                        assert(kept@[a].name@ == pre[b].name@);
                    }
                }
            }
            i = i + 1;
        }
        // Store the registering member.
        let ghost kept_before = kept@;
        kept.push(MemberRecord { name: name.clone(), host: host.clone(), last_seen: now });
        self.records = kept;
        proof {
            let last = self.records@.len() - 1;
            assert(self.records@[last].name@ == name@ && self.records@[last].host@ == host@
                && self.records@[last].last_seen == now);
            assert forall|b: int|
                0 <= b < pre.len() && now - (#[trigger] pre[b]).last_seen < ttl_secs
                    && pre[b].name@ != name@ implies exists|j: int|
                0 <= j < self.records@.len() && (#[trigger] self.records@[j]).name@
                    == pre[b].name@ && self.records@[j].host@ == pre[b].host@ by {
                let a = choose|a: int|
                    0 <= a < kept_before.len() && (#[trigger] kept_before[a]).name@
                        == pre[b].name@ && kept_before[a].host@ == pre[b].host@;
                assert(self.records@[a].name@ == pre[b].name@ && self.records@[a].host@
                    == pre[b].host@);
            }
        }
        // Mirror the table.
        let mut members: Vec<(String, String)> = Vec::new();
        let mut k: usize = 0;
        while k < self.records.len()
            invariant
                0 <= k <= self.records@.len(),
                members@.len() == k,
                forall|j: int|
                    0 <= j < k ==> (#[trigger] members@[j]).0@ == self.records@[j].name@
                        && members@[j].1@ == self.records@[j].host@,
            decreases self.records@.len() - k,
        {
            let entry = (self.records[k].name.clone(), self.records[k].host.clone());
            members.push(entry);
            k = k + 1;
        }
        Config { members, cluster_size }
    }
}

} // verus!
