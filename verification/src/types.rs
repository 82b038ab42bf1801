//! Sidecar configuration and state types: the member table with its derived
//! address views, the published state payload with its monotone revision,
//! and the gathered view of all peers' states.

use crate::text::{spec_dec, spec_str_lt, str_lt};
use vstd::prelude::*;

verus! {

/// A host together with a port, as one address string.
pub open spec fn spec_addr(host: Seq<char>, port: u16) -> Seq<char> {
    host + seq![':'] + spec_dec(port as nat)
}

/// Append a port to a host.
pub fn make_addr(host: &String, port: u16) -> (r: String)
    ensures
        r@ == spec_addr(host@, port),
{
    proof {
        reveal_strlit(":");
    }
    let mut out = host.clone();
    out.append(":");
    let d = crate::text::dec_u64(port as u64);
    out.append(d.as_str());
    proof {
        assert(out@ =~= spec_addr(host@, port));
    }
    out
}

/// How the managed process is launched: inside a platform container, or as
/// a local process.
#[derive(Clone, Debug, PartialEq, Eq)]
pub enum BackendConfig {
    /// Launch by attaching to a container of an existing pod.
    K8s {
        /// The pod that runs the managed process.
        pod_name: String,
        /// The container to attach to.
        container_name: String,
        /// The namespace of the pod.
        namespace: String,
    },
    /// Launch as a local child process.
    Local,
}

/// Where snapshots are stored.
#[derive(Clone, Debug, PartialEq, Eq)]
pub enum BackupConfig {
    /// An object-store bucket.
    S3 {
        /// The bucket name.
        bucket: String,
    },
    /// A mounted persistent volume.
    PV {
        /// The mounted path.
        path: String,
    },
}

/// Where the sidecar discovers the member table.
#[derive(Clone, Debug, PartialEq, Eq)]
pub enum RegistryConfig {
    /// Derived from a platform stateful workload.
    Sts {
        /// The workload name.
        name: String,
        /// The workload namespace.
        namespace: String,
    },
    /// Served by a registry HTTP server.
    Http {
        /// The server address.
        server_addr: String,
    },
}

/// How to reach the operator, and how often to report to it.
#[derive(Clone, Debug, PartialEq, Eq)]
pub struct MonitorConfig {
    /// The operator's monitor address.
    pub monitor_addr: String,
    /// Seconds between heartbeats.
    pub heartbeat_interval_secs: u64,
}

/// How the managed process itself is started.
#[derive(Clone, Debug, PartialEq, Eq)]
pub struct XlineConfig {
    /// The name the process runs under, shared with the sidecar.
    pub name: String,
    /// The executable to run.
    pub executable: String,
    /// The storage engine to select.
    pub storage_engine: String,
    /// The data directory.
    pub data_dir: String,
    /// Whether this member starts as leader.
    pub is_leader: bool,
    /// Extra command-line text appended verbatim.
    pub additional: Option<String>,
}

/// The sidecar's configuration.
#[derive(Clone, Debug)]
pub struct Config {
    /// The name of this member.
    pub name: String,
    /// The name of the cluster.
    pub cluster_name: String,
    /// The initial member table: name and host of every member.
    pub init_members: Vec<(String, String)>,
    /// The port the managed store serves on.
    pub xline_port: u16,
    /// The port the sidecar's own server serves on.
    pub sidecar_port: u16,
    /// Seconds between reconcile ticks.
    pub reconcile_interval_secs: u64,
    /// How the managed process is started.
    pub xline: XlineConfig,
    /// How the managed process is launched.
    pub backend: BackendConfig,
    /// Set to report heartbeats to an operator.
    pub monitor: Option<MonitorConfig>,
    /// Set to store snapshots.
    pub backup: Option<BackupConfig>,
    /// Set to discover members instead of trusting the initial table.
    pub registry: Option<RegistryConfig>,
}

/// A member table with every host given the chosen port.
pub open spec fn members_with_port(members: Seq<(String, String)>, port: u16) -> Seq<
    (Seq<char>, Seq<char>),
> {
    members.map_values(|m: (String, String)| (m.0@, spec_addr(m.1@, port)))
}

impl Config {
    /// The initial member table, with each host given the sidecar port.
    pub fn init_sidecar_members(&self) -> (r: Vec<(String, String)>)
        ensures
            r.deep_view() == members_with_port(self.init_members@, self.sidecar_port),
    {
        with_port(&self.init_members, self.sidecar_port)
    }

    /// The initial member table, with each host given the managed store's
    /// port.
    pub fn init_xline_members(&self) -> (r: Vec<(String, String)>)
        ensures
            r.deep_view() == members_with_port(self.init_members@, self.xline_port),
    {
        with_port(&self.init_members, self.xline_port)
    }
}

/// Append a port to every host of a member table.
pub fn with_port(members: &Vec<(String, String)>, port: u16) -> (r: Vec<(String, String)>)
    ensures
        r.deep_view() == members_with_port(members@, port),
{
    let mut out: Vec<(String, String)> = Vec::new();
    let mut i: usize = 0;
    while i < members.len()
        invariant
            0 <= i <= members@.len(),
            out@.len() == i,
            forall|j: int|
                0 <= j < i ==> out.deep_view()[j] == (
                    (#[trigger] members@[j]).0@,
                    spec_addr(members@[j].1@, port),
                ),
        decreases members@.len() - i,
    {
        let name = members[i].0.clone();
        let addr = make_addr(&members[i].1, port);
        proof {
            assert(name@ == members@[i as int].0@);
            assert(addr@ == spec_addr(members@[i as int].1@, port));
        }
        out.push((name, addr));
        proof {
            assert(out.deep_view()[i as int] == (members@[i as int].0@, spec_addr(
                members@[i as int].1@,
                port,
            )));
        }
        i = i + 1;
    }
    proof {
        assert(out.deep_view() =~= members_with_port(members@, port));
    }
    out
}

/// Look a member's host up in a member table.
pub fn get_host(members: &Vec<(String, String)>, name: &str) -> (r: Option<String>)
    ensures
        match r {
            Some(h) => exists|i: int|
                0 <= i < members@.len() && (#[trigger] members@[i]).0@ == name@ && h@
                    == members@[i].1@,
            None => forall|i: int| 0 <= i < members@.len() ==> (#[trigger] members@[i]).0@ != name@,
        },
{
    let mut i: usize = 0;
    while i < members.len()
        invariant
            0 <= i <= members@.len(),
            forall|j: int| 0 <= j < i ==> (#[trigger] members@[j]).0@ != name@,
        decreases members@.len() - i,
    {
        if crate::text::str_eq(members[i].0.as_str(), name) {
            let h = members[i].1.clone();
            proof {
                assert(h@ == members@[i as int].1@);
            }
            return Some(h);
        }
        i = i + 1;
    }
    None
}

/// The majority of a cluster of the given size: more than half.
pub fn majority_of(size: usize) -> (r: usize)
    requires
        size < usize::MAX,
    ensures
        r == size / 2 + 1,
{
    size / 2 + 1
}

/// What a sidecar is doing, as shown to its peers.
#[derive(Clone, Copy, Debug, PartialEq, Eq, Hash, Structural)]
pub enum State {
    /// Trying to start the managed store.
    Start,
    /// Pending on an unclear cluster condition.
    Pending,
    /// Working normally.
    OK,
}

/// The payload a sidecar exposes to its peers: its state and the highest
/// revision it knows of.
#[derive(Clone, Debug)]
pub struct StatePayload {
    /// The current state.
    pub state: State,
    /// The highest revision observed so far; never decreases.
    pub revision: i64,
}

impl StatePayload {
    /// A fresh payload in the given state at the given revision.
    pub fn new(state: State, revision: i64) -> (r: StatePayload)
        ensures
            r.state == state,
            r.revision == revision,
    {
        StatePayload { state, revision }
    }

    /// Publish a new state; the revision is untouched.
    pub fn set_state(&mut self, state: State)
        ensures
            final(self).state == state,
            final(self).revision == old(self).revision,
    {
        self.state = state;
    }

    /// Take a newly observed revision into account. The stored revision
    /// becomes the maximum of itself and the observation: it never
    /// decreases, whatever is observed.
    pub fn observe_revision(&mut self, observed: i64)
        ensures
            final(self).revision == (if observed > old(self).revision {
                observed
            } else {
                old(self).revision
            }),
            final(self).revision >= old(self).revision,
            final(self).state == old(self).state,
    {
        if observed > self.revision {
            self.revision = observed;
        }
    }

    /// Fold the three revision sources — last online reading, on-disk
    /// reading, latest remote snapshot — into the stored revision, which
    /// again never decreases.
    pub fn refresh_revision(&mut self, online: Option<i64>, offline: Option<i64>, remote: Option<
        i64,
    >)
        ensures
            final(self).revision >= old(self).revision,
            online is Some ==> final(self).revision >= online->Some_0,
            offline is Some ==> final(self).revision >= offline->Some_0,
            remote is Some ==> final(self).revision >= remote->Some_0,
            final(self).revision == old(self).revision || (online == Some(final(self).revision)
                || offline == Some(final(self).revision) || remote == Some(
                final(self).revision,
            )),
            final(self).state == old(self).state,
    {
        if let Some(v) = online {
            self.observe_revision(v);
        }
        if let Some(v) = offline {
            self.observe_revision(v);
        }
        if let Some(v) = remote {
            self.observe_revision(v);
        }
    }
}

/// How many of the payloads carry the given state.
pub open spec fn count_state(ps: Seq<(String, StatePayload)>, s: State) -> int
    decreases ps.len(),
{
    if ps.len() == 0 {
        0
    } else {
        count_state(ps.drop_last(), s) + if ps.last().1.state == s {
            1int
        } else {
            0int
        }
    }
}

/// The gathered view of all peers' states: who would seed a cold cluster,
/// and how many peers report each state.
#[derive(Clone, Debug)]
pub struct StateStatus {
    /// The peer with the highest revision; ties go to the smaller name.
    /// Empty when no peer reported.
    pub seeder: String,
    /// How many peers report `Start`.
    pub start_count: usize,
    /// How many peers report `Pending`.
    pub pending_count: usize,
    /// How many peers report `OK`.
    pub ok_count: usize,
}

impl StateStatus {
    /// Gather the peers' payloads into one view. The counts are exact; the
    /// seeder is the peer with the highest revision, ties broken toward the
    /// lexicographically smaller name, so every peer that gathers the same
    /// payloads computes the same seeder.
    pub fn gather(payloads: &Vec<(String, StatePayload)>) -> (r: StateStatus)
        ensures
            r.start_count as int == count_state(payloads@, State::Start),
            r.pending_count as int == count_state(payloads@, State::Pending),
            r.ok_count as int == count_state(payloads@, State::OK),
            payloads@.len() == 0 ==> r.seeder@ == Seq::<char>::empty(),
            payloads@.len() > 0 ==> exists|i: int|
                0 <= i < payloads@.len() && (#[trigger] payloads@[i]).0@ == r.seeder@
                    && payloads@[i].1.revision as int == max_revision(payloads@),
            forall|j: int|
                0 <= j < payloads@.len() && (#[trigger] payloads@[j]).1.revision as int
                    == max_revision(payloads@) ==> !spec_str_lt(payloads@[j].0@, r.seeder@),
    {
        let start_count = count_with_state(payloads, State::Start);
        let pending_count = count_with_state(payloads, State::Pending);
        let ok_count = count_with_state(payloads, State::OK);
        let seeder = pick_seeder(payloads);
        StateStatus { seeder, start_count, pending_count, ok_count }
    }
}

/// Count the payloads that carry the given state.
fn count_with_state(payloads: &Vec<(String, StatePayload)>, s: State) -> (r: usize)
    ensures
        r as int == count_state(payloads@, s),
{
    let ghost ps = payloads@;
    let mut n: usize = 0;
    let mut i: usize = 0;
    proof {
        assert(ps.take(0) =~= Seq::<(String, StatePayload)>::empty());
        lemma_count_state_bound(ps, s);
    }
    while i < payloads.len()
        invariant
            0 <= i <= ps.len(),
            ps == payloads@,
            n as int == count_state(ps.take(i as int), s),
            n <= i,
        decreases ps.len() - i,
    {
        proof {
            let t = ps.take(i + 1);
            assert(t.drop_last() =~= ps.take(i as int));
            assert(t.last() == ps[i as int]);
        }
        if payloads[i].1.state == s {
            n = n + 1;
        }
        i = i + 1;
    }
    proof {
        assert(ps.take(ps.len() as int) =~= ps);
    }
    n
}

/// The state count never exceeds the number of payloads.
proof fn lemma_count_state_bound(ps: Seq<(String, StatePayload)>, s: State)
    ensures
        0 <= count_state(ps, s) <= ps.len(),
    decreases ps.len(),
{
    if ps.len() > 0 {
        lemma_count_state_bound(ps.drop_last(), s);
    }
}

/// The greatest revision among the payloads; the least 64-bit value when
/// there are none.
pub open spec fn max_revision(ps: Seq<(String, StatePayload)>) -> int
    decreases ps.len(),
{
    if ps.len() == 0 {
        i64::MIN as int
    } else {
        let rest = max_revision(ps.drop_last());
        if ps.last().1.revision as int > rest {
            ps.last().1.revision as int
        } else {
            rest
        }
    }
}

/// No payload's revision exceeds the greatest revision.
pub proof fn lemma_max_revision_bound(ps: Seq<(String, StatePayload)>)
    ensures
        forall|j: int| 0 <= j < ps.len() ==> (#[trigger] ps[j]).1.revision as int <= max_revision(
            ps,
        ),
    decreases ps.len(),
{
    if ps.len() > 0 {
        lemma_max_revision_bound(ps.drop_last());
        assert(forall|j: int| 0 <= j < ps.len() - 1 ==> ps[j] == ps.drop_last()[j]);
        assert(ps[ps.len() - 1] == ps.last());
    }
}

/// The peer with the highest revision, ties broken toward the smaller
/// name; the empty string when no peer reported.
fn pick_seeder(payloads: &Vec<(String, StatePayload)>) -> (r: String)
    ensures
        payloads@.len() == 0 ==> r@ == Seq::<char>::empty(),
        payloads@.len() > 0 ==> exists|i: int|
            0 <= i < payloads@.len() && (#[trigger] payloads@[i]).0@ == r@
                && payloads@[i].1.revision as int == max_revision(payloads@),
        forall|j: int|
            0 <= j < payloads@.len() && (#[trigger] payloads@[j]).1.revision as int
                == max_revision(payloads@) ==> !spec_str_lt(payloads@[j].0@, r@),
{
    let ghost ps = payloads@;
    if payloads.len() == 0 {
        return String::new();
    }
    let mut best_name: String = payloads[0].0.clone();
    let mut best_rev: i64 = payloads[0].1.revision;
    proof {
        assert(best_name@ == ps[0].0@);
        assert(ps.take(1).drop_last() =~= Seq::<(String, StatePayload)>::empty());
        assert(ps.take(1).last() == ps[0]);
        assert(max_revision(Seq::<(String, StatePayload)>::empty()) == i64::MIN as int);
        assert(best_rev as int == max_revision(ps.take(1)));
        crate::text::lemma_str_lt_irrefl(best_name@);
    }
    let mut i: usize = 1;
    while i < payloads.len()
        invariant
            1 <= i <= ps.len(),
            ps == payloads@,
            best_rev as int == max_revision(ps.take(i as int)),
            exists|k: int|
                0 <= k < i && (#[trigger] ps[k]).0@ == best_name@ && ps[k].1.revision == best_rev,
            forall|k: int|
                0 <= k < i && (#[trigger] ps[k]).1.revision == best_rev ==> !spec_str_lt(
                    ps[k].0@,
                    best_name@,
                ),
        decreases ps.len() - i,
    {
        proof {
            let t = ps.take(i + 1);
            assert(t.drop_last() =~= ps.take(i as int));
            assert(t.last() == ps[i as int]);
        }
        let entry = &payloads[i];
        let rev = entry.1.revision;
        let tie_smaller = rev == best_rev && str_lt(entry.0.as_str(), best_name.as_str());
        let replace = rev > best_rev || tie_smaller;
        let ghost old_name = best_name@;
        let ghost old_rev = best_rev as int;
        if replace {
            best_name = entry.0.clone();
            best_rev = rev;
            proof {
                assert(best_name@ == ps[i as int].0@);
                assert forall|k: int|
                    0 <= k < i + 1 && (#[trigger] ps[k]).1.revision == best_rev implies
                    !spec_str_lt(ps[k].0@, best_name@) by {
                    if k == i {
                        crate::text::lemma_str_lt_irrefl(best_name@);
                    } else if ps[k].1.revision == best_rev {
                        if rev > old_rev {
                            lemma_max_revision_bound(ps.take(i as int));
                            assert(ps.take(i as int)[k] == ps[k]);
                            assert(ps[k].1.revision <= old_rev);
                            assert(false);
                        } else {
                            assert(!spec_str_lt(ps[k].0@, old_name));
                            if spec_str_lt(ps[k].0@, best_name@) {
                                crate::text::lemma_str_lt_trans(ps[k].0@, best_name@, old_name);
                                assert(false);
                            }
                        }
                    }
                }
            }
        } else {
            proof {
                assert(!spec_str_lt(ps[i as int].0@, best_name@) || ps[i as int].1.revision
                    != best_rev);
            }
        }
        i = i + 1;
    }
    proof {
        assert(ps.take(ps.len() as int) =~= ps);
        assert(best_rev as int == max_revision(ps));
    }
    best_name
}

} // verus!
