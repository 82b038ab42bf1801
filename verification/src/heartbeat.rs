//! Heartbeat records: what each sidecar reports about which peers it can
//! reach, and how a report is built from probe results.

use crate::text::str_eq;
use vstd::prelude::*;

verus! {

/// A heartbeat: one sidecar's view of its cluster at one moment, ordered by
/// timestamp.
#[derive(Clone, Debug, PartialEq, Eq)]
pub struct HeartbeatStatus {
    /// The cluster this sidecar belongs to.
    pub cluster_name: String,
    /// The reporting sidecar.
    pub name: String,
    /// Seconds since the epoch at which the report was built.
    pub timestamp: u64,
    /// The sidecars that answered their health probe, the reporter included.
    pub reachable: Vec<String>,
}

impl HeartbeatStatus {
    /// Create a new heartbeat record.
    pub fn new(cluster_name: String, name: String, timestamp: u64, reachable: Vec<String>) -> (r:
        HeartbeatStatus)
        ensures
            r.cluster_name == cluster_name,
            r.name == name,
            r.timestamp == timestamp,
            r.reachable == reachable,
    {
        HeartbeatStatus { cluster_name, name, timestamp, reachable }
    }
}

/// The names whose probe succeeded, in probe order.
pub open spec fn probe_names(ps: Seq<(String, bool)>) -> Seq<Seq<char>>
    decreases ps.len(),
{
    if ps.len() == 0 {
        Seq::<Seq<char>>::empty()
    } else {
        probe_names(ps.drop_last()) + (if ps.last().1 {
            seq![ps.last().0@]
        } else {
            Seq::<Seq<char>>::empty()
        })
    }
}

/// Whether a name is among a list of names.
pub open spec fn name_in(names: Seq<Seq<char>>, name: Seq<char>) -> bool {
    exists|i: int| 0 <= i < names.len() && names[i] == name
}

/// Build a heartbeat from probe results: the reachable list holds exactly
/// the names whose probe succeeded, with the reporter appended when its own
/// probe did not succeed — a sidecar always counts itself reachable.
pub fn gather_from_probes(
    cluster_name: String,
    name: String,
    timestamp: u64,
    probes: &Vec<(String, bool)>,
) -> (r: HeartbeatStatus)
    ensures
        r.cluster_name == cluster_name,
        r.timestamp == timestamp,
        r.name@ == name@,
        r.reachable.deep_view() == (if name_in(probe_names(probes@), name@) {
            probe_names(probes@)
        } else {
            probe_names(probes@).push(name@)
        }),
        name_in(r.reachable.deep_view(), name@),
{
    let mut out: Vec<String> = Vec::new();
    let mut i: usize = 0;
    proof {
        assert(probes@.take(0) =~= Seq::<(String, bool)>::empty());
        assert(out.deep_view() =~= probe_names(probes@.take(0)));
    }
    while i < probes.len()
        invariant
            0 <= i <= probes.len(),
            out.deep_view() == probe_names(probes@.take(i as int)),
        decreases probes.len() - i,
    {
        proof {
            let t = probes@.take(i + 1);
            assert(t.drop_last() =~= probes@.take(i as int));
            assert(t.last() == probes@[i as int]);
        }
        if probes[i].1 {
            let entry = probes[i].0.clone();
            proof {
                assert(entry@ == probes@[i as int].0@);
            }
            out.push(entry);
            proof {
                assert(out.deep_view() =~= probe_names(probes@.take(i + 1)));
            }
        } else {
            proof {
                assert(out.deep_view() =~= probe_names(probes@.take(i + 1)));
            }
        }
        i = i + 1;
    }
    proof {
        assert(probes@.take(probes@.len() as int) =~= probes@);
    }
    let mut found = false;
    let mut k: usize = 0;
    while k < out.len()
        invariant
            0 <= k <= out.len(),
            found == exists|j: int| 0 <= j < k && out.deep_view()[j] == name@,
            out.deep_view() == probe_names(probes@),
        decreases out.len() - k,
    {
        proof {
            assert(out.deep_view()[k as int] == out@[k as int]@);
        }
        if str_eq(out[k].as_str(), name.as_str()) {
            found = true;
        }
        k = k + 1;
    }
    if !found {
        let entry = name.clone();
        out.push(entry);
        proof {
            assert(out.deep_view() =~= probe_names(probes@).push(name@));
            assert(out.deep_view()[out.deep_view().len() - 1] == name@);
        }
    }
    HeartbeatStatus { cluster_name, name, timestamp, reachable: out }
}

} // verus!
