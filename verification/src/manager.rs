//! Desired-state materialization: derive the platform objects — headless
//! service, stateful workload, scheduled backup job — from a cluster
//! specification, with stable names, labels and garbage-collection
//! parentage.

use crate::crd::{ClusterSpec, MountSpec, PortSpec, PvcSpec, StorageSpec};
use crate::text::{dec_u64, spec_dec, spec_split, str_eq, str_starts_with};
use vstd::prelude::*;

verus! {

/// The reserved mount path for the backup volume.
pub open spec fn backup_dir() -> Seq<char> {
    "/xline-backup"@
}

/// The reserved mount path for the data volume.
pub open spec fn data_dir() -> Seq<char> {
    "/usr/local/xline/data-dir"@
}

/// The port name that marks the managed store's port.
pub open spec fn xline_port_name() -> Seq<char> {
    "xline"@
}

/// The port name that marks the sidecar's port.
pub open spec fn sidecar_port_name() -> Seq<char> {
    "sidecar"@
}

/// The view of an optional string.
pub open spec fn opt_view(o: Option<String>) -> Option<Seq<char>> {
    match o {
        Some(s) => Some(s@),
        None => None,
    }
}

/// The cluster resource as the materializer reads it: identity, labels,
/// annotations and the specification.
#[derive(Clone, Debug)]
pub struct Cluster {
    /// The resource name.
    pub name: Option<String>,
    /// The resource namespace.
    pub namespace: Option<String>,
    /// The unique id the platform assigned.
    pub uid: Option<String>,
    /// The resource labels.
    pub labels: Vec<(String, String)>,
    /// The resource annotations.
    pub annotations: Vec<(String, String)>,
    /// The declarative specification.
    pub spec: ClusterSpec,
}

/// A controller-owner reference: makes the platform delete the child when
/// the cluster resource is deleted.
#[derive(Clone, Debug, PartialEq, Eq)]
pub struct OwnerReference {
    /// The owner's API version.
    pub api_version: String,
    /// The owner's kind.
    pub kind: String,
    /// The owner's name.
    pub name: String,
    /// The owner's unique id.
    pub uid: String,
    /// Whether the owner is the managing controller.
    pub controller: bool,
}

/// Whether an owner reference points at the cluster as its controller.
pub open spec fn owner_matches(o: OwnerReference, c: Cluster) -> bool {
    &&& o.api_version@ == "xlineoperator.xline.cloud/v1alpha1"@
    &&& o.kind@ == "XlineCluster"@
    &&& opt_view(c.name) == Some(o.name@)
    &&& opt_view(c.uid) == Some(o.uid@)
    &&& o.controller
}

/// Two owner references that both point at the same cluster are the same
/// reference: every materialized child carries the one controller-owner
/// reference of its cluster.
pub proof fn lemma_owner_refs_agree(o1: OwnerReference, o2: OwnerReference, c: Cluster)
    requires
        owner_matches(o1, c),
        owner_matches(o2, c),
    ensures
        o1.api_version@ == o2.api_version@,
        o1.kind@ == o2.kind@,
        o1.name@ == o2.name@,
        o1.uid@ == o2.uid@,
        o1.controller == o2.controller,
{
}

/// Shared object metadata of a materialized child.
#[derive(Clone, Debug)]
pub struct ObjectMeta {
    /// The child's name.
    pub name: String,
    /// The child's namespace.
    pub namespace: String,
    /// The child's labels.
    pub labels: Vec<(String, String)>,
    /// The owner references; always exactly the cluster.
    pub owner_references: Vec<OwnerReference>,
}

/// One exposed service port.
#[derive(Clone, Debug, PartialEq, Eq)]
pub struct ServicePort {
    /// The port's name.
    pub name: Option<String>,
    /// The port number.
    pub port: i32,
}

/// The component a child belongs to.
#[derive(Clone, Copy, Debug, PartialEq, Eq, Structural)]
pub enum Component {
    /// A member node.
    Nodes,
    /// The headless service.
    Service,
    /// The scheduled backup job.
    BackupJob,
}

impl Component {
    /// The component's label value.
    pub fn label(&self) -> (r: &'static str)
        ensures
            *self == Component::Nodes ==> r@ == "nodes"@,
            *self == Component::Service ==> r@ == "svc"@,
            *self == Component::BackupJob ==> r@ == "backup"@,
    {
        match *self {
            Component::Nodes => "nodes",
            Component::Service => "svc",
            Component::BackupJob => "backup",
        }
    }
}

/// The first declared port with the given name.
pub open spec fn find_named(ports: Seq<PortSpec>, nm: Seq<char>) -> Option<PortSpec>
    decreases ports.len(),
{
    if ports.len() == 0 {
        None
    } else if opt_view(ports[0].name) == Some(nm) {
        Some(ports[0])
    } else {
        find_named(ports.drop_first(), nm)
    }
}

/// The declared ports of a cluster's container; none declared reads as an
/// empty list.
pub open spec fn declared_ports(c: Cluster) -> Seq<PortSpec> {
    match c.spec.container.ports {
        Some(v) => v@,
        None => Seq::<PortSpec>::empty(),
    }
}

/// Reads the pieces of a cluster resource that materialization needs.
pub struct Extractor<'a> {
    /// The cluster resource read from.
    pub cluster: &'a Cluster,
}

impl<'a> Extractor<'a> {
    /// Read from the given cluster.
    pub fn new(cluster: &'a Cluster) -> (r: Extractor<'a>)
        ensures
            r.cluster == cluster,
    {
        Extractor { cluster }
    }

    /// The store port, the sidecar port, and the service ports: every
    /// declared port is exposed; the well-known store and sidecar ports
    /// are added with their defaults (2379 and 2380) when the user did not
    /// declare a port of that name.
    pub fn extract_ports(&self) -> (r: (PortSpec, PortSpec, Vec<ServicePort>))
        ensures
            ({
                let ports = declared_ports(*self.cluster);
                let had_x = find_named(ports, xline_port_name()) is Some;
                let had_s = find_named(ports, sidecar_port_name()) is Some;
                &&& (match find_named(ports, xline_port_name()) {
                    Some(p) => r.0 == p,
                    None => r.0.container_port == 2379 && opt_view(r.0.name) == Some(
                        xline_port_name(),
                    ),
                })
                &&& (match find_named(ports, sidecar_port_name()) {
                    Some(p) => r.1 == p,
                    None => r.1.container_port == 2380 && opt_view(r.1.name) == Some(
                        sidecar_port_name(),
                    ),
                })
                &&& r.2@.len() == ports.len() + (if had_x {
                    0int
                } else {
                    1int
                }) + (if had_s {
                    0int
                } else {
                    1int
                })
                &&& forall|i: int|
                    0 <= i < ports.len() ==> opt_view((#[trigger] r.2@[i]).name) == opt_view(
                        ports[i].name,
                    ) && r.2@[i].port == ports[i].container_port
                &&& (!had_x ==> opt_view(r.2@[ports.len() as int].name) == Some(xline_port_name())
                    && r.2@[ports.len() as int].port == 2379)
                &&& (!had_s ==> opt_view(r.2@[r.2@.len() - 1].name) == Some(sidecar_port_name())
                    && r.2@[r.2@.len() - 1].port == 2380)
            }),
    {
        let empty_ports: Vec<PortSpec> = Vec::new();
        let ports: &Vec<PortSpec> = match &self.cluster.spec.container.ports {
            Some(v) => v,
            None => &empty_ports,
        };
        let ghost gports = declared_ports(*self.cluster);
        proof {
            assert(ports@ == gports);
        }
        let mut xline_port: Option<PortSpec> = None;
        let mut sidecar_port: Option<PortSpec> = None;
        let mut service_ports: Vec<ServicePort> = Vec::new();
        let mut i: usize = 0;
        while i < ports.len()
            invariant
                0 <= i <= gports.len(),
                ports@ == gports,
                xline_port == find_named(gports.take(i as int), xline_port_name()),
                sidecar_port == find_named(gports.take(i as int), sidecar_port_name()),
                service_ports@.len() == i,
                forall|j: int|
                    0 <= j < i ==> opt_view((#[trigger] service_ports@[j]).name) == opt_view(
                        gports[j].name,
                    ) && service_ports@[j].port == gports[j].container_port,
            decreases gports.len() - i,
        {
            proof {
                lemma_find_named_step(gports, i as int, xline_port_name());
                lemma_find_named_step(gports, i as int, sidecar_port_name());
            }
            let port = &ports[i];
            let name_is_xline = match &port.name {
                Some(n) => str_eq(n.as_str(), "xline"),
                None => false,
            };
            let name_is_sidecar = match &port.name {
                Some(n) => str_eq(n.as_str(), "sidecar"),
                None => false,
            };
            if name_is_xline && xline_port.is_none() {
                xline_port = Some(dup_port(port));
            }
            if name_is_sidecar && sidecar_port.is_none() {
                sidecar_port = Some(dup_port(port));
            }
            let sp = ServicePort { name: dup_opt_string(&port.name), port: port.container_port };
            proof {
                assert(opt_view(sp.name) == opt_view(gports[i as int].name));
            }
            service_ports.push(sp);
            i = i + 1;
        }
        proof {
            assert(gports.take(gports.len() as int) =~= gports);
        }
        let had_x = xline_port.is_some();
        let had_s = sidecar_port.is_some();
        if !had_x {
            service_ports.push(
                ServicePort { name: Some("xline".to_owned()), port: 2379 },
            );
        }
        if !had_s {
            service_ports.push(
                ServicePort { name: Some("sidecar".to_owned()), port: 2380 },
            );
        }
        let xp = match xline_port {
            Some(p) => p,
            None => PortSpec { name: Some("xline".to_owned()), container_port: 2379 },
        };
        let sp = match sidecar_port {
            Some(p) => p,
            None => PortSpec { name: Some("sidecar".to_owned()), container_port: 2380 },
        };
        (xp, sp, service_ports)
    }

    /// The volume claim templates: the backup claim when the backup
    /// storage is a volume, then the data claim, then the user's claims.
    pub fn extract_pvc_template(&self) -> (r: Vec<PvcSpec>)
        ensures
            r@ == backup_pvc_seq(*self.cluster) + data_pvc_seq(*self.cluster) + user_pvc_seq(
                *self.cluster,
            ),
    {
        let mut out: Vec<PvcSpec> = Vec::new();
        if let Some(b) = &self.cluster.spec.backup {
            if let StorageSpec::Pvc { pvc } = &b.storage {
                out.push(dup_pvc(pvc));
            }
        }
        proof {
            assert(out@ =~= backup_pvc_seq(*self.cluster));
        }
        if let Some(d) = &self.cluster.spec.data {
            out.push(dup_pvc(d));
        }
        proof {
            assert(out@ =~= backup_pvc_seq(*self.cluster) + data_pvc_seq(*self.cluster));
        }
        if let Some(pvcs) = &self.cluster.spec.pvcs {
            let mut i: usize = 0;
            while i < pvcs.len()
                invariant
                    0 <= i <= pvcs@.len(),
                    Some(*pvcs) == self.cluster.spec.pvcs,
                    out@ =~= backup_pvc_seq(*self.cluster) + data_pvc_seq(*self.cluster)
                        + pvcs@.take(i as int),
                decreases pvcs@.len() - i,
            {
                out.push(dup_pvc(&pvcs[i]));
                proof {
                    assert(pvcs@.take(i + 1) =~= pvcs@.take(i as int).push(pvcs@[i as int]));
                }
                i = i + 1;
            }
            proof {
                assert(pvcs@.take(pvcs@.len() as int) =~= pvcs@);
            }
        }
        proof {
            assert(out@ =~= backup_pvc_seq(*self.cluster) + data_pvc_seq(*self.cluster)
                + user_pvc_seq(*self.cluster));
        }
        out
    }

    /// The mounts the operator adds to the user container: the backup
    /// claim at the reserved backup path, and the data claim at the
    /// reserved data path, where configured.
    pub fn extract_additional_volume_mount(&self) -> (r: Vec<MountSpec>)
        ensures
            r@.len() == backup_pvc_seq(*self.cluster).len() + data_pvc_seq(*self.cluster).len(),
            backup_pvc_seq(*self.cluster).len() == 1 ==> r@[0].name@ == pvc_name_view(
                backup_pvc_seq(*self.cluster)[0],
            ) && r@[0].mount_path@ == backup_dir(),
            data_pvc_seq(*self.cluster).len() == 1 ==> r@[r@.len() - 1].name@ == pvc_name_view(
                data_pvc_seq(*self.cluster)[0],
            ) && r@[r@.len() - 1].mount_path@ == data_dir(),
    {
        let mut out: Vec<MountSpec> = Vec::new();
        if let Some(b) = &self.cluster.spec.backup {
            if let StorageSpec::Pvc { pvc } = &b.storage {
                let m = MountSpec { name: pvc.name_any(), mount_path: "/xline-backup".to_owned() };
                out.push(m);
            }
        }
        if let Some(d) = &self.cluster.spec.data {
            let m = MountSpec {
                name: d.name_any(),
                mount_path: "/usr/local/xline/data-dir".to_owned(),
            };
            out.push(m);
        }
        out
    }

    /// The cluster's controller-owner reference. The platform has always
    /// set a name and a unique id on a served resource.
    pub fn extract_owner_ref(&self) -> (r: OwnerReference)
        requires
            self.cluster.name is Some,
            self.cluster.uid is Some,
        ensures
            owner_matches(r, *self.cluster),
    {
        let name = match &self.cluster.name {
            Some(n) => n.clone(),
            None => String::new(),
        };
        let uid = match &self.cluster.uid {
            Some(u) => u.clone(),
            None => String::new(),
        };
        OwnerReference {
            api_version: "xlineoperator.xline.cloud/v1alpha1".to_owned(),
            kind: "XlineCluster".to_owned(),
            name,
            uid,
            controller: true,
        }
    }

    /// The cluster's name and namespace. The platform has always set both
    /// on a served resource.
    pub fn extract_id(&self) -> (r: (String, String))
        requires
            self.cluster.name is Some,
            self.cluster.namespace is Some,
        ensures
            Some(r.0@) == opt_view(self.cluster.name),
            Some(r.1@) == opt_view(self.cluster.namespace),
    {
        let name = match &self.cluster.name {
            Some(n) => n.clone(),
            None => String::new(),
        };
        let namespace = match &self.cluster.namespace {
            Some(n) => n.clone(),
            None => String::new(),
        };
        (name, namespace)
    }

    /// The labels inherited onto every child: those of the cluster's
    /// labels whose key starts with one of the comma-separated prefixes in
    /// the inherit-labels annotation.
    pub fn extract_inherit_labels(&self) -> (r: Vec<(String, String)>)
        ensures
            r@ == inherited_labels(*self.cluster),
    {
        let value = match lookup(&self.cluster.annotations, "xlineoperator.datenlord.io/inherit-label-prefix") {
            Some(v) => v,
            None => {
                proof {
                    assert(inherited_labels(*self.cluster) =~= Seq::<(String, String)>::empty());
                }
                return Vec::new();
            },
        };
        let seps: [char; 1] = [','];
        proof {
            assert(seps@ =~= seq![',']);
        }
        let raw = crate::text::split_str(value.as_str(), &seps);
        let mut prefixes: Vec<String> = Vec::new();
        let mut i: usize = 0;
        proof {
            assert(raw.deep_view().take(0) =~= Seq::<Seq<char>>::empty());
            assert(prefixes.deep_view() =~= trimmed_prefixes(raw.deep_view().take(0)));
        }
        while i < raw.len()
            invariant
                0 <= i <= raw@.len(),
                raw@.len() == raw.deep_view().len(),
                forall|j: int| 0 <= j < raw@.len() ==> raw.deep_view()[j] == (#[trigger] raw@[j])@,
                prefixes.deep_view() == trimmed_prefixes(raw.deep_view().take(i as int)),
            decreases raw@.len() - i,
        {
            proof {
                let t = raw.deep_view().take(i + 1);
                assert(t.drop_last() =~= raw.deep_view().take(i as int));
                assert(t.last() == raw.deep_view()[i as int]);
            }
            let trimmed = crate::text::trim_str(raw[i].as_str());
            if !trimmed.as_str().is_empty() {
                prefixes.push(trimmed);
                proof {
                    assert(prefixes.deep_view() =~= trimmed_prefixes(
                        raw.deep_view().take(i + 1),
                    ));
                }
            } else {
                proof {
                    assert(prefixes.deep_view() =~= trimmed_prefixes(
                        raw.deep_view().take(i + 1),
                    ));
                }
            }
            i = i + 1;
        }
        proof {
            assert(raw.deep_view().take(raw.deep_view().len() as int) =~= raw.deep_view());
            assert(value@ == annotation_value(*self.cluster)->Some_0);
        }
        let mut out: Vec<(String, String)> = Vec::new();
        let mut k: usize = 0;
        proof {
            assert(self.cluster.labels@.take(0) =~= Seq::<(String, String)>::empty());
            assert(out@ =~= filter_labels(self.cluster.labels@.take(0), prefixes.deep_view()));
        }
        while k < self.cluster.labels.len()
            invariant
                0 <= k <= self.cluster.labels@.len(),
                prefixes.deep_view() == trimmed_prefixes(
                    spec_split(annotation_value(*self.cluster)->Some_0, seq![',']),
                ),
                annotation_value(*self.cluster) is Some,
                out@ == filter_labels(
                    self.cluster.labels@.take(k as int),
                    prefixes.deep_view(),
                ),
            decreases self.cluster.labels@.len() - k,
        {
            proof {
                let t = self.cluster.labels@.take(k + 1);
                assert(t.drop_last() =~= self.cluster.labels@.take(k as int));
                assert(t.last() == self.cluster.labels@[k as int]);
            }
            let label = &self.cluster.labels[k];
            let mut matched = false;
            let mut p: usize = 0;
            while p < prefixes.len()
                invariant
                    0 <= p <= prefixes@.len(),
                    prefixes@.len() == prefixes.deep_view().len(),
                    forall|q: int|
                        0 <= q < prefixes@.len() ==> prefixes.deep_view()[q] == (
                        #[trigger] prefixes@[q])@,
                    0 <= k < self.cluster.labels@.len(),
                    label == &self.cluster.labels@[k as int],
                    matched == exists|q: int|
                        0 <= q < p && (#[trigger] prefixes.deep_view()[q]).is_prefix_of(
                            label.0@,
                        ),
                decreases prefixes@.len() - p,
            {
                if str_starts_with(label.0.as_str(), prefixes[p].as_str()) {
                    matched = true;
                }
                p = p + 1;
            }
            proof {
                assert(matched == matches_any(
                    self.cluster.labels@[k as int].0@,
                    prefixes.deep_view(),
                ));
            }
            if matched {
                let entry = (label.0.clone(), label.1.clone());
                proof {
                    assert(entry == self.cluster.labels@[k as int]);
                }
                out.push(entry);
                proof {
                    assert(out@ =~= filter_labels(
                        self.cluster.labels@.take(k + 1),
                        prefixes.deep_view(),
                    ));
                }
            } else {
                proof {
                    assert(out@ =~= filter_labels(
                        self.cluster.labels@.take(k + 1),
                        prefixes.deep_view(),
                    ));
                }
            }
            k = k + 1;
        }
        proof {
            assert(self.cluster.labels@.take(self.cluster.labels@.len() as int)
                =~= self.cluster.labels@);
        }
        out
    }
}

/// Unfold one step of the first-named-port search.
proof fn lemma_find_named_step(ports: Seq<PortSpec>, i: int, nm: Seq<char>)
    requires
        0 <= i < ports.len(),
    ensures
        find_named(ports.take(i + 1), nm) == (if find_named(ports.take(i), nm) is Some {
            find_named(ports.take(i), nm)
        } else if opt_view(ports[i].name) == Some(nm) {
            Some(ports[i])
        } else {
            None::<PortSpec>
        }),
    decreases i,
{
    if i == 0 {
        assert(ports.take(0) =~= Seq::<PortSpec>::empty());
        let t = ports.take(1);
        assert(t[0] == ports[0]);
        if opt_view(t[0].name) != Some(nm) {
            assert(t.drop_first() =~= Seq::<PortSpec>::empty());
        }
    } else {
        let t1 = ports.take(i + 1);
        let t0 = ports.take(i);
        assert(t1[0] == ports[0] && t0[0] == ports[0]);
        if opt_view(ports[0].name) == Some(nm) {
        } else {
            assert(t1.drop_first() =~= ports.drop_first().take(i));
            assert(t0.drop_first() =~= ports.drop_first().take(i - 1));
            assert(ports.drop_first()[i - 1] == ports[i]);
            lemma_find_named_step(ports.drop_first(), i - 1, nm);
        }
    }
}

/// Copy a port specification.
fn dup_port(p: &PortSpec) -> (r: PortSpec)
    ensures
        r == *p,
{
    PortSpec { name: dup_opt_string(&p.name), container_port: p.container_port }
}

/// Copy an optional string.
fn dup_opt_string(o: &Option<String>) -> (r: Option<String>)
    ensures
        r == *o,
{
    match o {
        Some(s) => Some(s.clone()),
        None => None,
    }
}

/// Copy a volume claim model.
fn dup_pvc(p: &PvcSpec) -> (r: PvcSpec)
    ensures
        r == *p,
{
    PvcSpec { name: dup_opt_string(&p.name) }
}

/// The backup claim, as a sequence of zero or one claims.
pub open spec fn backup_pvc_seq(c: Cluster) -> Seq<PvcSpec> {
    match c.spec.backup {
        Some(b) => match b.storage {
            StorageSpec::Pvc { pvc } => seq![pvc],
            StorageSpec::S3 { .. } => Seq::<PvcSpec>::empty(),
        },
        None => Seq::<PvcSpec>::empty(),
    }
}

/// The data claim, as a sequence of zero or one claims.
pub open spec fn data_pvc_seq(c: Cluster) -> Seq<PvcSpec> {
    match c.spec.data {
        Some(d) => seq![d],
        None => Seq::<PvcSpec>::empty(),
    }
}

/// The user's claims; none reads as an empty list.
pub open spec fn user_pvc_seq(c: Cluster) -> Seq<PvcSpec> {
    match c.spec.pvcs {
        Some(v) => v@,
        None => Seq::<PvcSpec>::empty(),
    }
}

/// A claim's name view; empty when none is set.
pub open spec fn pvc_name_view(p: PvcSpec) -> Seq<char> {
    match p.name {
        Some(n) => n@,
        None => Seq::<char>::empty(),
    }
}

/// The inherit-labels annotation value of a cluster.
pub open spec fn annotation_value(c: Cluster) -> Option<Seq<char>> {
    spec_lookup(c.annotations@, "xlineoperator.datenlord.io/inherit-label-prefix"@)
}

/// The first value stored under a key.
pub open spec fn spec_lookup(entries: Seq<(String, String)>, key: Seq<char>) -> Option<Seq<char>>
    decreases entries.len(),
{
    if entries.len() == 0 {
        None
    } else if entries[0].0@ == key {
        Some(entries[0].1@)
    } else {
        spec_lookup(entries.drop_first(), key)
    }
}

/// Look the first value stored under a key up.
pub fn lookup(entries: &Vec<(String, String)>, key: &str) -> (r: Option<String>)
    ensures
        opt_view(r) == spec_lookup(entries@, key@),
{
    let mut i: usize = 0;
    proof {
        assert(entries@.skip(0) =~= entries@);
    }
    while i < entries.len()
        invariant
            0 <= i <= entries@.len(),
            spec_lookup(entries@, key@) == spec_lookup(entries@.skip(i as int), key@),
        decreases entries@.len() - i,
    {
        proof {
            let t = entries@.skip(i as int);
            assert(t[0] == entries@[i as int]);
            assert(t.drop_first() =~= entries@.skip(i + 1));
        }
        if str_eq(entries[i].0.as_str(), key) {
            let v = entries[i].1.clone();
            proof {
                assert(v@ == entries@[i as int].1@);
            }
            return Some(v);
        }
        i = i + 1;
    }
    None
}

/// The comma-separated prefixes of an annotation value, trimmed, with
/// empty entries dropped.
pub open spec fn trimmed_prefixes(raw: Seq<Seq<char>>) -> Seq<Seq<char>>
    decreases raw.len(),
{
    if raw.len() == 0 {
        Seq::<Seq<char>>::empty()
    } else {
        trimmed_prefixes(raw.drop_last()) + (if crate::text::spec_trim(raw.last()).len() > 0 {
            seq![crate::text::spec_trim(raw.last())]
        } else {
            Seq::<Seq<char>>::empty()
        })
    }
}

/// Whether a label key starts with any of the prefixes.
pub open spec fn matches_any(key: Seq<char>, prefixes: Seq<Seq<char>>) -> bool {
    exists|q: int| 0 <= q < prefixes.len() && (#[trigger] prefixes[q]).is_prefix_of(key)
}

/// The labels whose key starts with one of the prefixes, in order.
pub open spec fn filter_labels(labels: Seq<(String, String)>, prefixes: Seq<Seq<char>>) -> Seq<
    (String, String),
>
    decreases labels.len(),
{
    if labels.len() == 0 {
        Seq::<(String, String)>::empty()
    } else {
        filter_labels(labels.drop_last(), prefixes) + (if matches_any(
            labels.last().0@,
            prefixes,
        ) {
            seq![labels.last()]
        } else {
            Seq::<(String, String)>::empty()
        })
    }
}

/// The labels a cluster passes on to its children.
pub open spec fn inherited_labels(c: Cluster) -> Seq<(String, String)> {
    match annotation_value(c) {
        Some(v) => filter_labels(c.labels@, trimmed_prefixes(spec_split(v, seq![',']))),
        None => Seq::<(String, String)>::empty(),
    }
}

/// The service-port promise of materialization: every declared port is
/// exposed in order, and the well-known store and sidecar ports are
/// appended with their defaults when the user declared no port of that
/// name.
pub open spec fn service_ports_ok(sp: Seq<ServicePort>, ports: Seq<PortSpec>) -> bool {
    let had_x = find_named(ports, xline_port_name()) is Some;
    let had_s = find_named(ports, sidecar_port_name()) is Some;
    &&& sp.len() == ports.len() + (if had_x {
        0int
    } else {
        1int
    }) + (if had_s {
        0int
    } else {
        1int
    })
    &&& forall|i: int|
        0 <= i < ports.len() ==> opt_view((#[trigger] sp[i]).name) == opt_view(ports[i].name)
            && sp[i].port == ports[i].container_port
    &&& (!had_x ==> opt_view(sp[ports.len() as int].name) == Some(xline_port_name())
        && sp[ports.len() as int].port == 2379)
    &&& (!had_s ==> opt_view(sp[sp.len() - 1].name) == Some(sidecar_port_name()) && sp[sp.len()
        - 1].port == 2380)
}

/// The shared-metadata promise of materialization: the child is named
/// after the cluster and its component, lives in the cluster's namespace,
/// carries the inherited labels followed by the selector labels and the
/// operator version, and is owned by the cluster.
pub open spec fn meta_ok(m: ObjectMeta, c: Cluster, component: Component, version: Seq<char>) -> bool {
    let inh = inherited_labels(c);
    &&& m.name@ == opt_view(c.name)->Some_0 + seq!['-'] + component_label_view(component)
    &&& Some(m.namespace@) == opt_view(c.namespace)
    &&& m.owner_references@.len() == 1
    &&& owner_matches(m.owner_references@[0], c)
    &&& m.labels@.len() == inh.len() + 3
    &&& forall|i: int| 0 <= i < inh.len() ==> m.labels@[i] == inh[i]
    &&& m.labels@[inh.len() as int].0@ == "xlinecluster/name"@
    &&& m.labels@[inh.len() as int].1@ == opt_view(c.name)->Some_0
    &&& m.labels@[inh.len() as int + 1].0@ == "xlinecluster/component"@
    &&& m.labels@[inh.len() as int + 1].1@ == component_label_view(component)
    &&& m.labels@[inh.len() as int + 2].0@ == "xlinecluster/operator-version"@
    &&& m.labels@[inh.len() as int + 2].1@ == version
}

/// The label value of a component.
pub open spec fn component_label_view(component: Component) -> Seq<char> {
    match component {
        Component::Nodes => "nodes"@,
        Component::Service => "svc"@,
        Component::BackupJob => "backup"@,
    }
}

/// The headless service, as the materializer computes it.
#[derive(Clone, Debug)]
pub struct Service {
    /// Name, namespace, labels and ownership.
    pub metadata: ObjectMeta,
    /// The exposed ports.
    pub ports: Vec<ServicePort>,
    /// The selector that matches the member pods.
    pub selector: Vec<(String, String)>,
}

/// The port the injected member list carries: the declared store port,
/// or the default when none is declared or the declared one is negative.
pub open spec fn sts_store_port(c: Cluster) -> int {
    let p = match find_named(declared_ports(c), xline_port_name()) {
        Some(p) => p.container_port as int,
        None => 2379int,
    };
    if p >= 0 {
        p
    } else {
        2379int
    }
}

/// The stateful workload, as the materializer computes it. The platform
/// object is assembled from this together with the user's verbatim
/// container and placement hints.
#[derive(Clone, Debug)]
pub struct StatefulSet {
    /// Name, namespace, labels and ownership.
    pub metadata: ObjectMeta,
    /// One replica per member.
    pub replicas: usize,
    /// The selector that matches the member pods.
    pub selector: Vec<(String, String)>,
    /// The governing headless service.
    pub service_name: String,
    /// The claims templated for every pod.
    pub volume_claim_templates: Vec<PvcSpec>,
    /// The labels of the pod template.
    pub pod_labels: Vec<(String, String)>,
    /// The command injected into the user container.
    pub command: Vec<String>,
    /// The mounts injected into the user container.
    pub mounts: Vec<MountSpec>,
    /// The environment variable that names the pod.
    pub pod_name_env: String,
    /// The ephemeral volume to add to the pod when no data claim is
    /// configured; the data-path mount then refers to it.
    pub empty_dir_volume: Option<String>,
    /// The rolling-update ceiling on unavailable pods.
    pub max_unavailable: String,
}

/// The scheduled backup job, as the materializer computes it.
#[derive(Clone, Debug)]
pub struct CronJob {
    /// Name, namespace, labels and ownership.
    pub metadata: ObjectMeta,
    /// The schedule expression.
    pub schedule: String,
    /// Jobs never overlap.
    pub concurrency_policy: String,
    /// The shell command that triggers a backup on a random member.
    pub command: Vec<String>,
}

/// One member's entry in the startup member list:
/// `<node>=<node>.<svc>.<ns>.svc.<suffix>:<port>`.
pub open spec fn member_entry(
    name: Seq<char>,
    namespace: Seq<char>,
    suffix: Seq<char>,
    port: int,
    i: nat,
) -> Seq<char> {
    let node = name + "-nodes-"@ + spec_dec(i);
    let svc = name + "-svc"@;
    node + "="@ + node + "."@ + svc + "."@ + namespace + ".svc."@ + suffix + ":"@ + spec_dec(
        port as nat,
    )
}

/// The comma-joined member list for members `0` to `size - 1`.
pub open spec fn members_arg(
    name: Seq<char>,
    namespace: Seq<char>,
    suffix: Seq<char>,
    port: int,
    size: nat,
) -> Seq<char>
    decreases size,
{
    if size == 0 {
        Seq::<char>::empty()
    } else if size == 1 {
        member_entry(name, namespace, suffix, port, 0)
    } else {
        members_arg(name, namespace, suffix, port, (size - 1) as nat) + ","@ + member_entry(
            name,
            namespace,
            suffix,
            port,
            (size - 1) as nat,
        )
    }
}

/// Build one member entry.
fn build_member_entry(
    name: &str,
    namespace: &str,
    suffix: &str,
    port: i32,
    i: u64,
) -> (r: String)
    requires
        port >= 0,
    ensures
        r@ == member_entry(name@, namespace@, suffix@, port as int, i as nat),
{
    let mut node = name.to_owned();
    node.append("-nodes-");
    let di = dec_u64(i);
    node.append(di.as_str());
    let mut out = node.clone();
    out.append("=");
    out.append(node.as_str());
    out.append(".");
    out.append(name);
    out.append("-svc");
    out.append(".");
    out.append(namespace);
    out.append(".svc.");
    out.append(suffix);
    out.append(":");
    let dp = dec_u64(port as u64);
    out.append(dp.as_str());
    proof {
        assert(out@ =~= member_entry(name@, namespace@, suffix@, port as int, i as nat));
    }
    out
}

/// Build the comma-joined member list.
#[verifier::loop_isolation(false)]
pub fn build_members_arg(
    name: &str,
    namespace: &str,
    suffix: &str,
    port: i32,
    size: usize,
) -> (r: String)
    requires
        port >= 0,
    ensures
        r@ == members_arg(name@, namespace@, suffix@, port as int, size as nat),
{
    let mut out = String::new();
    let mut i: usize = 0;
    while i < size
        invariant
            0 <= i <= size,
            out@ == members_arg(name@, namespace@, suffix@, port as int, i as nat),
        decreases size - i,
    {
        if i > 0 {
            out.append(",");
            proof {
                reveal_strlit(",");
            }
        }
        let entry = build_member_entry(name, namespace, suffix, port, i as u64);
        out.append(entry.as_str());
        proof {
            assert(out@ =~= members_arg(name@, namespace@, suffix@, port as int, (i + 1) as nat));
        }
        i = i + 1;
    }
    out
}

/// Why a cluster cannot be materialized.
#[derive(Clone, Debug, PartialEq, Eq)]
pub enum MaterializeError {
    /// A user mount lies beneath a reserved path; the path is carried.
    CannotMount(String),
    /// A user claim bears the name reserved for the ephemeral data volume.
    InvalidVolumeName,
}

/// The name reserved for the ephemeral data volume.
pub open spec fn empty_dir_name() -> Seq<char> {
    "xline-data-empty-dir"@
}

/// Whether any user mount path starts with the given reserved path.
pub open spec fn any_mount_under(mounts: Seq<MountSpec>, dir: Seq<char>) -> bool {
    exists|i: int| 0 <= i < mounts.len() && dir.is_prefix_of((#[trigger] mounts[i]).mount_path@)
}

/// Whether any user claim carries the reserved ephemeral volume name.
pub open spec fn any_pvc_reserved(pvcs: Seq<PvcSpec>) -> bool {
    exists|i: int| 0 <= i < pvcs.len() && pvc_name_view(#[trigger] pvcs[i]) == empty_dir_name()
}

/// The declared mounts of a cluster's container; none reads as empty.
pub open spec fn declared_mounts(c: Cluster) -> Seq<MountSpec> {
    match c.spec.container.volume_mounts {
        Some(v) => v@,
        None => Seq::<MountSpec>::empty(),
    }
}

/// Reject a cluster whose container mounts anything beneath the reserved
/// backup or data paths, or whose claims use the reserved ephemeral
/// volume name; accept it otherwise.
#[verifier::loop_isolation(false)]
pub fn validate_mounts(cluster: &Cluster) -> (r: Result<(), MaterializeError>)
    ensures
        r is Ok <==> (!any_mount_under(declared_mounts(*cluster), backup_dir())
            && !any_mount_under(declared_mounts(*cluster), data_dir()) && !any_pvc_reserved(
            user_pvc_seq(*cluster),
        ) && !any_pvc_reserved(data_pvc_seq(*cluster))),
        r is Err ==> match r->Err_0 {
            MaterializeError::CannotMount(p) => (p@ == backup_dir() && any_mount_under(
                declared_mounts(*cluster),
                backup_dir(),
            )) || (p@ == data_dir() && any_mount_under(declared_mounts(*cluster), data_dir())),
            MaterializeError::InvalidVolumeName => any_pvc_reserved(user_pvc_seq(*cluster))
                || any_pvc_reserved(data_pvc_seq(*cluster)),
        },
{
    let empty_mounts: Vec<MountSpec> = Vec::new();
    let mounts: &Vec<MountSpec> = match &cluster.spec.container.volume_mounts {
        Some(v) => v,
        None => &empty_mounts,
    };
    let ghost gmounts = declared_mounts(*cluster);
    proof {
        assert(mounts@ == gmounts);
    }
    let mut i: usize = 0;
    while i < mounts.len()
        invariant
            0 <= i <= gmounts.len(),
            mounts@ == gmounts,
            forall|j: int|
                0 <= j < i ==> !backup_dir().is_prefix_of(
                    (#[trigger] gmounts[j]).mount_path@,
                ) && !data_dir().is_prefix_of(gmounts[j].mount_path@),
        decreases gmounts.len() - i,
    {
        let path = mounts[i].mount_path.as_str();
        if str_starts_with(path, "/xline-backup") {
            proof {
                assert(any_mount_under(gmounts, backup_dir()));
            }
            return Err(MaterializeError::CannotMount("/xline-backup".to_owned()));
        }
        if str_starts_with(path, "/usr/local/xline/data-dir") {
            proof {
                assert(any_mount_under(gmounts, data_dir()));
            }
            return Err(MaterializeError::CannotMount("/usr/local/xline/data-dir".to_owned()));
        }
        i = i + 1;
    }
    let empty_pvcs: Vec<PvcSpec> = Vec::new();
    let pvcs: &Vec<PvcSpec> = match &cluster.spec.pvcs {
        Some(v) => v,
        None => &empty_pvcs,
    };
    let ghost gpvcs = user_pvc_seq(*cluster);
    proof {
        assert(pvcs@ == gpvcs);
    }
    let mut k: usize = 0;
    while k < pvcs.len()
        invariant
            0 <= k <= gpvcs.len(),
            pvcs@ == gpvcs,
            forall|j: int| 0 <= j < k ==> pvc_name_view(#[trigger] gpvcs[j]) != empty_dir_name(),
        decreases gpvcs.len() - k,
    {
        let nm = pvcs[k].name_any();
        if str_eq(nm.as_str(), "xline-data-empty-dir") {
            proof {
                assert(pvc_name_view(gpvcs[k as int]) == empty_dir_name());
                assert(any_pvc_reserved(gpvcs));
            }
            return Err(MaterializeError::InvalidVolumeName);
        }
        k = k + 1;
    }
    if let Some(d) = &cluster.spec.data {
        let nm = d.name_any();
        if str_eq(nm.as_str(), "xline-data-empty-dir") {
            proof {
                assert(pvc_name_view(data_pvc_seq(*cluster)[0]) == empty_dir_name());
            }
            return Err(MaterializeError::InvalidVolumeName);
        }
    }
    Ok(())
}

/// Builds the platform objects for one cluster.
pub struct Factory<'a> {
    /// The cluster materialized.
    pub cluster: &'a Cluster,
    /// The platform's DNS suffix.
    pub cluster_suffix: String,
    /// The operator's version, stamped onto every child.
    pub operator_version: String,
}

impl<'a> Factory<'a> {
    /// A factory for the given cluster.
    pub fn new(cluster: &'a Cluster, cluster_suffix: &str, operator_version: &str) -> (r: Factory<
        'a,
    >)
        ensures
            r.cluster == cluster,
            r.cluster_suffix@ == cluster_suffix@,
            r.operator_version@ == operator_version@,
    {
        Factory {
            cluster,
            cluster_suffix: cluster_suffix.to_owned(),
            operator_version: operator_version.to_owned(),
        }
    }

    /// The full name of a component of a cluster.
    pub fn component_name(cluster_name: &str, component: Component) -> (r: String)
        ensures
            r@ == cluster_name@ + seq!['-'] + component_label_view(component),
    {
        proof {
            reveal_strlit("-");
        }
        let mut out = cluster_name.to_owned();
        out.append("-");
        out.append(component.label());
        proof {
            assert(out@ =~= cluster_name@ + seq!['-'] + component_label_view(component));
        }
        out
    }

    /// The selector labels of a component: the cluster's name and the
    /// component's label under the two fixed keys.
    pub fn selector_labels(name: &str, component: Component) -> (r: Vec<(String, String)>)
        ensures
            r@.len() == 2,
            r@[0].0@ == "xlinecluster/name"@ && r@[0].1@ == name@,
            r@[1].0@ == "xlinecluster/component"@ && r@[1].1@ == component_label_view(component),
    {
        let mut out: Vec<(String, String)> = Vec::new();
        out.push(("xlinecluster/name".to_owned(), name.to_owned()));
        out.push(("xlinecluster/component".to_owned(), component.label().to_owned()));
        out
    }

    /// The metadata shared by every child of this cluster.
    pub fn general_metadata(&self, component: Component) -> (r: ObjectMeta)
        requires
            self.cluster.name is Some,
            self.cluster.namespace is Some,
            self.cluster.uid is Some,
        ensures
            meta_ok(r, *self.cluster, component, self.operator_version@),
    {
        let extractor = Extractor::new(self.cluster);
        let mut labels = extractor.extract_inherit_labels();
        let (name, namespace) = extractor.extract_id();
        let owner_ref = extractor.extract_owner_ref();
        let ghost inh = inherited_labels(*self.cluster);
        labels.push(("xlinecluster/name".to_owned(), name.clone()));
        labels.push(("xlinecluster/component".to_owned(), component.label().to_owned()));
        labels.push(("xlinecluster/operator-version".to_owned(), self.operator_version.clone()));
        let full_name = Self::component_name(name.as_str(), component);
        let mut owners: Vec<OwnerReference> = Vec::new();
        owners.push(owner_ref);
        ObjectMeta { name: full_name, namespace, labels, owner_references: owners }
    }

    /// The headless service: no cluster address of its own, every port
    /// exposed, selecting the member pods.
    pub fn node_service(&self) -> (r: Service)
        requires
            self.cluster.name is Some,
            self.cluster.namespace is Some,
            self.cluster.uid is Some,
        ensures
            meta_ok(r.metadata, *self.cluster, Component::Service, self.operator_version@),
            service_ports_ok(r.ports@, declared_ports(*self.cluster)),
            r.selector@.len() == 2,
            r.selector@[0].0@ == "xlinecluster/name"@ && r.selector@[0].1@ == opt_view(
                self.cluster.name,
            )->Some_0,
            r.selector@[1].0@ == "xlinecluster/component"@ && r.selector@[1].1@
                == component_label_view(Component::Nodes),
    {
        let extractor = Extractor::new(self.cluster);
        let (_, _, service_ports) = extractor.extract_ports();
        let (name, _) = extractor.extract_id();
        let metadata = self.general_metadata(Component::Service);
        let selector = Self::selector_labels(name.as_str(), Component::Nodes);
        Service { metadata, ports: service_ports, selector }
    }

    /// The stateful workload: one replica per member, the member pods
    /// selected and labelled, the user container given the injected
    /// command and mounts — with an ephemeral data volume when no data
    /// claim is configured — and every configured claim templated.
    pub fn sts(&self) -> (r: StatefulSet)
        requires
            self.cluster.name is Some,
            self.cluster.namespace is Some,
            self.cluster.uid is Some,
        ensures
            meta_ok(r.metadata, *self.cluster, Component::Nodes, self.operator_version@),
            r.replicas == self.cluster.spec.size,
            r.service_name@ == opt_view(self.cluster.name)->Some_0 + seq!['-']
                + component_label_view(Component::Service),
            r.volume_claim_templates@ == backup_pvc_seq(*self.cluster) + data_pvc_seq(
                *self.cluster,
            ) + user_pvc_seq(*self.cluster),
            r.pod_labels@.len() == 2,
            r.pod_labels@[0].0@ == "xlinecluster/name"@ && r.pod_labels@[0].1@ == opt_view(
                self.cluster.name,
            )->Some_0,
            r.pod_labels@[1].0@ == "xlinecluster/component"@ && r.pod_labels@[1].1@
                == component_label_view(Component::Nodes),
            r.selector@.len() == 2,
            r.selector@[0].0@ == "xlinecluster/name"@ && r.selector@[0].1@ == opt_view(
                self.cluster.name,
            )->Some_0,
            r.selector@[1].0@ == "xlinecluster/component"@ && r.selector@[1].1@
                == component_label_view(Component::Nodes),
            r.mounts@.len() == backup_pvc_seq(*self.cluster).len() + 1,
            backup_pvc_seq(*self.cluster).len() == 1 ==> r.mounts@[0].name@ == pvc_name_view(
                backup_pvc_seq(*self.cluster)[0],
            ) && r.mounts@[0].mount_path@ == backup_dir(),
            r.mounts@[r.mounts@.len() - 1].mount_path@ == data_dir(),
            self.cluster.spec.data is Some ==> r.mounts@[r.mounts@.len() - 1].name@
                == pvc_name_view(data_pvc_seq(*self.cluster)[0]),
            self.cluster.spec.data is None ==> r.mounts@[r.mounts@.len() - 1].name@
                == empty_dir_name(),
            self.cluster.spec.data is None ==> r.empty_dir_volume is Some
                && r.empty_dir_volume->0@ == empty_dir_name(),
            self.cluster.spec.data is Some ==> r.empty_dir_volume is None,
            r.command@.len() == 9,
            r.command@[0]@ == "xline"@,
            r.command@[1]@ == "--name"@,
            r.command@[2]@ == "$(XLINE_POD_NAME)"@,
            r.command@[3]@ == "--storage-engine"@,
            r.command@[4]@ == "rocksdb"@,
            r.command@[5]@ == "--data-dir"@,
            r.command@[6]@ == data_dir(),
            r.command@[7]@ == "--members"@,
            r.command@[8]@ == members_arg(
                opt_view(self.cluster.name)->Some_0,
                opt_view(self.cluster.namespace)->Some_0,
                self.cluster_suffix@,
                sts_store_port(*self.cluster),
                self.cluster.spec.size as nat,
            ),
            r.pod_name_env@ == "XLINE_POD_NAME"@,
            r.max_unavailable@ == "50%"@,
    {
        let extractor = Extractor::new(self.cluster);
        let (name, namespace) = extractor.extract_id();
        let (xline_port, _, _) = extractor.extract_ports();
        let metadata = self.general_metadata(Component::Nodes);
        let selector = Self::selector_labels(name.as_str(), Component::Nodes);
        let pod_labels = Self::selector_labels(name.as_str(), Component::Nodes);
        let service_name = Self::component_name(name.as_str(), Component::Service);
        let volume_claim_templates = extractor.extract_pvc_template();
        let mut mounts = extractor.extract_additional_volume_mount();
        let empty_dir_volume = if self.cluster.spec.data.is_none() {
            mounts.push(
                MountSpec {
                    name: "xline-data-empty-dir".to_owned(),
                    mount_path: "/usr/local/xline/data-dir".to_owned(),
                },
            );
            Some("xline-data-empty-dir".to_owned())
        } else {
            None
        };
        let port = if xline_port.container_port >= 0 {
            xline_port.container_port
        } else {
            2379
        };
        let members = build_members_arg(
            name.as_str(),
            namespace.as_str(),
            self.cluster_suffix.as_str(),
            port,
            self.cluster.spec.size,
        );
        let mut command: Vec<String> = Vec::new();
        command.push("xline".to_owned());
        command.push("--name".to_owned());
        command.push("$(XLINE_POD_NAME)".to_owned());
        command.push("--storage-engine".to_owned());
        command.push("rocksdb".to_owned());
        command.push("--data-dir".to_owned());
        command.push("/usr/local/xline/data-dir".to_owned());
        command.push("--members".to_owned());
        command.push(members);
        StatefulSet {
            metadata,
            replicas: self.cluster.spec.size,
            selector,
            service_name,
            volume_claim_templates,
            pod_labels,
            command,
            mounts,
            pod_name_env: "XLINE_POD_NAME".to_owned(),
            empty_dir_volume,
            max_unavailable: "50%".to_owned(),
        }
    }

    /// The scheduled backup job: runs on the configured schedule, never
    /// concurrently, and asks a random member's sidecar for a backup.
    pub fn backup_cron_job(&self, sidecar_port: i32) -> (r: Option<CronJob>)
        requires
            self.cluster.name is Some,
            self.cluster.namespace is Some,
            self.cluster.uid is Some,
            sidecar_port >= 0,
        ensures
            r is Some <==> self.cluster.spec.backup is Some,
            r is Some ==> ({
                let job = r->Some_0;
                &&& meta_ok(
                    job.metadata,
                    *self.cluster,
                    Component::BackupJob,
                    self.operator_version@,
                )
                &&& job.schedule@ == self.cluster.spec.backup->Some_0.cron@
                &&& job.concurrency_policy@ == "Forbid"@
                &&& job.command@.len() == 3
                &&& job.command@[0]@ == "/bin/sh"@
                &&& job.command@[1]@ == "-ecx"@
                &&& job.command@[2]@ == backup_curl(
                    opt_view(self.cluster.name)->Some_0,
                    opt_view(self.cluster.namespace)->Some_0,
                    self.cluster_suffix@,
                    self.cluster.spec.size as nat,
                    sidecar_port as int,
                )
            }),
    {
        let backup = match &self.cluster.spec.backup {
            Some(b) => b,
            None => {
                return None;
            },
        };
        let extractor = Extractor::new(self.cluster);
        let (name, namespace) = extractor.extract_id();
        let metadata = self.general_metadata(Component::BackupJob);
        let mut curl = "curl http://".to_owned();
        curl.append(name.as_str());
        curl.append("-$((RANDOM % ");
        let ds = dec_u64(self.cluster.spec.size as u64);
        curl.append(ds.as_str());
        curl.append(")).");
        curl.append(name.as_str());
        curl.append("-svc");
        curl.append(".");
        curl.append(namespace.as_str());
        curl.append(".svc.");
        curl.append(self.cluster_suffix.as_str());
        curl.append(":");
        let dp = dec_u64(sidecar_port as u64);
        curl.append(dp.as_str());
        curl.append("/backup");
        proof {
            assert(curl@ =~= backup_curl(
                opt_view(self.cluster.name)->Some_0,
                opt_view(self.cluster.namespace)->Some_0,
                self.cluster_suffix@,
                self.cluster.spec.size as nat,
                sidecar_port as int,
            ));
        }
        let mut command: Vec<String> = Vec::new();
        command.push("/bin/sh".to_owned());
        command.push("-ecx".to_owned());
        command.push(curl);
        Some(
            CronJob {
                metadata,
                schedule: backup.cron.clone(),
                concurrency_policy: "Forbid".to_owned(),
                command,
            },
        )
    }
}

/// The shell line that asks a random member's sidecar for a backup.
pub open spec fn backup_curl(
    name: Seq<char>,
    namespace: Seq<char>,
    suffix: Seq<char>,
    size: nat,
    sidecar_port: int,
) -> Seq<char> {
    "curl http://"@ + name + "-$((RANDOM % "@ + spec_dec(size) + "))."@ + name + "-svc"@ + "."@
        + namespace + ".svc."@ + suffix + ":"@ + spec_dec(sidecar_port as nat) + "/backup"@
}

} // verus!
