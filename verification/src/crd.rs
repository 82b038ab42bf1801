//! The cluster custom resource: the declarative specification of a managed
//! cluster, its status, and admission validation with exact error paths.

use crate::text::{is_digit, spec_split, split_str};
use vstd::prelude::*;

verus! {

/// What the control plane reads of a persistent volume claim: its name.
/// The full claim is carried beside the model by the caller.
#[derive(Clone, Debug, PartialEq, Eq)]
pub struct PvcSpec {
    /// The claim's metadata name.
    pub name: Option<String>,
}

impl PvcSpec {
    /// The claim's name; empty when none is set.
    pub fn name_any(&self) -> (r: String)
        ensures
            r@ == match self.name {
                Some(n) => n@,
                None => Seq::<char>::empty(),
            },
    {
        match &self.name {
            Some(n) => n.clone(),
            None => String::new(),
        }
    }
}

/// One declared container port.
#[derive(Clone, Debug, PartialEq, Eq)]
pub struct PortSpec {
    /// The port's name.
    pub name: Option<String>,
    /// The port number.
    pub container_port: i32,
}

/// One declared volume mount.
#[derive(Clone, Debug, PartialEq, Eq)]
pub struct MountSpec {
    /// The volume the mount refers to.
    pub name: String,
    /// Where the volume is mounted.
    pub mount_path: String,
}

/// What the control plane reads of the user's container: its declared
/// ports and volume mounts.
#[derive(Clone, Debug, PartialEq, Eq)]
pub struct ContainerSpec {
    /// The declared ports.
    pub ports: Option<Vec<PortSpec>>,
    /// The declared volume mounts.
    pub volume_mounts: Option<Vec<MountSpec>>,
}

/// Where backups are stored.
#[derive(Clone, Debug, PartialEq, Eq)]
pub enum StorageSpec {
    /// An object-store bucket.
    S3 {
        /// The bucket specification.
        s3: S3Spec,
    },
    /// A persistent volume claim.
    Pvc {
        /// The claim to store snapshots in.
        pvc: PvcSpec,
    },
}

impl StorageSpec {
    /// The claim when the storage is a volume; nothing for a bucket.
    pub fn as_pvc(&self) -> (r: Option<&PvcSpec>)
        ensures
            match self {
                StorageSpec::Pvc { pvc } => r == Some(pvc),
                StorageSpec::S3 { .. } => r is None,
            },
    {
        match self {
            StorageSpec::Pvc { pvc } => Some(pvc),
            StorageSpec::S3 { .. } => None,
        }
    }
}

/// The bucket backups are saved to.
#[derive(Clone, Debug, PartialEq, Eq)]
pub struct S3Spec {
    /// The bucket name, a DNS-safe label.
    pub bucket: String,
}

/// The backup schedule and storage.
#[derive(Clone, Debug, PartialEq, Eq)]
pub struct BackupSpec {
    /// A five-field schedule expression.
    pub cron: String,
    /// Where snapshots are stored.
    pub storage: StorageSpec,
}

/// The declarative specification of a managed cluster.
#[derive(Clone, Debug, PartialEq, Eq)]
pub struct ClusterSpec {
    /// The number of members; fewer than 3 is not allowed.
    pub size: usize,
    /// The user's container.
    pub container: ContainerSpec,
    /// The backup schedule and storage, when backups are wanted.
    pub backup: Option<BackupSpec>,
    /// The data volume claim; an ephemeral volume is used when absent.
    pub data: Option<PvcSpec>,
    /// Further user-defined volume claims.
    pub pvcs: Option<Vec<PvcSpec>>,
}

/// The observed status of a managed cluster.
#[derive(Clone, Debug, PartialEq, Eq)]
pub struct ClusterStatus {
    /// How many members are available, between 0 and the specified size.
    pub available: usize,
    /// The registered members: name and address.
    pub members: Vec<(String, String)>,
}

/// A character a schedule atom may start with: a digit or a star.
pub open spec fn is_cron_atom(c: char) -> bool {
    c == '*' || is_digit(c)
}

/// A separator within a schedule field.
pub open spec fn is_cron_sep(c: char) -> bool {
    c == '-' || c == '/' || c == ','
}

/// One schedule field: nonempty, made of stars, digits and separators,
/// starting with a star or digit, and every separator followed by a star
/// or digit.
pub open spec fn cron_field_ok(f: Seq<char>) -> bool {
    &&& f.len() > 0
    &&& forall|i: int| 0 <= i < f.len() ==> is_cron_atom(#[trigger] f[i]) || is_cron_sep(f[i])
    &&& is_cron_atom(f[0])
    &&& forall|i: int|
        0 <= i < f.len() && is_cron_sep(#[trigger] f[i]) ==> i + 1 < f.len() && is_cron_atom(
            f[i + 1],
        )
}

/// How many segments of a split are nonempty.
pub open spec fn count_nonempty(segs: Seq<Seq<char>>) -> int
    decreases segs.len(),
{
    if segs.len() == 0 {
        0
    } else {
        count_nonempty(segs.drop_last()) + if segs.last().len() > 0 {
            1int
        } else {
            0int
        }
    }
}

/// The restricted five-field schedule grammar: five fields separated by
/// runs of spaces, no leading or trailing space, each field well formed.
pub open spec fn cron_matches(s: Seq<char>) -> bool {
    let segs = spec_split(s, seq![' ']);
    &&& segs[0].len() > 0
    &&& segs[segs.len() - 1].len() > 0
    &&& count_nonempty(segs) == 5
    &&& forall|k: int|
        0 <= k < segs.len() && (#[trigger] segs[k]).len() > 0 ==> cron_field_ok(segs[k])
}

/// A lowercase letter or digit.
pub open spec fn is_bucket_alnum(c: char) -> bool {
    ('a' <= c && c <= 'z') || is_digit(c)
}

/// The DNS-safe bucket label grammar: 3 to 63 characters, lowercase
/// letters, digits and dashes, starting and ending with a letter or digit.
pub open spec fn bucket_matches(s: Seq<char>) -> bool {
    &&& 3 <= s.len() <= 63
    &&& is_bucket_alnum(s[0])
    &&& is_bucket_alnum(s[s.len() - 1])
    &&& forall|i: int|
        0 <= i < s.len() ==> is_bucket_alnum(#[trigger] s[i]) || s[i] == '-'
}

/// Whether one schedule field is well formed.
fn check_cron_field(f: &str) -> (r: bool)
    ensures
        r == cron_field_ok(f@),
{
    let len = f.unicode_len();
    if len == 0 {
        return false;
    }
    let c0 = f.get_char(0);
    if !(c0 == '*' || crate::text::digit_of(c0) < 10) {
        return false;
    }
    let mut i: usize = 0;
    while i < len
        invariant
            0 <= i <= len,
            len == f@.len(),
            forall|j: int|
                0 <= j < i ==> is_cron_atom(#[trigger] f@[j]) || is_cron_sep(f@[j]),
            forall|j: int|
                0 <= j < i && is_cron_sep(#[trigger] f@[j]) ==> j + 1 < len && is_cron_atom(
                    f@[j + 1],
                ),
        decreases len - i,
    {
        let c = f.get_char(i);
        let atom = c == '*' || crate::text::digit_of(c) < 10;
        let sep = c == '-' || c == '/' || c == ',';
        if !atom && !sep {
            return false;
        }
        if sep {
            if i + 1 >= len {
                return false;
            }
            let n = f.get_char(i + 1);
            if !(n == '*' || crate::text::digit_of(n) < 10) {
                return false;
            }
        }
        i = i + 1;
    }
    true
}

/// Whether a schedule expression matches the five-field grammar.
pub fn check_cron(s: &str) -> (r: bool)
    ensures
        r == cron_matches(s@),
{
    proof {
        reveal_strlit(" ");
        assert(" "@ =~= seq![' ']);
    }
    let seps: [char; 1] = [' '];
    proof {
        assert(seps@ =~= seq![' ']);
    }
    let segs = split_str(s, &seps);
    let ghost gsegs = spec_split(s@, seq![' ']);
    proof {
        assert(segs.deep_view() == gsegs);
        crate::text::lemma_split_nonempty(s@, seq![' ']);
    }
    let n = segs.len();
    if segs[0].as_str().is_empty() {
        proof {
            assert(gsegs[0].len() == 0);
        }
        return false;
    }
    if segs[n - 1].as_str().is_empty() {
        proof {
            assert(gsegs[n - 1].len() == 0);
        }
        return false;
    }
    let mut nonempty: usize = 0;
    let mut k: usize = 0;
    proof {
        assert(gsegs.take(0) =~= Seq::<Seq<char>>::empty());
        lemma_count_nonempty_bound(gsegs);
    }
    while k < n
        invariant
            0 <= k <= n,
            n == segs@.len(),
            segs.deep_view() == gsegs,
            gsegs == spec_split(s@, seq![' ']),
            gsegs[0].len() > 0 && gsegs[gsegs.len() - 1].len() > 0,
            nonempty as int == count_nonempty(gsegs.take(k as int)),
            nonempty <= k,
            forall|j: int|
                0 <= j < k && (#[trigger] gsegs[j]).len() > 0 ==> cron_field_ok(gsegs[j]),
        decreases n - k,
    {
        proof {
            let t = gsegs.take(k + 1);
            assert(t.drop_last() =~= gsegs.take(k as int));
            assert(t.last() == gsegs[k as int]);
            assert(gsegs[k as int] == segs@[k as int]@);
        }
        let seg = &segs[k];
        if !seg.as_str().is_empty() {
            nonempty = nonempty + 1;
            if !check_cron_field(seg.as_str()) {
                proof {
                    assert(gsegs[k as int].len() > 0 && !cron_field_ok(gsegs[k as int]));
                    assert(!cron_matches(s@));
                }
                return false;
            }
        }
        k = k + 1;
    }
    proof {
        assert(gsegs.take(n as int) =~= gsegs);
    }
    nonempty == 5
}

/// A nonempty-segment count never exceeds the number of segments.
proof fn lemma_count_nonempty_bound(segs: Seq<Seq<char>>)
    ensures
        0 <= count_nonempty(segs) <= segs.len(),
    decreases segs.len(),
{
    if segs.len() > 0 {
        lemma_count_nonempty_bound(segs.drop_last());
    }
}

/// Whether a bucket name matches the DNS-safe label grammar.
pub fn check_bucket(s: &str) -> (r: bool)
    ensures
        r == bucket_matches(s@),
{
    let len = s.unicode_len();
    if len < 3 || len > 63 {
        return false;
    }
    let mut i: usize = 0;
    while i < len
        invariant
            0 <= i <= len,
            len == s@.len(),
            forall|j: int| 0 <= j < i ==> is_bucket_alnum(#[trigger] s@[j]) || s@[j] == '-',
        decreases len - i,
    {
        let c = s.get_char(i);
        let alnum = ('a' <= c && c <= 'z') || crate::text::digit_of(c) < 10;
        if !(alnum || c == '-') {
            return false;
        }
        i = i + 1;
    }
    let first = s.get_char(0);
    if !(('a' <= first && first <= 'z') || crate::text::digit_of(first) < 10) {
        return false;
    }
    let last = s.get_char(len - 1);
    if !(('a' <= last && last <= 'z') || crate::text::digit_of(last) < 10) {
        return false;
    }
    true
}

/// Why a cluster specification was rejected at admission.
#[derive(Clone, Debug, PartialEq, Eq)]
pub struct ValidationError {
    /// The path of the offending field.
    pub path: String,
}

/// The path reported for a bad size.
pub open spec fn path_size() -> Seq<char> {
    seq!['s', 'i', 'z', 'e']
}

/// The path reported for a bad schedule.
pub open spec fn path_cron() -> Seq<char> {
    seq!['b', 'a', 'c', 'k', 'u', 'p', '.', 'c', 'r', 'o', 'n']
}

/// The path reported for a bad bucket name.
pub open spec fn path_bucket() -> Seq<char> {
    seq![
        'b',
        'a',
        'c',
        'k',
        'u',
        'p',
        '.',
        's',
        't',
        'o',
        'r',
        'a',
        'g',
        'e',
        '.',
        's',
        '3',
        '.',
        'b',
        'u',
        'c',
        'k',
        'e',
        't',
    ]
}

/// Whether a cluster specification passes admission.
pub open spec fn spec_cluster_valid(c: ClusterSpec) -> bool {
    &&& c.size >= 3
    &&& match c.backup {
        Some(b) => cron_matches(b.cron@) && match b.storage {
            StorageSpec::S3 { s3 } => bucket_matches(s3.bucket@),
            StorageSpec::Pvc { .. } => true,
        },
        None => true,
    }
}

impl ClusterSpec {
    /// Admit or reject a cluster specification: a size below 3 is rejected
    /// at `size`, a schedule outside the grammar at `backup.cron`, and a
    /// bucket that is no DNS-safe label at `backup.storage.s3.bucket`. A
    /// specification passes exactly when none of these hold.
    pub fn validate(&self) -> (r: Result<(), ValidationError>)
        ensures
            r is Ok <==> spec_cluster_valid(*self),
            self.size < 3 ==> r is Err && r->Err_0.path@ == path_size(),
            self.size >= 3 && (match self.backup {
                Some(b) => !cron_matches(b.cron@),
                None => false,
            }) ==> r is Err && r->Err_0.path@ == path_cron(),
            self.size >= 3 && (match self.backup {
                Some(b) => cron_matches(b.cron@) && match b.storage {
                    StorageSpec::S3 { s3 } => !bucket_matches(s3.bucket@),
                    StorageSpec::Pvc { .. } => false,
                },
                None => false,
            }) ==> r is Err && r->Err_0.path@ == path_bucket(),
    {
        proof {
            reveal_strlit("size");
            reveal_strlit("backup.cron");
            reveal_strlit("backup.storage.s3.bucket");
            assert("size"@ =~= path_size());
            assert("backup.cron"@ =~= path_cron());
            assert("backup.storage.s3.bucket"@ =~= path_bucket());
        }
        if self.size < 3 {
            return Err(ValidationError { path: "size".to_owned() });
        }
        match &self.backup {
            Some(b) => {
                if !check_cron(b.cron.as_str()) {
                    return Err(ValidationError { path: "backup.cron".to_owned() });
                }
                match &b.storage {
                    StorageSpec::S3 { s3 } => {
                        if !check_bucket(s3.bucket.as_str()) {
                            return Err(
                                ValidationError { path: "backup.storage.s3.bucket".to_owned() },
                            );
                        }
                        Ok(())
                    },
                    StorageSpec::Pvc { .. } => Ok(()),
                }
            },
            None => Ok(()),
        }
    }
}

impl ClusterStatus {
    /// Validate a status against its specification: the available count
    /// never exceeds the specified size.
    pub fn validate(&self, spec: &ClusterSpec) -> (r: Result<(), ValidationError>)
        ensures
            r is Ok <==> self.available <= spec.size,
            r is Err ==> r->Err_0.path@ == seq!['a', 'v', 'a', 'i', 'l', 'a', 'b', 'l', 'e'],
    {
        if self.available <= spec.size {
            Ok(())
        } else {
            proof {
                reveal_strlit("available");
                assert("available"@ =~= seq!['a', 'v', 'a', 'i', 'l', 'a', 'b', 'l', 'e']);
            }
            Err(ValidationError { path: "available".to_owned() })
        }
    }
}

} // verus!
