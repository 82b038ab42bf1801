//! Parsers for the sidecar's structured command-line values: member
//! tables, backup storage, launch backend and registry selection. Each
//! rejection carries the exact message shown to the user.

use crate::text::{dec_u64, is_sep, spec_dec, spec_split, split_str, str_eq};
use crate::types::{BackendConfig, BackupConfig, RegistryConfig};
use vstd::prelude::*;

verus! {

/// The position of the first equals sign; the length when there is none.
pub open spec fn until_eq(s: Seq<char>) -> int
    decreases s.len(),
{
    if s.len() == 0 || s[0] == '=' {
        0
    } else {
        1 + until_eq(s.drop_first())
    }
}

/// A run without an equals sign, ended by the end or an equals sign, pins
/// down the position of the first one.
proof fn lemma_until_eq(s: Seq<char>, k: int)
    requires
        0 <= k <= s.len(),
        forall|i: int| 0 <= i < k ==> s[i] != '=',
        k < s.len() ==> s[k] == '=',
    ensures
        until_eq(s) == k,
    decreases k,
{
    if k > 0 {
        let t = s.drop_first();
        assert(forall|i: int| 0 <= i < k - 1 ==> t[i] == s[i + 1]);
        if k - 1 < t.len() {
            assert(t[k - 1] == s[k]);
        }
        lemma_until_eq(t, k - 1);
    }
}

/// Whether a member pair holds an equals sign.
pub open spec fn pair_ok(p: Seq<char>) -> bool {
    until_eq(p) < p.len()
}

/// The member name of a pair: what stands before the first equals sign.
pub open spec fn pair_id(p: Seq<char>) -> Seq<char> {
    p.take(until_eq(p))
}

/// The address of a pair: what stands after the first equals sign.
pub open spec fn pair_addr(p: Seq<char>) -> Seq<char> {
    p.skip(until_eq(p) + 1)
}

/// The index of the first malformed pair; the length when all are fine.
pub open spec fn first_bad_pair(parts: Seq<Seq<char>>) -> int
    decreases parts.len(),
{
    if parts.len() == 0 {
        0
    } else if !pair_ok(parts[0]) {
        0
    } else {
        1 + first_bad_pair(parts.drop_first())
    }
}

/// A run of well-formed pairs ended by the end or a malformed pair pins
/// down the first malformed pair.
proof fn lemma_first_bad_pair(parts: Seq<Seq<char>>, k: int)
    requires
        0 <= k <= parts.len(),
        forall|i: int| 0 <= i < k ==> pair_ok(#[trigger] parts[i]),
        k < parts.len() ==> !pair_ok(parts[k]),
    ensures
        first_bad_pair(parts) == k,
    decreases k,
{
    if k > 0 {
        let t = parts.drop_first();
        assert(forall|i: int| 0 <= i < k - 1 ==> t[i] == parts[i + 1]);
        if k - 1 < t.len() {
            assert(t[k - 1] == parts[k]);
        }
        lemma_first_bad_pair(t, k - 1);
    }
}

/// The message for a pair without an equals sign.
pub open spec fn pair_error_msg(p: Seq<char>) -> Seq<char> {
    "parse the pair '"@ + p + "' error, expect '<id>=<addr>'"@
}

/// Replace a member's address, or add the member when it is new.
pub open spec fn upsert_pair(
    m: Seq<(Seq<char>, Seq<char>)>,
    id: Seq<char>,
    addr: Seq<char>,
) -> Seq<(Seq<char>, Seq<char>)>
    decreases m.len(),
{
    if m.len() == 0 {
        seq![(id, addr)]
    } else if m[0].0 == id {
        seq![(id, addr)] + m.drop_first()
    } else {
        seq![m[0]] + upsert_pair(m.drop_first(), id, addr)
    }
}

/// The member table a list of pairs builds up: each pair is folded in
/// left to right, a repeated id overwriting the earlier address.
pub open spec fn members_table(parts: Seq<Seq<char>>) -> Seq<(Seq<char>, Seq<char>)>
    decreases parts.len(),
{
    if parts.len() == 0 {
        Seq::<(Seq<char>, Seq<char>)>::empty()
    } else {
        upsert_pair(
            members_table(parts.drop_last()),
            pair_id(parts.last()),
            pair_addr(parts.last()),
        )
    }
}

/// When the id is present, the pair upsert updates its entry in place.
proof fn lemma_upsert_pair_found(
    m: Seq<(Seq<char>, Seq<char>)>,
    id: Seq<char>,
    addr: Seq<char>,
    k: int,
)
    requires
        0 <= k < m.len(),
        m[k].0 == id,
        forall|j: int| 0 <= j < k ==> (#[trigger] m[j]).0 != id,
    ensures
        upsert_pair(m, id, addr) =~= m.update(k, (id, addr)),
    decreases k,
{
    if k == 0 {
        assert(upsert_pair(m, id, addr) =~= seq![(id, addr)] + m.drop_first());
    } else {
        let t = m.drop_first();
        assert(forall|j: int| 0 <= j < k - 1 ==> (#[trigger] t[j]).0 != id) by {
            assert(forall|j: int| 0 <= j < k - 1 ==> t[j] == m[j + 1]);
        }
        assert(t[k - 1] == m[k]);
        lemma_upsert_pair_found(t, id, addr, k - 1);
        assert(upsert_pair(m, id, addr) =~= seq![m[0]] + t.update(k - 1, (id, addr)));
    }
}

/// When the id is absent, the pair upsert appends the pair.
proof fn lemma_upsert_pair_absent(m: Seq<(Seq<char>, Seq<char>)>, id: Seq<char>, addr: Seq<char>)
    requires
        forall|j: int| 0 <= j < m.len() ==> (#[trigger] m[j]).0 != id,
    ensures
        upsert_pair(m, id, addr) =~= m.push((id, addr)),
    decreases m.len(),
{
    if m.len() > 0 {
        let t = m.drop_first();
        assert(forall|j: int| 0 <= j < t.len() ==> (#[trigger] t[j]).0 != id) by {
            assert(forall|j: int| 0 <= j < t.len() ==> t[j] == m[j + 1]);
        }
        lemma_upsert_pair_absent(t, id, addr);
        assert(upsert_pair(m, id, addr) =~= seq![m[0]] + t.push((id, addr)));
    }
}

/// Parse a comma-separated member table of `<id>=<addr>` pairs. Every
/// pair must hold an equals sign; the first one without fails the parse
/// with a message naming it. A repeated id overwrites the earlier
/// address, so each member appears once.
#[verifier::loop_isolation(false)]
pub fn parse_members(s: &str) -> (r: Result<Vec<(String, String)>, String>)
    ensures
        ({
            let parts = spec_split(s@, seq![',']);
            match r {
                Ok(members) => {
                    &&& first_bad_pair(parts) == parts.len()
                    &&& members.deep_view() == members_table(parts)
                },
                Err(msg) => {
                    &&& first_bad_pair(parts) < parts.len()
                    &&& msg@ == pair_error_msg(parts[first_bad_pair(parts)])
                },
            }
        }),
{
    let seps: [char; 1] = [','];
    proof {
        assert(seps@ =~= seq![',']);
    }
    let parts = split_str(s, &seps);
    let ghost gparts = spec_split(s@, seq![',']);
    proof {
        assert(parts.deep_view() == gparts);
    }
    let eq: [char; 1] = ['='];
    proof {
        assert(eq@ =~= seq!['=']);
    }
    let mut out: Vec<(String, String)> = Vec::new();
    let mut k: usize = 0;
    proof {
        assert(gparts.take(0) =~= Seq::<Seq<char>>::empty());
        assert(out.deep_view() =~= members_table(gparts.take(0)));
    }
    while k < parts.len()
        invariant
            0 <= k <= parts@.len(),
            forall|j: int| 0 <= j < k ==> pair_ok(#[trigger] gparts[j]),
            out.deep_view() == members_table(gparts.take(k as int)),
            forall|a: int, b: int|
                0 <= a < b < out@.len() ==> (#[trigger] out@[a]).0@ != (#[trigger] out@[b]).0@,
        decreases parts@.len() - k,
    {
        proof {
            let t = gparts.take(k + 1);
            assert(t.drop_last() =~= gparts.take(k as int));
            assert(t.last() == gparts[k as int]);
        }
        let part = parts[k].as_str();
        proof {
            assert(part@ == gparts[k as int]);
        }
        let len = part.unicode_len();
        let e = crate::text::find_sep_from(part, 0, &eq);
        proof {
            assert(forall|i: int| 0 <= i < e ==> part@[i] != '=') by {
                assert(forall|i: int|
                    0 <= i < e ==> !is_sep(#[trigger] part@[i], seq!['=']));
                assert(forall|i: int|
                    0 <= i < e && part@[i] == '=' ==> is_sep(#[trigger] part@[i], seq!['=']));
            }
            if e < len {
                assert(is_sep(part@[e as int], seq!['=']));
                assert(part@[e as int] == '=');
            }
            lemma_until_eq(part@, e as int);
        }
        if e == len {
            let mut msg = "parse the pair '".to_owned();
            msg.append(part);
            msg.append("' error, expect '<id>=<addr>'");
            proof {
                lemma_first_bad_pair(gparts, k as int);
                assert(msg@ =~= pair_error_msg(gparts[k as int]));
            }
            return Err(msg);
        }
        let id = part.substring_char(0, e).to_owned();
        let addr = part.substring_char(e + 1, len).to_owned();
        proof {
            assert(id@ =~= pair_id(gparts[k as int]));
            assert(addr@ =~= pair_addr(gparts[k as int]));
        }
        let ghost pre = out.deep_view();
        let mut q: usize = 0;
        let n = out.len();
        let mut replaced = false;
        while q < n
            invariant
                0 <= q <= n,
                !replaced ==> n == out@.len(),
                !replaced ==> out.deep_view() == pre,
                !replaced ==> forall|j: int| 0 <= j < q ==> (#[trigger] out@[j]).0@ != id@,
                forall|a: int, b: int|
                    0 <= a < b < out@.len() ==> (#[trigger] out@[a]).0@ != (
                    #[trigger] out@[b]).0@,
                replaced ==> out.deep_view() =~= upsert_pair(pre, id@, addr@),
                id@ == pair_id(gparts[k as int]),
                addr@ == pair_addr(gparts[k as int]),
            decreases n - q,
        {
            if replaced {
                q = q + 1;
            } else if str_eq(out[q].0.as_str(), id.as_str()) {
                proof {
                    assert(pre[q as int].0 == id@);
                    assert(forall|j: int| 0 <= j < q ==> (#[trigger] pre[j]).0 != id@);
                    lemma_upsert_pair_found(pre, id@, addr@, q as int);
                }
                let ghost before = out@;
                let _prev = out.remove(q);
                out.insert(q, (id.clone(), addr.clone()));
                replaced = true;
                proof {
                    assert(out@ =~= before.update(q as int, (out@[q as int].0, out@[q as int].1)));
                    assert(out@[q as int].0@ == id@ && out@[q as int].1@ == addr@);
                    assert(out.deep_view() =~= pre.update(q as int, (id@, addr@)));
                    assert(forall|a: int, b: int|
                        0 <= a < b < out@.len() ==> (#[trigger] out@[a]).0@ != (
                        #[trigger] out@[b]).0@) by {
                        assert(forall|a: int|
                            0 <= a < out@.len() ==> (#[trigger] out@[a]).0@ == (if a == q {
                                id@
                            } else {
                                before[a].0@
                            }));
                        assert(before[q as int].0@ == id@);
                    }
                }
                q = q + 1;
            } else {
                q = q + 1;
            }
        }
        if !replaced {
            proof {
                assert(forall|j: int| 0 <= j < pre.len() ==> (#[trigger] pre[j]).0 != id@) by {
                    assert(forall|j: int|
                        0 <= j < out@.len() ==> pre[j] == ((#[trigger] out@[j]).0@, out@[j].1@));
                }
                lemma_upsert_pair_absent(pre, id@, addr@);
            }
            let ghost before = out@;
            out.push((id, addr));
            proof {
                assert(out.deep_view() =~= pre.push((id@, addr@)));
                assert(forall|a: int, b: int|
                    0 <= a < b < out@.len() ==> (#[trigger] out@[a]).0@ != (
                    #[trigger] out@[b]).0@) by {
                    assert(forall|a: int| 0 <= a < before.len() ==> out@[a] == before[a]);
                    assert(out@[out@.len() - 1].0@ == id@);
                }
            }
        }
        proof {
            assert(out.deep_view() =~= members_table(gparts.take(k + 1)));
        }
        k = k + 1;
    }
    proof {
        lemma_first_bad_pair(gparts, gparts.len() as int);
        assert(gparts.take(gparts.len() as int) =~= gparts);
    }
    Ok(out)
}

/// The separators of the structured option values.
pub open spec fn opt_seps() -> Seq<char> {
    seq![':', ' ', ',', '-']
}

/// The message when a typed option needs a different number of arguments.
pub open spec fn arity_msg(head: Seq<char>, tail: Seq<char>, got: nat) -> Seq<char> {
    head + tail + spec_dec(got)
}

/// Parse the backup storage option: `s3:<bucket>` or `pv:<path>`.
pub fn parse_backup_type(value: &str) -> (r: Result<BackupConfig, String>)
    ensures
        ({
            let parts = spec_split(value@, opt_seps());
            if value@.len() == 0 {
                r is Err && r->Err_0@ == "backup type is empty"@
            } else if parts[0] == "s3"@ {
                if parts.len() == 2 {
                    r is Ok && (r->Ok_0 matches BackupConfig::S3 { bucket } && bucket@
                        == parts[1])
                } else {
                    r is Err && r->Err_0@ == arity_msg(
                        "s3 backup type requires 1 arguments, got "@,
                        Seq::<char>::empty(),
                        (parts.len() - 1) as nat,
                    )
                }
            } else if parts[0] == "pv"@ {
                if parts.len() == 2 {
                    r is Ok && (r->Ok_0 matches BackupConfig::PV { path } && path@
                        == parts[1])
                } else {
                    r is Err && r->Err_0@ == arity_msg(
                        "pv backup type requires 1 argument, got "@,
                        Seq::<char>::empty(),
                        (parts.len() - 1) as nat,
                    )
                }
            } else {
                r is Err && r->Err_0@ == "unknown backup type: "@ + parts[0]
            }
        }),
{
    proof {
        assert(opt_seps() =~= seq![':', ' ', ',', '-']);
    }
    if value.unicode_len() == 0 {
        return Err("backup type is empty".to_owned());
    }
    let seps: [char; 4] = [':', ' ', ',', '-'];
    proof {
        assert(seps@ =~= opt_seps());
    }
    let parts = split_str(value, &seps);
    let ghost gparts = spec_split(value@, opt_seps());
    proof {
        assert(parts.deep_view() == gparts);
        crate::text::lemma_split_nonempty(value@, opt_seps());
        assert(parts@[0]@ == gparts[0]);
    }
    let head = parts[0].as_str();
    if str_eq(head, "s3") {
        if parts.len() != 2 {
            let mut msg = "s3 backup type requires 1 arguments, got ".to_owned();
            let d = dec_u64((parts.len() - 1) as u64);
            msg.append(d.as_str());
            proof {
                assert(msg@ =~= arity_msg(
                    "s3 backup type requires 1 arguments, got "@,
                    Seq::<char>::empty(),
                    (gparts.len() - 1) as nat,
                ));
            }
            return Err(msg);
        }
        let bucket = parts[1].clone();
        proof {
            assert(bucket@ == gparts[1]);
        }
        Ok(BackupConfig::S3 { bucket })
    } else if str_eq(head, "pv") {
        if parts.len() != 2 {
            let mut msg = "pv backup type requires 1 argument, got ".to_owned();
            let d = dec_u64((parts.len() - 1) as u64);
            msg.append(d.as_str());
            proof {
                assert(msg@ =~= arity_msg(
                    "pv backup type requires 1 argument, got "@,
                    Seq::<char>::empty(),
                    (gparts.len() - 1) as nat,
                ));
            }
            return Err(msg);
        }
        let path = parts[1].clone();
        proof {
            assert(path@ == gparts[1]);
        }
        Ok(BackupConfig::PV { path })
    } else {
        let mut msg = "unknown backup type: ".to_owned();
        msg.append(head);
        proof {
            assert(msg@ =~= "unknown backup type: "@ + gparts[0]);
        }
        Err(msg)
    }
}

/// Parse the registry option: `sts:<name>:<namespace>` or `http:<addr>`.
pub fn parse_registry(s: &str) -> (r: Result<RegistryConfig, String>)
    ensures
        ({
            let parts = spec_split(s@, opt_seps());
            if s@.len() == 0 {
                r is Err && r->Err_0@ == "registry type is empty"@
            } else if parts[0] == "sts"@ {
                if parts.len() == 3 {
                    r is Ok && (r->Ok_0 matches RegistryConfig::Sts { name, namespace }
                        && name@ == parts[1] && namespace@ == parts[2])
                } else {
                    r is Err && r->Err_0@ == arity_msg(
                        "sts registry type requires 2 argument, got "@,
                        Seq::<char>::empty(),
                        (parts.len() - 1) as nat,
                    )
                }
            } else if parts[0] == "http"@ {
                if parts.len() == 2 {
                    r is Ok && (r->Ok_0 matches RegistryConfig::Http { server_addr }
                        && server_addr@ == parts[1])
                } else {
                    r is Err && r->Err_0@ == arity_msg(
                        "http registry type requires 1 argument, got "@,
                        Seq::<char>::empty(),
                        (parts.len() - 1) as nat,
                    )
                }
            } else {
                r is Err && r->Err_0@ == "unknown registry type: "@ + parts[0]
            }
        }),
{
    proof {
        assert(opt_seps() =~= seq![':', ' ', ',', '-']);
    }
    if s.unicode_len() == 0 {
        return Err("registry type is empty".to_owned());
    }
    let seps: [char; 4] = [':', ' ', ',', '-'];
    proof {
        assert(seps@ =~= opt_seps());
    }
    let parts = split_str(s, &seps);
    let ghost gparts = spec_split(s@, opt_seps());
    proof {
        assert(parts.deep_view() == gparts);
        crate::text::lemma_split_nonempty(s@, opt_seps());
        assert(parts@[0]@ == gparts[0]);
    }
    let head = parts[0].as_str();
    if str_eq(head, "sts") {
        if parts.len() != 3 {
            let mut msg = "sts registry type requires 2 argument, got ".to_owned();
            let d = dec_u64((parts.len() - 1) as u64);
            msg.append(d.as_str());
            proof {
                assert(msg@ =~= arity_msg(
                    "sts registry type requires 2 argument, got "@,
                    Seq::<char>::empty(),
                    (gparts.len() - 1) as nat,
                ));
            }
            return Err(msg);
        }
        let name = parts[1].clone();
        let namespace = parts[2].clone();
        proof {
            assert(name@ == gparts[1] && namespace@ == gparts[2]);
        }
        Ok(RegistryConfig::Sts { name, namespace })
    } else if str_eq(head, "http") {
        if parts.len() != 2 {
            let mut msg = "http registry type requires 1 argument, got ".to_owned();
            let d = dec_u64((parts.len() - 1) as u64);
            msg.append(d.as_str());
            proof {
                assert(msg@ =~= arity_msg(
                    "http registry type requires 1 argument, got "@,
                    Seq::<char>::empty(),
                    (gparts.len() - 1) as nat,
                ));
            }
            return Err(msg);
        }
        let server_addr = parts[1].clone();
        proof {
            assert(server_addr@ == gparts[1]);
        }
        Ok(RegistryConfig::Http { server_addr })
    } else {
        let mut msg = "unknown registry type: ".to_owned();
        msg.append(head);
        proof {
            assert(msg@ =~= "unknown registry type: "@ + gparts[0]);
        }
        Err(msg)
    }
}

/// The message for a launch-backend argument without a key-value shape.
pub open spec fn backend_kv_msg(p: Seq<char>) -> Seq<char> {
    "k8s backend got unexpected argument "@ + p + ", expect <key>=<value>"@
}

/// The message for a launch-backend argument with an unknown key.
pub open spec fn backend_key_msg(p: Seq<char>) -> Seq<char> {
    "k8s backend got unexpected argument "@ + p
        + ", expect one of 'pod', 'container', 'namespace'"@
}

/// Scan the arguments of the container backend, threading the three
/// settings; later values overwrite earlier ones.
pub open spec fn backend_scan(
    items: Seq<Seq<char>>,
    i: int,
    pod: Seq<char>,
    container: Seq<char>,
    namespace: Seq<char>,
) -> Result<(Seq<char>, Seq<char>, Seq<char>), Seq<char>>
    decreases items.len() - i,
{
    if i < 0 || i >= items.len() {
        Ok((pod, container, namespace))
    } else {
        let p = items[i];
        let k = until_eq(p);
        if k == p.len() {
            Err(backend_kv_msg(p))
        } else {
            let key = p.take(k);
            let val = p.skip(k + 1);
            if key == "pod"@ {
                backend_scan(items, i + 1, val, container, namespace)
            } else if key == "container"@ {
                backend_scan(items, i + 1, pod, val, namespace)
            } else if key == "namespace"@ {
                backend_scan(items, i + 1, pod, container, val)
            } else {
                Err(backend_key_msg(p))
            }
        }
    }
}

/// Parse the launch backend: `local`, or `k8s` with `pod`, `container`
/// and `namespace` settings.
#[verifier::loop_isolation(false)]
pub fn parse_backend(value: &str) -> (r: Result<BackendConfig, String>)
    ensures
        ({
            let parts = spec_split(value@, seq![',']);
            if value@.len() == 0 {
                r is Err && r->Err_0@ == "backend is empty"@
            } else if parts[0] == "k8s"@ {
                match backend_scan(
                    parts,
                    1,
                    Seq::<char>::empty(),
                    Seq::<char>::empty(),
                    Seq::<char>::empty(),
                ) {
                    Err(m) => r is Err && r->Err_0@ == m,
                    Ok(fields) => {
                        if fields.0.len() == 0 || fields.1.len() == 0 || fields.2.len() == 0 {
                            r is Err && r->Err_0@
                                == "k8s backend must set 'pod', 'container', 'namespace'"@
                        } else {
                            r is Ok && (r->Ok_0 matches BackendConfig::K8s {
                                pod_name,
                                container_name,
                                namespace,
                            } && pod_name@ == fields.0 && container_name@ == fields.1
                                && namespace@ == fields.2)
                        }
                    },
                }
            } else if parts[0] == "local"@ {
                r is Ok && r->Ok_0 == BackendConfig::Local
            } else {
                r is Err && r->Err_0@ == "unknown backend: "@ + parts[0]
            }
        }),
{
    if value.unicode_len() == 0 {
        return Err("backend is empty".to_owned());
    }
    let seps: [char; 1] = [','];
    proof {
        assert(seps@ =~= seq![',']);
    }
    let parts = split_str(value, &seps);
    let ghost gparts = spec_split(value@, seq![',']);
    proof {
        assert(parts.deep_view() == gparts);
        crate::text::lemma_split_nonempty(value@, seq![',']);
        assert(parts@[0]@ == gparts[0]);
    }
    let head = parts[0].as_str();
    if str_eq(head, "k8s") {
        let eq: [char; 1] = ['='];
        proof {
            assert(eq@ =~= seq!['=']);
        }
        let mut pod_name = String::new();
        let mut container_name = String::new();
        let mut namespace = String::new();
        let mut i: usize = 1;
        while i < parts.len()
            invariant
                1 <= i <= parts@.len(),
                backend_scan(
                    gparts,
                    1,
                    Seq::<char>::empty(),
                    Seq::<char>::empty(),
                    Seq::<char>::empty(),
                ) == backend_scan(gparts, i as int, pod_name@, container_name@, namespace@),
            decreases parts@.len() - i,
        {
            let part = parts[i].as_str();
            proof {
                assert(part@ == gparts[i as int]);
            }
            let len = part.unicode_len();
            let e = crate::text::find_sep_from(part, 0, &eq);
            proof {
                assert(forall|j: int| 0 <= j < e ==> part@[j] != '=') by {
                    assert(forall|j: int|
                        0 <= j < e && part@[j] == '=' ==> is_sep(
                            #[trigger] part@[j],
                            seq!['='],
                        ));
                }
                if e < len {
                    assert(is_sep(part@[e as int], seq!['=']));
                    assert(part@[e as int] == '=');
                }
                lemma_until_eq(part@, e as int);
            }
            if e == len {
                let mut msg = "k8s backend got unexpected argument ".to_owned();
                msg.append(part);
                msg.append(", expect <key>=<value>");
                proof {
                    assert(msg@ =~= backend_kv_msg(gparts[i as int]));
                }
                return Err(msg);
            }
            let key = part.substring_char(0, e);
            let val = part.substring_char(e + 1, len).to_owned();
            proof {
                assert(key@ =~= gparts[i as int].take(e as int));
                assert(val@ =~= gparts[i as int].skip(e + 1));
            }
            if str_eq(key, "pod") {
                pod_name = val;
            } else if str_eq(key, "container") {
                container_name = val;
            } else if str_eq(key, "namespace") {
                namespace = val;
            } else {
                let mut msg = "k8s backend got unexpected argument ".to_owned();
                msg.append(part);
                msg.append(", expect one of 'pod', 'container', 'namespace'");
                proof {
                    assert(msg@ =~= backend_key_msg(gparts[i as int]));
                }
                return Err(msg);
            }
            i = i + 1;
        }
        if pod_name.as_str().is_empty() || container_name.as_str().is_empty()
            || namespace.as_str().is_empty() {
            return Err("k8s backend must set 'pod', 'container', 'namespace'".to_owned());
        }
        Ok(BackendConfig::K8s { pod_name, container_name, namespace })
    } else if str_eq(head, "local") {
        Ok(BackendConfig::Local)
    } else {
        let mut msg = "unknown backend: ".to_owned();
        msg.append(head);
        proof {
            assert(msg@ =~= "unknown backend: "@ + gparts[0]);
        }
        Err(msg)
    }
}

} // verus!
