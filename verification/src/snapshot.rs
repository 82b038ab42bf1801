//! Snapshot metadata: the canonical on-wire file name
//! `<name>.<revision>.<suffix>`, its parser, and the selection of the latest
//! snapshot among stored files.

use crate::text::{
    canonical_digits, dec_i64, digit_of, digits_val, digits_value_u64, is_digit,
    lemma_canonical_digits_dec, lemma_dec_digits, lemma_trailing_digit_len,
    lemma_trailing_digit_len_bounds, spec_dec, spec_dec_int, str_ends_with, trailing_digit_len,
};
use vstd::prelude::*;

verus! {

/// The characters of the fixed snapshot file suffix.
pub open spec fn snapshot_suffix() -> Seq<char> {
    seq!['x', 'l', 'i', 'n', 'e', '.', 'b', 'a', 'c', 'k', 'u', 'p']
}

/// The suffix together with the dot that separates it from the revision.
pub open spec fn snapshot_marker() -> Seq<char> {
    seq!['.'] + snapshot_suffix()
}

/// The canonical file name of a snapshot: name, revision and suffix,
/// separated by dots.
pub open spec fn spec_canonical_name(name: Seq<char>, revision: int) -> Seq<char> {
    name + seq!['.'] + spec_dec_int(revision) + seq!['.'] + snapshot_suffix()
}

/// Parse a snapshot file name from the right: the fixed suffix, then the
/// revision as a canonical numeral with an optional minus sign, then a dot;
/// everything before that dot is the name.
pub open spec fn spec_parse_snapshot(s: Seq<char>) -> Option<(Seq<char>, int)> {
    if s.len() < 13 || !snapshot_marker().is_suffix_of(s) {
        None
    } else {
        let t = s.take(s.len() - 13);
        let j = trailing_digit_len(t);
        let digits = t.skip(t.len() - j);
        let before = t.take(t.len() - j);
        if j == 0 || !canonical_digits(digits) {
            None
        } else {
            let neg = before.len() > 0 && before.last() == '-';
            let core = if neg {
                before.drop_last()
            } else {
                before
            };
            if core.len() == 0 || core.last() != '.' {
                None
            } else {
                let name = core.drop_last();
                let v = digits_val(digits);
                if neg {
                    if 0 < v && v <= 0x8000_0000_0000_0000 {
                        Some((name, -v))
                    } else {
                        None
                    }
                } else {
                    if v <= i64::MAX {
                        Some((name, v))
                    } else {
                        None
                    }
                }
            }
        }
    }
}

/// Snapshot metadata: which member took the snapshot, and at which revision.
#[derive(Clone, Debug, PartialEq)]
pub struct Metadata {
    /// The name of this snapshot, ordinarily the member that took it.
    pub name: String,
    /// The revision of the store that the snapshot holds.
    pub revision: i64,
}

impl Metadata {
    /// Render the canonical file name of this snapshot.
    pub fn to_string(&self) -> (r: String)
        ensures
            r@ == spec_canonical_name(self.name@, self.revision as int),
    {
        proof {
            reveal_strlit(".");
            reveal_strlit("xline.backup");
        }
        let mut out = self.name.clone();
        out.append(".");
        let d = dec_i64(self.revision);
        out.append(d.as_str());
        out.append(".");
        out.append("xline.backup");
        proof {
            assert("."@ =~= seq!['.']);
            assert("xline.backup"@ =~= snapshot_suffix());
            assert(out@ =~= spec_canonical_name(self.name@, self.revision as int));
        }
        out
    }

    /// Parse a snapshot file name; `None` for any string that is not the
    /// canonical name of a snapshot.
    pub fn parse(s: &str) -> (r: Option<Metadata>)
        ensures
            match r {
                Some(m) => spec_parse_snapshot(s@) == Some((m.name@, m.revision as int)),
                None => spec_parse_snapshot(s@) is None,
            },
    {
        proof {
            reveal_strlit(".xline.backup");
            assert(".xline.backup"@ =~= snapshot_marker());
        }
        let len = s.unicode_len();
        if len < 13 || !str_ends_with(s, ".xline.backup") {
            return None;
        }
        let tlen = len - 13;
        let ghost t = s@.take(tlen as int);
        proof {
            assert(forall|i: int| 0 <= i < tlen ==> t[i] == s@[i]);
        }
        let mut a = tlen;
        while a > 0 && digit_of(s.get_char(a - 1)) < 10
            invariant
                0 <= a <= tlen,
                tlen == t.len(),
                len == s@.len(),
                tlen == len - 13,
                t == s@.take(tlen as int),
                forall|i: int| a <= i < tlen ==> is_digit(#[trigger] s@[i]),
            decreases a,
        {
            a = a - 1;
        }
        proof {
            assert(forall|i: int| a <= i < tlen ==> t[i] == s@[i]);
            if a > 0 {
                assert(t[a - 1] == s@[a - 1]);
            }
            lemma_trailing_digit_len(t, tlen - a);
        }
        if a == tlen {
            return None;
        }
        let ghost digits = t.skip(a as int);
        let ghost before = t.take(a as int);
        proof {
            assert(digits =~= s@.subrange(a as int, tlen as int));
            assert(digits[0] == s@[a as int]);
        }
        if s.get_char(a) == '0' && tlen - a > 1 {
            proof {
                assert(!canonical_digits(digits));
            }
            return None;
        }
        let value = match digits_value_u64(s, a, tlen) {
            Some(v) => v,
            None => {
                return None;
            },
        };
        proof {
            assert(canonical_digits(digits));
            assert(before =~= s@.take(a as int));
            if a > 0 {
                assert(before.last() == s@[a - 1]);
            }
        }
        let neg = a > 0 && s.get_char(a - 1) == '-';
        let sep_pos = if neg {
            a - 1
        } else {
            a
        };
        let ghost core = if neg {
            before.drop_last()
        } else {
            before
        };
        proof {
            assert(core =~= s@.take(sep_pos as int));
            if sep_pos > 0 {
                assert(core.last() == s@[sep_pos - 1]);
            }
        }
        if sep_pos == 0 {
            return None;
        }
        if s.get_char(sep_pos - 1) != '.' {
            return None;
        }
        let name = s.substring_char(0, sep_pos - 1).to_owned();
        proof {
            assert(name@ =~= core.drop_last());
        }
        if neg {
            if value == 0 {
                return None;
            }
            if value > 0x8000_0000_0000_0000u64 {
                return None;
            }
            let revision = if value == 0x8000_0000_0000_0000u64 {
                i64::MIN
            } else {
                -(value as i64)
            };
            Some(Metadata { name, revision })
        } else {
            if value > i64::MAX as u64 {
                return None;
            }
            Some(Metadata { name, revision: value as i64 })
        }
    }
}

/// Round trip, first direction: the canonical name of any snapshot parses
/// back to the same name and revision.
pub proof fn lemma_snapshot_round_trip(name: Seq<char>, revision: int)
    requires
        i64::MIN <= revision <= i64::MAX,
    ensures
        spec_parse_snapshot(spec_canonical_name(name, revision)) == Some((name, revision)),
{
    let s = spec_canonical_name(name, revision);
    let magnitude: nat = if revision < 0 {
        (-revision) as nat
    } else {
        revision as nat
    };
    let dd = spec_dec(magnitude);
    lemma_dec_digits(magnitude);
    let sign: Seq<char> = if revision < 0 {
        seq!['-']
    } else {
        Seq::<char>::empty()
    };
    assert(spec_dec_int(revision) =~= sign + dd);
    assert(s =~= name + seq!['.'] + sign + dd + snapshot_marker());
    assert(s.skip(s.len() - 13) =~= snapshot_marker());
    assert(snapshot_marker().is_suffix_of(s));
    let t = s.take(s.len() - 13);
    assert(t =~= name + seq!['.'] + sign + dd);
    assert(forall|i: int| t.len() - dd.len() <= i < t.len() ==> is_digit(#[trigger] t[i])) by {
        assert(forall|i: int|
            t.len() - dd.len() <= i < t.len() ==> t[i] == dd[i - (t.len() - dd.len())]);
    }
    assert(t[t.len() - dd.len() - 1] == (if revision < 0 {
        '-'
    } else {
        '.'
    }));
    lemma_trailing_digit_len(t, dd.len() as int);
    let digits = t.skip(t.len() - dd.len());
    let before = t.take(t.len() - dd.len());
    assert(digits =~= dd);
    assert(before =~= name + seq!['.'] + sign);
    if revision < 0 {
        assert(before.last() == '-');
        let core = before.drop_last();
        assert(core =~= name + seq!['.']);
        assert(core.last() == '.');
        assert(core.drop_last() =~= name);
        assert(digits_val(digits) == magnitude);
        assert(0 < magnitude && magnitude <= 0x8000_0000_0000_0000);
        assert(-(magnitude as int) == revision);
    } else {
        assert(before.last() == '.');
        assert(before.drop_last() =~= name);
        assert(digits_val(digits) == magnitude);
        assert(magnitude <= i64::MAX);
    }
}

/// Round trip, second direction: a file name that parses is exactly the
/// canonical name of what it parses to, so parsing accepts canonical names
/// only.
pub proof fn lemma_parsed_snapshot_renders(s: Seq<char>, name: Seq<char>, revision: int)
    requires
        spec_parse_snapshot(s) == Some((name, revision)),
    ensures
        spec_canonical_name(name, revision) =~= s,
        i64::MIN <= revision <= i64::MAX,
{
    let t = s.take(s.len() - 13);
    let j = trailing_digit_len(t);
    lemma_trailing_digit_len_bounds(t);
    let digits = t.skip(t.len() - j);
    let before = t.take(t.len() - j);
    lemma_canonical_digits_dec(digits);
    let v = digits_val(digits);
    assert(spec_dec(v as nat) =~= digits);
    assert(t =~= before + digits);
    assert(s =~= t + snapshot_marker()) by {
        assert(s.skip(s.len() - 13) =~= snapshot_marker());
    }
    let neg = before.len() > 0 && before.last() == '-';
    let core = if neg {
        before.drop_last()
    } else {
        before
    };
    let nm = core.drop_last();
    assert(core =~= nm + seq!['.']);
    if neg {
        assert(before =~= nm + seq!['.'] + seq!['-']);
        assert(revision == -v);
        assert(spec_dec_int(revision) =~= seq!['-'] + digits);
        assert(spec_canonical_name(nm, revision) =~= nm + seq!['.'] + seq!['-'] + digits
            + seq!['.'] + snapshot_suffix());
        assert(spec_canonical_name(nm, revision) =~= s);
    } else {
        assert(revision == v);
        assert(spec_dec_int(revision) =~= digits);
        assert(spec_canonical_name(nm, revision) =~= nm + seq!['.'] + digits + seq!['.']
            + snapshot_suffix());
        assert(spec_canonical_name(nm, revision) =~= s);
    }
}

/// Whether a file name carries the snapshot suffix.
pub open spec fn is_snapshot_name(s: Seq<char>) -> bool {
    snapshot_suffix().is_suffix_of(s)
}

/// Pick the snapshot with the greatest revision among the stored file
/// names. Files without the snapshot suffix are ignored; a file with the
/// suffix that is no canonical snapshot name fails the call with its index.
pub fn latest_of(files: &Vec<String>) -> (r: Result<Option<Metadata>, usize>)
    ensures
        match r {
            Ok(best) => {
                &&& match best {
                    Some(m) => {
                        &&& exists|i: int|
                            0 <= i < files.len() && is_snapshot_name(#[trigger] files[i]@)
                                && spec_parse_snapshot(files[i]@) == Some(
                                (m.name@, m.revision as int),
                            )
                        &&& forall|i: int|
                            0 <= i < files.len() && is_snapshot_name(#[trigger] files[i]@)
                                ==> spec_parse_snapshot(files[i]@) is Some
                                && spec_parse_snapshot(files[i]@)->Some_0.1 <= m.revision
                    },
                    None => forall|i: int|
                        0 <= i < files.len() ==> !is_snapshot_name(#[trigger] files[i]@),
                }
            },
            Err(i) => 0 <= i < files.len() && is_snapshot_name(files[i as int]@)
                && spec_parse_snapshot(files[i as int]@) is None,
        },
{
    proof {
        reveal_strlit("xline.backup");
        assert("xline.backup"@ =~= snapshot_suffix());
    }
    let mut best: Option<Metadata> = None;
    let mut i: usize = 0;
    while i < files.len()
        invariant
            0 <= i <= files.len(),
            match best {
                Some(m) => {
                    &&& exists|k: int|
                        0 <= k < i && is_snapshot_name(#[trigger] files[k]@)
                            && spec_parse_snapshot(files[k]@) == Some((m.name@, m.revision as int))
                    &&& forall|k: int|
                        0 <= k < i && is_snapshot_name(#[trigger] files[k]@)
                            ==> spec_parse_snapshot(files[k]@) is Some && spec_parse_snapshot(
                            files[k]@,
                        )->Some_0.1 <= m.revision
                },
                None => forall|k: int| 0 <= k < i ==> !is_snapshot_name(#[trigger] files[k]@),
            },
        decreases files.len() - i,
    {
        let file = &files[i];
        let matched = str_ends_with(file.as_str(), "xline.backup");
        proof {
            reveal_strlit("xline.backup");
            assert("xline.backup"@ =~= snapshot_suffix());
            assert(file@ == files[i as int]@);
            assert(matched == is_snapshot_name(files[i as int]@));
        }
        if matched {
            match Metadata::parse(file.as_str()) {
                Some(m) => {
                    let ghost mname = m.name@;
                    let ghost mrev = m.revision as int;
                    let ghost prev_best = best;
                    let take = match &best {
                        Some(b) => m.revision >= b.revision,
                        None => true,
                    };
                    if take {
                        best = Some(m);
                    }
                    proof {
                        assert(spec_parse_snapshot(files[i as int]@) == Some((mname, mrev)));
                        if take {
                            let bm = best->Some_0;
                            assert(bm.name@ == mname && bm.revision as int == mrev);
                            assert(is_snapshot_name(files[i as int]@) && spec_parse_snapshot(
                                files[i as int]@,
                            ) == Some((bm.name@, bm.revision as int)));
                            if prev_best is Some {
                                let pb = prev_best->Some_0;
                                assert(forall|k: int|
                                    0 <= k < i && is_snapshot_name(#[trigger] files[k]@)
                                        ==> spec_parse_snapshot(files[k]@) is Some
                                        && spec_parse_snapshot(files[k]@)->Some_0.1
                                        <= pb.revision);
                            }
                        }
                    }
                },
                None => {
                    return Err(i);
                },
            }
        }
        i = i + 1;
    }
    Ok(best)
}

/// Whether a stored snapshot is old enough to purge: its modification time
/// lies more than the time-to-live before now. A modification time in the
/// future is an error.
pub fn purge_decision(modified_secs: u64, now_secs: u64, ttl_secs: u64) -> (r: Result<
    bool,
    (),
>)
    ensures
        modified_secs <= now_secs ==> r == Ok::<bool, ()>(
            now_secs - modified_secs > ttl_secs,
        ),
        modified_secs > now_secs ==> r == Err::<bool, ()>(()),
{
    if modified_secs > now_secs {
        Err(())
    } else {
        Ok(now_secs - modified_secs > ttl_secs)
    }
}

} // verus!
