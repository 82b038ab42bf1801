//! Schema version algebra: parse, order and test compatibility of version
//! labels of the form `vN`, `vNalphaM` and `vNbetaM`.

use core::cmp::Ordering;
use crate::text::{
    canonical_digits, dec_u64, digit_prefix_len, digits_val, digits_value_u64, is_digit,
    lemma_canonical_digits_dec, lemma_dec_digits, lemma_digit_prefix_len, scan_digits_from,
    spec_dec,
};
use vstd::prelude::*;

verus! {

/// The characters of the alpha channel marker.
pub open spec fn alpha_marker() -> Seq<char> {
    seq!['a', 'l', 'p', 'h', 'a']
}

/// The characters of the beta channel marker.
pub open spec fn beta_marker() -> Seq<char> {
    seq!['b', 'e', 't', 'a']
}

/// A schema version label: an ordered triple of main version, channel
/// (alpha < beta < stable) and sub version.
#[derive(Clone, Copy, Debug, PartialEq, Eq, Structural)]
pub enum ApiVersion {
    /// Alpha channel, e.g. `v1alpha1`.
    Alpha(u32, u32),
    /// Beta channel, e.g. `v2beta3`.
    Beta(u32, u32),
    /// Stable channel, e.g. `v3`.
    Stable(u32),
}

impl ApiVersion {
    /// The main version of a label.
    pub open spec fn spec_main_version(self) -> u32 {
        match self {
            ApiVersion::Alpha(main, _) => main,
            ApiVersion::Beta(main, _) => main,
            ApiVersion::Stable(main) => main,
        }
    }

    /// The sub version of a label; stable labels have none and count as 0.
    pub open spec fn spec_sub_version(self) -> u32 {
        match self {
            ApiVersion::Alpha(_, sub) => sub,
            ApiVersion::Beta(_, sub) => sub,
            ApiVersion::Stable(_) => 0,
        }
    }

    /// The rank of the channel: alpha before beta before stable.
    pub open spec fn spec_label_order(self) -> u32 {
        match self {
            ApiVersion::Alpha(_, _) => 0,
            ApiVersion::Beta(_, _) => 1,
            ApiVersion::Stable(_) => 2,
        }
    }

    /// The total order on labels: by main version, then channel, then sub
    /// version.
    pub open spec fn spec_le(self, other: Self) -> bool {
        if self.spec_main_version() != other.spec_main_version() {
            self.spec_main_version() < other.spec_main_version()
        } else if self.spec_label_order() != other.spec_label_order() {
            self.spec_label_order() < other.spec_label_order()
        } else {
            self.spec_sub_version() <= other.spec_sub_version()
        }
    }

    /// Create an alpha version.
    pub fn alpha(main: u32, sub: u32) -> (r: Self)
        ensures
            r == ApiVersion::Alpha(main, sub),
    {
        ApiVersion::Alpha(main, sub)
    }

    /// Create a beta version.
    pub fn beta(main: u32, sub: u32) -> (r: Self)
        ensures
            r == ApiVersion::Beta(main, sub),
    {
        ApiVersion::Beta(main, sub)
    }

    /// Create a stable version.
    pub fn stable(main: u32) -> (r: Self)
        ensures
            r == ApiVersion::Stable(main),
    {
        ApiVersion::Stable(main)
    }

    /// Two labels are compatible exactly when their main versions match.
    pub fn compat_with(&self, other: &Self) -> (r: bool)
        ensures
            r == (self.spec_main_version() == other.spec_main_version()),
    {
        self.main_version() == other.main_version()
    }

    /// Return the main version.
    pub fn main_version(&self) -> (r: u32)
        ensures
            r == self.spec_main_version(),
    {
        match *self {
            ApiVersion::Alpha(main, _) => main,
            ApiVersion::Beta(main, _) => main,
            ApiVersion::Stable(main) => main,
        }
    }

    /// Return the sub version.
    pub fn sub_version(&self) -> (r: u32)
        ensures
            r == self.spec_sub_version(),
    {
        match *self {
            ApiVersion::Alpha(_, sub) => sub,
            ApiVersion::Beta(_, sub) => sub,
            ApiVersion::Stable(_) => 0,
        }
    }

    /// Return the numeric rank of the channel, used for comparing.
    pub fn label_order(&self) -> (r: u32)
        ensures
            r == self.spec_label_order(),
    {
        match *self {
            ApiVersion::Alpha(_, _) => 0,
            ApiVersion::Beta(_, _) => 1,
            ApiVersion::Stable(_) => 2,
        }
    }

    /// The canonical string form of a label: `v<main>`, optionally followed
    /// by the channel marker and, when it is positive, the sub version.
    pub open spec fn spec_label(self) -> Seq<char> {
        match self {
            ApiVersion::Stable(m) => seq!['v'] + spec_dec(m as nat),
            ApiVersion::Alpha(m, s) => seq!['v'] + spec_dec(m as nat) + alpha_marker()
                + spec_sub_label(s),
            ApiVersion::Beta(m, s) => seq!['v'] + spec_dec(m as nat) + beta_marker()
                + spec_sub_label(s),
        }
    }

    /// Render the canonical string form of this label.
    pub fn to_string(&self) -> (r: String)
        ensures
            r@ == self.spec_label(),
    {
        proof {
            reveal_strlit("v");
            reveal_strlit("alpha");
            reveal_strlit("beta");
        }
        let mut out = "v".to_owned();
        proof {
            assert(out@ =~= seq!['v']);
        }
        match *self {
            ApiVersion::Stable(m) => {
                let d = dec_u64(m as u64);
                out.append(d.as_str());
                proof {
                    assert(out@ =~= self.spec_label());
                }
            },
            ApiVersion::Alpha(m, sub) => {
                let d = dec_u64(m as u64);
                out.append(d.as_str());
                out.append("alpha");
                proof {
                    assert("alpha"@ =~= alpha_marker());
                }
                if sub > 0 {
                    let sd = dec_u64(sub as u64);
                    out.append(sd.as_str());
                }
                proof {
                    assert(out@ =~= self.spec_label());
                }
            },
            ApiVersion::Beta(m, sub) => {
                let d = dec_u64(m as u64);
                out.append(d.as_str());
                out.append("beta");
                proof {
                    assert("beta"@ =~= beta_marker());
                }
                if sub > 0 {
                    let sd = dec_u64(sub as u64);
                    out.append(sd.as_str());
                }
                proof {
                    assert(out@ =~= self.spec_label());
                }
            },
        }
        out
    }

    /// Parse a version label; `None` for any string that is not the
    /// canonical form of a label.
    pub fn parse(s: &str) -> (r: Option<ApiVersion>)
        ensures
            r == spec_parse_version(s@),
    {
        proof {
            reveal_strlit("v");
        }
        let len = s.unicode_len();
        if len == 0 || s.get_char(0) != 'v' {
            return None;
        }
        let dend = scan_digits_from(s, 1);
        let ghost t = s@.skip(1);
        proof {
            assert(forall|i: int| 0 <= i < dend - 1 ==> is_digit(#[trigger] t[i])) by {
                assert(forall|i: int| 0 <= i < dend - 1 ==> t[i] == s@[i + 1]);
            }
            if dend < len {
                assert(t[dend - 1] == s@[dend as int]);
            }
            lemma_digit_prefix_len(t, dend - 1);
            assert(t.take(dend - 1) =~= s@.subrange(1, dend as int));
        }
        let ghost num = t.take(dend - 1);
        if dend == 1 {
            return None;
        }
        if s.get_char(1) == '0' && dend > 2 {
            proof {
                assert(num[0] == s@[1]);
                assert(!canonical_digits(num));
            }
            return None;
        }
        let value = match digits_value_u64(s, 1, dend) {
            Some(v) => v,
            None => {
                return None;
            },
        };
        if value > u32::MAX as u64 {
            return None;
        }
        let main = value as u32;
        proof {
            assert(num.len() > 1 ==> num[0] != '0');
            assert(canonical_digits(num));
        }
        let ghost rest = t.skip(dend - 1);
        proof {
            assert(forall|j: int| 0 <= j < rest.len() ==> rest[j] == s@[dend + j]);
        }
        if dend == len {
            proof {
                assert(rest.len() == 0);
            }
            return Some(ApiVersion::Stable(main));
        }
        let rem = len - dend;
        if rem >= 5 && s.get_char(dend) == 'a' && s.get_char(dend + 1) == 'l' && s.get_char(
            dend + 2,
        ) == 'p' && s.get_char(dend + 3) == 'h' && s.get_char(dend + 4) == 'a' {
            proof {
                reveal_strlit("alpha");
                assert(rest.take(5) =~= alpha_marker());
            }
            match Self::parse_sub(s, dend + 5) {
                Some(sub) => {
                    proof {
                        assert(rest.skip(5) =~= s@.skip(dend + 5));
                    }
                    Some(ApiVersion::Alpha(main, sub))
                },
                None => {
                    proof {
                        assert(rest.skip(5) =~= s@.skip(dend + 5));
                    }
                    None
                },
            }
        } else if rem >= 4 && s.get_char(dend) == 'b' && s.get_char(dend + 1) == 'e'
            && s.get_char(dend + 2) == 't' && s.get_char(dend + 3) == 'a' {
            proof {
                assert(rest.take(4) =~= beta_marker());
                if rest.len() >= 5 && rest.take(5) == alpha_marker() {
                    assert(rest.take(5)[0] == rest[0]);
                    assert(false);
                }
            }
            match Self::parse_sub(s, dend + 4) {
                Some(sub) => {
                    proof {
                        assert(rest.skip(4) =~= s@.skip(dend + 4));
                    }
                    Some(ApiVersion::Beta(main, sub))
                },
                None => {
                    proof {
                        assert(rest.skip(4) =~= s@.skip(dend + 4));
                    }
                    None
                },
            }
        } else {
            proof {
                if rest.len() >= 5 && rest.take(5) == alpha_marker() {
                    assert(rest.take(5)[0] == rest[0]);
                    assert(rest.take(5)[1] == rest[1]);
                    assert(rest.take(5)[2] == rest[2]);
                    assert(rest.take(5)[3] == rest[3]);
                    assert(rest.take(5)[4] == rest[4]);
                    assert(false);
                }
                if rest.len() >= 4 && rest.take(4) == beta_marker() {
                    assert(rest.take(4)[0] == rest[0]);
                    assert(rest.take(4)[1] == rest[1]);
                    assert(rest.take(4)[2] == rest[2]);
                    assert(rest.take(4)[3] == rest[3]);
                    assert(false);
                }
            }
            None
        }
    }

    /// Parse the sub-version part that follows a channel marker.
    fn parse_sub(s: &str, start: usize) -> (r: Option<u32>)
        requires
            start <= s@.len(),
        ensures
            r == spec_parse_sub(s@.skip(start as int)),
    {
        let len = s.unicode_len();
        let ghost tail = s@.skip(start as int);
        proof {
            assert(forall|i: int| 0 <= i < tail.len() ==> tail[i] == s@[start + i]);
        }
        if start == len {
            return Some(0);
        }
        let dend = scan_digits_from(s, start);
        proof {
            if dend < len {
                assert(tail[dend - start] == s@[dend as int]);
            }
            lemma_digit_prefix_len(tail, dend - start);
        }
        if dend != len {
            return None;
        }
        proof {
            assert(tail =~= s@.subrange(start as int, dend as int));
        }
        if s.get_char(start) == '0' && len - start > 1 {
            proof {
                assert(tail[0] == s@[start as int]);
                assert(!canonical_digits(tail));
            }
            return None;
        }
        let value = match digits_value_u64(s, start, dend) {
            Some(v) => v,
            None => {
                return None;
            },
        };
        if value == 0 {
            return None;
        }
        if value > u32::MAX as u64 {
            return None;
        }
        proof {
            assert(canonical_digits(tail));
        }
        Some(value as u32)
    }
}

/// The canonical string form of a sub version: empty when it is zero.
pub open spec fn spec_sub_label(sub: u32) -> Seq<char> {
    if sub > 0 {
        spec_dec(sub as nat)
    } else {
        Seq::<char>::empty()
    }
}

/// The sub-version part after a channel marker: empty means zero; otherwise
/// a canonical positive numeral that fits in 32 bits.
pub open spec fn spec_parse_sub(s: Seq<char>) -> Option<u32> {
    if s.len() == 0 {
        Some(0u32)
    } else if digit_prefix_len(s) == s.len() && canonical_digits(s) && 0 < digits_val(s)
        && digits_val(s) <= u32::MAX {
        Some(digits_val(s) as u32)
    } else {
        None
    }
}

/// Parse a version label: `v` followed by a canonical main version, then
/// optionally a channel marker and sub version.
pub open spec fn spec_parse_version(s: Seq<char>) -> Option<ApiVersion> {
    if s.len() == 0 || s[0] != 'v' {
        None
    } else {
        let t = s.skip(1);
        let k = digit_prefix_len(t);
        let num = t.take(k);
        if k == 0 || !canonical_digits(num) || digits_val(num) > u32::MAX {
            None
        } else {
            let main = digits_val(num) as u32;
            let rest = t.skip(k);
            if rest.len() == 0 {
                Some(ApiVersion::Stable(main))
            } else if rest.len() >= 5 && rest.take(5) == alpha_marker() {
                match spec_parse_sub(rest.skip(5)) {
                    Some(sub) => Some(ApiVersion::Alpha(main, sub)),
                    None => None,
                }
            } else if rest.len() >= 4 && rest.take(4) == beta_marker() {
                match spec_parse_sub(rest.skip(4)) {
                    Some(sub) => Some(ApiVersion::Beta(main, sub)),
                    None => None,
                }
            } else {
                None
            }
        }
    }
}

/// The sub label of a sub version parses back to that sub version.
proof fn lemma_sub_label_round_trip(sub: u32)
    ensures
        spec_parse_sub(spec_sub_label(sub)) == Some(sub),
{
    if sub > 0 {
        let d = spec_dec(sub as nat);
        lemma_dec_digits(sub as nat);
        lemma_digit_prefix_len(d, d.len() as int);
    }
}

/// Round trip, first direction: every label parses back to the version it
/// renders. Together with the second direction this is the statement that
/// rendering is a bijection between versions and their canonical labels.
pub proof fn lemma_version_label_parses(v: ApiVersion)
    ensures
        spec_parse_version(v.spec_label()) == Some(v),
{
    let s = v.spec_label();
    let m = v.spec_main_version();
    lemma_dec_digits(m as nat);
    let d = spec_dec(m as nat);
    let tail: Seq<char> = match v {
        ApiVersion::Stable(_) => Seq::<char>::empty(),
        ApiVersion::Alpha(_, sub) => alpha_marker() + spec_sub_label(sub),
        ApiVersion::Beta(_, sub) => beta_marker() + spec_sub_label(sub),
    };
    assert(s =~= seq!['v'] + d + tail);
    assert(s[0] == 'v');
    let t = s.skip(1);
    assert(t =~= d + tail);
    assert(forall|i: int| 0 <= i < d.len() ==> t[i] == d[i]);
    if tail.len() > 0 {
        assert(t[d.len() as int] == tail[0]);
        assert(!is_digit(tail[0]));
    }
    lemma_digit_prefix_len(t, d.len() as int);
    assert(t.take(d.len() as int) =~= d);
    let rest = t.skip(d.len() as int);
    assert(rest =~= tail);
    match v {
        ApiVersion::Stable(_) => {
            assert(rest.len() == 0);
        },
        ApiVersion::Alpha(_, sub) => {
            assert(rest.take(5) =~= alpha_marker());
            assert(rest.skip(5) =~= spec_sub_label(sub));
            lemma_sub_label_round_trip(sub);
        },
        ApiVersion::Beta(_, sub) => {
            assert(rest.take(4) =~= beta_marker());
            assert(rest.skip(4) =~= spec_sub_label(sub));
            lemma_sub_label_round_trip(sub);
            if rest.len() >= 5 && rest.take(5) == alpha_marker() {
                assert(rest.take(5)[0] == rest[0]);
                assert(rest[0] == 'b');
                assert(false);
            }
        },
    }
}

/// Round trip, second direction: a string that parses is exactly the label
/// of the version it parses to, so parsing accepts canonical labels only.
#[verifier::spinoff_prover]
#[verifier::rlimit(80)]
pub proof fn lemma_parsed_version_renders(s: Seq<char>, v: ApiVersion)
    requires
        spec_parse_version(s) == Some(v),
    ensures
        v.spec_label() =~= s,
{
    let t = s.skip(1);
    let k = digit_prefix_len(t);
    crate::text::lemma_digit_prefix_len_bounds(t);
    let num = t.take(k);
    lemma_canonical_digits_dec(num);
    let main = (digits_val(num) as u32) as nat;
    assert(spec_dec(main) =~= num);
    let rest = t.skip(k);
    assert(t =~= num + rest);
    assert(s =~= seq![s[0]] + t);
    assert(s =~= seq!['v'] + num + rest);
    if rest.len() == 0 {
        assert(v == ApiVersion::Stable(main as u32));
        assert(v.spec_label() =~= seq!['v'] + num);
    } else if rest.len() >= 5 && rest.take(5) == alpha_marker() {
        let subpart = rest.skip(5);
        let sub = spec_parse_sub(subpart)->Some_0;
        assert(v == ApiVersion::Alpha(main as u32, sub));
        lemma_parsed_sub_renders(subpart, sub);
        assert(rest =~= alpha_marker() + subpart);
        assert(v.spec_label() =~= seq!['v'] + num + alpha_marker() + subpart);
    } else {
        let subpart = rest.skip(4);
        let sub = spec_parse_sub(subpart)->Some_0;
        assert(v == ApiVersion::Beta(main as u32, sub));
        lemma_parsed_sub_renders(subpart, sub);
        assert(rest =~= beta_marker() + subpart);
        assert(v.spec_label() =~= seq!['v'] + num + beta_marker() + subpart);
    }
}

impl PartialOrd for ApiVersion {
    /// Compare by main version, then channel, then sub version.
    fn partial_cmp(&self, other: &Self) -> (r: Option<Ordering>) {
        let sm = self.main_version();
        let om = other.main_version();
        if sm != om {
            return if sm < om {
                Some(Ordering::Less)
            } else {
                Some(Ordering::Greater)
            };
        }
        let sl = self.label_order();
        let ol = other.label_order();
        if sl != ol {
            return if sl < ol {
                Some(Ordering::Less)
            } else {
                Some(Ordering::Greater)
            };
        }
        let ss = self.sub_version();
        let os = other.sub_version();
        if ss < os {
            Some(Ordering::Less)
        } else if ss > os {
            Some(Ordering::Greater)
        } else {
            Some(Ordering::Equal)
        }
    }
}

impl vstd::std_specs::cmp::PartialOrdSpecImpl for ApiVersion {
    open spec fn obeys_partial_cmp_spec() -> bool {
        true
    }

    open spec fn partial_cmp_spec(&self, other: &Self) -> Option<Ordering> {
        if self.spec_main_version() != other.spec_main_version() {
            if self.spec_main_version() < other.spec_main_version() {
                Some(Ordering::Less)
            } else {
                Some(Ordering::Greater)
            }
        } else if self.spec_label_order() != other.spec_label_order() {
            if self.spec_label_order() < other.spec_label_order() {
                Some(Ordering::Less)
            } else {
                Some(Ordering::Greater)
            }
        } else if self.spec_sub_version() < other.spec_sub_version() {
            Some(Ordering::Less)
        } else if self.spec_sub_version() > other.spec_sub_version() {
            Some(Ordering::Greater)
        } else {
            Some(Ordering::Equal)
        }
    }
}

/// The length of the run of `v` characters at the front of a string.
pub open spec fn v_run_len(s: Seq<char>) -> int
    decreases s.len(),
{
    if s.len() > 0 && s[0] == 'v' {
        1 + v_run_len(s.drop_first())
    } else {
        0
    }
}

/// The run of `v` characters never reaches past the end of the string.
proof fn lemma_v_run_len_bounds(s: Seq<char>)
    ensures
        0 <= v_run_len(s) <= s.len(),
    decreases s.len(),
{
    if s.len() > 0 && s[0] == 'v' {
        lemma_v_run_len_bounds(s.drop_first());
    }
}

/// A run of `v` characters ended by the end of the string or another
/// character pins down the run.
proof fn lemma_v_run_len(s: Seq<char>, k: int)
    requires
        0 <= k <= s.len(),
        forall|i: int| 0 <= i < k ==> s[i] == 'v',
        k < s.len() ==> s[k] != 'v',
    ensures
        v_run_len(s) == k,
    decreases k,
{
    if k > 0 {
        let t = s.drop_first();
        assert(forall|i: int| 0 <= i < k - 1 ==> t[i] == s[i + 1]);
        if k - 1 < t.len() {
            assert(t[k - 1] == s[k]);
        }
        lemma_v_run_len(t, k - 1);
    }
}

/// The bare numeric version of a schema name: the canonical numeral that
/// follows the leading `v` characters; `None` for anything else.
pub open spec fn spec_version_number(s: Seq<char>) -> Option<u32> {
    let t = s.skip(v_run_len(s));
    if canonical_digits(t) && digits_val(t) <= u32::MAX {
        Some(digits_val(t) as u32)
    } else {
        None
    }
}

/// How two bare numeric schema versions compare; `None` when either is not
/// a `v`-prefixed canonical numeral.
pub open spec fn spec_compare_versions(a: Seq<char>, b: Seq<char>) -> Option<Ordering> {
    match (spec_version_number(a), spec_version_number(b)) {
        (Some(x), Some(y)) => Some(
            if x > y {
                Ordering::Greater
            } else if y > x {
                Ordering::Less
            } else {
                Ordering::Equal
            },
        ),
        _ => None,
    }
}

/// Read the numeric version out of a schema version name.
pub fn version_number(s: &str) -> (r: Option<u32>)
    ensures
        r == spec_version_number(s@),
{
    let len = s.unicode_len();
    let mut a: usize = 0;
    while a < len && s.get_char(a) == 'v'
        invariant
            0 <= a <= len,
            len == s@.len(),
            forall|i: int| 0 <= i < a ==> s@[i] == 'v',
        decreases len - a,
    {
        a = a + 1;
    }
    proof {
        lemma_v_run_len(s@, a as int);
    }
    let ghost t = s@.skip(a as int);
    proof {
        assert(forall|i: int| 0 <= i < t.len() ==> t[i] == s@[a + i]);
    }
    if a == len {
        proof {
            assert(!canonical_digits(t));
        }
        return None;
    }
    let dend = scan_digits_from(s, a);
    if dend != len {
        proof {
            assert(t[dend - a] == s@[dend as int]);
            assert(!canonical_digits(t));
        }
        return None;
    }
    proof {
        assert(t =~= s@.subrange(a as int, dend as int));
    }
    if s.get_char(a) == '0' && len - a > 1 {
        proof {
            assert(t[0] == s@[a as int]);
            assert(!canonical_digits(t));
        }
        return None;
    }
    let value = match digits_value_u64(s, a, dend) {
        Some(v) => v,
        None => {
            return None;
        },
    };
    if value > u32::MAX as u64 {
        return None;
    }
    proof {
        assert(canonical_digits(t));
    }
    Some(value as u32)
}

/// Compare two bare schema version names such as `v1` and `v2`; `None` when
/// either does not name a version.
pub fn compare_versions(version1: &str, version2: &str) -> (r: Option<Ordering>)
    ensures
        r == spec_compare_versions(version1@, version2@),
{
    let a = match version_number(version1) {
        Some(a) => a,
        None => {
            return None;
        },
    };
    let b = match version_number(version2) {
        Some(b) => b,
        None => {
            return None;
        },
    };
    if a > b {
        Some(Ordering::Greater)
    } else if b > a {
        Some(Ordering::Less)
    } else {
        Some(Ordering::Equal)
    }
}

/// What to do with the installed schema definition at startup.
#[derive(Clone, Copy, Debug, PartialEq, Eq, Structural)]
pub enum CrdAction {
    /// No schema is installed: create it.
    Create,
    /// Apply the embedded definition over the installed one.
    Patch,
    /// Keep the installed definition untouched.
    Keep,
    /// Nothing may be done without the opt-in flag: the schema is either
    /// missing and may not be created, or newer and may not be
    /// overwritten. Fail startup with a clear error.
    Fail,
}

/// Whether `current` orders strictly after every installed version name.
pub open spec fn above_all_versions(current: Seq<char>, versions: Seq<Seq<char>>) -> bool {
    forall|i: int|
        0 <= i < versions.len() ==> spec_compare_versions(current, #[trigger] versions[i])
            == Some(Ordering::Greater)
}

/// Whether some installed version name orders strictly after `current`.
pub open spec fn below_some_version(current: Seq<char>, versions: Seq<Seq<char>>) -> bool {
    exists|i: int|
        0 <= i < versions.len() && spec_compare_versions(#[trigger] versions[i], current)
            == Some(Ordering::Greater)
}

/// Decide what to do with the installed schema definition. Fail closed:
/// when no schema is installed, it is created only with the explicit
/// opt-in flag, and startup fails otherwise. An installed schema is
/// overwritten when the embedded version is newest or when overwriting is
/// explicitly allowed, the startup fails when the platform holds a newer
/// version and overwriting is not allowed, and the schema is kept
/// otherwise.
pub fn prepare_crd_action(
    current: &str,
    versions: &Vec<String>,
    crd_found: bool,
    create_crd: bool,
) -> (r: CrdAction)
    ensures
        !crd_found && create_crd ==> r == CrdAction::Create,
        !crd_found && !create_crd ==> r == CrdAction::Fail,
        crd_found && above_all_versions(current@, versions.deep_view()) ==> r == CrdAction::Patch,
        crd_found && !above_all_versions(current@, versions.deep_view()) && !create_crd
            && below_some_version(current@, versions.deep_view()) ==> r == CrdAction::Fail,
        crd_found && !above_all_versions(current@, versions.deep_view()) && !create_crd
            && !below_some_version(current@, versions.deep_view()) ==> r == CrdAction::Keep,
        crd_found && !above_all_versions(current@, versions.deep_view()) && create_crd ==> r
            == CrdAction::Patch,
{
    if !crd_found {
        return if create_crd {
            CrdAction::Create
        } else {
            CrdAction::Fail
        };
    }
    let ghost names = versions.deep_view();
    let mut all_greater = true;
    let mut any_greater = false;
    let mut i: usize = 0;
    while i < versions.len()
        invariant
            0 <= i <= versions.len(),
            names == versions.deep_view(),
            all_greater == forall|j: int|
                0 <= j < i ==> spec_compare_versions(current@, #[trigger] names[j]) == Some(
                    Ordering::Greater,
                ),
            any_greater == exists|j: int|
                0 <= j < i && spec_compare_versions(#[trigger] names[j], current@) == Some(
                    Ordering::Greater,
                ),
        decreases versions.len() - i,
    {
        let name = &versions[i];
        proof {
            assert(names[i as int] == name@);
        }
        let up = compare_versions(current, name.as_str());
        if !matches!(up, Some(Ordering::Greater)) {
            all_greater = false;
        }
        let down = compare_versions(name.as_str(), current);
        if matches!(down, Some(Ordering::Greater)) {
            any_greater = true;
        }
        i = i + 1;
    }
    if all_greater {
        return CrdAction::Patch;
    }
    if !create_crd && any_greater {
        return CrdAction::Fail;
    }
    if create_crd {
        CrdAction::Patch
    } else {
        CrdAction::Keep
    }
}

/// Whether `current` appears among the installed schema versions.
pub fn version_listed(current: &ApiVersion, versions: &Vec<ApiVersion>) -> (r: bool)
    ensures
        r == exists|i: int| 0 <= i < versions.len() && versions[i] == *current,
{
    let mut i: usize = 0;
    while i < versions.len()
        invariant
            0 <= i <= versions.len(),
            forall|j: int| 0 <= j < i ==> versions[j] != *current,
        decreases versions.len() - i,
    {
        if versions[i].compat_with(current) && versions[i].label_order() == current.label_order()
            && versions[i].sub_version() == current.sub_version() {
            proof {
                assert(versions[i as int] == *current);
            }
            return true;
        }
        i = i + 1;
    }
    false
}

/// Whether a version name is among the installed names.
pub open spec fn name_listed(names: Seq<String>, n: Seq<char>) -> bool {
    exists|i: int| 0 <= i < names.len() && (#[trigger] names[i])@ == n
}

/// The version names of the merged schema definition: the installed names
/// unchanged, with the embedded version appended when it is not yet among
/// them.
pub fn merged_version_names(current: &str, existing: &Vec<String>) -> (r: Vec<String>)
    ensures
        forall|i: int|
            0 <= i < existing@.len() ==> (#[trigger] r@[i])@ == existing@[i]@,
        name_listed(existing@, current@) ==> r@.len() == existing@.len(),
        !name_listed(existing@, current@) ==> r@.len() == existing@.len() + 1 && r@[r@.len()
            - 1]@ == current@,
{
    let mut out: Vec<String> = Vec::new();
    let mut found = false;
    let mut i: usize = 0;
    while i < existing.len()
        invariant
            0 <= i <= existing@.len(),
            out@.len() == i,
            forall|j: int| 0 <= j < i ==> (#[trigger] out@[j])@ == existing@[j]@,
            found == exists|j: int| 0 <= j < i && (#[trigger] existing@[j])@ == current@,
        decreases existing@.len() - i,
    {
        let entry = existing[i].clone();
        proof {
            assert(entry@ == existing@[i as int]@);
        }
        if crate::text::str_eq(entry.as_str(), current) {
            found = true;
        }
        out.push(entry);
        i = i + 1;
    }
    if !found {
        out.push(current.to_owned());
    }
    out
}

/// Whether a version orders strictly before another under the label order.
pub open spec fn spec_version_lt(a: ApiVersion, b: ApiVersion) -> bool {
    a.spec_le(b) && a != b
}

/// Decide whether the storage version may be flipped to `current`: only
/// with auto migration on, when `current` is not already the storage
/// version, orders at or above every installed version, and either no
/// instance is stored under the storage version or the two versions are
/// compatible. Conservative by design: never rewrite stored objects.
pub fn should_migrate(
    current: &ApiVersion,
    storage: &ApiVersion,
    versions: &Vec<ApiVersion>,
    instances_at_storage: bool,
    auto_migration: bool,
) -> (r: bool)
    ensures
        r == {
            &&& auto_migration
            &&& *current != *storage
            &&& forall|i: int|
                0 <= i < versions.len() ==> !spec_version_lt(*current, #[trigger] versions[i])
            &&& (instances_at_storage ==> current.spec_main_version()
                == storage.spec_main_version())
        },
{
    if !auto_migration {
        return false;
    }
    if current.main_version() == storage.main_version() && current.label_order()
        == storage.label_order() && current.sub_version() == storage.sub_version() {
        proof {
            assert(*current == *storage);
        }
        return false;
    }
    assert(*current != *storage);
    let mut i: usize = 0;
    while i < versions.len()
        invariant
            0 <= i <= versions.len(),
            forall|j: int| 0 <= j < i ==> !spec_version_lt(*current, #[trigger] versions[j]),
        decreases versions.len() - i,
    {
        let v = &versions[i];
        let less = if current.main_version() != v.main_version() {
            current.main_version() < v.main_version()
        } else if current.label_order() != v.label_order() {
            current.label_order() < v.label_order()
        } else {
            current.sub_version() < v.sub_version()
        };
        if less {
            proof {
                assert(spec_version_lt(*current, versions[i as int]));
            }
            return false;
        }
        proof {
            assert(!spec_version_lt(*current, versions[i as int]));
        }
        i = i + 1;
    }
    if instances_at_storage && !current.compat_with(storage) {
        return false;
    }
    true
}

/// A sub-version part that parses is the label of the parsed sub version.
proof fn lemma_parsed_sub_renders(s: Seq<char>, sub: u32)
    requires
        spec_parse_sub(s) == Some(sub),
    ensures
        spec_sub_label(sub) =~= s,
{
    if s.len() == 0 {
        assert(sub == 0);
    } else {
        lemma_canonical_digits_dec(s);
        assert(sub > 0);
        assert(spec_dec(sub as nat) =~= s);
    }
}

} // verus!
