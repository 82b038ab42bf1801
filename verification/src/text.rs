//! Verified text utilities: decimal rendering and parsing, character
//! classification, string equality and splitting. These back every canonical
//! name, version label and address that the library builds or reads.

use vstd::prelude::*;

verus! {

/// The numeric value of a decimal digit character; 10 for any other character.
pub open spec fn digit_val(c: char) -> int {
    if c == '0' {
        0
    } else if c == '1' {
        1
    } else if c == '2' {
        2
    } else if c == '3' {
        3
    } else if c == '4' {
        4
    } else if c == '5' {
        5
    } else if c == '6' {
        6
    } else if c == '7' {
        7
    } else if c == '8' {
        8
    } else if c == '9' {
        9
    } else {
        10
    }
}

/// Whether a character is a decimal digit.
pub open spec fn is_digit(c: char) -> bool {
    digit_val(c) < 10
}

/// The digit character for a value in 0..10.
pub open spec fn digit_char(d: int) -> char {
    if d == 0 {
        '0'
    } else if d == 1 {
        '1'
    } else if d == 2 {
        '2'
    } else if d == 3 {
        '3'
    } else if d == 4 {
        '4'
    } else if d == 5 {
        '5'
    } else if d == 6 {
        '6'
    } else if d == 7 {
        '7'
    } else if d == 8 {
        '8'
    } else {
        '9'
    }
}

/// The value of a digit string, most significant digit first.
pub open spec fn digits_val(s: Seq<char>) -> int
    decreases s.len(),
{
    if s.len() == 0 {
        0
    } else {
        digits_val(s.drop_last()) * 10 + digit_val(s.last())
    }
}

/// Whether a string is one or more decimal digits.
pub open spec fn all_digits(s: Seq<char>) -> bool {
    forall|i: int| 0 <= i < s.len() ==> is_digit(#[trigger] s[i])
}

/// A canonical decimal numeral: nonempty digits without a superfluous
/// leading zero.
pub open spec fn canonical_digits(s: Seq<char>) -> bool {
    &&& s.len() > 0
    &&& all_digits(s)
    &&& (s.len() > 1 ==> s[0] != '0')
}

/// The canonical decimal rendering of a natural number.
pub open spec fn spec_dec(n: nat) -> Seq<char>
    decreases n,
{
    if n < 10 {
        seq![digit_char(n as int)]
    } else {
        spec_dec(n / 10) + seq![digit_char((n % 10) as int)]
    }
}

/// The canonical decimal rendering of an integer: a minus sign before the
/// magnitude when negative.
pub open spec fn spec_dec_int(n: int) -> Seq<char> {
    if n < 0 {
        seq!['-'] + spec_dec((-n) as nat)
    } else {
        spec_dec(n as nat)
    }
}

/// A digit character carries exactly the value it was made from.
pub proof fn lemma_digit_char_val(d: int)
    requires
        0 <= d < 10,
    ensures
        digit_val(digit_char(d)) == d,
{
}

/// The rendering of a natural number is a canonical numeral and evaluates
/// back to the number.
pub proof fn lemma_dec_digits(n: nat)
    ensures
        canonical_digits(spec_dec(n)),
        digits_val(spec_dec(n)) == n,
    decreases n,
{
    if n < 10 {
        let s = spec_dec(n);
        assert(s =~= seq![digit_char(n as int)]);
        lemma_digit_char_val(n as int);
        assert(s[0] == digit_char(n as int));
        assert(all_digits(s));
        assert(s.drop_last() =~= Seq::<char>::empty());
        assert(digits_val(s) == digits_val(s.drop_last()) * 10 + digit_val(s.last()));
        assert(digits_val(s) == n);
    } else {
        lemma_dec_digits(n / 10);
        lemma_digit_char_val((n % 10) as int);
        let prefix = spec_dec(n / 10);
        let whole = spec_dec(n);
        assert(whole =~= prefix + seq![digit_char((n % 10) as int)]);
        assert(whole.drop_last() =~= prefix);
        assert(whole.last() == digit_char((n % 10) as int));
        assert(digits_val(whole) == digits_val(prefix) * 10 + (n % 10));
        assert(forall|i: int|
            0 <= i < whole.len() ==> is_digit(#[trigger] whole[i])) by {
            assert(forall|i: int|
                0 <= i < prefix.len() ==> is_digit(#[trigger] prefix[i]));
        }
        assert(whole[0] == prefix[0]);
        if prefix.len() == 1 {
            assert(prefix.drop_last() =~= Seq::<char>::empty());
            assert(prefix.last() == prefix[0]);
            assert(digits_val(Seq::<char>::empty()) == 0);
            assert(digit_val(prefix[0]) == digits_val(prefix));
            assert(prefix[0] != '0');
        }
        assert(whole[0] != '0');
    }
}

/// A canonical numeral is the rendering of its value: rendering is a
/// bijection between naturals and canonical numerals.
pub proof fn lemma_canonical_digits_dec(s: Seq<char>)
    requires
        canonical_digits(s),
    ensures
        digits_val(s) >= 0,
        spec_dec(digits_val(s) as nat) =~= s,
    decreases s.len(),
{
    let prefix = s.drop_last();
    if s.len() == 1 {
        assert(digits_val(s) == digit_val(s.last()));
        assert(spec_dec(digits_val(s) as nat) =~= seq![digit_char(digit_val(s[0]))]);
        assert(digit_char(digit_val(s[0])) == s[0]);
    } else {
        assert(forall|i: int|
            0 <= i < prefix.len() ==> is_digit(#[trigger] prefix[i])) by {
            assert(forall|i: int|
                0 <= i < prefix.len() ==> prefix[i] == s[i]);
        }
        assert(prefix[0] == s[0]);
        lemma_canonical_digits_dec(prefix);
        let pv = digits_val(prefix) as nat;
        assert(pv >= 1) by {
            if pv == 0 {
                assert(spec_dec(0nat) =~= seq![digit_char(0)]);
                assert(prefix =~= seq![digit_char(0)]);
                assert(s[0] == '0');
            }
        }
        let v = digits_val(s);
        assert(v == pv * 10 + digit_val(s.last()));
        assert(v >= 10) by (nonlinear_arith)
            requires
                v == pv * 10 + digit_val(s.last()),
                pv >= 1,
                digit_val(s.last()) >= 0,
        ;
        assert(v / 10 == pv && v % 10 == digit_val(s.last())) by (nonlinear_arith)
            requires
                v == pv * 10 + digit_val(s.last()),
                0 <= digit_val(s.last()) < 10,
                pv >= 0,
        ;
        assert(spec_dec(v as nat) =~= spec_dec(pv) + seq![digit_char(digit_val(s.last()))]);
        assert(digit_char(digit_val(s.last())) == s.last());
        assert(spec_dec(v as nat) =~= prefix + seq![s.last()]);
        assert(prefix + seq![s.last()] =~= s);
    }
}

/// The one-character string for a digit value.
pub fn digit_str(d: u64) -> (r: &'static str)
    requires
        d < 10,
    ensures
        r@ =~= seq![digit_char(d as int)],
{
    proof {
        reveal_strlit("0");
        reveal_strlit("1");
        reveal_strlit("2");
        reveal_strlit("3");
        reveal_strlit("4");
        reveal_strlit("5");
        reveal_strlit("6");
        reveal_strlit("7");
        reveal_strlit("8");
        reveal_strlit("9");
    }
    if d == 0 {
        "0"
    } else if d == 1 {
        "1"
    } else if d == 2 {
        "2"
    } else if d == 3 {
        "3"
    } else if d == 4 {
        "4"
    } else if d == 5 {
        "5"
    } else if d == 6 {
        "6"
    } else if d == 7 {
        "7"
    } else if d == 8 {
        "8"
    } else {
        "9"
    }
}

/// Render a natural number in decimal.
pub fn dec_u64(n: u64) -> (r: String)
    ensures
        r@ =~= spec_dec(n as nat),
    decreases n,
{
    if n < 10 {
        digit_str(n).to_owned()
    } else {
        let mut s = dec_u64(n / 10);
        s.append(digit_str(n % 10));
        s
    }
}

/// The value of a digit string is never negative.
pub proof fn lemma_digits_val_nonneg(s: Seq<char>)
    ensures
        digits_val(s) >= 0,
    decreases s.len(),
{
    if s.len() > 0 {
        lemma_digits_val_nonneg(s.drop_last());
    }
}

/// Extending a digit string on the right never shrinks its value.
pub proof fn lemma_digits_val_prefix_le(s: Seq<char>, j: int)
    requires
        0 <= j <= s.len(),
    ensures
        digits_val(s.take(j)) <= digits_val(s),
    decreases s.len() - j,
{
    if j < s.len() {
        let t = s.take(j + 1);
        assert(t.drop_last() =~= s.take(j));
        lemma_digits_val_nonneg(s.take(j));
        assert(digits_val(t) == digits_val(s.take(j)) * 10 + digit_val(t.last()));
        assert(digits_val(s.take(j)) <= digits_val(t));
        lemma_digits_val_prefix_le(s, j + 1);
        assert(s.take(s.len() as int) =~= s);
    } else {
        assert(s.take(j) =~= s);
    }
}

/// The length of the maximal run of digit characters at the front.
pub open spec fn digit_prefix_len(s: Seq<char>) -> int
    decreases s.len(),
{
    if s.len() == 0 || !is_digit(s[0]) {
        0
    } else {
        1 + digit_prefix_len(s.drop_first())
    }
}

/// The digit prefix never reaches past the end of the string.
pub proof fn lemma_digit_prefix_len_bounds(s: Seq<char>)
    ensures
        0 <= digit_prefix_len(s) <= s.len(),
    decreases s.len(),
{
    if s.len() > 0 && is_digit(s[0]) {
        lemma_digit_prefix_len_bounds(s.drop_first());
    }
}

/// A run of digits ended by the end of the string or a non-digit pins down
/// the digit prefix.
pub proof fn lemma_digit_prefix_len(s: Seq<char>, k: int)
    requires
        0 <= k <= s.len(),
        forall|i: int| 0 <= i < k ==> is_digit(#[trigger] s[i]),
        k < s.len() ==> !is_digit(s[k]),
    ensures
        digit_prefix_len(s) == k,
    decreases k,
{
    if k == 0 {
    } else {
        let t = s.drop_first();
        assert(forall|i: int| 0 <= i < k - 1 ==> is_digit(#[trigger] t[i])) by {
            assert(forall|i: int| 0 <= i < k - 1 ==> t[i] == s[i + 1]);
        }
        if k - 1 < t.len() {
            assert(t[k - 1] == s[k]);
        }
        lemma_digit_prefix_len(t, k - 1);
    }
}

/// The length of the maximal run of digit characters at the back.
pub open spec fn trailing_digit_len(s: Seq<char>) -> int
    decreases s.len(),
{
    if s.len() == 0 || !is_digit(s.last()) {
        0
    } else {
        1 + trailing_digit_len(s.drop_last())
    }
}

/// The trailing digit run never reaches past the front of the string.
pub proof fn lemma_trailing_digit_len_bounds(s: Seq<char>)
    ensures
        0 <= trailing_digit_len(s) <= s.len(),
    decreases s.len(),
{
    if s.len() > 0 && is_digit(s.last()) {
        lemma_trailing_digit_len_bounds(s.drop_last());
    }
}

/// A run of digits at the back, ended by the front of the string or a
/// non-digit, pins down the trailing run.
pub proof fn lemma_trailing_digit_len(s: Seq<char>, j: int)
    requires
        0 <= j <= s.len(),
        forall|i: int| s.len() - j <= i < s.len() ==> is_digit(#[trigger] s[i]),
        j < s.len() ==> !is_digit(s[s.len() - j - 1]),
    ensures
        trailing_digit_len(s) == j,
    decreases j,
{
    if j == 0 {
    } else {
        let t = s.drop_last();
        assert(s.last() == s[s.len() - 1]);
        assert(forall|i: int| t.len() - (j - 1) <= i < t.len() ==> is_digit(#[trigger] t[i]))
            by {
            assert(forall|i: int| 0 <= i < t.len() ==> t[i] == s[i]);
        }
        if j - 1 < t.len() {
            assert(t[t.len() - (j - 1) - 1] == s[s.len() - j - 1]);
        }
        lemma_trailing_digit_len(t, j - 1);
    }
}

/// The digit value of a character, 10 for a character that is no digit.
pub fn digit_of(c: char) -> (r: u8)
    ensures
        r as int == digit_val(c),
{
    if c == '0' {
        0
    } else if c == '1' {
        1
    } else if c == '2' {
        2
    } else if c == '3' {
        3
    } else if c == '4' {
        4
    } else if c == '5' {
        5
    } else if c == '6' {
        6
    } else if c == '7' {
        7
    } else if c == '8' {
        8
    } else if c == '9' {
        9
    } else {
        10
    }
}

/// Find the end of the run of digit characters that starts at `start`.
pub fn scan_digits_from(s: &str, start: usize) -> (end: usize)
    requires
        start <= s@.len(),
    ensures
        start <= end <= s@.len(),
        forall|i: int| start <= i < end ==> is_digit(#[trigger] s@[i]),
        end < s@.len() ==> !is_digit(s@[end as int]),
{
    let len = s.unicode_len();
    let mut end = start;
    while end < len && digit_of(s.get_char(end)) < 10
        invariant
            start <= end <= len,
            len == s@.len(),
            forall|i: int| start <= i < end ==> is_digit(#[trigger] s@[i]),
        decreases len - end,
    {
        end = end + 1;
    }
    end
}

/// Evaluate the digit characters of `s` in the range `start..end`;
/// `None` when the value does not fit in a `u64`.
pub fn digits_value_u64(s: &str, start: usize, end: usize) -> (r: Option<u64>)
    requires
        start <= end <= s@.len(),
        forall|i: int| start <= i < end ==> is_digit(#[trigger] s@[i]),
    ensures
        match r {
            Some(v) => v as int == digits_val(s@.subrange(start as int, end as int)),
            None => digits_val(s@.subrange(start as int, end as int)) > u64::MAX,
        },
{
    let ghost whole = s@.subrange(start as int, end as int);
    let mut acc: u64 = 0;
    let mut i = start;
    proof {
        assert(s@.subrange(start as int, start as int) =~= whole.take(0));
        assert(digits_val(whole.take(0)) == 0);
    }
    while i < end
        invariant
            start <= i <= end <= s@.len(),
            whole == s@.subrange(start as int, end as int),
            forall|j: int| start <= j < end ==> is_digit(#[trigger] s@[j]),
            acc as int == digits_val(whole.take(i - start)),
        decreases end - i,
    {
        let c = s.get_char(i);
        let d = digit_of(c);
        proof {
            let k = i - start;
            assert(whole[k] == s@[i as int]);
            assert(whole.take(k + 1).drop_last() =~= whole.take(k));
            assert(whole.take(k + 1).last() == whole[k]);
            lemma_digits_val_nonneg(whole.take(k));
        }
        if acc > (u64::MAX - d as u64) / 10 {
            proof {
                let k = i - start;
                assert(digits_val(whole.take(k + 1)) == acc as int * 10 + d as int);
                assert((acc as int) * 10 + (d as int) > u64::MAX) by (nonlinear_arith)
                    requires
                        (acc as int) > (u64::MAX - d as int) / 10,
                        0 <= (d as int) && (d as int) < 10,
                ;
                lemma_digits_val_prefix_le(whole, k + 1);
            }
            return None;
        }
        acc = acc * 10 + d as u64;
        i = i + 1;
    }
    proof {
        assert(whole.take(end - start) =~= whole);
    }
    Some(acc)
}

/// Whether two strings hold the same characters.
pub fn str_eq(a: &str, b: &str) -> (r: bool)
    ensures
        r == (a@ == b@),
{
    let alen = a.unicode_len();
    let blen = b.unicode_len();
    if alen != blen {
        return false;
    }
    let mut i: usize = 0;
    while i < alen
        invariant
            0 <= i <= alen,
            alen == a@.len() == b@.len(),
            forall|j: int| 0 <= j < i ==> a@[j] == b@[j],
        decreases alen - i,
    {
        if a.get_char(i) != b.get_char(i) {
            return false;
        }
        i = i + 1;
    }
    proof {
        assert(a@ =~= b@);
    }
    true
}

/// Whether `p` is a prefix of `s`.
pub fn str_starts_with(s: &str, p: &str) -> (r: bool)
    ensures
        r == p@.is_prefix_of(s@),
{
    let slen = s.unicode_len();
    let plen = p.unicode_len();
    if plen > slen {
        return false;
    }
    let mut i: usize = 0;
    while i < plen
        invariant
            0 <= i <= plen <= slen,
            slen == s@.len(),
            plen == p@.len(),
            forall|j: int| 0 <= j < i ==> s@[j] == p@[j],
        decreases plen - i,
    {
        if s.get_char(i) != p.get_char(i) {
            return false;
        }
        i = i + 1;
    }
    proof {
        assert(p@ =~= s@.take(plen as int));
    }
    true
}

/// Whether `p` is a suffix of `s`.
pub fn str_ends_with(s: &str, p: &str) -> (r: bool)
    ensures
        r == p@.is_suffix_of(s@),
{
    let slen = s.unicode_len();
    let plen = p.unicode_len();
    if plen > slen {
        return false;
    }
    let off = slen - plen;
    let mut i: usize = 0;
    while i < plen
        invariant
            0 <= i <= plen <= slen,
            slen == s@.len(),
            plen == p@.len(),
            off == slen - plen,
            forall|j: int| 0 <= j < i ==> s@[off + j] == p@[j],
        decreases plen - i,
    {
        if s.get_char(off + i) != p.get_char(i) {
            return false;
        }
        i = i + 1;
    }
    proof {
        assert(p@ =~= s@.skip(off as int));
    }
    true
}

/// Strict lexicographic order on character sequences, by code point.
pub open spec fn spec_str_lt(a: Seq<char>, b: Seq<char>) -> bool
    decreases a.len(),
{
    if b.len() == 0 {
        false
    } else if a.len() == 0 {
        true
    } else if a[0] != b[0] {
        (a[0] as int) < (b[0] as int)
    } else {
        spec_str_lt(a.drop_first(), b.drop_first())
    }
}

/// The lexicographic order is transitive.
pub proof fn lemma_str_lt_trans(a: Seq<char>, b: Seq<char>, c: Seq<char>)
    requires
        spec_str_lt(a, b),
        spec_str_lt(b, c),
    ensures
        spec_str_lt(a, c),
    decreases a.len(),
{
    if a.len() > 0 {
        if a[0] == b[0] && b[0] == c[0] {
            lemma_str_lt_trans(a.drop_first(), b.drop_first(), c.drop_first());
        }
    }
}

/// The lexicographic order is irreflexive.
pub proof fn lemma_str_lt_irrefl(a: Seq<char>)
    ensures
        !spec_str_lt(a, a),
    decreases a.len(),
{
    if a.len() > 0 {
        lemma_str_lt_irrefl(a.drop_first());
    }
}

/// Whether `a` orders strictly before `b`, lexicographically by code point.
pub fn str_lt(a: &str, b: &str) -> (r: bool)
    ensures
        r == spec_str_lt(a@, b@),
    decreases a@.len(),
{
    let alen = a.unicode_len();
    let blen = b.unicode_len();
    let mut i: usize = 0;
    proof {
        assert(a@.skip(0) =~= a@);
        assert(b@.skip(0) =~= b@);
    }
    while i < alen && i < blen
        invariant
            0 <= i,
            i <= alen,
            i <= blen,
            alen == a@.len(),
            blen == b@.len(),
            spec_str_lt(a@, b@) == spec_str_lt(a@.skip(i as int), b@.skip(i as int)),
        decreases alen - i,
    {
        let ca = a.get_char(i);
        let cb = b.get_char(i);
        proof {
            let sa = a@.skip(i as int);
            let sb = b@.skip(i as int);
            assert(sa[0] == a@[i as int] && sb[0] == b@[i as int]);
            assert(sa.drop_first() =~= a@.skip(i as int + 1));
            assert(sb.drop_first() =~= b@.skip(i as int + 1));
        }
        if ca != cb {
            return (ca as u32) < (cb as u32);
        }
        i = i + 1;
    }
    proof {
        let sa = a@.skip(i as int);
        let sb = b@.skip(i as int);
        assert(sa.len() == 0 || sb.len() == 0);
    }
    alen < blen
}

/// Whether `c` is one of the separator characters.
pub open spec fn is_sep(c: char, seps: Seq<char>) -> bool {
    exists|j: int| 0 <= j < seps.len() && seps[j] == c
}

/// Find the first separator at or after `start`; the length when none
/// follows.
pub fn find_sep_from(s: &str, start: usize, seps: &[char]) -> (r: usize)
    requires
        start <= s@.len(),
    ensures
        start <= r <= s@.len(),
        forall|i: int| start <= i < r ==> !is_sep(#[trigger] s@[i], seps@),
        r < s@.len() ==> is_sep(s@[r as int], seps@),
{
    let len = s.unicode_len();
    let mut i = start;
    while i < len
        invariant
            start <= i <= len,
            len == s@.len(),
            forall|j: int| start <= j < i ==> !is_sep(#[trigger] s@[j], seps@),
        decreases len - i,
    {
        let c = s.get_char(i);
        let mut k: usize = 0;
        let mut found = false;
        while k < seps.len()
            invariant
                0 <= k <= seps@.len(),
                found == exists|j: int| 0 <= j < k && seps@[j] == c,
            decreases seps@.len() - k,
        {
            if seps[k] == c {
                found = true;
            }
            k = k + 1;
        }
        if found {
            proof {
                assert(is_sep(s@[i as int], seps@));
            }
            return i;
        }
        proof {
            assert(!is_sep(s@[i as int], seps@));
        }
        i = i + 1;
    }
    len
}

/// The split of a string at its separator characters: always one part more
/// than there are separators, so a trailing separator yields an empty part.
pub open spec fn spec_split(s: Seq<char>, seps: Seq<char>) -> Seq<Seq<char>>
    decreases s.len(),
{
    if s.len() == 0 {
        seq![Seq::<char>::empty()]
    } else if is_sep(s[0], seps) {
        seq![Seq::<char>::empty()] + spec_split(s.drop_first(), seps)
    } else {
        let rest = spec_split(s.drop_first(), seps);
        seq![seq![s[0]] + rest[0]] + rest.skip(1)
    }
}

/// A split always yields at least one part.
pub proof fn lemma_split_nonempty(s: Seq<char>, seps: Seq<char>)
    ensures
        spec_split(s, seps).len() >= 1,
    decreases s.len(),
{
    if s.len() > 0 {
        lemma_split_nonempty(s.drop_first(), seps);
    }
}

/// A split starts with the maximal separator-free prefix; the rest is the
/// split of what follows the first separator.
pub proof fn lemma_split_token(s: Seq<char>, seps: Seq<char>, k: int)
    requires
        0 <= k <= s.len(),
        forall|i: int| 0 <= i < k ==> !is_sep(#[trigger] s[i], seps),
        k < s.len() ==> is_sep(s[k], seps),
    ensures
        k == s.len() ==> spec_split(s, seps) =~= seq![s],
        k < s.len() ==> spec_split(s, seps) =~= seq![s.take(k)] + spec_split(
            s.skip(k + 1),
            seps,
        ),
    decreases k,
{
    if k == 0 {
        if s.len() > 0 {
            assert(s.take(0) =~= Seq::<char>::empty());
            assert(s.drop_first() =~= s.skip(1));
        } else {
            assert(s =~= Seq::<char>::empty());
        }
    } else {
        let t = s.drop_first();
        assert(forall|i: int| 0 <= i < k - 1 ==> !is_sep(#[trigger] t[i], seps));
        lemma_split_token(t, seps, k - 1);
        lemma_split_nonempty(t, seps);
        let rest = spec_split(t, seps);
        if k == s.len() {
            assert(rest =~= seq![t]);
            assert(seq![s[0]] + t =~= s);
            assert(spec_split(s, seps) =~= seq![s]);
        } else {
            assert(rest =~= seq![t.take(k - 1)] + spec_split(t.skip(k), seps));
            assert(rest[0] == t.take(k - 1));
            assert(seq![s[0]] + t.take(k - 1) =~= s.take(k));
            assert(rest.skip(1) =~= spec_split(t.skip(k), seps));
            assert(t.skip(k) =~= s.skip(k + 1));
        }
    }
}

/// Split a string at any of the separator characters.
pub fn split_str(s: &str, seps: &[char]) -> (r: Vec<String>)
    ensures
        r.deep_view() == spec_split(s@, seps@),
{
    let r = split_str_from(s, 0, seps);
    proof {
        assert(s@.skip(0) =~= s@);
    }
    r
}

/// Split the tail of a string that starts at `from`.
fn split_str_from(s: &str, from: usize, seps: &[char]) -> (r: Vec<String>)
    requires
        from <= s@.len(),
    ensures
        r.deep_view() == spec_split(s@.skip(from as int), seps@),
    decreases s@.len() - from,
{
    let len = s.unicode_len();
    let j = find_sep_from(s, from, seps);
    let token = s.substring_char(from, j).to_owned();
    proof {
        let tail = s@.skip(from as int);
        assert(forall|i: int|
            0 <= i < j - from ==> !is_sep(#[trigger] tail[i], seps@)) by {
            assert(forall|i: int|
                0 <= i < j - from ==> tail[i] == s@[from + i]);
        }
        if j < len {
            assert(tail[j - from] == s@[j as int]);
        }
        lemma_split_token(tail, seps@, j - from);
        assert(tail.take(j - from) =~= s@.subrange(from as int, j as int));
    }
    if j == len {
        let r = vec![token];
        proof {
            assert(s@.skip(from as int).take(j - from) =~= s@.skip(from as int));
            assert(r.deep_view() =~= seq![token@]);
        }
        r
    } else {
        let mut rest = split_str_from(s, j + 1, seps);
        rest.insert(0, token);
        proof {
            let tail = s@.skip(from as int);
            assert(tail.skip(j - from + 1) =~= s@.skip(j + 1));
            assert(rest.deep_view() =~= seq![token@] + spec_split(
                s@.skip(j + 1),
                seps@,
            ));
        }
        rest
    }
}

/// Whether a character is blank: a space, tab or line break.
pub open spec fn is_space(c: char) -> bool {
    c == ' ' || c == '\t' || c == '\n' || c == '\r'
}

/// A string without its leading blanks.
pub open spec fn spec_trim_start(s: Seq<char>) -> Seq<char>
    decreases s.len(),
{
    if s.len() > 0 && is_space(s[0]) {
        spec_trim_start(s.drop_first())
    } else {
        s
    }
}

/// A string without its trailing blanks.
pub open spec fn spec_trim_end(s: Seq<char>) -> Seq<char>
    decreases s.len(),
{
    if s.len() > 0 && is_space(s.last()) {
        spec_trim_end(s.drop_last())
    } else {
        s
    }
}

/// A string without its leading and trailing blanks.
pub open spec fn spec_trim(s: Seq<char>) -> Seq<char> {
    spec_trim_end(spec_trim_start(s))
}

/// Remove leading and trailing blanks.
pub fn trim_str(s: &str) -> (r: String)
    ensures
        r@ == spec_trim(s@),
{
    let len = s.unicode_len();
    let mut a: usize = 0;
    proof {
        assert(s@.skip(0) =~= s@);
    }
    while a < len && is_space_char(s.get_char(a))
        invariant
            0 <= a <= len,
            len == s@.len(),
            spec_trim_start(s@) == spec_trim_start(s@.skip(a as int)),
        decreases len - a,
    {
        proof {
            assert(s@.skip(a as int)[0] == s@[a as int]);
            assert(s@.skip(a as int).drop_first() =~= s@.skip(a as int + 1));
        }
        a = a + 1;
    }
    proof {
        let tail = s@.skip(a as int);
        assert(tail.len() > 0 ==> tail[0] == s@[a as int]);
        assert(spec_trim_start(s@) == tail);
    }
    let mut b: usize = len;
    while b > a && is_space_char(s.get_char(b - 1))
        invariant
            a <= b <= len,
            len == s@.len(),
            spec_trim_start(s@) == s@.skip(a as int),
            spec_trim_end(s@.skip(a as int)) == spec_trim_end(
                s@.subrange(a as int, b as int),
            ),
        decreases b,
    {
        proof {
            let cur = s@.subrange(a as int, b as int);
            assert(cur.last() == s@[b - 1]);
            assert(cur.drop_last() =~= s@.subrange(a as int, b - 1));
        }
        b = b - 1;
    }
    proof {
        let cur = s@.subrange(a as int, b as int);
        assert(cur.len() > 0 ==> cur.last() == s@[b - 1]);
        assert(spec_trim_end(cur) == cur);
        assert(s@.skip(a as int) =~= s@.subrange(a as int, len as int));
    }
    s.substring_char(a, b).to_owned()
}

/// Whether a character is blank.
pub fn is_space_char(c: char) -> (r: bool)
    ensures
        r == is_space(c),
{
    c == ' ' || c == '\t' || c == '\n' || c == '\r'
}

/// Render a signed integer in decimal.
pub fn dec_i64(n: i64) -> (r: String)
    ensures
        r@ =~= spec_dec_int(n as int),
{
    if n >= 0 {
        dec_u64(n as u64)
    } else {
        // -(n + 1) is in range for any negative n, including the minimum.
        let magnitude: u64 = (-(n + 1)) as u64 + 1;
        assert(magnitude == -(n as int));
        let mut s = "-".to_owned();
        proof {
            reveal_strlit("-");
        }
        let rest = dec_u64(magnitude);
        s.append(rest.as_str());
        assert(s@ =~= seq!['-'] + spec_dec((-(n as int)) as nat));
        s
    }
}

} // verus!
