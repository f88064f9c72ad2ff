//! Verified text utilities: ASCII case folding, trimming, substring search,
//! lexicographic comparison, and decimal rendering.

use vstd::prelude::*;

verus! {

/// ASCII whitespace: space, tab, line feed, form feed, carriage return.
pub open spec fn is_space(c: char) -> bool {
    c == ' ' || c == '\t' || c == '\n' || c == '\u{c}' || c == '\r'
}

/// ASCII lower-casing of a single character; every other character is kept.
pub open spec fn lower_char(c: char) -> char {
    if 'A' <= c && c <= 'Z' {
        ((c as u8) + 32) as char
    } else {
        c
    }
}

/// ASCII lower-casing of a character sequence.
pub open spec fn lower_seq(s: Seq<char>) -> Seq<char> {
    Seq::new(s.len(), |i: int| lower_char(s[i]))
}

/// The sequence with its leading whitespace removed.
pub open spec fn trim_front(s: Seq<char>) -> Seq<char>
    decreases s.len(),
{
    if s.len() > 0 && is_space(s[0]) {
        trim_front(s.drop_first())
    } else {
        s
    }
}

/// The sequence with its trailing whitespace removed.
pub open spec fn trim_back(s: Seq<char>) -> Seq<char>
    decreases s.len(),
{
    if s.len() > 0 && is_space(s[s.len() - 1]) {
        trim_back(s.drop_last())
    } else {
        s
    }
}

/// The sequence with leading and trailing whitespace removed.
pub open spec fn trim_seq(s: Seq<char>) -> Seq<char> {
    trim_back(trim_front(s))
}

proof fn lemma_trim_front_skip(s: Seq<char>, k: int)
    requires
        0 <= k <= s.len(),
        forall|j: int| 0 <= j < k ==> is_space(#[trigger] s[j]),
        k == s.len() || !is_space(s[k]),
    ensures
        trim_front(s) == s.skip(k),
    decreases k,
{
    if k == 0 {
        assert(s.skip(0) =~= s);
    } else {
        assert(is_space(s[0]));
        assert(s.drop_first() =~= s.skip(1));
        lemma_trim_front_skip(s.skip(1), k - 1);
        assert(s.skip(1).skip(k - 1) =~= s.skip(k));
    }
}

proof fn lemma_trim_back_take(s: Seq<char>, k: int)
    requires
        0 <= k <= s.len(),
        forall|j: int| k <= j < s.len() ==> is_space(#[trigger] s[j]),
        k == 0 || !is_space(s[k - 1]),
    ensures
        trim_back(s) == s.take(k),
    decreases s.len(),
{
    if k == s.len() {
        if s.len() == 0 {
            assert(s.take(0) =~= s);
        } else {
            assert(!is_space(s[s.len() - 1]));
            assert(s.take(k) =~= s);
        }
    } else {
        assert(is_space(s[s.len() - 1]));
        assert(s.drop_last() =~= s.take(s.len() - 1));
        lemma_trim_back_take(s.take(s.len() - 1), k);
        assert(s.take(s.len() - 1).take(k) =~= s.take(k));
    }
}

/// Removes leading and trailing ASCII whitespace.
pub fn trim_text(s: &str) -> (r: String)
    ensures
        r@ == trim_seq(s@),
{
    let n = s.unicode_len();
    let mut start: usize = 0;
    while start < n && is_space_ex(s.get_char(start))
        invariant
            start <= n,
            n == s@.len(),
            forall|j: int| 0 <= j < start ==> is_space(#[trigger] s@[j]),
        decreases n - start,
    {
        start += 1;
    }
    proof {
        lemma_trim_front_skip(s@, start as int);
    }
    let mut end: usize = n;
    while end > start && is_space_ex(s.get_char(end - 1))
        invariant
            start <= end <= n,
            n == s@.len(),
            trim_front(s@) == s@.skip(start as int),
            forall|j: int| end <= j < n ==> is_space(#[trigger] s@[j]),
        decreases end,
    {
        end -= 1;
    }
    proof {
        let t = s@.skip(start as int);
        assert(forall|j: int| end - start <= j < t.len() ==> is_space(#[trigger] t[j]));
        if end > start {
            assert(t[end - start - 1] == s@[end - 1]);
        }
        lemma_trim_back_take(t, end - start);
        assert(t.take(end - start) =~= s@.subrange(start as int, end as int));
    }
    let sub = s.substring_char(start, end);
    String::from_str(sub)
}

/// Executable form of [`is_space`].
pub fn is_space_ex(c: char) -> (r: bool)
    ensures
        r == is_space(c),
{
    let x = c as u32;
    x == 32 || x == 9 || x == 10 || x == 12 || x == 13
}

/// Executable form of [`lower_char`].
pub fn lower_char_ex(c: char) -> (r: char)
    ensures
        r == lower_char(c),
{
    let x = c as u32;
    if 65 <= x && x <= 90 {
        ((c as u8) + 32) as char
    } else {
        c
    }
}

/// Character-for-character string equality.
pub fn str_eq(a: &str, b: &str) -> (r: bool)
    ensures
        r == (a@ == b@),
{
    let n = a.unicode_len();
    if n != b.unicode_len() {
        return false;
    }
    let mut i: usize = 0;
    while i < n
        invariant
            i <= n,
            n == a@.len() == b@.len(),
            forall|j: int| 0 <= j < i ==> a@[j] == b@[j],
        decreases n - i,
    {
        if a.get_char(i) != b.get_char(i) {
            return false;
        }
        i += 1;
    }
    proof {
        assert(a@ =~= b@);
    }
    true
}

/// Case-insensitive (ASCII) string equality.
pub fn eq_ci(a: &str, b: &str) -> (r: bool)
    ensures
        r == (lower_seq(a@) == lower_seq(b@)),
{
    let n = a.unicode_len();
    if n != b.unicode_len() {
        proof {
            assert(lower_seq(a@).len() == a@.len());
            assert(lower_seq(b@).len() == b@.len());
        }
        return false;
    }
    let mut i: usize = 0;
    while i < n
        invariant
            i <= n,
            n == a@.len() == b@.len(),
            forall|j: int| 0 <= j < i ==> lower_char(a@[j]) == lower_char(#[trigger] b@[j]),
        decreases n - i,
    {
        if lower_char_ex(a.get_char(i)) != lower_char_ex(b.get_char(i)) {
            proof {
                assert(lower_seq(a@)[i as int] != lower_seq(b@)[i as int]);
            }
            return false;
        }
        i += 1;
    }
    proof {
        assert(lower_seq(a@) =~= lower_seq(b@));
    }
    true
}

/// True when `needle` occurs in `hay` starting at position `i`.
pub open spec fn is_match_at(hay: Seq<char>, needle: Seq<char>, i: int) -> bool {
    &&& 0 <= i
    &&& i + needle.len() <= hay.len()
    &&& hay.subrange(i, i + needle.len()) == needle
}

/// True when `needle` occurs somewhere in `hay` as a contiguous run.
pub open spec fn seq_contains(hay: Seq<char>, needle: Seq<char>) -> bool {
    exists|i: int| is_match_at(hay, needle, i)
}

/// Case-insensitive (ASCII) substring containment, as Rust's `str::contains`
/// behaves after both strings are lower-cased.
pub fn contains_ci(hay: &str, needle: &str) -> (r: bool)
    ensures
        r == seq_contains(lower_seq(hay@), lower_seq(needle@)),
{
    let n = hay.unicode_len();
    let m = needle.unicode_len();
    if m == 0 {
        proof {
            assert(lower_seq(hay@).subrange(0, 0) =~= lower_seq(needle@));
            assert(is_match_at(lower_seq(hay@), lower_seq(needle@), 0));
        }
        return true;
    }
    if m > n {
        proof {
            assert(forall|i: int| !is_match_at(lower_seq(hay@), lower_seq(needle@), i));
        }
        return false;
    }
    let mut i: usize = 0;
    while i <= n - m
        invariant
            0 <= i <= n - m + 1,
            0 < m <= n,
            n == hay@.len(),
            m == needle@.len(),
            forall|k: int| 0 <= k < i ==> !is_match_at(lower_seq(hay@), lower_seq(needle@), k),
        decreases n - i,
    {
        let mut j: usize = 0;
        let mut matched = true;
        while j < m && matched
            invariant
                0 <= j <= m,
                i + m <= n,
                n == hay@.len(),
                m == needle@.len(),
                matched ==> forall|k: int|
                    0 <= k < j ==> lower_char(hay@[i + k]) == lower_char(#[trigger] needle@[k]),
                !matched ==> !is_match_at(lower_seq(hay@), lower_seq(needle@), i as int),
            decreases m - j, (if matched { 1int } else { 0int }),
        {
            let hc = lower_char_ex(hay.get_char(i + j));
            let nc = lower_char_ex(needle.get_char(j));
            if hc != nc {
                matched = false;
                proof {
                    assert(lower_seq(hay@).subrange(i as int, i + m)[j as int] != lower_seq(
                        needle@,
                    )[j as int]);
                    assert(!is_match_at(lower_seq(hay@), lower_seq(needle@), i as int));
                }
            } else {
                j += 1;
            }
        }
        if matched {
            proof {
                assert(lower_seq(hay@).subrange(i as int, i + m) =~= lower_seq(needle@));
                assert(is_match_at(lower_seq(hay@), lower_seq(needle@), i as int));
            }
            return true;
        }
        i += 1;
    }
    proof {
        assert(forall|k: int| !is_match_at(lower_seq(hay@), lower_seq(needle@), k));
    }
    false
}

/// Lexicographic order on character sequences, by code point.
pub open spec fn seq_le(a: Seq<char>, b: Seq<char>) -> bool
    decreases a.len(),
{
    if a.len() == 0 {
        true
    } else if b.len() == 0 {
        false
    } else if a[0] != b[0] {
        a[0] < b[0]
    } else {
        seq_le(a.drop_first(), b.drop_first())
    }
}

/// [`seq_le`] is total: two sequences always compare one way or the other.
pub proof fn lemma_seq_le_total(a: Seq<char>, b: Seq<char>)
    ensures
        seq_le(a, b) || seq_le(b, a),
    decreases a.len(),
{
    if a.len() > 0 && b.len() > 0 && a[0] == b[0] {
        lemma_seq_le_total(a.drop_first(), b.drop_first());
    }
}

/// [`seq_le`] is transitive.
pub proof fn lemma_seq_le_trans(a: Seq<char>, b: Seq<char>, c: Seq<char>)
    requires
        seq_le(a, b),
        seq_le(b, c),
    ensures
        seq_le(a, c),
    decreases a.len(),
{
    if a.len() > 0 && b.len() > 0 && c.len() > 0 && a[0] == b[0] && b[0] == c[0] {
        lemma_seq_le_trans(a.drop_first(), b.drop_first(), c.drop_first());
    }
}

/// Executable lexicographic comparison: `a` at or before `b`.
pub fn str_le(a: &str, b: &str) -> (r: bool)
    ensures
        r == seq_le(a@, b@),
{
    let n = a.unicode_len();
    let m = b.unicode_len();
    let mut i: usize = 0;
    proof {
        assert(a@.skip(0) =~= a@);
        assert(b@.skip(0) =~= b@);
    }
    loop
        invariant
            0 <= i <= n,
            i <= m,
            n == a@.len(),
            m == b@.len(),
            forall|j: int| 0 <= j < i ==> a@[j] == b@[j],
            seq_le(a@, b@) == seq_le(a@.skip(i as int), b@.skip(i as int)),
        decreases n - i,
    {
        if i == n {
            return true;
        }
        if i == m {
            return false;
        }
        let ca = a.get_char(i);
        let cb = b.get_char(i);
        if ca != cb {
            proof {
                assert(a@.skip(i as int)[0] == ca && b@.skip(i as int)[0] == cb);
            }
            return ca < cb;
        }
        proof {
            let sa = a@.skip(i as int);
            let sb = b@.skip(i as int);
            assert(sa.len() > 0 && sb.len() > 0 && sa[0] == sb[0]);
            assert(sa.drop_first() =~= a@.skip(i + 1));
            assert(sb.drop_first() =~= b@.skip(i + 1));
        }
        i += 1;
    }
}

/// The decimal digit character for a value below ten.
pub open spec fn dec_digit(d: int) -> char {
    ((48 + d) as u8) as char
}

/// The decimal rendering of a natural number, most significant digit first.
pub open spec fn dec_rep(n: nat) -> Seq<char>
    decreases n,
{
    if n < 10 {
        seq![dec_digit(n as int)]
    } else {
        dec_rep(n / 10).push(dec_digit((n % 10) as int))
    }
}

/// Relies on `String::from_utf8`: packs ASCII bytes into the string with
/// exactly those character codes (ASCII bytes are valid single-byte UTF-8).
#[verifier::external_body]
pub(crate) fn ascii_string(bytes: &Vec<u8>) -> (r: String)
    requires
        forall|i: int| 0 <= i < bytes@.len() ==> bytes@[i] < 128,
    ensures
        r@ == Seq::new(bytes@.len(), |i: int| bytes@[i] as char),
{
    String::from_utf8(bytes.clone()).unwrap_or_default()
}

/// Renders a number in decimal.
pub fn u32_to_string(n: u32) -> (r: String)
    ensures
        r@ == dec_rep(n as nat),
{
    let mut digits: Vec<u8> = Vec::new();
    let mut cur: u32 = n;
    digits.push((cur % 10) as u8 + 48);
    cur = cur / 10;
    proof {
        let rev = |s: Seq<u8>| Seq::new(s.len(), |i: int| s[s.len() - 1 - i] as char);
        assert(rev(digits@) =~= seq![dec_digit((n % 10) as int)]);
        if n >= 10 {
            assert(dec_rep(n as nat) == dec_rep((n / 10) as nat).push(dec_digit((n % 10) as int)));
            assert(dec_rep(cur as nat) + rev(digits@) =~= dec_rep(n as nat));
        } else {
            assert(dec_rep(n as nat) =~= rev(digits@));
        }
        assert(Seq::new(digits@.len(), |i: int| digits@[digits@.len() - 1 - i] as char) =~= rev(
            digits@,
        ));
    }
    while cur > 0
        invariant
            cur > 0 ==> dec_rep(n as nat) =~= dec_rep(cur as nat) + Seq::new(
                digits@.len(),
                |i: int| digits@[digits@.len() - 1 - i] as char,
            ),
            cur == 0 ==> dec_rep(n as nat) =~= Seq::new(
                digits@.len(),
                |i: int| digits@[digits@.len() - 1 - i] as char,
            ),
            forall|i: int| 0 <= i < digits@.len() ==> 48 <= #[trigger] digits@[i] < 58,
        decreases cur,
    {
        let d = (cur % 10) as u8;
        let ghost old_digits = digits@;
        let ghost old_cur = cur;
        digits.push(d + 48);
        cur = cur / 10;
        proof {
            let rev = |s: Seq<u8>| Seq::new(s.len(), |i: int| s[s.len() - 1 - i] as char);
            assert(rev(digits@) =~= seq![dec_digit((old_cur % 10) as int)] + rev(old_digits));
            assert(Seq::new(old_digits.len(), |i: int| old_digits[old_digits.len() - 1 - i] as char)
                =~= rev(old_digits));
            if old_cur >= 10 {
                assert(dec_rep(old_cur as nat) == dec_rep((old_cur / 10) as nat).push(
                    dec_digit((old_cur % 10) as int),
                ));
                assert(dec_rep(cur as nat) + rev(digits@) =~= (dec_rep(old_cur as nat) + rev(
                    old_digits,
                )));
            } else {
                assert(dec_rep(old_cur as nat) =~= seq![dec_digit((old_cur % 10) as int)]);
                assert(rev(digits@) =~= dec_rep(old_cur as nat) + rev(old_digits));
            }
            assert(Seq::new(digits@.len(), |i: int| digits@[digits@.len() - 1 - i] as char) =~= rev(
                digits@,
            ));
        }
    }
    let mut out: Vec<u8> = Vec::new();
    let mut i: usize = digits.len();
    while i > 0
        invariant
            0 <= i <= digits@.len(),
            forall|k: int| 0 <= k < digits@.len() ==> 48 <= #[trigger] digits@[k] < 58,
            out@.len() == digits@.len() - i,
            forall|k: int|
                0 <= k < out@.len() ==> #[trigger] out@[k] == digits@[digits@.len() - 1 - k],
        decreases i,
    {
        i -= 1;
        out.push(digits[i]);
    }
    let r = ascii_string(&out);
    proof {
        assert(r@ =~= Seq::new(digits@.len(), |k: int| digits@[digits@.len() - 1 - k] as char));
        assert(r@ =~= dec_rep(n as nat));
    }
    r
}

} // verus!
