//! Character-level helpers shared by the URL and size logic: the Unicode
//! whitespace set, trimming, substring search and ASCII case folding.

use vstd::prelude::*;

verus! {

/// The characters that carry the Unicode `White_Space` property, which is the
/// set that `char::is_whitespace`, `str::trim` and `str::split_whitespace` use.
pub open spec fn is_ws(c: char) -> bool {
    let u: u32 = c as u32;
    ||| 0x09 <= u <= 0x0D
    ||| u == 0x20
    ||| u == 0x85
    ||| u == 0xA0
    ||| u == 0x1680
    ||| 0x2000 <= u <= 0x200A
    ||| u == 0x2028
    ||| u == 0x2029
    ||| u == 0x202F
    ||| u == 0x205F
    ||| u == 0x3000
}

/// `s` with its leading whitespace removed.
pub open spec fn trim_start(s: Seq<char>) -> Seq<char>
    decreases s.len(),
{
    if s.len() > 0 && is_ws(s[0]) {
        trim_start(s.drop_first())
    } else {
        s
    }
}

/// `s` with its trailing whitespace removed.
pub open spec fn trim_end(s: Seq<char>) -> Seq<char>
    decreases s.len(),
{
    if s.len() > 0 && is_ws(s.last()) {
        trim_end(s.drop_last())
    } else {
        s
    }
}

/// `s` with whitespace removed at both ends.
pub open spec fn trim(s: Seq<char>) -> Seq<char> {
    trim_end(trim_start(s))
}

/// `s` with every trailing occurrence of `c` removed.
pub open spec fn strip_trailing(s: Seq<char>, c: char) -> Seq<char>
    decreases s.len(),
{
    if s.len() > 0 && s.last() == c {
        strip_trailing(s.drop_last(), c)
    } else {
        s
    }
}

/// `pat` occurs in `s` starting at index `k`.
pub open spec fn occurs_at(s: Seq<char>, pat: Seq<char>, k: int) -> bool {
    &&& 0 <= k
    &&& k + pat.len() <= s.len()
    &&& forall|j: int| 0 <= j < pat.len() ==> s[k + j] == pat[j]
}

/// `pat` occurs somewhere in `s`.
pub open spec fn has_sub(s: Seq<char>, pat: Seq<char>) -> bool {
    exists|k: int| occurs_at(s, pat, k)
}

/// `s` begins with `pat`.
pub open spec fn has_prefix(s: Seq<char>, pat: Seq<char>) -> bool {
    occurs_at(s, pat, 0)
}

/// The code of `c` after mapping `A`..`Z` to `a`..`z`.
pub open spec fn ascii_fold(c: char) -> int {
    let u = c as u32;
    if 0x41 <= u <= 0x5A {
        u + 32
    } else {
        u as int
    }
}

/// `a` and `b` are equal when ASCII letters are compared without case.
pub open spec fn eq_ascii_nocase(a: Seq<char>, b: Seq<char>) -> bool {
    &&& a.len() == b.len()
    &&& forall|i: int| 0 <= i < a.len() ==> ascii_fold(a[i]) == ascii_fold(b[i])
}

/// The characters of `s`, in order.
pub fn chars_of(s: &str) -> (r: Vec<char>)
    ensures
        r@ == s@,
{
    let mut r: Vec<char> = Vec::new();
    for c in it: s.chars()
        invariant
            r@ == it.seq().take(it.index() as int),
            it.seq() == s@,
    {
        r.push(c);
    }
    r
}

/// Builds a `String` from its characters (`Iterator::collect`).
#[verifier::external_body]
pub(crate) fn string_of(cs: &[char]) -> (r: String)
    ensures
        r@ == cs@,
{
    cs.iter().collect()
}

/// Whether `c` is a whitespace character.
pub fn is_whitespace(c: char) -> (r: bool)
    ensures
        r == is_ws(c),
{
    let u: u32 = c as u32;
    (0x09 <= u && u <= 0x0D) || u == 0x20 || u == 0x85 || u == 0xA0 || u == 0x1680 || (0x2000
        <= u && u <= 0x200A) || u == 0x2028 || u == 0x2029 || u == 0x202F || u == 0x205F || u
        == 0x3000
}

/// Index of the first non-whitespace character of `s[from..]`, or `s.len()`.
fn skip_ws_forward(s: &[char], from: usize) -> (i: usize)
    requires
        from <= s@.len(),
    ensures
        from <= i <= s@.len(),
        trim_start(s@.subrange(from as int, s@.len() as int)) == s@.subrange(
            i as int,
            s@.len() as int,
        ),
{
    let n: usize = s.len();
    let mut i: usize = from;
    while i < n && is_whitespace(s[i])
        invariant
            from <= i <= n,
            n == s@.len(),
            trim_start(s@.subrange(from as int, n as int)) == trim_start(
                s@.subrange(i as int, n as int),
            ),
        decreases n - i,
    {
        assert(s@.subrange(i as int, n as int).drop_first() =~= s@.subrange(
            i + 1,
            n as int,
        ));
        i = i + 1;
    }
    i
}

/// The trimmed form of `s`, as a range `s[i..j]`.
pub fn trim_range(s: &[char]) -> (r: (usize, usize))
    ensures
        r.0 <= r.1 <= s@.len(),
        trim(s@) == s@.subrange(r.0 as int, r.1 as int),
{
    let n: usize = s.len();
    let i: usize = skip_ws_forward(s, 0);
    assert(s@.subrange(0, n as int) =~= s@);
    let mut j: usize = n;
    while j > i && is_whitespace(s[j - 1])
        invariant
            i <= j <= n,
            n == s@.len(),
            trim(s@) == trim_end(s@.subrange(i as int, j as int)),
        decreases j,
    {
        assert(s@.subrange(i as int, j as int).drop_last() =~= s@.subrange(
            i as int,
            j - 1,
        ));
        j = j - 1;
    }
    (i, j)
}

/// `s` without its leading and trailing whitespace.
pub fn trimmed(s: &[char]) -> (r: Vec<char>)
    ensures
        r@ == trim(s@),
{
    let (i, j) = trim_range(s);
    slice_to_vec(s, i, j)
}

/// A copy of `s[i..j]`.
pub fn slice_to_vec(s: &[char], i: usize, j: usize) -> (r: Vec<char>)
    requires
        i <= j <= s@.len(),
    ensures
        r@ == s@.subrange(i as int, j as int),
{
    let mut r: Vec<char> = Vec::new();
    let mut k: usize = i;
    while k < j
        invariant
            i <= k <= j <= s@.len(),
            r@ == s@.subrange(i as int, k as int),
        decreases j - k,
    {
        r.push(s[k]);
        k = k + 1;
        assert(r@ =~= s@.subrange(i as int, k as int));
    }
    r
}

/// `s` without its trailing occurrences of `c`.
pub fn strip_trailing_char(s: &[char], c: char) -> (r: Vec<char>)
    ensures
        r@ == strip_trailing(s@, c),
{
    let n: usize = s.len();
    let mut j: usize = n;
    assert(s@.subrange(0, n as int) =~= s@);
    while j > 0 && s[j - 1] == c
        invariant
            j <= n,
            n == s@.len(),
            strip_trailing(s@, c) == strip_trailing(s@.subrange(0, j as int), c),
        decreases j,
    {
        assert(s@.subrange(0, j as int).drop_last() =~= s@.subrange(0, j - 1));
        j = j - 1;
    }
    slice_to_vec(s, 0, j)
}

/// Whether `pat` occurs in `s` at index `k`.
pub fn occurs_at_exec(s: &[char], pat: &[char], k: usize) -> (r: bool)
    ensures
        r == occurs_at(s@, pat@, k as int),
{
    if k > s.len() || pat.len() > s.len() - k {
        return false;
    }
    let n: usize = s.len();
    let mut j: usize = 0;
    while j < pat.len()
        invariant
            n == s@.len(),
            k + pat@.len() <= s@.len(),
            j <= pat@.len(),
            forall|t: int| 0 <= t < j ==> s@[k + t] == pat@[t],
        decreases pat@.len() - j,
    {
        assert(k + j < s@.len());
        if s[k + j] != pat[j] {
            return false;
        }
        j = j + 1;
    }
    true
}

/// Whether `s` begins with `pat`.
pub fn starts_with(s: &[char], pat: &[char]) -> (r: bool)
    ensures
        r == has_prefix(s@, pat@),
{
    occurs_at_exec(s, pat, 0)
}

/// Whether `pat` occurs in `s`.
pub fn contains(s: &[char], pat: &[char]) -> (r: bool)
    ensures
        r == has_sub(s@, pat@),
{
    if pat.len() > s.len() {
        assert forall|t: int| !occurs_at(s@, pat@, t) by {}
        return false;
    }
    let n: usize = s.len();
    let last: usize = n - pat.len();
    let mut k: usize = 0;
    while k <= last
        invariant
            n == s@.len(),
            last + pat@.len() == s@.len(),
            k <= last + 1,
            forall|t: int| 0 <= t < k ==> !occurs_at(s@, pat@, t),
        decreases last + 1 - k,
    {
        if occurs_at_exec(s, pat, k) {
            return true;
        }
        k = k + 1;
    }
    assert forall|t: int| !occurs_at(s@, pat@, t) by {
        if 0 <= t < k {
        }
    }
    false
}

/// ASCII-case-insensitive equality.
pub fn eq_ignore_ascii_case(a: &[char], b: &[char]) -> (r: bool)
    ensures
        r == eq_ascii_nocase(a@, b@),
{
    if a.len() != b.len() {
        return false;
    }
    let mut i: usize = 0;
    while i < a.len()
        invariant
            a@.len() == b@.len(),
            i <= a@.len(),
            forall|t: int| 0 <= t < i ==> ascii_fold(a@[t]) == ascii_fold(b@[t]),
        decreases a@.len() - i,
    {
        let x: u32 = a[i] as u32;
        let y: u32 = b[i] as u32;
        let fx: u32 = if 0x41 <= x && x <= 0x5A {
            x + 32
        } else {
            x
        };
        let fy: u32 = if 0x41 <= y && y <= 0x5A {
            y + 32
        } else {
            y
        };
        if fx != fy {
            return false;
        }
        i = i + 1;
    }
    true
}

/// Element-wise equality of two character sequences.
pub fn chars_eq(a: &[char], b: &[char]) -> (r: bool)
    ensures
        r == (a@ == b@),
{
    if a.len() != b.len() {
        return false;
    }
    let mut i: usize = 0;
    while i < a.len()
        invariant
            a@.len() == b@.len(),
            i <= a@.len(),
            forall|t: int| 0 <= t < i ==> a@[t] == b@[t],
        decreases a@.len() - i,
    {
        if a[i] != b[i] {
            return false;
        }
        i = i + 1;
    }
    assert(a@ =~= b@);
    true
}

/// `c` with `A`..`Z` mapped to `a`..`z`.
pub open spec fn ascii_lower_char(c: char) -> char {
    if 'A' <= c <= 'Z' {
        ((c as u32) + 32) as char
    } else {
        c
    }
}

/// `c` with `a`..`z` mapped to `A`..`Z`.
pub open spec fn ascii_upper_char(c: char) -> char {
    if 'a' <= c <= 'z' {
        ((c as u32) - 32) as char
    } else {
        c
    }
}

/// `s` with its ASCII letters lowercased.
pub open spec fn ascii_lowercase(s: Seq<char>) -> Seq<char> {
    Seq::new(s.len(), |i: int| ascii_lower_char(s[i]))
}

/// `s` with its ASCII letters uppercased.
pub open spec fn ascii_uppercase(s: Seq<char>) -> Seq<char> {
    Seq::new(s.len(), |i: int| ascii_upper_char(s[i]))
}

/// Uppercasing ASCII letters first does not change the ASCII lowercase form,
/// and keeps a text ASCII.
pub proof fn lemma_ascii_case_roundtrip(s: Seq<char>)
    ensures
        ascii_lowercase(ascii_uppercase(s)) == ascii_lowercase(s),
        vstd::utf8::is_ascii_chars(s) ==> vstd::utf8::is_ascii_chars(ascii_uppercase(s)),
{
    assert forall|i: int| 0 <= i < s.len() implies ascii_lower_char(ascii_upper_char(s[i]))
        == ascii_lower_char(s[i]) by {
        let c = s[i];
        if 'a' <= c <= 'z' {
            assert(((c as u32) - 32) as char as u32 == (c as u32) - 32);
            assert((((c as u32) - 32 + 32) as char) == c);
        }
    }
    assert(ascii_lowercase(ascii_uppercase(s)) =~= ascii_lowercase(s));
    if vstd::utf8::is_ascii_chars(s) {
        assert forall|i: int| 0 <= i < ascii_uppercase(s).len() implies '\0' <= #[trigger] ascii_uppercase(s)[i] <= '\u{7f}' by {
            let c = s[i];
            if 'a' <= c <= 'z' {
                assert(((c as u32) - 32) as char as u32 == (c as u32) - 32);
            }
        }
    }
}

/// A text that starts and ends with non-whitespace is its own trimmed form.
pub proof fn lemma_trim_of_trimmed_shape(s: Seq<char>)
    requires
        s.len() > 0,
        !is_ws(s[0]),
        !is_ws(s.last()),
    ensures
        trim(s) == s,
{
    assert(trim_start(s) == s);
}

proof fn lemma_trim_start_first(s: Seq<char>)
    ensures
        trim_start(s).len() > 0 ==> !is_ws(trim_start(s)[0]),
    decreases s.len(),
{
    if s.len() > 0 && is_ws(s[0]) {
        lemma_trim_start_first(s.drop_first());
    }
}

proof fn lemma_trim_end_prefix(s: Seq<char>)
    ensures
        trim_end(s).len() <= s.len(),
        trim_end(s) == s.take(trim_end(s).len() as int),
        trim_end(s).len() > 0 ==> !is_ws(trim_end(s).last()),
    decreases s.len(),
{
    if s.len() > 0 && is_ws(s.last()) {
        lemma_trim_end_prefix(s.drop_last());
        assert(s.drop_last().take(trim_end(s).len() as int) =~= s.take(trim_end(s).len() as int));
    } else {
        assert(s.take(s.len() as int) =~= s);
    }
}

/// The trimmed form of a text starts and ends with non-whitespace (or is
/// empty), and trimming it again changes nothing.
pub proof fn lemma_trim_idempotent(s: Seq<char>)
    ensures
        trim(s).len() > 0 ==> !is_ws(trim(s)[0]) && !is_ws(trim(s).last()),
        trim(trim(s)) == trim(s),
{
    let u = trim_start(s);
    lemma_trim_start_first(s);
    lemma_trim_end_prefix(u);
    let t = trim_end(u);
    if t.len() > 0 {
        assert(t[0] == u[0]);
        lemma_trim_of_trimmed_shape(t);
    }
}

/// An occurrence inside a part of a text is an occurrence in the text.
pub proof fn lemma_no_sub_in_part(s: Seq<char>, i: int, j: int, pat: Seq<char>)
    requires
        0 <= i <= j <= s.len(),
        !has_sub(s, pat),
    ensures
        !has_sub(s.subrange(i, j), pat),
{
    assert forall|k: int| !occurs_at(s.subrange(i, j), pat, k) by {
        if occurs_at(s.subrange(i, j), pat, k) {
            assert forall|t: int| 0 <= t < pat.len() implies s[i + k + t] == pat[t] by {
                assert(s.subrange(i, j)[k + t] == s[i + k + t]);
            }
            assert(occurs_at(s, pat, i + k));
        }
    }
}

/// A pattern that does not hold the character `c` occurs in `a`, `c`, `b`
/// joined only if it occurs in `a` or in `b`.
pub proof fn lemma_no_sub_join(a: Seq<char>, c: char, b: Seq<char>, pat: Seq<char>)
    requires
        !has_sub(a, pat),
        !has_sub(b, pat),
        forall|j: int| 0 <= j < pat.len() ==> pat[j] != c,
    ensures
        !has_sub(a + seq![c] + b, pat),
{
    let s = a + seq![c] + b;
    assert forall|k: int| !occurs_at(s, pat, k) by {
        if occurs_at(s, pat, k) {
            if k + pat.len() <= a.len() {
                assert forall|t: int| 0 <= t < pat.len() implies a[k + t] == pat[t] by {
                    assert(s[k + t] == a[k + t]);
                }
                assert(occurs_at(a, pat, k));
            } else if k > a.len() {
                let k2 = k - a.len() - 1;
                assert forall|t: int| 0 <= t < pat.len() implies b[k2 + t] == pat[t] by {
                    assert(s[k + t] == b[k2 + t]);
                }
                assert(occurs_at(b, pat, k2));
            } else {
                let t = a.len() - k;
                assert(s[k + t] == c);
                assert(pat[t] == c);
            }
        }
    }
}

/// `strip_trailing(s, c)` is a prefix of `s` that keeps every character
/// of `s` up to the last one that is not `c`.
pub proof fn lemma_strip_trailing_prefix(s: Seq<char>, c: char)
    ensures
        strip_trailing(s, c).len() <= s.len(),
        strip_trailing(s, c) == s.take(strip_trailing(s, c).len() as int),
        forall|i: int| 0 <= i < s.len() && s[i] != c ==> i < strip_trailing(s, c).len(),
    decreases s.len(),
{
    if s.len() > 0 && s.last() == c {
        lemma_strip_trailing_prefix(s.drop_last(), c);
        assert(s.drop_last().take(strip_trailing(s, c).len() as int) =~= s.take(
            strip_trailing(s, c).len() as int,
        ));
        assert forall|i: int| 0 <= i < s.len() && s[i] != c implies i < strip_trailing(
            s,
            c,
        ).len() by {
            assert(i < s.len() - 1);
            assert(s.drop_last()[i] == s[i]);
        }
    } else {
        assert(s.take(s.len() as int) =~= s);
    }
}

/// What `str::to_lowercase` gives for `s`: its lowercase form under Unicode's
/// case mappings.
pub uninterp spec fn lowercase(s: Seq<char>) -> Seq<char>;

/// What `String::from_utf8_lossy` gives for `bytes`: the UTF-8 decoding, with
/// each ill-formed sequence replaced by U+FFFD.
pub uninterp spec fn utf8_lossy(bytes: Seq<u8>) -> Seq<char>;

/// Lowercases `s` with `str::to_lowercase`; the result is named `lowercase`,
/// and for ASCII text it maps `A`..`Z` to `a`..`z` (Unicode's lowercase
/// mapping on ASCII) and keeps every other character.
#[verifier::external_body]
pub(crate) fn to_lowercase(s: &str) -> (r: String)
    ensures
        r@ == lowercase(s@),
        vstd::utf8::is_ascii_chars(s@) ==> r@ == ascii_lowercase(s@),
{
    s.to_lowercase()
}

/// Decodes `bytes` with `String::from_utf8_lossy`; the result is named
/// `utf8_lossy`, and for valid UTF-8 it is the plain decoding.
#[verifier::external_body]
pub(crate) fn from_utf8_lossy(bytes: &[u8]) -> (r: String)
    ensures
        r@ == utf8_lossy(bytes@),
        vstd::utf8::valid_utf8(bytes@) ==> r@ == vstd::utf8::decode_utf8(bytes@),
{
    String::from_utf8_lossy(bytes).into_owned()
}

} // verus!
