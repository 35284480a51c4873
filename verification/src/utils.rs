//! URL normalisation and icon-size parsing.

use vstd::prelude::*;
use crate::text::{
    chars_of, contains, eq_ascii_nocase, eq_ignore_ascii_case, has_prefix, has_sub, is_whitespace,
    is_ws, lemma_no_sub_in_part, lemma_no_sub_join, lemma_strip_trailing_prefix,
    lemma_trim_idempotent, lemma_trim_of_trimmed_shape, occurs_at, slice_to_vec, starts_with,
    strip_trailing, strip_trailing_char, string_of, trim, trimmed,
};

verus! {

/// The scheme-relative and absolute markers, and the rejected fragments,
/// that `normalize_url` looks for.
pub open spec fn lit_http() -> Seq<char> {
    seq!['h', 't', 't', 'p']
}

pub open spec fn lit_https_colon() -> Seq<char> {
    seq!['h', 't', 't', 'p', 's', ':']
}

pub open spec fn lit_undefined() -> Seq<char> {
    seq!['u', 'n', 'd', 'e', 'f', 'i', 'n', 'e', 'd']
}

pub open spec fn lit_data() -> Seq<char> {
    seq!['d', 'a', 't', 'a', ':']
}

/// A URL path that `normalize_url` refuses: one holding a template brace or
/// the word `undefined`, an inline `data:` URL or a bare fragment.
pub open spec fn is_rejected_path(t: Seq<char>) -> bool {
    ||| has_sub(t, seq!['{'])
    ||| has_sub(t, seq!['}'])
    ||| has_sub(t, lit_undefined())
    ||| has_prefix(t, lit_data())
    ||| has_prefix(t, seq!['#'])
}

/// The absolute URL that a path found on the page at `base` stands for:
/// empty for a refused path; the path itself when it already starts with
/// `http`; `https:` in front of a scheme-relative `//` path; otherwise the
/// path appended to `base` (trailing slashes of `base` dropped), with a `/`
/// between them when the path does not start with one. The path is trimmed
/// of surrounding whitespace first.
pub open spec fn normalized_url(base: Seq<char>, path: Seq<char>) -> Seq<char> {
    let t = trim(path);
    if is_rejected_path(t) {
        Seq::empty()
    } else if has_prefix(t, lit_http()) {
        t
    } else if has_prefix(t, seq!['/', '/']) {
        lit_https_colon() + t
    } else if has_prefix(t, seq!['/']) {
        strip_trailing(base, '/') + t
    } else {
        strip_trailing(base, '/') + seq!['/'] + t
    }
}

/// Normalises `path` against `base`, both given as characters.
pub fn normalize_chars(base: &[char], path: &[char]) -> (r: Vec<char>)
    ensures
        r@ == normalized_url(base@, path@),
{
    let t = trimmed(path);
    let open_brace: Vec<char> = vec!['{'];
    let close_brace: Vec<char> = vec!['}'];
    let undefined: Vec<char> = vec!['u', 'n', 'd', 'e', 'f', 'i', 'n', 'e', 'd'];
    let data: Vec<char> = vec!['d', 'a', 't', 'a', ':'];
    let hash: Vec<char> = vec!['#'];
    let http: Vec<char> = vec!['h', 't', 't', 'p'];
    let two_slashes: Vec<char> = vec!['/', '/'];
    let slash: Vec<char> = vec!['/'];
    assert(open_brace@ =~= seq!['{']);
    assert(close_brace@ =~= seq!['}']);
    assert(undefined@ =~= lit_undefined());
    assert(data@ =~= lit_data());
    assert(hash@ =~= seq!['#']);
    assert(http@ =~= lit_http());
    assert(two_slashes@ =~= seq!['/', '/']);
    assert(slash@ =~= seq!['/']);
    if contains(&t, &open_brace) || contains(&t, &close_brace) || contains(&t, &undefined)
        || starts_with(&t, &data) || starts_with(&t, &hash) {
        return Vec::new();
    }
    if starts_with(&t, &http) {
        return t;
    }
    if starts_with(&t, &two_slashes) {
        let mut r: Vec<char> = vec!['h', 't', 't', 'p', 's', ':'];
        assert(r@ =~= lit_https_colon());
        let mut rest = t;
        r.append(&mut rest);
        return r;
    }
    let mut r = strip_trailing_char(base, '/');
    if !starts_with(&t, &slash) {
        r.push('/');
    }
    let mut rest = t;
    r.append(&mut rest);
    r
}

/// Turns a path found on a page into an absolute URL against the page's
/// address `base_url` (see `normalized_url`); a refused path gives the empty
/// string.
pub fn normalize_url(base_url: &str, extracted_path: &str) -> (r: String)
    ensures
        r@ == normalized_url(base_url@, extracted_path@),
{
    let b = chars_of(base_url);
    let p = chars_of(extracted_path);
    let v = normalize_chars(&b, &p);
    string_of(&v)
}

/// Normalising does not change when the path is trimmed first or when the
/// base gets one more trailing `/`; and a non-empty result ends with the
/// trimmed path.
pub proof fn lemma_normalized_url_trim_and_slash(base: Seq<char>, path: Seq<char>)
    ensures
        normalized_url(base, trim(path)) == normalized_url(base, path),
        normalized_url(base + seq!['/'], path) == normalized_url(base, path),
        ({
            let r = normalized_url(base, path);
            let t = trim(path);
            r.len() > 0 ==> r.len() >= t.len() && r.subrange(r.len() - t.len(), r.len() as int)
                == t
        }),
{
    lemma_trim_idempotent(path);
    let b2 = base + seq!['/'];
    assert(b2.drop_last() =~= base);
    assert(strip_trailing(b2, '/') == strip_trailing(base, '/'));
    let r = normalized_url(base, path);
    let t = trim(path);
    if r.len() > 0 {
        assert(r.subrange(r.len() - t.len(), r.len() as int) =~= t);
    }
}

/// The characters of `https:`, none of which is a brace.
proof fn lemma_https_colon_no_brace()
    ensures
        !has_sub(lit_https_colon(), seq!['{']),
        !has_sub(lit_https_colon(), seq!['}']),
        !has_sub(lit_https_colon(), lit_undefined()),
{
    let s = lit_https_colon();
    assert forall|k: int| 0 <= k < 6 implies s[k] != '{' && s[k] != '}' by {
        if k == 0 {
            assert(s[0] == 'h');
        } else if k == 1 {
            assert(s[1] == 't');
        } else if k == 2 {
            assert(s[2] == 't');
        } else if k == 3 {
            assert(s[3] == 'p');
        } else if k == 4 {
            assert(s[4] == 's');
        } else {
            assert(s[5] == ':');
        }
    }
    assert forall|k: int| !occurs_at(s, seq!['{'], k) && !occurs_at(s, seq!['}'], k) by {
        if occurs_at(s, seq!['{'], k) {
            assert(s[k + 0] == seq!['{'][0]);
        }
        if occurs_at(s, seq!['}'], k) {
            assert(s[k + 0] == seq!['}'][0]);
        }
    }
    assert forall|k: int| !occurs_at(s, lit_undefined(), k) by {}
}

/// Neither `{`, `}` nor `undefined` holds a `/`.
proof fn lemma_patterns_without_slash()
    ensures
        forall|j: int| 0 <= j < 1 ==> seq!['{'][j] != '/',
        forall|j: int| 0 <= j < 1 ==> seq!['}'][j] != '/',
        forall|j: int| 0 <= j < 9 ==> lit_undefined()[j] != '/',
{
    assert forall|j: int| 0 <= j < 9 implies lit_undefined()[j] != '/' by {
        if j == 0 {
        } else if j == 1 {
        } else if j == 2 {
        } else if j == 3 {
        } else if j == 4 {
        } else if j == 5 {
        } else if j == 6 {
        } else if j == 7 {
        } else {
        }
    }
}

/// `x` holds none of the fragments that `normalize_url` refuses inside a URL.
pub open spec fn free_of_templates(x: Seq<char>) -> bool {
    &&& !has_sub(x, seq!['{'])
    &&& !has_sub(x, seq!['}'])
    &&& !has_sub(x, lit_undefined())
}

proof fn lemma_join_free(a: Seq<char>, b: Seq<char>)
    requires
        free_of_templates(a),
        free_of_templates(b),
    ensures
        free_of_templates(a + seq!['/'] + b),
{
    lemma_patterns_without_slash();
    lemma_no_sub_join(a, '/', b, seq!['{']);
    lemma_no_sub_join(a, '/', b, seq!['}']);
    lemma_no_sub_join(a, '/', b, lit_undefined());
}

proof fn lemma_part_free(x: Seq<char>, i: int, j: int)
    requires
        free_of_templates(x),
        0 <= i <= j <= x.len(),
    ensures
        free_of_templates(x.subrange(i, j)),
{
    lemma_no_sub_in_part(x, i, j, seq!['{']);
    lemma_no_sub_in_part(x, i, j, seq!['}']);
    lemma_no_sub_in_part(x, i, j, lit_undefined());
}

/// A URL that `normalize_url` produced against a base that starts with `http`
/// and holds no template fragment is its own normal form: normalising it
/// again changes nothing.
pub proof fn lemma_normalized_url_idempotent(base: Seq<char>, path: Seq<char>)
    requires
        has_prefix(base, lit_http()),
        free_of_templates(base),
        normalized_url(base, path).len() > 0,
    ensures
        normalized_url(base, normalized_url(base, path)) == normalized_url(base, path),
{
    let t = trim(path);
    let r = normalized_url(base, path);
    lemma_trim_idempotent(path);
    lemma_strip_trailing_prefix(base, '/');
    let sb = strip_trailing(base, '/');
    assert(base[0] == 'h' && base[1] == 't' && base[2] == 't' && base[3] == 'p');
    assert(3 < sb.len());
    assert(sb =~= base.subrange(0, sb.len() as int));
    lemma_part_free(base, 0, sb.len() as int);
    assert(has_prefix(sb, lit_http()));
    assert(!is_rejected_path(t));
    assert(free_of_templates(t));
    if t.len() > 0 {
        lemma_part_free(t, 1, t.len() as int);
    }
    if has_prefix(t, lit_http()) {
        assert(r == t);
    } else if has_prefix(t, seq!['/', '/']) {
        lemma_https_colon_no_brace();
        let a = lit_https_colon();
        let rest = t.subrange(1, t.len() as int);
        lemma_join_free(a, rest);
        assert(r =~= a + seq!['/'] + rest);
        assert(r[0] == 'h');
        assert(r.last() == t.last());
        lemma_trim_of_trimmed_shape(r);
        assert(has_prefix(r, lit_http()));
    } else if has_prefix(t, seq!['/']) {
        let rest = t.subrange(1, t.len() as int);
        lemma_join_free(sb, rest);
        assert(r =~= sb + seq!['/'] + rest);
        assert(r[0] == 'h');
        assert(r.last() == t.last());
        lemma_trim_of_trimmed_shape(r);
        assert(has_prefix(r, lit_http()));
    } else {
        lemma_join_free(sb, t);
        assert(r =~= sb + seq!['/'] + t);
        assert(r[0] == 'h');
        assert(!is_ws(r.last()));
        lemma_trim_of_trimmed_shape(r);
        assert(has_prefix(r, lit_http()));
    }
    assert(trim(r) == r);
    assert(r[0int + 0] != lit_data()[0]);
    assert(r[0int + 0] != seq!['#'][0]);
    assert(!has_prefix(r, lit_data()));
    assert(!has_prefix(r, seq!['#']));
    assert(!is_rejected_path(r));
}

/// An ASCII decimal digit.
pub open spec fn is_digit(c: char) -> bool {
    48 <= (c as u32) <= 57
}

/// The value of a digit character.
pub open spec fn digit_value(c: char) -> nat {
    ((c as u32) - 48) as nat
}

/// The number written by the decimal digits `d` (most significant first).
pub open spec fn digits_value(d: Seq<char>) -> nat
    decreases d.len(),
{
    if d.len() == 0 {
        0
    } else {
        digits_value(d.drop_last()) * 10 + digit_value(d.last())
    }
}

/// The digits of an unsigned literal: a leading `+` is dropped.
pub open spec fn unsigned_digits(t: Seq<char>) -> Seq<char> {
    if t.len() > 0 && t[0] == '+' {
        t.drop_first()
    } else {
        t
    }
}

/// What `str::parse` reads from `t` as an unsigned integer of unbounded
/// width: an optional `+` followed by at least one ASCII digit and nothing
/// else.
pub open spec fn parse_unsigned(t: Seq<char>) -> Option<nat> {
    let d = unsigned_digits(t);
    if d.len() > 0 && forall|i: int| 0 <= i < d.len() ==> is_digit(d[i]) {
        Some(digits_value(d))
    } else {
        None
    }
}

/// What `str::parse` gives for an unsigned type whose largest value is `max`.
pub open spec fn parse_bounded(t: Seq<char>, max: nat) -> Option<nat> {
    match parse_unsigned(t) {
        Some(v) => if v <= max {
            Some(v)
        } else {
            None
        },
        None => None,
    }
}

proof fn lemma_digits_value_prefix(d: Seq<char>, k: int)
    requires
        0 <= k <= d.len(),
    ensures
        digits_value(d) >= digits_value(d.take(k)),
    decreases d.len(),
{
    if k < d.len() {
        assert(d.drop_last().take(k) =~= d.take(k));
        lemma_digits_value_prefix(d.drop_last(), k);
    } else {
        assert(d.take(k) =~= d);
    }
}

/// Parses an unsigned decimal literal as `str::parse` does for an integer
/// type whose largest value is `max`.
pub fn parse_unsigned_bounded(t: &[char], max: u64) -> (r: Option<u64>)
    ensures
        r matches Some(v) ==> parse_bounded(t@, max as nat) == Some(v as nat),
        r is None ==> parse_bounded(t@, max as nat) is None,
{
    let n: usize = t.len();
    let start: usize = if n > 0 && t[0] == '+' {
        1
    } else {
        0
    };
    let ghost d = unsigned_digits(t@);
    assert(d =~= t@.subrange(start as int, n as int));
    if start == n {
        return None;
    }
    let mut v: u64 = 0;
    let mut i: usize = start;
    while i < n
        invariant
            n == t@.len(),
            start <= i <= n,
            start < n,
            d == unsigned_digits(t@),
            d == t@.subrange(start as int, n as int),
            v <= max,
            v == digits_value(t@.subrange(start as int, i as int)),
            forall|k: int| start <= k < i ==> is_digit(t@[k]),
        decreases n - i,
    {
        let c = t[i];
        let u: u32 = c as u32;
        assert(t@.subrange(start as int, i + 1).drop_last() =~= t@.subrange(
            start as int,
            i as int,
        ));
        if u < 48 || u > 57 {
            assert(!is_digit(d[i - start]));
            return None;
        }
        let next: u128 = (v as u128) * 10 + ((u - 48) as u128);
        if next > max as u128 {
            proof {
                let ghost j: int = i - start + 1;
                assert(d.take(j) =~= t@.subrange(start as int, i + 1));
                if forall|k: int| 0 <= k < d.len() ==> is_digit(d[k]) {
                    lemma_digits_value_prefix(d, j);
                }
            }
            return None;
        }
        v = next as u64;
        i = i + 1;
    }
    assert(t@.subrange(start as int, n as int) =~= d);
    Some(v)
}

/// The characters of `w` before its first `x` (all of `w` if there is none).
pub open spec fn before_x(w: Seq<char>) -> Seq<char>
    decreases w.len(),
{
    if w.len() == 0 {
        w
    } else if w[0] == 'x' {
        Seq::empty()
    } else {
        seq![w[0]] + before_x(w.drop_first())
    }
}

/// The maximal runs of non-whitespace characters of `s`, in order.
pub open spec fn words(s: Seq<char>) -> Seq<Seq<char>>
    decreases s.len(),
{
    if s.len() == 0 {
        Seq::empty()
    } else {
        let w = words(s.drop_last());
        let c = s.last();
        if is_ws(c) {
            w
        } else if s.len() >= 2 && !is_ws(s[s.len() - 2]) && w.len() > 0 {
            w.drop_last().push(w.last().push(c))
        } else {
            w.push(seq![c])
        }
    }
}

/// The size one entry of a `sizes` attribute stands for: `any` (in any case)
/// is the largest `u32`; `WxH` counts by its width `W`; an entry whose width
/// is not a `u32` counts as 0.
pub open spec fn icon_dimension(w: Seq<char>) -> nat {
    if eq_ascii_nocase(w, seq!['a', 'n', 'y']) {
        u32::MAX as nat
    } else {
        match parse_bounded(before_x(w), u32::MAX as nat) {
            Some(v) => v,
            None => 0,
        }
    }
}

/// The largest dimension among `ws`, or 0 when there is none.
pub open spec fn max_dimension(ws: Seq<Seq<char>>) -> nat
    decreases ws.len(),
{
    if ws.len() == 0 {
        0
    } else {
        let m = max_dimension(ws.drop_last());
        let d = icon_dimension(ws.last());
        if d > m {
            d
        } else {
            m
        }
    }
}

/// The size that a `sizes` attribute announces: the largest dimension among
/// its whitespace-separated entries, or 0.
pub open spec fn max_icon_size(sizes: Seq<char>) -> nat {
    max_dimension(words(sizes))
}

/// The size a `sizes` attribute announces is at least that of each of its
/// entries, and it is 0 or the size of one of them.
pub proof fn lemma_max_icon_size_is_largest(sizes: Seq<char>)
    ensures
        forall|i: int|
            0 <= i < words(sizes).len() ==> icon_dimension(#[trigger] words(sizes)[i])
                <= max_icon_size(sizes),
        max_icon_size(sizes) == 0 || exists|i: int|
            0 <= i < words(sizes).len() && max_icon_size(sizes) == icon_dimension(
                #[trigger] words(sizes)[i],
            ),
{
    lemma_max_dimension_is_largest(words(sizes));
}

proof fn lemma_max_dimension_is_largest(ws: Seq<Seq<char>>)
    ensures
        forall|i: int| 0 <= i < ws.len() ==> icon_dimension(#[trigger] ws[i]) <= max_dimension(ws),
        max_dimension(ws) == 0 || exists|i: int|
            0 <= i < ws.len() && max_dimension(ws) == icon_dimension(#[trigger] ws[i]),
    decreases ws.len(),
{
    if ws.len() > 0 {
        let prev = ws.drop_last();
        lemma_max_dimension_is_largest(prev);
        assert forall|i: int| 0 <= i < prev.len() implies ws[i] == prev[i] by {}
        if max_dimension(ws) != 0 && max_dimension(ws) != icon_dimension(ws.last()) {
            let i = choose|i: int|
                0 <= i < prev.len() && max_dimension(prev) == icon_dimension(#[trigger] prev[i]);
            assert(ws[i] == prev[i]);
        }
    }
}

proof fn lemma_words_nonempty(s: Seq<char>)
    requires
        s.len() > 0,
        !is_ws(s.last()),
    ensures
        words(s).len() > 0,
{
}

/// The words of two texts joined by a space are the words of the first
/// followed by those of the second.
pub proof fn lemma_words_join(a: Seq<char>, b: Seq<char>)
    ensures
        words(a + seq![' '] + b) == words(a) + words(b),
    decreases b.len(),
{
    let s = a + seq![' '] + b;
    if b.len() == 0 {
        assert(s.drop_last() =~= a);
        assert(s.last() == ' ');
        assert(words(a) + words(b) =~= words(a));
    } else {
        let bp = b.drop_last();
        lemma_words_join(a, bp);
        assert(s.drop_last() =~= a + seq![' '] + bp);
        let c = b.last();
        assert(s.last() == c);
        let x = words(a);
        let y = words(bp);
        if is_ws(c) {
        } else if b.len() >= 2 && !is_ws(b[b.len() - 2]) {
            assert(s[s.len() - 2] == b[b.len() - 2]);
            assert(bp.last() == b[b.len() - 2]);
            lemma_words_nonempty(bp);
            assert((x + y).drop_last().push((x + y).last().push(c)) =~= x + y.drop_last().push(
                y.last().push(c),
            ));
        } else {
            if b.len() == 1 {
                assert(s[s.len() - 2] == ' ');
                assert(bp.len() == 0);
            } else {
                assert(s[s.len() - 2] == b[b.len() - 2]);
            }
            assert((x + y).push(seq![c]) =~= x + y.push(seq![c]));
        }
    }
}

proof fn lemma_max_dimension_concat(x: Seq<Seq<char>>, y: Seq<Seq<char>>)
    ensures
        max_dimension(x + y) == if max_dimension(x) >= max_dimension(y) {
            max_dimension(x)
        } else {
            max_dimension(y)
        },
    decreases y.len(),
{
    if y.len() == 0 {
        assert(x + y =~= x);
    } else {
        lemma_max_dimension_concat(x, y.drop_last());
        assert((x + y).drop_last() =~= x + y.drop_last());
        assert((x + y).last() == y.last());
    }
}

/// The size announced by two `sizes` values joined by a space is the larger
/// of the sizes each announces, whichever comes first.
pub proof fn lemma_icon_size_of_joined(a: Seq<char>, b: Seq<char>)
    ensures
        max_icon_size(a + seq![' '] + b) == if max_icon_size(a) >= max_icon_size(b) {
            max_icon_size(a)
        } else {
            max_icon_size(b)
        },
        max_icon_size(a + seq![' '] + b) == max_icon_size(b + seq![' '] + a),
{
    lemma_words_join(a, b);
    lemma_words_join(b, a);
    lemma_max_dimension_concat(words(a), words(b));
    lemma_max_dimension_concat(words(b), words(a));
}

/// Index of the first `x` in `w`, or `w.len()`.
fn find_x(w: &[char]) -> (k: usize)
    ensures
        k <= w@.len(),
        before_x(w@) == w@.take(k as int),
{
    let n: usize = w.len();
    let mut k: usize = 0;
    assert(w@.skip(0) =~= w@);
    assert(w@.take(0) + w@ =~= w@);
    while k < n && w[k] != 'x'
        invariant
            n == w@.len(),
            k <= n,
            before_x(w@) == w@.take(k as int) + before_x(w@.skip(k as int)),
        decreases n - k,
    {
        assert(w@.skip(k as int).drop_first() =~= w@.skip(k + 1));
        assert(w@.take(k as int) + seq![w@[k as int]] =~= w@.take(k + 1));
        k = k + 1;
    }
    if k < n {
        assert(w@.skip(k as int)[0] == 'x');
    } else {
        assert(w@.skip(k as int) =~= Seq::<char>::empty());
    }
    assert(w@.take(k as int) + Seq::<char>::empty() =~= w@.take(k as int));
    k
}

/// The dimension of one entry of a `sizes` attribute (see `icon_dimension`).
pub fn entry_dimension(w: &[char]) -> (r: u32)
    ensures
        r == icon_dimension(w@),
{
    let any: Vec<char> = vec!['a', 'n', 'y'];
    assert(any@ =~= seq!['a', 'n', 'y']);
    if eq_ignore_ascii_case(w, &any) {
        return u32::MAX;
    }
    let k = find_x(w);
    let head = slice_to_vec(w, 0, k);
    assert(head@ =~= w@.take(k as int));
    match parse_unsigned_bounded(&head, 0xFFFF_FFFF) {
        Some(v) => v as u32,
        None => 0,
    }
}

/// The largest size announced by an icon's `sizes` attribute, e.g. 192 for
/// `"32x32 192x192"`; `any` counts as the largest `u32`, and a value with no
/// readable size gives 0.
pub fn parse_max_icon_size(sizes: &str) -> (r: u32)
    ensures
        r == max_icon_size(sizes@),
{
    let s = chars_of(sizes);
    let n: usize = s.len();
    let mut cur: Vec<char> = Vec::new();
    let mut best: u32 = 0;
    let mut i: usize = 0;
    while i < n
        invariant
            n == s@.len(),
            i <= n,
            cur@.len() > 0 <==> (i > 0 && !is_ws(s@[i - 1])),
            cur@.len() == 0 ==> best == max_dimension(words(s@.take(i as int))),
            cur@.len() > 0 ==> {
                let ws = words(s@.take(i as int));
                &&& ws.len() > 0
                &&& ws.last() == cur@
                &&& best == max_dimension(ws.drop_last())
            },
        decreases n - i,
    {
        let c = s[i];
        let ghost pre = s@.take(i as int);
        let ghost post = s@.take(i + 1);
        assert(post.drop_last() =~= pre);
        assert(post.last() == c);
        if i > 0 {
            assert(post[post.len() - 2] == s@[i - 1]);
        }
        if is_whitespace(c) {
            if cur.len() > 0 {
                let d = entry_dimension(&cur);
                if d > best {
                    best = d;
                }
                cur = Vec::new();
            }
        } else {
            let ghost old_cur = cur@;
            cur.push(c);
            proof {
                let ws = words(pre);
                if old_cur.len() > 0 {
                    assert(words(post) == ws.drop_last().push(ws.last().push(c)));
                    assert(words(post).drop_last() =~= ws.drop_last());
                } else {
                    assert(words(post) == ws.push(seq![c]));
                    assert(words(post).drop_last() =~= ws);
                    assert(cur@ =~= seq![c]);
                }
            }
        }
        i = i + 1;
    }
    assert(s@.take(n as int) =~= s@);
    if cur.len() > 0 {
        let d = entry_dimension(&cur);
        if d > best {
            best = d;
        }
    }
    best
}

} // verus!
