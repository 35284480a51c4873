//! The logo search over a page: the candidates that each kind of markup
//! offers, their priorities, and the rule that keeps the best one.

use vstd::prelude::*;
use crate::json::{
    find_member, items_view, json_parse, lemma_container_views, lookup, members_view, parse_json,
    JsonValue, JsonView,
};
use crate::html::{attributes_view, html_tokens, tokenize, HtmlToken, TokenStream, TokenView};
use crate::text::{
    ascii_lowercase, ascii_uppercase, lemma_ascii_case_roundtrip,
    chars_eq, chars_of, contains, eq_ascii_nocase, eq_ignore_ascii_case, from_utf8_lossy, has_sub,
    lowercase, string_of, to_lowercase, utf8_lossy,
};
use crate::utils::{
    max_icon_size, normalize_chars, normalize_url, normalized_url, parse_max_icon_size,
};

verus! {

/// Where a logo candidate was found; an earlier variant is a better source.
#[derive(PartialEq, Eq, Structural, PartialOrd, Ord, Debug, Clone, Copy)]
pub enum LogoPriority {
    JsonLd,
    ManifestIcon,
    AppleTouchIcon,
    MsTile,
    ImageSrc,
    LargeIcon,
    SquareOgImage,
    SchemaImage,
}

impl LogoPriority {
    /// The position of the variant in declaration order (0 is the best).
    pub open spec fn rank(self) -> nat {
        match self {
            LogoPriority::JsonLd => 0,
            LogoPriority::ManifestIcon => 1,
            LogoPriority::AppleTouchIcon => 2,
            LogoPriority::MsTile => 3,
            LogoPriority::ImageSrc => 4,
            LogoPriority::LargeIcon => 5,
            LogoPriority::SquareOgImage => 6,
            LogoPriority::SchemaImage => 7,
        }
    }

    /// The rank of this priority (0 is the best).
    pub fn level(&self) -> (r: u8)
        ensures
            r == self.rank(),
    {
        match self {
            LogoPriority::JsonLd => 0,
            LogoPriority::ManifestIcon => 1,
            LogoPriority::AppleTouchIcon => 2,
            LogoPriority::MsTile => 3,
            LogoPriority::ImageSrc => 4,
            LogoPriority::LargeIcon => 5,
            LogoPriority::SquareOgImage => 6,
            LogoPriority::SchemaImage => 7,
        }
    }
}

/// A logo candidate: its URL and where it was found.
pub type Candidate = (Seq<char>, LogoPriority);

/// The logo kept so far, if any.
pub type KeptLogo = Option<Candidate>;

/// The logo kept after `url` is offered with priority `p`: an empty URL is
/// ignored, and a candidate replaces the kept logo only when its priority is
/// strictly better.
pub open spec fn offer(kept: KeptLogo, url: Seq<char>, p: LogoPriority) -> KeptLogo {
    if url.len() == 0 {
        kept
    } else {
        match kept {
            Some((_, cur)) => if p.rank() >= cur.rank() {
                kept
            } else {
                Some((url, p))
            },
            None => Some((url, p)),
        }
    }
}

/// The logo kept after the candidates `cands` are offered in order.
pub open spec fn offer_all(kept: KeptLogo, cands: Seq<Candidate>) -> KeptLogo
    decreases cands.len(),
{
    if cands.len() == 0 {
        kept
    } else {
        offer(offer_all(kept, cands.drop_last()), cands.last().0, cands.last().1)
    }
}

/// Candidate `i` is the first non-empty one of the best priority in `cands`.
pub open spec fn is_first_best(cands: Seq<Candidate>, i: int) -> bool {
    &&& 0 <= i < cands.len()
    &&& cands[i].0.len() > 0
    &&& forall|j: int|
        0 <= j < cands.len() && cands[j].0.len() > 0 ==> cands[i].1.rank() <= cands[j].1.rank()
    &&& forall|j: int| 0 <= j < i && cands[j].0.len() > 0 ==> cands[i].1.rank() < cands[j].1.rank()
}

/// Offering candidates one by one keeps, out of all of them, the first
/// non-empty URL of the best priority; and no logo at all when every
/// candidate URL is empty.
pub proof fn lemma_offer_all_keeps_first_best(cands: Seq<Candidate>)
    ensures
        offer_all(None, cands) is None <==> forall|i: int|
            0 <= i < cands.len() ==> #[trigger] cands[i].0.len() == 0,
        offer_all(None, cands) matches Some(kept) ==> exists|i: int|
            is_first_best(cands, i) && cands[i] == kept,
    decreases cands.len(),
{
    if cands.len() > 0 {
        let prev = cands.drop_last();
        let last = cands.last();
        let n = cands.len() - 1;
        lemma_offer_all_keeps_first_best(prev);
        assert forall|i: int| 0 <= i < n implies cands[i] == prev[i] by {}
        match offer_all(None, prev) {
            None => {
                if last.0.len() > 0 {
                    assert(is_first_best(cands, n));
                } else {
                    assert forall|i: int| 0 <= i < cands.len() implies #[trigger] cands[i].0.len()
                        == 0 by {
                        if i < n {
                            assert(prev[i].0.len() == 0);
                        }
                    }
                }
            },
            Some(k) => {
                let i = choose|i: int| is_first_best(prev, i) && prev[i] == k;
                assert(cands[i] == prev[i]);
                if last.0.len() > 0 && last.1.rank() < k.1.rank() {
                    assert(is_first_best(cands, n));
                } else {
                    assert(is_first_best(cands, i));
                }
            },
        }
    }
}

/// Offering a candidate never makes the kept logo worse: a kept logo stays
/// kept or is replaced by one of strictly better priority.
pub proof fn lemma_offer_never_worsens(kept: KeptLogo, url: Seq<char>, p: LogoPriority)
    ensures
        kept is Some ==> offer(kept, url, p) is Some,
        kept matches Some((_, old_p)) ==> (offer(kept, url, p) matches Some((_, new_p))
            && new_p.rank() <= old_p.rank()),
        offer(kept, url, p) != kept ==> offer(kept, url, p) == Some((url, p)) && url.len() > 0,
{
}

/// The part of the parser's state that the search reads and writes.
pub struct ParserState {
    pub base: Seq<char>,
    pub logo: KeptLogo,
    pub manifest_url: Option<Seq<char>>,
    pub in_json_ld: bool,
}

impl ParserState {
    /// This state after `url` is offered with priority `p`.
    pub open spec fn offered(self, url: Seq<char>, p: LogoPriority) -> ParserState {
        ParserState { logo: offer(self.logo, url, p), ..self }
    }
}

/// A run of `set_logo` calls on a fresh search: each state is the previous one
/// after `set_logo(cands[i])`, so the kept logo is what offering the
/// candidates in order keeps, which is the first non-empty candidate of the
/// best priority (none when every URL is empty).
pub proof fn lemma_set_logo_run(states: Seq<ParserState>, cands: Seq<Candidate>)
    requires
        states.len() == cands.len() + 1,
        states[0].logo is None,
        forall|i: int|
            0 <= i < cands.len() ==> states[i + 1] == #[trigger] states[i].offered(
                cands[i].0,
                cands[i].1,
            ),
    ensures
        states.last().logo == offer_all(None, cands),
        states.last().logo is None <==> forall|i: int|
            0 <= i < cands.len() ==> #[trigger] cands[i].0.len() == 0,
        states.last().logo matches Some(kept) ==> exists|i: int|
            is_first_best(cands, i) && cands[i] == kept,
    decreases cands.len(),
{
    if cands.len() > 0 {
        let n = cands.len() - 1;
        let sp = states.drop_last();
        let cp = cands.drop_last();
        assert forall|i: int| 0 <= i < cp.len() implies sp[i + 1] == #[trigger] sp[i].offered(
            cp[i].0,
            cp[i].1,
        ) by {
            assert(sp[i + 1] == states[i + 1]);
            assert(states[i + 1] == states[i].offered(cands[i].0, cands[i].1));
        }
        lemma_set_logo_run(sp, cp);
        assert(states[n + 1] == states[n].offered(cands[n].0, cands[n].1));
    }
    lemma_offer_all_keeps_first_best(cands);
}

/// The priority a search ends with does not depend on the order in which the
/// same candidates are offered; nor does whether a logo is kept at all.
pub proof fn lemma_offer_all_priority_order_free(c1: Seq<Candidate>, c2: Seq<Candidate>)
    requires
        c1.to_multiset() == c2.to_multiset(),
    ensures
        offer_all(None, c1) is None <==> offer_all(None, c2) is None,
        offer_all(None, c1) matches Some((_, p1)) ==> (offer_all(None, c2) matches Some((_, p2))
            && p1 == p2),
{
    c1.to_multiset_ensures();
    c2.to_multiset_ensures();
    lemma_offer_all_keeps_first_best(c1);
    lemma_offer_all_keeps_first_best(c2);
    assert forall|x: Candidate| c1.contains(x) <==> c2.contains(x) by {
        assert(c1.contains(x) <==> c1.to_multiset().count(x) > 0);
        assert(c2.contains(x) <==> c2.to_multiset().count(x) > 0);
    }
    if offer_all(None, c1) is None && offer_all(None, c2) is Some {
        let j = choose|j: int| 0 <= j < c2.len() && #[trigger] c2[j].0.len() != 0;
        assert(c2.contains(c2[j]));
        let i = choose|i: int| 0 <= i < c1.len() && c1[i] == c2[j];
        assert(c1[i].0.len() == 0);
    }
    if offer_all(None, c2) is None && offer_all(None, c1) is Some {
        let j = choose|j: int| 0 <= j < c1.len() && #[trigger] c1[j].0.len() != 0;
        assert(c1.contains(c1[j]));
        let i = choose|i: int| 0 <= i < c2.len() && c2[i] == c1[j];
        assert(c2[i].0.len() == 0);
    }
    if let Some(k1) = offer_all(None, c1) {
        if let Some(k2) = offer_all(None, c2) {
            let i1 = choose|i: int| is_first_best(c1, i) && c1[i] == k1;
            let i2 = choose|i: int| is_first_best(c2, i) && c2[i] == k2;
            assert(c2.contains(c1[i1]));
            let j2 = choose|j: int| 0 <= j < c2.len() && c2[j] == c1[i1];
            assert(c1.contains(c2[i2]));
            let j1 = choose|j: int| 0 <= j < c1.len() && c1[j] == c2[i2];
            assert(k1.1.rank() == k2.1.rank());
        }
    }
}

/// A kept logo or a candidate, by its URL's characters.
pub open spec fn kept_view(logo: Option<(String, LogoPriority)>) -> KeptLogo {
    match logo {
        Some((u, p)) => Some((u@, p)),
        None => None,
    }
}

/// An optional string, by its characters.
pub open spec fn opt_view(s: Option<String>) -> Option<Seq<char>> {
    match s {
        Some(x) => Some(x@),
        None => None,
    }
}

/// The streaming state of the logo search over one page at `base_url`.
pub struct Parser<'a> {
    base_url: &'a str,
    logo: Option<(String, LogoPriority)>,
    manifest_url: Option<String>,
    in_json_ld: bool,
}

impl<'a> View for Parser<'a> {
    type V = ParserState;

    closed spec fn view(&self) -> ParserState {
        ParserState {
            base: self.base_url@,
            logo: kept_view(self.logo),
            manifest_url: opt_view(self.manifest_url),
            in_json_ld: self.in_json_ld,
        }
    }
}

/// What the search found on a page.
pub struct ExtractedData {
    pub logo_url: Option<String>,
    pub manifest_url: Option<String>,
    pub priority: Option<LogoPriority>,
}

/// The mathematical form of `ExtractedData`.
pub struct ExtractedView {
    pub logo_url: Option<Seq<char>>,
    pub manifest_url: Option<Seq<char>>,
    pub priority: Option<LogoPriority>,
}

impl View for ExtractedData {
    type V = ExtractedView;

    open spec fn view(&self) -> ExtractedView {
        ExtractedView {
            logo_url: opt_view(self.logo_url),
            manifest_url: opt_view(self.manifest_url),
            priority: self.priority,
        }
    }
}

/// What a finished search reports for the state `st`.
pub open spec fn report(st: ParserState) -> ExtractedView {
    ExtractedView {
        logo_url: match st.logo {
            Some((u, _)) => Some(u),
            None => None,
        },
        manifest_url: st.manifest_url,
        priority: match st.logo {
            Some((_, p)) => Some(p),
            None => None,
        },
    }
}

/// The URL hints that `maybe_logo` looks for in a lowercased URL.
pub open spec fn has_logo_hint(lower: Seq<char>) -> bool {
    ||| has_sub(lower, seq!['l', 'o', 'g', 'o'])
    ||| has_sub(lower, seq!['-', 'i', 'c', 'o', 'n'])
    ||| has_sub(lower, seq!['/', 'i', 'c', 'o', 'n'])
    ||| has_sub(lower, seq!['s', 'q', 'u', 'a', 'r', 'e'])
}

/// The URL marks of a wide banner image that `maybe_logo` rules out.
pub open spec fn has_banner_mark(lower: Seq<char>) -> bool {
    ||| has_sub(lower, seq!['b', 'a', 'n', 'n', 'e', 'r'])
    ||| has_sub(lower, seq!['h', 'e', 'r', 'o'])
    ||| has_sub(lower, seq!['c', 'o', 'v', 'e', 'r'])
    ||| has_sub(lower, seq!['1', '2', '0', '0', 'x', '6', '3', '0'])
    ||| has_sub(lower, seq!['1', '2', '0', '0', 'x', '6', '2', '7'])
}

/// A social-preview image URL that looks like a logo.
pub open spec fn looks_like_logo(url: Seq<char>) -> bool {
    let lower = lowercase(url);
    has_logo_hint(lower) && !has_banner_mark(lower)
}

/// An ASCII URL looks like a logo (its lowercase form is its ASCII
/// lowercase form).
pub open spec fn ascii_logo_like(url: Seq<char>) -> bool {
    let lower = ascii_lowercase(url);
    has_logo_hint(lower) && !has_banner_mark(lower)
}

/// Whether an ASCII URL looks like a logo does not depend on the case of its
/// letters: uppercasing them gives an ASCII URL with the same answer.
pub proof fn lemma_logo_like_ignores_ascii_case(url: Seq<char>)
    requires
        vstd::utf8::is_ascii_chars(url),
    ensures
        vstd::utf8::is_ascii_chars(ascii_uppercase(url)),
        ascii_logo_like(ascii_uppercase(url)) == ascii_logo_like(url),
{
    lemma_ascii_case_roundtrip(url);
}

/// The member names that the JSON-LD search reads.
pub open spec fn lit_logo() -> Seq<char> {
    seq!['l', 'o', 'g', 'o']
}

pub open spec fn lit_url() -> Seq<char> {
    seq!['u', 'r', 'l']
}

pub open spec fn lit_at_id() -> Seq<char> {
    seq!['@', 'i', 'd']
}

pub open spec fn lit_content_url() -> Seq<char> {
    seq!['c', 'o', 'n', 't', 'e', 'n', 't', 'U', 'r', 'l']
}

/// The URL that the value of a `logo` member gives: the string itself, or,
/// for an object, its first present member among `url`, `@id` and
/// `contentUrl`, when that member is a string.
pub open spec fn logo_member_url(logo: JsonView) -> Option<Seq<char>> {
    match logo {
        JsonView::Str(s) => Some(s),
        JsonView::Object(o) => {
            let pick = if lookup(o, lit_url()) is Some {
                lookup(o, lit_url())
            } else if lookup(o, lit_at_id()) is Some {
                lookup(o, lit_at_id())
            } else {
                lookup(o, lit_content_url())
            };
            match pick {
                Some(JsonView::Str(s)) => Some(s),
                _ => None,
            }
        },
        _ => None,
    }
}

/// The non-empty logo URL that the members of an object name directly.
pub open spec fn object_logo(entries: Seq<(Seq<char>, JsonView)>) -> Option<Seq<char>> {
    match lookup(entries, lit_logo()) {
        Some(l) => match logo_member_url(l) {
            Some(u) => if u.len() > 0 {
                Some(u)
            } else {
                None
            },
            None => None,
        },
        None => None,
    }
}

/// The state after the JSON-LD search walks `v`: an object that names a logo
/// offers it (normalised, priority `JsonLd`) and is not searched further;
/// any other object, and an array, is searched member by member in order.
pub open spec fn json_search(st: ParserState, v: JsonView) -> ParserState
    decreases v,
{
    match v {
        JsonView::Object(entries) => match object_logo(entries) {
            Some(u) => st.offered(normalized_url(st.base, u), LogoPriority::JsonLd),
            None => json_search_members(st, entries),
        },
        JsonView::Array(items) => json_search_items(st, items),
        _ => st,
    }
}

/// The state after the search walks the items of an array, in order.
pub open spec fn json_search_items(st: ParserState, items: Seq<JsonView>) -> ParserState
    decreases items,
{
    if items.len() == 0 {
        st
    } else {
        json_search(json_search_items(st, items.drop_last()), items.last())
    }
}

/// The state after the search walks the member values of an object, in order.
pub open spec fn json_search_members(
    st: ParserState,
    entries: Seq<(Seq<char>, JsonView)>,
) -> ParserState
    decreases entries,
{
    if entries.len() == 0 {
        st
    } else {
        json_search(json_search_members(st, entries.drop_last()), entries.last().1)
    }
}

/// The JSON-LD search changes nothing but the kept logo.
pub proof fn lemma_json_search_frame(st: ParserState, v: JsonView)
    ensures
        json_search(st, v) == (ParserState { logo: json_search(st, v).logo, ..st }),
    decreases v,
{
    match v {
        JsonView::Object(entries) => {
            if object_logo(entries) is None {
                lemma_json_search_members_frame(st, entries);
            }
        },
        JsonView::Array(items) => {
            lemma_json_search_items_frame(st, items);
        },
        _ => {},
    }
}

proof fn lemma_json_search_items_frame(st: ParserState, items: Seq<JsonView>)
    ensures
        json_search_items(st, items) == (ParserState {
            logo: json_search_items(st, items).logo,
            ..st
        }),
    decreases items,
{
    if items.len() > 0 {
        lemma_json_search_items_frame(st, items.drop_last());
        lemma_json_search_frame(json_search_items(st, items.drop_last()), items.last());
    }
}

proof fn lemma_json_search_members_frame(st: ParserState, entries: Seq<(Seq<char>, JsonView)>)
    ensures
        json_search_members(st, entries) == (ParserState {
            logo: json_search_members(st, entries).logo,
            ..st
        }),
    decreases entries,
{
    if entries.len() > 0 {
        lemma_json_search_members_frame(st, entries.drop_last());
        lemma_json_search_frame(json_search_members(st, entries.drop_last()), entries.last().1);
    }
}

/// The non-empty logo URL that the members of `o` name directly (see
/// `object_logo`).
fn object_logo_exec<'b>(o: &'b Vec<(String, JsonValue)>) -> (r: Option<&'b String>)
    ensures
        match r {
            Some(u) => object_logo(members_view(o@)) == Some(u@),
            None => object_logo(members_view(o@)) is None,
        },
{
    let logo_key: Vec<char> = vec!['l', 'o', 'g', 'o'];
    let url_key: Vec<char> = vec!['u', 'r', 'l'];
    let id_key: Vec<char> = vec!['@', 'i', 'd'];
    let content_key: Vec<char> = vec!['c', 'o', 'n', 't', 'e', 'n', 't', 'U', 'r', 'l'];
    assert(logo_key@ =~= lit_logo());
    assert(url_key@ =~= lit_url());
    assert(id_key@ =~= lit_at_id());
    assert(content_key@ =~= lit_content_url());
    let logo = match find_member(o, &logo_key) {
        Some(l) => l,
        None => return None,
    };
    proof {
        lemma_container_views(*logo);
    }
    let url: Option<&String> = match logo {
        JsonValue::Str(s) => Some(s),
        JsonValue::Object(inner) => {
            let pick = match find_member(inner, &url_key) {
                Some(v) => Some(v),
                None => match find_member(inner, &id_key) {
                    Some(v) => Some(v),
                    None => find_member(inner, &content_key),
                },
            };
            match pick {
                Some(v) => {
                    proof {
                        lemma_container_views(*v);
                    }
                    match v {
                        JsonValue::Str(s) => Some(s),
                        _ => None,
                    }
                },
                None => None,
            }
        },
        _ => None,
    };
    match url {
        Some(u) => if u.as_str().is_empty() {
            None
        } else {
            Some(u)
        },
        None => None,
    }
}

/// Whether an already lowercased URL hints at a logo and not at a banner.
pub fn lowercase_url_looks_like_logo(lower: &[char]) -> (r: bool)
    ensures
        r == (has_logo_hint(lower@) && !has_banner_mark(lower@)),
{
    let logo: Vec<char> = vec!['l', 'o', 'g', 'o'];
    let dash_icon: Vec<char> = vec!['-', 'i', 'c', 'o', 'n'];
    let slash_icon: Vec<char> = vec!['/', 'i', 'c', 'o', 'n'];
    let square: Vec<char> = vec!['s', 'q', 'u', 'a', 'r', 'e'];
    let banner: Vec<char> = vec!['b', 'a', 'n', 'n', 'e', 'r'];
    let hero: Vec<char> = vec!['h', 'e', 'r', 'o'];
    let cover: Vec<char> = vec!['c', 'o', 'v', 'e', 'r'];
    let wide_a: Vec<char> = vec!['1', '2', '0', '0', 'x', '6', '3', '0'];
    let wide_b: Vec<char> = vec!['1', '2', '0', '0', 'x', '6', '2', '7'];
    assert(logo@ =~= seq!['l', 'o', 'g', 'o']);
    assert(dash_icon@ =~= seq!['-', 'i', 'c', 'o', 'n']);
    assert(slash_icon@ =~= seq!['/', 'i', 'c', 'o', 'n']);
    assert(square@ =~= seq!['s', 'q', 'u', 'a', 'r', 'e']);
    assert(banner@ =~= seq!['b', 'a', 'n', 'n', 'e', 'r']);
    assert(hero@ =~= seq!['h', 'e', 'r', 'o']);
    assert(cover@ =~= seq!['c', 'o', 'v', 'e', 'r']);
    assert(wide_a@ =~= seq!['1', '2', '0', '0', 'x', '6', '3', '0']);
    assert(wide_b@ =~= seq!['1', '2', '0', '0', 'x', '6', '2', '7']);
    let hint = contains(lower, &logo) || contains(lower, &dash_icon) || contains(
        lower,
        &slash_icon,
    ) || contains(lower, &square);
    let banner_like = contains(lower, &banner) || contains(lower, &hero) || contains(
        lower,
        &cover,
    ) || contains(lower, &wide_a) || contains(lower, &wide_b);
    hint && !banner_like
}

/// Whether a social-preview image URL looks like a logo (see
/// `looks_like_logo`).
pub fn url_looks_like_logo(url: &str) -> (r: bool)
    ensures
        r == looks_like_logo(url@),
        vstd::utf8::is_ascii_chars(url@) ==> r == ascii_logo_like(url@),
{
    let lower = chars_of(to_lowercase(url).as_str());
    lowercase_url_looks_like_logo(&lower)
}

/// An optional character vector, by its characters.
pub open spec fn opt_chars(o: Option<Vec<char>>) -> Option<Seq<char>> {
    match o {
        Some(v) => Some(v@),
        None => None,
    }
}

/// Whether a decoded, lowercased attribute (`key`, `value`) marks a
/// `<script>` as JSON-LD.
pub fn is_json_ld_marker(key: &[char], value: &[char]) -> (r: bool)
    ensures
        r == marks_json_ld(key@, value@),
{
    chars_eq(key, &chars_of("type")) && contains(value, &chars_of("application/ld+json"))
}

/// What a `<link>` with the (lowercased) `rel`, the `href` and the
/// (lowercased) `sizes` gives on the page at `base_url`: the manifest URL it
/// records and the logo candidate it offers.
pub fn decide_link(base_url: &str, rel: &[char], href: &[char], sizes: &[char]) -> (r: (
    Option<String>,
    Option<(String, LogoPriority)>,
))
    ensures
        opt_view(r.0) == link_manifest_of(base_url@, rel@, href@),
        kept_view(r.1) == link_candidate_of(base_url@, rel@, href@, sizes@),
{
    if href.len() == 0 {
        return (None, None);
    }
    let base = chars_of(base_url);
    let url = normalize_chars(&base, href);
    if chars_eq(rel, &chars_of("manifest")) {
        (Some(string_of(&url)), None)
    } else if contains(rel, &chars_of("apple-touch-icon")) {
        (None, Some((string_of(&url), LogoPriority::AppleTouchIcon)))
    } else if chars_eq(rel, &chars_of("image_src")) {
        (None, Some((string_of(&url), LogoPriority::ImageSrc)))
    } else if contains(rel, &chars_of("icon")) || contains(rel, &chars_of("shortcut")) || contains(
        rel,
        &chars_of("mask-icon"),
    ) {
        let size = parse_max_icon_size(string_of(sizes).as_str());
        if size >= 128 {
            (None, Some((string_of(&url), LogoPriority::LargeIcon)))
        } else {
            (None, None)
        }
    } else {
        (None, None)
    }
}

/// The logo candidate that a `<meta>` with the (lowercased) `name` or
/// `property` `prop` and the `content` offers on the page at `base_url`.
pub fn decide_meta(base_url: &str, prop: &Option<Vec<char>>, content: &Option<Vec<char>>) -> (r:
    Option<(String, LogoPriority)>)
    ensures
        kept_view(r) == meta_candidate_of(base_url@, opt_chars(*prop), opt_chars(*content)),
{
    if let (Some(p), Some(c)) = (prop, content) {
        if chars_eq(p, &chars_of("msapplication-tileimage")) {
            let base = chars_of(base_url);
            let normalized = normalize_chars(&base, c);
            return Some((string_of(&normalized), LogoPriority::MsTile));
        } else if chars_eq(p, &chars_of("og:image")) || chars_eq(p, &chars_of("twitter:image")) {
            let text = string_of(c);
            if url_looks_like_logo(text.as_str()) {
                let base = chars_of(base_url);
                let normalized = normalize_chars(&base, c);
                return Some((string_of(&normalized), LogoPriority::SquareOgImage));
            }
        }
    }
    None
}

/// The logo candidate that an `<img>` with the (lowercased) `itemprop` and
/// the `src` offers on the page at `base_url`.
pub fn decide_img(base_url: &str, itemprop: &Option<Vec<char>>, src: &Option<Vec<char>>) -> (r:
    Option<(String, LogoPriority)>)
    ensures
        kept_view(r) == img_candidate_of(base_url@, opt_chars(*itemprop), opt_chars(*src)),
{
    if let (Some(p), Some(s)) = (itemprop, src) {
        let is_logo = chars_eq(p, &chars_of("logo"));
        if is_logo || chars_eq(p, &chars_of("image")) {
            let base = chars_of(base_url);
            let normalized = normalize_chars(&base, s);
            let priority = if is_logo {
                LogoPriority::JsonLd
            } else {
                LogoPriority::SchemaImage
            };
            return Some((string_of(&normalized), priority));
        }
    }
    None
}

/// The text of raw attribute bytes, decoded leniently.
pub open spec fn lossy(b: Seq<u8>) -> Seq<char> {
    utf8_lossy(b)
}

/// The text of raw bytes, decoded leniently and lowercased; the form in which
/// tag and attribute names (and some attribute values) are compared.
pub open spec fn folded(b: Seq<u8>) -> Seq<char> {
    lowercase(utf8_lossy(b))
}

/// The value of the last attribute whose folded name is `a` or `b`.
pub open spec fn last_attr_either(
    attrs: Seq<(Seq<u8>, Seq<u8>)>,
    a: Seq<char>,
    b: Seq<char>,
) -> Option<Seq<u8>>
    decreases attrs.len(),
{
    if attrs.len() == 0 {
        None
    } else if folded(attrs.last().0) == a || folded(attrs.last().0) == b {
        Some(attrs.last().1)
    } else {
        last_attr_either(attrs.drop_last(), a, b)
    }
}

/// The value of the last attribute whose folded name is `name`.
pub open spec fn last_attr(attrs: Seq<(Seq<u8>, Seq<u8>)>, name: Seq<char>) -> Option<Seq<u8>> {
    last_attr_either(attrs, name, name)
}

proof fn lemma_last_attr_step(attrs: Seq<(Seq<u8>, Seq<u8>)>, i: int, a: Seq<char>, b: Seq<char>)
    requires
        0 <= i < attrs.len(),
    ensures
        last_attr_either(attrs.take(i + 1), a, b) == if folded(attrs[i].0) == a || folded(
            attrs[i].0,
        ) == b {
            Some(attrs[i].1)
        } else {
            last_attr_either(attrs.take(i), a, b)
        },
{
    assert(attrs.take(i + 1).drop_last() =~= attrs.take(i));
}

/// A folded attribute value, or the empty text when the attribute is absent.
pub open spec fn folded_or_empty(v: Option<Seq<u8>>) -> Seq<char> {
    match v {
        Some(b) => folded(b),
        None => Seq::empty(),
    }
}

/// A decoded attribute value, or the empty text when the attribute is absent.
pub open spec fn lossy_or_empty(v: Option<Seq<u8>>) -> Seq<char> {
    match v {
        Some(b) => lossy(b),
        None => Seq::empty(),
    }
}

/// A decoded, lowercased attribute marks a `<script>` as JSON-LD: its name is
/// `type` and its value contains `application/ld+json`.
pub open spec fn marks_json_ld(key: Seq<char>, value: Seq<char>) -> bool {
    key == "type"@ && has_sub(value, "application/ld+json"@)
}

/// Some attribute marks a `<script>` as JSON-LD (names and values decoded
/// and lowercased).
pub open spec fn declares_json_ld(attrs: Seq<(Seq<u8>, Seq<u8>)>) -> bool {
    exists|i: int| 0 <= i < attrs.len() && marks_json_ld(folded(#[trigger] attrs[i].0), folded(attrs[i].1))
}

/// The state after a `<script>` start tag: a JSON-LD script opens the text
/// that follows to the JSON-LD search.
pub open spec fn script_tag(st: ParserState, attrs: Seq<(Seq<u8>, Seq<u8>)>) -> ParserState {
    if declares_json_ld(attrs) {
        ParserState { in_json_ld: true, ..st }
    } else {
        st
    }
}

/// This state after the candidate `c`, if any, is offered.
pub open spec fn with_candidate(st: ParserState, c: Option<Candidate>) -> ParserState {
    match c {
        Some((u, p)) => st.offered(u, p),
        None => st,
    }
}

/// The manifest URL that a link with the (lowercased) `rel` and the `href`
/// names on the page at `base`: the normalised `href` of a non-empty
/// `rel="manifest"` link.
pub open spec fn link_manifest_of(base: Seq<char>, rel: Seq<char>, href: Seq<char>) -> Option<
    Seq<char>,
> {
    if href.len() > 0 && rel == "manifest"@ {
        Some(normalized_url(base, href))
    } else {
        None
    }
}

/// The logo candidate that a link with the (lowercased) `rel`, the `href` and
/// the (lowercased) `sizes` offers on the page at `base`: its normalised
/// `href` when the link is an apple-touch-icon, an `image_src`, or an icon that
/// announces a size of at least 128.
pub open spec fn link_candidate_of(
    base: Seq<char>,
    rel: Seq<char>,
    href: Seq<char>,
    sizes: Seq<char>,
) -> Option<Candidate> {
    let url = normalized_url(base, href);
    if href.len() == 0 || rel == "manifest"@ {
        None
    } else if has_sub(rel, "apple-touch-icon"@) {
        Some((url, LogoPriority::AppleTouchIcon))
    } else if rel == "image_src"@ {
        Some((url, LogoPriority::ImageSrc))
    } else if has_sub(rel, "icon"@) || has_sub(rel, "shortcut"@) || has_sub(rel, "mask-icon"@) {
        if max_icon_size(sizes) >= 128 {
            Some((url, LogoPriority::LargeIcon))
        } else {
            None
        }
    } else {
        None
    }
}

/// The `rel`, `href` and `sizes` of a `<link>`: the last of each attribute,
/// decoded (and lowercased, but for `href`), or empty.
pub open spec fn link_rel(attrs: Seq<(Seq<u8>, Seq<u8>)>) -> Seq<char> {
    folded_or_empty(last_attr(attrs, "rel"@))
}

pub open spec fn link_href(attrs: Seq<(Seq<u8>, Seq<u8>)>) -> Seq<char> {
    lossy_or_empty(last_attr(attrs, "href"@))
}

pub open spec fn link_sizes(attrs: Seq<(Seq<u8>, Seq<u8>)>) -> Seq<char> {
    folded_or_empty(last_attr(attrs, "sizes"@))
}

/// The manifest URL that a `<link>` records.
pub open spec fn link_manifest(base: Seq<char>, attrs: Seq<(Seq<u8>, Seq<u8>)>) -> Option<
    Seq<char>,
> {
    link_manifest_of(base, link_rel(attrs), link_href(attrs))
}

/// The logo candidate that a `<link>` offers.
pub open spec fn link_candidate(base: Seq<char>, attrs: Seq<(Seq<u8>, Seq<u8>)>) -> Option<
    Candidate,
> {
    link_candidate_of(base, link_rel(attrs), link_href(attrs), link_sizes(attrs))
}

/// The state after a `<link>` tag: a manifest link records the manifest URL,
/// and the link's logo candidate, if any, is offered.
pub open spec fn link_tag(st: ParserState, attrs: Seq<(Seq<u8>, Seq<u8>)>) -> ParserState {
    let recorded = match link_manifest(st.base, attrs) {
        Some(m) => ParserState { manifest_url: Some(m), ..st },
        None => st,
    };
    with_candidate(recorded, link_candidate(st.base, attrs))
}

/// The logo candidate that a `<meta>` with the (lowercased) `name` or
/// `property` `prop` and the `content` offers on the page at `base`: a tile
/// image, or a social-preview image that looks like a logo (as a square
/// image); the `content` is normalised.
pub open spec fn meta_candidate_of(
    base: Seq<char>,
    prop: Option<Seq<char>>,
    content: Option<Seq<char>>,
) -> Option<Candidate> {
    match (prop, content) {
        (Some(p), Some(c)) => {
            if p == "msapplication-tileimage"@ {
                Some((normalized_url(base, c), LogoPriority::MsTile))
            } else if (p == "og:image"@ || p == "twitter:image"@) && looks_like_logo(c) {
                Some((normalized_url(base, c), LogoPriority::SquareOgImage))
            } else {
                None
            }
        },
        _ => None,
    }
}

/// A decoded and lowercased attribute value, if the attribute is present.
pub open spec fn folded_opt(v: Option<Seq<u8>>) -> Option<Seq<char>> {
    match v {
        Some(b) => Some(folded(b)),
        None => None,
    }
}

/// A decoded attribute value, if the attribute is present.
pub open spec fn lossy_opt(v: Option<Seq<u8>>) -> Option<Seq<char>> {
    match v {
        Some(b) => Some(lossy(b)),
        None => None,
    }
}

/// The logo candidate that a `<meta>` tag offers.
pub open spec fn meta_candidate(base: Seq<char>, attrs: Seq<(Seq<u8>, Seq<u8>)>) -> Option<
    Candidate,
> {
    meta_candidate_of(
        base,
        folded_opt(last_attr_either(attrs, "name"@, "property"@)),
        lossy_opt(last_attr(attrs, "content"@)),
    )
}

/// The state after a `<meta>` tag.
pub open spec fn meta_tag(st: ParserState, attrs: Seq<(Seq<u8>, Seq<u8>)>) -> ParserState {
    with_candidate(st, meta_candidate(st.base, attrs))
}

/// The logo candidate that an `<img>` with the (lowercased) `itemprop` and the
/// `src` offers on the page at `base`: an image marked as the `logo`, with the
/// best priority, or one marked as an `image`, with the worst; the `src` is
/// normalised.
pub open spec fn img_candidate_of(
    base: Seq<char>,
    itemprop: Option<Seq<char>>,
    src: Option<Seq<char>>,
) -> Option<Candidate> {
    match (itemprop, src) {
        (Some(p), Some(s)) => {
            if p == "logo"@ {
                Some((normalized_url(base, s), LogoPriority::JsonLd))
            } else if p == "image"@ {
                Some((normalized_url(base, s), LogoPriority::SchemaImage))
            } else {
                None
            }
        },
        _ => None,
    }
}

/// The logo candidate that an `<img>` offers.
pub open spec fn img_candidate(base: Seq<char>, attrs: Seq<(Seq<u8>, Seq<u8>)>) -> Option<
    Candidate,
> {
    img_candidate_of(
        base,
        folded_opt(last_attr(attrs, "itemprop"@)),
        lossy_opt(last_attr(attrs, "src"@)),
    )
}

/// The state after an `<img>` tag.
pub open spec fn img_tag(st: ParserState, attrs: Seq<(Seq<u8>, Seq<u8>)>) -> ParserState {
    with_candidate(st, img_candidate(st.base, attrs))
}

/// The state after a start tag.
pub open spec fn start_tag(
    st: ParserState,
    name: Seq<u8>,
    attrs: Seq<(Seq<u8>, Seq<u8>)>,
) -> ParserState {
    let n = folded(name);
    if n == "script"@ {
        script_tag(st, attrs)
    } else if n == "link"@ {
        link_tag(st, attrs)
    } else if n == "meta"@ {
        meta_tag(st, attrs)
    } else if n == "img"@ {
        img_tag(st, attrs)
    } else {
        st
    }
}

/// The state after an end tag: `</script>` (in any ASCII case) closes JSON-LD.
pub open spec fn end_tag(st: ParserState, name: Seq<u8>) -> ParserState {
    if eq_ascii_nocase(utf8_lossy(name), "script"@) {
        ParserState { in_json_ld: false, ..st }
    } else {
        st
    }
}

/// The state after a run of text: inside a JSON-LD script, text that parses
/// as JSON is searched for logos.
pub open spec fn text_run(st: ParserState, bytes: Seq<u8>) -> ParserState {
    if st.in_json_ld {
        match json_parse(bytes) {
            Some(v) => json_search(st, v),
            None => st,
        }
    } else {
        st
    }
}

/// The state after one token.
pub open spec fn token_step(st: ParserState, t: TokenView) -> ParserState {
    match t {
        TokenView::StartTag { name, attributes } => start_tag(st, name, attributes),
        TokenView::EndTag { name } => end_tag(st, name),
        TokenView::Text(b) => text_run(st, b),
        TokenView::Other => st,
    }
}

/// The state after the tokens `ts`, in order.
pub open spec fn run_tokens(st: ParserState, ts: Seq<TokenView>) -> ParserState
    decreases ts.len(),
{
    if ts.len() == 0 {
        st
    } else {
        token_step(run_tokens(st, ts.drop_last()), ts.last())
    }
}

/// The state of a search over the page at `base` that has seen nothing yet.
pub open spec fn initial_state(base: Seq<char>) -> ParserState {
    ParserState { base, logo: None, manifest_url: None, in_json_ld: false }
}

/// What the search reports for the page at `base` made of the tokens `ts`.
pub open spec fn site_report(base: Seq<char>, ts: Seq<TokenView>) -> ExtractedView {
    report(run_tokens(initial_state(base), ts))
}

/// The decoded text of raw bytes.
fn lossy_chars(b: &[u8]) -> (r: Vec<char>)
    ensures
        r@ == lossy(b@),
{
    chars_of(from_utf8_lossy(b).as_str())
}

/// The decoded and lowercased text of raw bytes.
fn folded_chars(b: &[u8]) -> (r: Vec<char>)
    ensures
        r@ == folded(b@),
{
    let s = from_utf8_lossy(b);
    chars_of(to_lowercase(s.as_str()).as_str())
}

impl<'a> Parser<'a> {
    /// A search over the page at `base_url` that has found nothing yet.
    pub fn new(base_url: &'a str) -> (r: Self)
        ensures
            r@ == (ParserState {
                base: base_url@,
                logo: None,
                manifest_url: None,
                in_json_ld: false,
            }),
    {
        Parser { base_url, logo: None, manifest_url: None, in_json_ld: false }
    }

    /// Offers `url` as a logo of priority `priority` (see `offer`).
    pub fn set_logo(&mut self, url: String, priority: LogoPriority)
        ensures
            final(self)@ == old(self)@.offered(url@, priority),
    {
        if url.as_str().is_empty() {
            return;
        }
        if let Some((_, current)) = &self.logo {
            if priority.level() >= current.level() {
                return;
            }
        }
        self.logo = Some((url, priority));
    }

    /// Whether a social-preview image URL looks like a logo: it hints at a
    /// logo, icon or square picture, and not at a banner.
    pub fn maybe_logo(&self, url: &str) -> (r: bool)
        ensures
            r == looks_like_logo(url@),
            vstd::utf8::is_ascii_chars(url@) ==> r == ascii_logo_like(url@),
    {
        url_looks_like_logo(url)
    }

    /// Walks a JSON-LD value for logos (see `json_search`).
    pub fn extract_from_json(&mut self, val: &JsonValue)
        ensures
            final(self)@ == json_search(old(self)@, val@),
        decreases val,
    {
        proof {
            lemma_container_views(*val);
        }
        match val {
            JsonValue::Object(obj) => {
                if let Some(u) = object_logo_exec(obj) {
                    let normalized = normalize_url(self.base_url, u.as_str());
                    self.set_logo(normalized, LogoPriority::JsonLd);
                    return;
                }
                let ghost m = members_view(obj@);
                let n: usize = obj.len();
                let mut i: usize = 0;
                assert(m.take(0) =~= Seq::<(Seq<char>, JsonView)>::empty());
                while i < n
                    invariant
                        n == obj@.len(),
                        i <= n,
                        m == members_view(obj@),
                        val@ == JsonView::Object(m),
                        *val == JsonValue::Object(*obj),
                        object_logo(m) is None,
                        self@ == json_search_members(old(self)@, m.take(i as int)),
                    decreases n - i,
                {
                    proof {
                        assert(decreases_to!(*val => val->Object_0));
                        assert(val->Object_0 == *obj);
                        assert(decreases_to!(obj => obj@));
                        assert(decreases_to!(obj@ => obj@[i as int]));
                        assert(decreases_to!(obj@[i as int] => obj@[i as int].1));
                        assert(decreases_to!(*val => obj@[i as int].1));
                    }
                    self.extract_from_json(&obj[i].1);
                    assert(m.take(i + 1).drop_last() =~= m.take(i as int));
                    i = i + 1;
                }
                assert(m.take(n as int) =~= m);
            },
            JsonValue::Array(arr) => {
                let ghost m = items_view(arr@);
                let n: usize = arr.len();
                let mut i: usize = 0;
                assert(m.take(0) =~= Seq::<JsonView>::empty());
                while i < n
                    invariant
                        n == arr@.len(),
                        i <= n,
                        m == items_view(arr@),
                        val@ == JsonView::Array(m),
                        *val == JsonValue::Array(*arr),
                        self@ == json_search_items(old(self)@, m.take(i as int)),
                    decreases n - i,
                {
                    proof {
                        assert(decreases_to!(*val => val->Array_0));
                        assert(val->Array_0 == *arr);
                        assert(decreases_to!(arr => arr@));
                        assert(decreases_to!(arr@ => arr@[i as int]));
                        assert(decreases_to!(*val => arr@[i as int]));
                    }
                    self.extract_from_json(&arr[i]);
                    assert(m.take(i + 1).drop_last() =~= m.take(i as int));
                    i = i + 1;
                }
                assert(m.take(n as int) =~= m);
            },
            _ => {},
        }
    }

    /// Handles a `<script>` start tag (see `script_tag`).
    fn check_json_ld(&mut self, attrs: &Vec<(Vec<u8>, Vec<u8>)>)
        ensures
            final(self)@ == script_tag(old(self)@, attributes_view(attrs@)),
    {
        let ghost a = attributes_view(attrs@);
        let n: usize = attrs.len();
        let mut i: usize = 0;
        let mut found: bool = false;
        while i < n
            invariant
                n == attrs@.len(),
                a == attributes_view(attrs@),
                i <= n,
                found <==> exists|j: int|
                    0 <= j < i && marks_json_ld(folded(#[trigger] a[j].0), folded(a[j].1)),
            decreases n - i,
        {
            let k = folded_chars(attrs[i].0.as_slice());
            let v = folded_chars(attrs[i].1.as_slice());
            assert(a[i as int] == (attrs@[i as int].0@, attrs@[i as int].1@));
            let hit = is_json_ld_marker(&k, &v);
            assert(hit == marks_json_ld(folded(a[i as int].0), folded(a[i as int].1)));
            if hit {
                found = true;
            }
            i = i + 1;
        }
        if found {
            self.in_json_ld = true;
        }
    }

    /// Handles a `<link>` tag (see `link_tag`).
    fn check_link(&mut self, attrs: &Vec<(Vec<u8>, Vec<u8>)>)
        ensures
            final(self)@ == link_tag(old(self)@, attributes_view(attrs@)),
    {
        let ghost a = attributes_view(attrs@);
        let rel_key = chars_of("rel");
        let href_key = chars_of("href");
        let sizes_key = chars_of("sizes");
        let mut rel: Vec<char> = Vec::new();
        let mut href: Vec<char> = Vec::new();
        let mut sizes: Vec<char> = Vec::new();
        let n: usize = attrs.len();
        let mut i: usize = 0;
        while i < n
            invariant
                n == attrs@.len(),
                a == attributes_view(attrs@),
                rel_key@ == "rel"@,
                href_key@ == "href"@,
                sizes_key@ == "sizes"@,
                i <= n,
                rel@ == folded_or_empty(last_attr(a.take(i as int), "rel"@)),
                href@ == lossy_or_empty(last_attr(a.take(i as int), "href"@)),
                sizes@ == folded_or_empty(last_attr(a.take(i as int), "sizes"@)),
            decreases n - i,
        {
            let k = folded_chars(attrs[i].0.as_slice());
            assert(a[i as int] == (attrs@[i as int].0@, attrs@[i as int].1@));
            proof {
                lemma_last_attr_step(a, i as int, "rel"@, "rel"@);
                lemma_last_attr_step(a, i as int, "href"@, "href"@);
                lemma_last_attr_step(a, i as int, "sizes"@, "sizes"@);
            }
            if chars_eq(&k, &rel_key) {
                rel = folded_chars(attrs[i].1.as_slice());
            }
            if chars_eq(&k, &href_key) {
                href = lossy_chars(attrs[i].1.as_slice());
            }
            if chars_eq(&k, &sizes_key) {
                sizes = folded_chars(attrs[i].1.as_slice());
            }
            i = i + 1;
        }
        assert(a.take(n as int) =~= a);
        let (manifest, candidate) = decide_link(self.base_url, &rel, &href, &sizes);
        if let Some(m) = manifest {
            self.manifest_url = Some(m);
        }
        if let Some((url, priority)) = candidate {
            self.set_logo(url, priority);
        }
    }

    /// Handles a `<meta>` tag (see `meta_tag`).
    fn check_meta(&mut self, attrs: &Vec<(Vec<u8>, Vec<u8>)>)
        ensures
            final(self)@ == meta_tag(old(self)@, attributes_view(attrs@)),
    {
        let ghost a = attributes_view(attrs@);
        let name_key = chars_of("name");
        let property_key = chars_of("property");
        let content_key = chars_of("content");
        let mut name_or_prop: Option<Vec<char>> = None;
        let mut content: Option<Vec<char>> = None;
        let n: usize = attrs.len();
        let mut i: usize = 0;
        while i < n
            invariant
                n == attrs@.len(),
                a == attributes_view(attrs@),
                name_key@ == "name"@,
                property_key@ == "property"@,
                content_key@ == "content"@,
                i <= n,
                match last_attr_either(a.take(i as int), "name"@, "property"@) {
                    Some(v) => name_or_prop matches Some(x) && x@ == folded(v),
                    None => name_or_prop is None,
                },
                match last_attr(a.take(i as int), "content"@) {
                    Some(v) => content matches Some(x) && x@ == lossy(v),
                    None => content is None,
                },
            decreases n - i,
        {
            let k = folded_chars(attrs[i].0.as_slice());
            assert(a[i as int] == (attrs@[i as int].0@, attrs@[i as int].1@));
            proof {
                lemma_last_attr_step(a, i as int, "name"@, "property"@);
                lemma_last_attr_step(a, i as int, "content"@, "content"@);
            }
            if chars_eq(&k, &name_key) || chars_eq(&k, &property_key) {
                name_or_prop = Some(folded_chars(attrs[i].1.as_slice()));
            }
            if chars_eq(&k, &content_key) {
                content = Some(lossy_chars(attrs[i].1.as_slice()));
            }
            i = i + 1;
        }
        assert(a.take(n as int) =~= a);
        if let Some((url, priority)) = decide_meta(self.base_url, &name_or_prop, &content) {
            self.set_logo(url, priority);
        }
    }

    /// Handles an `<img>` tag (see `img_tag`).
    fn check_img(&mut self, attrs: &Vec<(Vec<u8>, Vec<u8>)>)
        ensures
            final(self)@ == img_tag(old(self)@, attributes_view(attrs@)),
    {
        let ghost a = attributes_view(attrs@);
        let itemprop_key = chars_of("itemprop");
        let src_key = chars_of("src");
        let mut itemprop: Option<Vec<char>> = None;
        let mut src: Option<Vec<char>> = None;
        let n: usize = attrs.len();
        let mut i: usize = 0;
        while i < n
            invariant
                n == attrs@.len(),
                a == attributes_view(attrs@),
                itemprop_key@ == "itemprop"@,
                src_key@ == "src"@,
                i <= n,
                match last_attr(a.take(i as int), "itemprop"@) {
                    Some(v) => itemprop matches Some(x) && x@ == folded(v),
                    None => itemprop is None,
                },
                match last_attr(a.take(i as int), "src"@) {
                    Some(v) => src matches Some(x) && x@ == lossy(v),
                    None => src is None,
                },
            decreases n - i,
        {
            let k = folded_chars(attrs[i].0.as_slice());
            assert(a[i as int] == (attrs@[i as int].0@, attrs@[i as int].1@));
            proof {
                lemma_last_attr_step(a, i as int, "itemprop"@, "itemprop"@);
                lemma_last_attr_step(a, i as int, "src"@, "src"@);
            }
            if chars_eq(&k, &itemprop_key) {
                itemprop = Some(folded_chars(attrs[i].1.as_slice()));
            }
            if chars_eq(&k, &src_key) {
                src = Some(lossy_chars(attrs[i].1.as_slice()));
            }
            i = i + 1;
        }
        assert(a.take(n as int) =~= a);
        if let Some((url, priority)) = decide_img(self.base_url, &itemprop, &src) {
            self.set_logo(url, priority);
        }
    }

    /// Handles a start tag (see `start_tag`).
    pub fn handle_start(&mut self, name: &Vec<u8>, attributes: &Vec<(Vec<u8>, Vec<u8>)>)
        ensures
            final(self)@ == start_tag(old(self)@, name@, attributes_view(attributes@)),
    {
        let n = folded_chars(name.as_slice());
        if chars_eq(&n, &chars_of("script")) {
            self.check_json_ld(attributes);
        } else if chars_eq(&n, &chars_of("link")) {
            self.check_link(attributes);
        } else if chars_eq(&n, &chars_of("meta")) {
            self.check_meta(attributes);
        } else if chars_eq(&n, &chars_of("img")) {
            self.check_img(attributes);
        }
    }

    /// Handles an end tag (see `end_tag`).
    pub fn handle_end(&mut self, name: &Vec<u8>)
        ensures
            final(self)@ == end_tag(old(self)@, name@),
    {
        let n = lossy_chars(name.as_slice());
        if eq_ignore_ascii_case(&n, &chars_of("script")) {
            self.in_json_ld = false;
        }
    }

    /// Handles a run of text (see `text_run`).
    pub fn handle_text(&mut self, bytes: &Vec<u8>)
        ensures
            final(self)@ == text_run(old(self)@, bytes@),
    {
        if !self.in_json_ld {
            return;
        }
        if let Some(json) = parse_json(bytes.as_slice()) {
            self.extract_from_json(&json);
        }
    }

    /// What the search reports once the page is done.
    pub fn finish(self) -> (r: ExtractedData)
        ensures
            r@ == report(self@),
    {
        match self.logo {
            Some((url, p)) => ExtractedData {
                logo_url: Some(url),
                manifest_url: self.manifest_url,
                priority: Some(p),
            },
            None => ExtractedData { logo_url: None, manifest_url: self.manifest_url, priority: None },
        }
    }
}

/// The kept logo, if any, has a non-empty URL.
pub open spec fn logo_nonempty(st: ParserState) -> bool {
    st.logo matches Some((u, _)) ==> u.len() > 0
}

/// The JSON-LD search never keeps an empty URL.
pub proof fn lemma_json_search_nonempty(st: ParserState, v: JsonView)
    requires
        logo_nonempty(st),
    ensures
        logo_nonempty(json_search(st, v)),
    decreases v,
{
    match v {
        JsonView::Object(entries) => {
            if object_logo(entries) is None {
                lemma_json_search_members_nonempty(st, entries);
            }
        },
        JsonView::Array(items) => {
            lemma_json_search_items_nonempty(st, items);
        },
        _ => {},
    }
}

proof fn lemma_json_search_items_nonempty(st: ParserState, items: Seq<JsonView>)
    requires
        logo_nonempty(st),
    ensures
        logo_nonempty(json_search_items(st, items)),
    decreases items,
{
    if items.len() > 0 {
        lemma_json_search_items_nonempty(st, items.drop_last());
        lemma_json_search_nonempty(json_search_items(st, items.drop_last()), items.last());
    }
}

proof fn lemma_json_search_members_nonempty(st: ParserState, entries: Seq<(Seq<char>, JsonView)>)
    requires
        logo_nonempty(st),
    ensures
        logo_nonempty(json_search_members(st, entries)),
    decreases entries,
{
    if entries.len() > 0 {
        lemma_json_search_members_nonempty(st, entries.drop_last());
        lemma_json_search_nonempty(json_search_members(st, entries.drop_last()), entries.last().1);
    }
}

/// Whatever the page holds, the search never keeps an empty URL as a logo.
pub proof fn lemma_run_tokens_nonempty(st: ParserState, ts: Seq<TokenView>)
    requires
        logo_nonempty(st),
    ensures
        logo_nonempty(run_tokens(st, ts)),
    decreases ts.len(),
{
    if ts.len() > 0 {
        lemma_run_tokens_nonempty(st, ts.drop_last());
        let mid = run_tokens(st, ts.drop_last());
        match ts.last() {
            TokenView::Text(b) => {
                if mid.in_json_ld {
                    if let Some(v) = json_parse(b) {
                        lemma_json_search_nonempty(mid, v);
                    }
                }
            },
            _ => {},
        }
    }
}

/// The logo candidates that a JSON-LD value offers, in the order in which the
/// search meets them.
pub open spec fn json_candidates(base: Seq<char>, v: JsonView) -> Seq<Candidate>
    decreases v,
{
    match v {
        JsonView::Object(entries) => match object_logo(entries) {
            Some(u) => seq![(normalized_url(base, u), LogoPriority::JsonLd)],
            None => json_member_candidates(base, entries),
        },
        JsonView::Array(items) => json_item_candidates(base, items),
        _ => Seq::empty(),
    }
}

/// The candidates that the items of an array offer, in order.
pub open spec fn json_item_candidates(base: Seq<char>, items: Seq<JsonView>) -> Seq<Candidate>
    decreases items,
{
    if items.len() == 0 {
        Seq::empty()
    } else {
        json_item_candidates(base, items.drop_last()) + json_candidates(base, items.last())
    }
}

/// The candidates that the member values of an object offer, in order.
pub open spec fn json_member_candidates(
    base: Seq<char>,
    entries: Seq<(Seq<char>, JsonView)>,
) -> Seq<Candidate>
    decreases entries,
{
    if entries.len() == 0 {
        Seq::empty()
    } else {
        json_member_candidates(base, entries.drop_last()) + json_candidates(
            base,
            entries.last().1,
        )
    }
}

/// The logo candidate that a start tag offers.
pub open spec fn start_candidate(
    base: Seq<char>,
    name: Seq<u8>,
    attrs: Seq<(Seq<u8>, Seq<u8>)>,
) -> Option<Candidate> {
    let n = folded(name);
    if n == "script"@ {
        None
    } else if n == "link"@ {
        link_candidate(base, attrs)
    } else if n == "meta"@ {
        meta_candidate(base, attrs)
    } else if n == "img"@ {
        img_candidate(base, attrs)
    } else {
        None
    }
}

/// The logo candidates that a token offers when met in the state `st`.
pub open spec fn token_candidates(st: ParserState, t: TokenView) -> Seq<Candidate> {
    match t {
        TokenView::StartTag { name, attributes } => match start_candidate(
            st.base,
            name,
            attributes,
        ) {
            Some(c) => seq![c],
            None => Seq::empty(),
        },
        TokenView::Text(b) => if st.in_json_ld {
            match json_parse(b) {
                Some(v) => json_candidates(st.base, v),
                None => Seq::empty(),
            }
        } else {
            Seq::empty()
        },
        _ => Seq::empty(),
    }
}

/// All the logo candidates that the page at `base` made of the tokens `ts`
/// offers, in document order.
pub open spec fn page_candidates(base: Seq<char>, ts: Seq<TokenView>) -> Seq<Candidate>
    decreases ts.len(),
{
    if ts.len() == 0 {
        Seq::empty()
    } else {
        page_candidates(base, ts.drop_last()) + token_candidates(
            run_tokens(initial_state(base), ts.drop_last()),
            ts.last(),
        )
    }
}

proof fn lemma_offer_all_concat(kept: KeptLogo, a: Seq<Candidate>, b: Seq<Candidate>)
    ensures
        offer_all(kept, a + b) == offer_all(offer_all(kept, a), b),
    decreases b.len(),
{
    if b.len() == 0 {
        assert(a + b =~= a);
    } else {
        assert((a + b).drop_last() =~= a + b.drop_last());
        assert((a + b).last() == b.last());
        lemma_offer_all_concat(kept, a, b.drop_last());
    }
}

proof fn lemma_offer_all_single(kept: KeptLogo, c: Candidate)
    ensures
        offer_all(kept, seq![c]) == offer(kept, c.0, c.1),
{
    assert(seq![c].drop_last() =~= Seq::<Candidate>::empty());
    assert(offer_all(kept, Seq::<Candidate>::empty()) == kept);
    assert(seq![c].last() == c);
}

/// The JSON-LD search keeps what offering its candidates in order keeps.
pub proof fn lemma_json_search_offers(st: ParserState, v: JsonView)
    ensures
        json_search(st, v).logo == offer_all(st.logo, json_candidates(st.base, v)),
    decreases v,
{
    match v {
        JsonView::Object(entries) => {
            match object_logo(entries) {
                Some(u) => {
                    lemma_offer_all_single(
                        st.logo,
                        (normalized_url(st.base, u), LogoPriority::JsonLd),
                    );
                },
                None => {
                    lemma_json_members_offer(st, entries);
                },
            }
        },
        JsonView::Array(items) => {
            lemma_json_items_offer(st, items);
        },
        _ => {},
    }
}

proof fn lemma_json_candidates_json_ld(base: Seq<char>, v: JsonView)
    ensures
        forall|i: int|
            0 <= i < json_candidates(base, v).len() ==> #[trigger] json_candidates(base, v)[i].1
                == LogoPriority::JsonLd,
    decreases v,
{
    match v {
        JsonView::Object(entries) => {
            if object_logo(entries) is None {
                lemma_json_member_candidates_json_ld(base, entries);
            }
        },
        JsonView::Array(items) => {
            lemma_json_item_candidates_json_ld(base, items);
        },
        _ => {},
    }
}

proof fn lemma_json_item_candidates_json_ld(base: Seq<char>, items: Seq<JsonView>)
    ensures
        forall|i: int|
            0 <= i < json_item_candidates(base, items).len() ==> #[trigger] json_item_candidates(
                base,
                items,
            )[i].1 == LogoPriority::JsonLd,
    decreases items,
{
    if items.len() > 0 {
        lemma_json_item_candidates_json_ld(base, items.drop_last());
        lemma_json_candidates_json_ld(base, items.last());
        let x = json_item_candidates(base, items.drop_last());
        let y = json_candidates(base, items.last());
        assert forall|i: int| 0 <= i < (x + y).len() implies #[trigger] (x + y)[i].1
            == LogoPriority::JsonLd by {
            if i >= x.len() {
                assert((x + y)[i] == y[i - x.len()]);
            }
        }
    }
}

proof fn lemma_json_member_candidates_json_ld(base: Seq<char>, entries: Seq<(Seq<char>, JsonView)>)
    ensures
        forall|i: int|
            0 <= i < json_member_candidates(base, entries).len() ==> #[trigger] json_member_candidates(
                base,
                entries,
            )[i].1 == LogoPriority::JsonLd,
    decreases entries,
{
    if entries.len() > 0 {
        lemma_json_member_candidates_json_ld(base, entries.drop_last());
        lemma_json_candidates_json_ld(base, entries.last().1);
        let x = json_member_candidates(base, entries.drop_last());
        let y = json_candidates(base, entries.last().1);
        assert forall|i: int| 0 <= i < (x + y).len() implies #[trigger] (x + y)[i].1
            == LogoPriority::JsonLd by {
            if i >= x.len() {
                assert((x + y)[i] == y[i - x.len()]);
            }
        }
    }
}

proof fn lemma_offer_all_keeps_or_takes(kept: KeptLogo, cands: Seq<Candidate>)
    ensures
        offer_all(kept, cands) == kept || exists|i: int|
            0 <= i < cands.len() && cands[i].0.len() > 0 && offer_all(kept, cands) == Some(
                #[trigger] cands[i],
            ),
    decreases cands.len(),
{
    if cands.len() > 0 {
        let prev = cands.drop_last();
        lemma_offer_all_keeps_or_takes(kept, prev);
        if offer_all(kept, prev) != kept {
            let i = choose|i: int|
                0 <= i < prev.len() && prev[i].0.len() > 0 && offer_all(kept, prev) == Some(
                    #[trigger] prev[i],
                );
            assert(cands[i] == prev[i]);
        }
        assert(cands[cands.len() - 1] == cands.last());
    }
}

/// The JSON-LD walk changes nothing but the kept logo, and changes that only
/// to a non-empty URL found with the priority `JsonLd`.
pub proof fn lemma_json_search_only_json_ld(st: ParserState, v: JsonView)
    ensures
        json_search(st, v) == (ParserState { logo: json_search(st, v).logo, ..st }),
        json_search(st, v).logo != st.logo ==> (json_search(st, v).logo matches Some((u, p))
            && u.len() > 0 && p == LogoPriority::JsonLd),
{
    lemma_json_search_frame(st, v);
    lemma_json_search_offers(st, v);
    lemma_json_candidates_json_ld(st.base, v);
    lemma_offer_all_keeps_or_takes(st.logo, json_candidates(st.base, v));
}

proof fn lemma_json_items_offer(st: ParserState, items: Seq<JsonView>)
    ensures
        json_search_items(st, items).logo == offer_all(
            st.logo,
            json_item_candidates(st.base, items),
        ),
    decreases items,
{
    if items.len() > 0 {
        let prev = items.drop_last();
        let mid = json_search_items(st, prev);
        lemma_json_items_offer(st, prev);
        lemma_json_search_items_frame(st, prev);
        lemma_json_search_offers(mid, items.last());
        lemma_offer_all_concat(
            st.logo,
            json_item_candidates(st.base, prev),
            json_candidates(st.base, items.last()),
        );
    }
}

proof fn lemma_json_members_offer(st: ParserState, entries: Seq<(Seq<char>, JsonView)>)
    ensures
        json_search_members(st, entries).logo == offer_all(
            st.logo,
            json_member_candidates(st.base, entries),
        ),
    decreases entries,
{
    if entries.len() > 0 {
        let prev = entries.drop_last();
        let mid = json_search_members(st, prev);
        lemma_json_members_offer(st, prev);
        lemma_json_search_members_frame(st, prev);
        lemma_json_search_offers(mid, entries.last().1);
        lemma_offer_all_concat(
            st.logo,
            json_member_candidates(st.base, prev),
            json_candidates(st.base, entries.last().1),
        );
    }
}

proof fn lemma_token_step_offers(st: ParserState, t: TokenView)
    ensures
        token_step(st, t).logo == offer_all(st.logo, token_candidates(st, t)),
{
    match t {
        TokenView::StartTag { name, attributes } => {
            if let Some(c) = start_candidate(st.base, name, attributes) {
                lemma_offer_all_single(st.logo, c);
            }
        },
        TokenView::Text(b) => {
            if st.in_json_ld {
                if let Some(v) = json_parse(b) {
                    lemma_json_search_offers(st, v);
                }
            }
        },
        _ => {},
    }
}

/// Reading a page keeps exactly what offering the page's candidates, in
/// document order, to an empty search keeps.
pub proof fn lemma_run_tokens_offers(base: Seq<char>, ts: Seq<TokenView>)
    ensures
        run_tokens(initial_state(base), ts).logo == offer_all(None, page_candidates(base, ts)),
    decreases ts.len(),
{
    if ts.len() > 0 {
        let prev = ts.drop_last();
        let mid = run_tokens(initial_state(base), prev);
        lemma_run_tokens_offers(base, prev);
        lemma_token_step_offers(mid, ts.last());
        lemma_offer_all_concat(
            None,
            page_candidates(base, prev),
            token_candidates(mid, ts.last()),
        );
    }
}

/// The logo a page reports is the first candidate of the best priority among
/// all the non-empty candidates the page offers, with that priority; and the
/// page reports no logo exactly when it offers no non-empty candidate.
pub proof fn lemma_site_report_is_first_best(base: Seq<char>, ts: Seq<TokenView>)
    ensures
        ({
            let cands = page_candidates(base, ts);
            let r = site_report(base, ts);
            &&& r.logo_url is None <==> forall|i: int|
                0 <= i < cands.len() ==> #[trigger] cands[i].0.len() == 0
            &&& r.logo_url matches Some(u) ==> exists|i: int|
                is_first_best(cands, i) && cands[i] == (u, r.priority->0)
        }),
{
    lemma_run_tokens_offers(base, ts);
    lemma_offer_all_keeps_first_best(page_candidates(base, ts));
}

/// Runs the search over the tokens of a page at `base_url`.
pub fn extract_from_tokens(tokens: &TokenStream, base_url: &str) -> (r: ExtractedData)
    ensures
        r@ == site_report(base_url@, tokens@),
        r@.logo_url is Some <==> r@.priority is Some,
        r@.logo_url matches Some(u) ==> u.len() > 0,
{
    proof {
        lemma_run_tokens_nonempty(initial_state(base_url@), tokens@);
    }
    let mut parser = Parser::new(base_url);
    let n: usize = tokens.tokens.len();
    let mut i: usize = 0;
    while i < n
        invariant
            n == tokens.tokens@.len(),
            n == tokens@.len(),
            i <= n,
            parser@ == run_tokens(initial_state(base_url@), tokens@.take(i as int)),
        decreases n - i,
    {
        assert(tokens@.take(i + 1).drop_last() =~= tokens@.take(i as int));
        assert(tokens@[i as int] == tokens.tokens@[i as int]@);
        match &tokens.tokens[i] {
            HtmlToken::StartTag { name, attributes } => parser.handle_start(name, attributes),
            HtmlToken::EndTag { name } => parser.handle_end(name),
            HtmlToken::Text(bytes) => parser.handle_text(bytes),
            HtmlToken::Other => {},
        }
        i = i + 1;
    }
    assert(tokens@.take(n as int) =~= tokens@);
    parser.finish()
}

/// Searches the HTML page `html`, found at `base_url`, for its logo and its
/// web-app manifest: the page is split into tokens by `html5gum` and the
/// tokens are searched in order (see `site_report`).
pub fn extract_site_data(html: &str, base_url: &str) -> (r: ExtractedData)
    ensures
        r@ == site_report(base_url@, html_tokens(html@)),
        r@.logo_url is Some <==> r@.priority is Some,
        r@.logo_url matches Some(u) ==> u.len() > 0,
{
    let tokens = tokenize(html);
    extract_from_tokens(&tokens, base_url)
}

} // verus!
