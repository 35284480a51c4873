//! The rules of the logo search stated over their inputs: which tag offers
//! which candidate at which priority, how JSON-LD names a logo, how priorities
//! rank, how a manifest icon is chosen, and which URLs look like logos.

use vstd::prelude::*;
use crate::crawl::wants_manifest;
use crate::extractor::{
    has_banner_mark, has_logo_hint, img_candidate_of, json_search, link_candidate_of,
    link_manifest_of, logo_member_url, looks_like_logo, meta_candidate_of, object_logo,
    offer, ExtractedView, LogoPriority, ParserState,
};
use crate::json::{lookup, JsonView};
use crate::manifest::{
    best_icon, icon_size, icon_src, lemma_best_icon_is_last_largest, manifest_icon, member_str,
};
use crate::text::{has_prefix, has_sub, strip_trailing, trim};
use crate::utils::{
    before_x, digit_value, digits_value, icon_dimension, is_digit, is_rejected_path,
    max_icon_size, normalized_url, parse_bounded, unsigned_digits, words,
};
use crate::text::{ascii_fold, is_ws};
use crate::extractor::{end_tag, marks_json_ld, text_run, script_tag, declares_json_ld};
use crate::json::json_parse;

verus! {

/// The words of a non-empty text without whitespace are that text alone.
pub proof fn lemma_words_of_one_entry(w: Seq<char>)
    requires
        w.len() > 0,
        forall|i: int| 0 <= i < w.len() ==> !is_ws(#[trigger] w[i]),
    ensures
        words(w) == seq![w],
    decreases w.len(),
{
    assert(!is_ws(w[w.len() - 1]));
    if w.len() == 1 {
        assert(w.drop_last() =~= Seq::<char>::empty());
        assert(words(w.drop_last()) == Seq::<Seq<char>>::empty());
        assert(seq![w.last()] =~= w);
        assert(Seq::<Seq<char>>::empty().push(seq![w.last()]) =~= seq![w]);
    } else {
        let p = w.drop_last();
        assert forall|i: int| 0 <= i < p.len() implies !is_ws(#[trigger] p[i]) by {
            assert(p[i] == w[i]);
        }
        assert(!is_ws(w[w.len() - 2]));
        lemma_words_of_one_entry(p);
        assert(w[w.len() - 2] == p.last());
        assert(p.push(w.last()) =~= w);
        assert(seq![p].drop_last().push(p.push(w.last())) =~= seq![w]);
    }
}

/// The characters before the first `x` of `d`, `x`, `h`, when `d` holds no
/// `x`, are `d`.
pub proof fn lemma_before_x_split(d: Seq<char>, h: Seq<char>)
    requires
        forall|i: int| 0 <= i < d.len() ==> #[trigger] d[i] != 'x',
    ensures
        before_x(d + seq!['x'] + h) == d,
    decreases d.len(),
{
    let w = d + seq!['x'] + h;
    if d.len() == 0 {
        assert(w[0] == 'x');
    } else {
        let rest = d.drop_first();
        lemma_before_x_split(rest, h);
        assert(w.drop_first() =~= rest + seq!['x'] + h);
        assert(seq![d[0]] + rest =~= d);
    }
}

/// A `sizes` value made of one entry announces that entry's size. The entry
/// `any`, in any ASCII case, announces the largest `u32`; an entry `WxH`
/// whose width `W` is a run of decimal digits announces the number `W`
/// writes (most significant digit first), when it fits a `u32`, and 0 when it
/// does not.
pub proof fn lemma_entry_rules(w: Seq<char>, d: Seq<char>, h: Seq<char>)
    ensures
        w.len() > 0 && (forall|i: int| 0 <= i < w.len() ==> !is_ws(#[trigger] w[i]))
            ==> max_icon_size(w) == icon_dimension(w),
        w.len() == 3 && ascii_fold(w[0]) == 97 && ascii_fold(w[1]) == 110 && ascii_fold(w[2])
            == 121 ==> icon_dimension(w) == u32::MAX,
        d.len() > 0 && (forall|i: int| 0 <= i < d.len() ==> is_digit(#[trigger] d[i]))
            ==> icon_dimension(d + seq!['x'] + h) == if digits_value(d) <= u32::MAX {
            digits_value(d)
        } else {
            0
        },
        digits_value(Seq::<char>::empty()) == 0,
        d.len() > 0 ==> digits_value(d) == digits_value(d.drop_last()) * 10 + digit_value(
            d.last(),
        ),
        forall|c: char| is_digit(c) ==> digit_value(c) == (c as u32) - 48,
{
    if w.len() > 0 && (forall|i: int| 0 <= i < w.len() ==> !is_ws(#[trigger] w[i])) {
        lemma_words_of_one_entry(w);
        assert(seq![w].drop_last() =~= Seq::<Seq<char>>::empty());
        assert(crate::utils::max_dimension(Seq::<Seq<char>>::empty()) == 0);
        assert(seq![w].last() == w);
    }
    if w.len() == 3 && ascii_fold(w[0]) == 97 && ascii_fold(w[1]) == 110 && ascii_fold(w[2])
        == 121 {
        assert(crate::text::eq_ascii_nocase(w, seq!['a', 'n', 'y']));
    }
    if d.len() > 0 && (forall|i: int| 0 <= i < d.len() ==> is_digit(#[trigger] d[i])) {
        lemma_before_x_split(d, h);
        let w2 = d + seq!['x'] + h;
        assert(!crate::text::eq_ascii_nocase(w2, seq!['a', 'n', 'y'])) by {
            if w2.len() == 3 {
                assert(is_digit(d[0]));
                assert(w2[0] == d[0]);
            }
        }
        assert(d[0] != '+');
        assert(unsigned_digits(d) == d);
    }
}

/// `</script>` in any ASCII case, and only that end tag, closes JSON-LD; a
/// `<script>` opens it exactly when an attribute named `type` has a value
/// containing `application/ld+json`; text is searched only while it is open,
/// and only when it parses as JSON.
pub proof fn lemma_script_rules(
    st: ParserState,
    name: Seq<u8>,
    attrs: Seq<(Seq<u8>, Seq<u8>)>,
    key: Seq<char>,
    value: Seq<char>,
    bytes: Seq<u8>,
)
    ensures
        marks_json_ld(key, value) <==> key == "type"@ && has_sub(value, "application/ld+json"@),
        script_tag(st, attrs).in_json_ld == (st.in_json_ld || declares_json_ld(attrs)),
        script_tag(st, attrs).logo == st.logo,
        end_tag(st, name).in_json_ld == (st.in_json_ld && !crate::text::eq_ascii_nocase(
            crate::text::utf8_lossy(name),
            "script"@,
        )),
        end_tag(st, name).logo == st.logo,
        !st.in_json_ld ==> text_run(st, bytes) == st,
        json_parse(bytes) is None ==> text_run(st, bytes) == st,
        st.in_json_ld && json_parse(bytes) is Some ==> text_run(st, bytes) == json_search(
            st,
            json_parse(bytes)->0,
        ),
{
}

/// The sources rank in this order, best first: JSON-LD, manifest icon,
/// apple-touch-icon, tile image, `image_src`, large icon, square social
/// image, schema image. So a candidate replaces a kept logo exactly when its
/// source comes earlier in this list.
pub proof fn lemma_priority_order()
    ensures
        LogoPriority::JsonLd.rank() < LogoPriority::ManifestIcon.rank(),
        LogoPriority::ManifestIcon.rank() < LogoPriority::AppleTouchIcon.rank(),
        LogoPriority::AppleTouchIcon.rank() < LogoPriority::MsTile.rank(),
        LogoPriority::MsTile.rank() < LogoPriority::ImageSrc.rank(),
        LogoPriority::ImageSrc.rank() < LogoPriority::LargeIcon.rank(),
        LogoPriority::LargeIcon.rank() < LogoPriority::SquareOgImage.rank(),
        LogoPriority::SquareOgImage.rank() < LogoPriority::SchemaImage.rank(),
        LogoPriority::JsonLd.rank() == 0,
        LogoPriority::SchemaImage.rank() == 7,
{
}

/// A non-empty candidate replaces the kept logo exactly when its priority
/// ranks strictly better; an empty one never does.
pub proof fn lemma_offer_replaces_only_better(
    u: Seq<char>,
    q: LogoPriority,
    v: Seq<char>,
    p: LogoPriority,
)
    ensures
        v.len() > 0 ==> (offer(Some((u, q)), v, p) == Some((v, p)) || offer(Some((u, q)), v, p)
            == Some((u, q))),
        v.len() > 0 && p.rank() < q.rank() ==> offer(Some((u, q)), v, p) == Some((v, p)),
        p.rank() >= q.rank() ==> offer(Some((u, q)), v, p) == Some((u, q)),
        v.len() == 0 ==> offer(Some((u, q)), v, p) == Some((u, q)),
        v.len() > 0 ==> offer(None, v, p) == Some((v, p)),
{
}

/// What a `<link>` gives, by its lowercased `rel`, its `href` and its
/// lowercased `sizes`: nothing without an `href`; a `manifest` link records
/// its normalised `href` and offers nothing; otherwise a `rel` that contains
/// `apple-touch-icon` (whatever else it holds) offers the normalised `href` as
/// an apple-touch-icon; `image_src` offers it as such; a `rel` that contains
/// `icon`, `shortcut` or `mask-icon` offers it as a large icon exactly when the
/// sizes announce at least 128; any other `rel` offers nothing.
pub proof fn lemma_link_rules(base: Seq<char>, rel: Seq<char>, href: Seq<char>, sizes: Seq<char>)
    ensures
        href.len() == 0 ==> link_manifest_of(base, rel, href) is None && link_candidate_of(
            base,
            rel,
            href,
            sizes,
        ) is None,
        href.len() > 0 && rel == "manifest"@ ==> link_manifest_of(base, rel, href) == Some(
            normalized_url(base, href),
        ) && link_candidate_of(base, rel, href, sizes) is None,
        rel != "manifest"@ ==> link_manifest_of(base, rel, href) is None,
        href.len() > 0 && rel != "manifest"@ && has_sub(rel, "apple-touch-icon"@)
            ==> link_candidate_of(base, rel, href, sizes) == Some(
            (normalized_url(base, href), LogoPriority::AppleTouchIcon),
        ),
        href.len() > 0 && !has_sub(rel, "apple-touch-icon"@) && rel == "image_src"@
            ==> link_candidate_of(base, rel, href, sizes) == Some(
            (normalized_url(base, href), LogoPriority::ImageSrc),
        ),
        href.len() > 0 && rel != "manifest"@ && !has_sub(rel, "apple-touch-icon"@) && rel
            != "image_src"@ && (has_sub(rel, "icon"@) || has_sub(rel, "shortcut"@) || has_sub(
            rel,
            "mask-icon"@,
        )) ==> link_candidate_of(base, rel, href, sizes) == if max_icon_size(sizes) >= 128 {
            Some((normalized_url(base, href), LogoPriority::LargeIcon))
        } else {
            None
        },
        !has_sub(rel, "apple-touch-icon"@) && rel != "image_src"@ && !has_sub(rel, "icon"@)
            && !has_sub(rel, "shortcut"@) && !has_sub(rel, "mask-icon"@) ==> link_candidate_of(
            base,
            rel,
            href,
            sizes,
        ) is None,
{
    reveal_strlit("image_src");
    reveal_strlit("manifest");
    assert("image_src"@.len() != "manifest"@.len());
}

/// What a `<meta>` offers, by its lowercased `name`/`property` and its
/// `content`: a tile image always, with priority `MsTile`; an `og:image` or
/// `twitter:image` exactly when its content looks like a logo, as a square
/// social image; nothing for any other property or without both attributes.
pub proof fn lemma_meta_rules(base: Seq<char>, prop: Option<Seq<char>>, content: Option<Seq<char>>)
    ensures
        (prop is None || content is None) ==> meta_candidate_of(base, prop, content) is None,
        prop == Some("msapplication-tileimage"@) && content is Some ==> meta_candidate_of(
            base,
            prop,
            content,
        ) == Some((normalized_url(base, content->0), LogoPriority::MsTile)),
        (prop == Some("og:image"@) || prop == Some("twitter:image"@)) && content is Some
            ==> meta_candidate_of(base, prop, content) == if looks_like_logo(content->0) {
            Some((normalized_url(base, content->0), LogoPriority::SquareOgImage))
        } else {
            None
        },
        prop is Some && prop != Some("msapplication-tileimage"@) && prop != Some("og:image"@)
            && prop != Some("twitter:image"@) ==> meta_candidate_of(base, prop, content) is None,
{
    reveal_strlit("og:image");
    reveal_strlit("twitter:image");
    reveal_strlit("msapplication-tileimage");
    assert("og:image"@.len() != "msapplication-tileimage"@.len());
    assert("twitter:image"@.len() != "msapplication-tileimage"@.len());
}

/// What an `<img>` offers, by its lowercased `itemprop` and its `src`: an
/// image marked `logo` with the best priority, one marked `image` with the
/// worst, and nothing otherwise.
pub proof fn lemma_img_rules(base: Seq<char>, itemprop: Option<Seq<char>>, src: Option<Seq<char>>)
    ensures
        (itemprop is None || src is None) ==> img_candidate_of(base, itemprop, src) is None,
        itemprop == Some("logo"@) && src is Some ==> img_candidate_of(base, itemprop, src)
            == Some((normalized_url(base, src->0), LogoPriority::JsonLd)),
        itemprop == Some("image"@) && src is Some ==> img_candidate_of(base, itemprop, src)
            == Some((normalized_url(base, src->0), LogoPriority::SchemaImage)),
        itemprop is Some && itemprop != Some("logo"@) && itemprop != Some("image"@)
            ==> img_candidate_of(base, itemprop, src) is None,
{
    reveal_strlit("image");
    reveal_strlit("logo");
    assert("image"@.len() != "logo"@.len());
}

/// The text of a JSON string value, when the value is one.
pub open spec fn json_text(v: Option<JsonView>) -> Option<Seq<char>> {
    match v {
        Some(JsonView::Str(s)) => Some(s),
        _ => None,
    }
}

/// `lookup` finds the value of the first member with the name asked for,
/// and nothing when no member has it.
pub proof fn lemma_lookup_first(o: Seq<(Seq<char>, JsonView)>, key: Seq<char>)
    ensures
        lookup(o, key) is None <==> forall|i: int| 0 <= i < o.len() ==> #[trigger] o[i].0 != key,
        lookup(o, key) matches Some(v) ==> exists|i: int|
            0 <= i < o.len() && o[i] == (key, v) && forall|j: int|
                0 <= j < i ==> #[trigger] o[j].0 != key,
    decreases o.len(),
{
    if o.len() > 0 {
        let rest = o.drop_first();
        lemma_lookup_first(rest, key);
        assert forall|i: int| 0 <= i < rest.len() implies rest[i] == o[i + 1] by {}
        if o[0].0 != key {
            if lookup(rest, key) is None {
                assert forall|i: int| 0 <= i < o.len() implies #[trigger] o[i].0 != key by {
                    if i > 0 {
                        assert(o[i] == rest[i - 1]);
                    }
                }
            } else {
                let v = lookup(rest, key)->0;
                let i = choose|i: int|
                    0 <= i < rest.len() && rest[i] == (key, v) && forall|j: int|
                        0 <= j < i ==> #[trigger] rest[j].0 != key;
                assert(o[i + 1] == (key, v));
                assert forall|j: int| 0 <= j < i + 1 implies #[trigger] o[j].0 != key by {
                    if j > 0 {
                        assert(o[j] == rest[j - 1]);
                    }
                }
            }
            if lookup(o, key) is None {
                assert forall|i: int| 0 <= i < rest.len() implies #[trigger] rest[i].0 != key by {
                    assert(o[i + 1].0 != key);
                }
            }
        }
    }
}

/// The URL that a `logo` value names: a string names itself; an object names
/// its `url` member if it has one, else its `@id`, else its `contentUrl`, and
/// only when the member it names is a string.
pub proof fn lemma_logo_member_rules(s: Seq<char>, o: Seq<(Seq<char>, JsonView)>)
    ensures
        logo_member_url(JsonView::Str(s)) == Some(s),
        lookup(o, seq!['u', 'r', 'l']) is Some ==> logo_member_url(JsonView::Object(o))
            == json_text(lookup(o, seq!['u', 'r', 'l'])),
        lookup(o, seq!['u', 'r', 'l']) is None && lookup(o, seq!['@', 'i', 'd']) is Some
            ==> logo_member_url(JsonView::Object(o)) == json_text(lookup(o, seq!['@', 'i', 'd'])),
        lookup(o, seq!['u', 'r', 'l']) is None && lookup(o, seq!['@', 'i', 'd']) is None
            ==> logo_member_url(JsonView::Object(o)) == json_text(
            lookup(o, seq!['c', 'o', 'n', 't', 'e', 'n', 't', 'U', 'r', 'l']),
        ),
        logo_member_url(JsonView::Null) is None,
        logo_member_url(JsonView::Number) is None,
{
}

/// A JSON-LD object whose `logo` member names a non-empty URL offers that URL,
/// normalised, with priority `JsonLd`, and nothing else of it is searched.
/// In particular a logo object with neither `url` nor `@id` but a non-empty
/// string `contentUrl` offers that `contentUrl`.
pub proof fn lemma_json_ld_logo_offered(
    st: ParserState,
    entries: Seq<(Seq<char>, JsonView)>,
    logo: JsonView,
    u: Seq<char>,
)
    requires
        lookup(entries, seq!['l', 'o', 'g', 'o']) == Some(logo),
        u.len() > 0,
        logo == JsonView::Str(u) || (logo matches JsonView::Object(o) && (json_text(
            lookup(o, seq!['u', 'r', 'l']),
        ) == Some(u) || (lookup(o, seq!['u', 'r', 'l']) is None && json_text(
            lookup(o, seq!['@', 'i', 'd']),
        ) == Some(u)) || (lookup(o, seq!['u', 'r', 'l']) is None && lookup(o, seq!['@', 'i', 'd'])
            is None && json_text(
            lookup(o, seq!['c', 'o', 'n', 't', 'e', 'n', 't', 'U', 'r', 'l']),
        ) == Some(u)))),
    ensures
        object_logo(entries) == Some(u),
        json_search(st, JsonView::Object(entries)) == (ParserState {
            logo: offer(st.logo, normalized_url(st.base, u), LogoPriority::JsonLd),
            ..st
        }),
{
    if let JsonView::Object(o) = logo {
        lemma_logo_member_rules(u, o);
    }
}

/// How a path is turned into a URL against `base`, stated on the trimmed
/// path `t`: a refused path gives nothing; a path that starts with `http` is
/// kept; a `//` path gets `https:` in front; a `/` path is appended to the
/// base without its trailing slashes; any other path is appended after a `/`.
pub proof fn lemma_normalize_rules(base: Seq<char>, path: Seq<char>)
    ensures
        ({
            let t = trim(path);
            let b = strip_trailing(base, '/');
            let r = normalized_url(base, path);
            &&& (has_sub(t, seq!['{']) || has_sub(t, seq!['}']) || has_sub(
                t,
                seq!['u', 'n', 'd', 'e', 'f', 'i', 'n', 'e', 'd'],
            ) || has_prefix(t, seq!['d', 'a', 't', 'a', ':']) || has_prefix(t, seq!['#']))
                ==> r.len() == 0
            &&& !is_rejected_path(t) && has_prefix(t, seq!['h', 't', 't', 'p']) ==> r == t
            &&& !is_rejected_path(t) && !has_prefix(t, seq!['h', 't', 't', 'p']) && has_prefix(
                t,
                seq!['/', '/'],
            ) ==> r == seq!['h', 't', 't', 'p', 's', ':'] + t
            &&& !is_rejected_path(t) && !has_prefix(t, seq!['h', 't', 't', 'p']) && !has_prefix(
                t,
                seq!['/', '/'],
            ) && has_prefix(t, seq!['/']) ==> r == b + t
            &&& !is_rejected_path(t) && !has_prefix(t, seq!['h', 't', 't', 'p']) && !has_prefix(
                t,
                seq!['/'],
            ) ==> r == b + seq!['/'] + t
        }),
{
}

/// The size a manifest icon announces: the size its `sizes` string announces,
/// or 0 without one.
pub open spec fn announced_size(icon: JsonView) -> nat {
    match member_str(icon, "sizes"@) {
        Some(z) => max_icon_size(z),
        None => 0,
    }
}

/// The `src` a manifest icon gives: its `src` member when that is a string,
/// or the empty text.
pub open spec fn given_src(icon: JsonView) -> Seq<char> {
    match member_str(icon, "src"@) {
        Some(s) => s,
        None => Seq::empty(),
    }
}

/// The manifest icon chosen is one with a `src` that announces a size at
/// least that of every icon with a `src` (as `max_icon_size` reads its
/// `sizes`), and the last such; its `src` is normalised against the page.
/// None is chosen exactly when no icon has a `src`.
pub proof fn lemma_manifest_choice(icons: Seq<JsonView>, base: Seq<char>)
    ensures
        manifest_icon(JsonView::Object(seq![("icons"@, JsonView::Array(icons))]), base) is None
            <==> forall|i: int| 0 <= i < icons.len() ==> #[trigger] given_src(icons[i]).len() == 0,
        manifest_icon(JsonView::Object(seq![("icons"@, JsonView::Array(icons))]), base) matches Some(
            url,
        ) ==> exists|i: int|
            0 <= i < icons.len() && given_src(icons[i]).len() > 0 && url == normalized_url(
                base,
                given_src(icons[i]),
            ) && (forall|j: int|
                0 <= j < icons.len() && #[trigger] given_src(icons[j]).len() > 0
                    ==> announced_size(icons[j]) <= announced_size(icons[i])) && (forall|j: int|
                i < j < icons.len() && #[trigger] given_src(icons[j]).len() > 0
                    ==> announced_size(icons[j]) < announced_size(icons[i])),
{
    let m = JsonView::Object(seq![("icons"@, JsonView::Array(icons))]);
    assert(lookup(seq![("icons"@, JsonView::Array(icons))], "icons"@) == Some(
        JsonView::Array(icons),
    ));
    lemma_best_icon_is_last_largest(icons);
    assert forall|j: int| 0 <= j < icons.len() implies icon_size(icons[j]) == announced_size(
        icons[j],
    ) && icon_src(icons[j]) == given_src(icons[j]) by {}
    if best_icon(icons).0.len() > 0 {
        let i = choose|i: int|
            crate::manifest::is_last_largest(icons, i) && best_icon(icons) == (
                icon_src(icons[i]),
                icon_size(icons[i]),
            );
        assert(icon_size(icons[i]) == announced_size(icons[i]));
        assert(icon_src(icons[i]) == given_src(icons[i]));
        assert forall|j: int|
            0 <= j < icons.len() && #[trigger] given_src(icons[j]).len() > 0 implies announced_size(
            icons[j],
        ) <= announced_size(icons[i]) by {
            assert(icon_size(icons[j]) == announced_size(icons[j]));
            assert(icon_src(icons[j]) == given_src(icons[j]));
        }
        assert forall|j: int|
            i < j < icons.len() && #[trigger] given_src(icons[j]).len() > 0 implies announced_size(
            icons[j],
        ) < announced_size(icons[i]) by {
            assert(icon_size(icons[j]) == announced_size(icons[j]));
            assert(icon_src(icons[j]) == given_src(icons[j]));
        }
    }
}

/// A lowercased URL looks like a logo exactly when it contains `logo`,
/// `-icon`, `/icon` or `square` and none of `banner`, `hero`, `cover`,
/// `1200x630`, `1200x627`; in particular any URL containing `logo` and no
/// banner mark does.
pub proof fn lemma_logo_hint_rules(lower: Seq<char>)
    ensures
        (has_logo_hint(lower) && !has_banner_mark(lower)) <==> ((has_sub(
            lower,
            "logo"@,
        ) || has_sub(lower, "-icon"@) || has_sub(lower, "/icon"@) || has_sub(lower, "square"@))
            && !(has_sub(lower, "banner"@) || has_sub(lower, "hero"@) || has_sub(lower, "cover"@)
            || has_sub(lower, "1200x630"@) || has_sub(lower, "1200x627"@))),
{
    reveal_strlit("logo");
    reveal_strlit("-icon");
    reveal_strlit("/icon");
    reveal_strlit("square");
    reveal_strlit("banner");
    reveal_strlit("hero");
    reveal_strlit("cover");
    reveal_strlit("1200x630");
    reveal_strlit("1200x627");
    assert("logo"@ =~= seq!['l', 'o', 'g', 'o']);
    assert("-icon"@ =~= seq!['-', 'i', 'c', 'o', 'n']);
    assert("/icon"@ =~= seq!['/', 'i', 'c', 'o', 'n']);
    assert("square"@ =~= seq!['s', 'q', 'u', 'a', 'r', 'e']);
    assert("banner"@ =~= seq!['b', 'a', 'n', 'n', 'e', 'r']);
    assert("hero"@ =~= seq!['h', 'e', 'r', 'o']);
    assert("cover"@ =~= seq!['c', 'o', 'v', 'e', 'r']);
    assert("1200x630"@ =~= seq!['1', '2', '0', '0', 'x', '6', '3', '0']);
    assert("1200x627"@ =~= seq!['1', '2', '0', '0', 'x', '6', '2', '7']);
}

/// The manifest is fetched exactly when the page links one and has no logo,
/// or only a large icon, a square social image or a schema image: the three
/// sources that rank below a manifest icon and are not already from a tag
/// that the page's authors meant as an icon.
pub proof fn lemma_manifest_wanted_rules(d: ExtractedView)
    ensures
        d.manifest_url is None ==> !wants_manifest(d),
        d.manifest_url is Some && d.priority is None ==> wants_manifest(d),
        d.manifest_url is Some && d.priority is Some ==> (wants_manifest(d) <==> d.priority->0.rank()
            >= LogoPriority::LargeIcon.rank()),
{
}

} // verus!
