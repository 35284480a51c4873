//! Choosing the icon that a web-app manifest offers.

use vstd::prelude::*;
use crate::extractor::opt_view;
use crate::json::{
    find_member, json_parse, lemma_container_views, lookup, items_view, parse_json, JsonValue,
    JsonView,
};
use crate::text::chars_of;
use vstd::string::StringSliceAdditionalSpecFns;
use crate::utils::{max_icon_size, normalize_url, normalized_url, parse_max_icon_size};

verus! {

/// The string value of member `key` of `v`, when `v` is an object that has
/// such a member holding a string.
pub open spec fn member_str(v: JsonView, key: Seq<char>) -> Option<Seq<char>> {
    match v {
        JsonView::Object(o) => match lookup(o, key) {
            Some(JsonView::Str(s)) => Some(s),
            _ => None,
        },
        _ => None,
    }
}

/// The `src` of a manifest icon entry, or the empty text.
pub open spec fn icon_src(icon: JsonView) -> Seq<char> {
    match member_str(icon, "src"@) {
        Some(s) => s,
        None => Seq::empty(),
    }
}

/// The size that a manifest icon entry announces in its `sizes`, or 0.
pub open spec fn icon_size(icon: JsonView) -> nat {
    match member_str(icon, "sizes"@) {
        Some(s) => max_icon_size(s),
        None => 0,
    }
}

/// The `src` and size of the icon chosen among `icons`: walking in order, an
/// entry with a non-empty `src` whose size is at least the size chosen so far
/// replaces the choice. The empty `src` and size 0 when none qualifies.
pub open spec fn best_icon(icons: Seq<JsonView>) -> (Seq<char>, nat)
    decreases icons.len(),
{
    if icons.len() == 0 {
        (Seq::empty(), 0)
    } else {
        let prev = best_icon(icons.drop_last());
        let icon = icons.last();
        if icon_src(icon).len() > 0 && icon_size(icon) >= prev.1 {
            (icon_src(icon), icon_size(icon))
        } else {
            prev
        }
    }
}

/// The `icons` array of a manifest, when the manifest is an object that has one.
pub open spec fn manifest_icons(m: JsonView) -> Option<Seq<JsonView>> {
    match m {
        JsonView::Object(o) => match lookup(o, "icons"@) {
            Some(JsonView::Array(a)) => Some(a),
            _ => None,
        },
        _ => None,
    }
}

/// The absolute URL of the icon that the manifest `m`, found for the page at
/// `base`, offers: the chosen icon's `src` normalised against `base`; none
/// when the manifest has no `icons` array or no icon with a `src`.
pub open spec fn manifest_icon(m: JsonView, base: Seq<char>) -> Option<Seq<char>> {
    match manifest_icons(m) {
        Some(icons) => {
            let best = best_icon(icons).0;
            if best.len() == 0 {
                None
            } else {
                Some(normalized_url(base, best))
            }
        },
        None => None,
    }
}

/// The string value of member `key` of `v` (see `member_str`).
fn member_str_exec<'b>(v: &'b JsonValue, key: &[char]) -> (r: Option<&'b String>)
    ensures
        match r {
            Some(s) => member_str(v@, key@) == Some(s@),
            None => member_str(v@, key@) is None,
        },
{
    proof {
        lemma_container_views(*v);
    }
    match v {
        JsonValue::Object(o) => match find_member(o, key) {
            Some(x) => {
                proof {
                    lemma_container_views(*x);
                }
                match x {
                    JsonValue::Str(s) => Some(s),
                    _ => None,
                }
            },
            None => None,
        },
        _ => None,
    }
}

/// Icon `i` is the last of the icons with a `src` that announce the largest
/// size among them.
pub open spec fn is_last_largest(icons: Seq<JsonView>, i: int) -> bool {
    &&& 0 <= i < icons.len()
    &&& icon_src(icons[i]).len() > 0
    &&& forall|j: int|
        0 <= j < icons.len() && icon_src(icons[j]).len() > 0 ==> icon_size(icons[j]) <= icon_size(
            icons[i],
        )
    &&& forall|j: int|
        i < j < icons.len() && icon_src(icons[j]).len() > 0 ==> icon_size(icons[j]) < icon_size(
            icons[i],
        )
}

/// The manifest icon chosen is the last of the largest icons that have a
/// `src`; nothing is chosen exactly when no icon has a `src`.
pub proof fn lemma_best_icon_is_last_largest(icons: Seq<JsonView>)
    ensures
        best_icon(icons).0.len() == 0 <==> forall|i: int|
            0 <= i < icons.len() ==> #[trigger] icon_src(icons[i]).len() == 0,
        best_icon(icons).0.len() == 0 ==> best_icon(icons).1 == 0,
        best_icon(icons).0.len() > 0 ==> exists|i: int|
            is_last_largest(icons, i) && best_icon(icons) == (icon_src(icons[i]), icon_size(
                icons[i],
            )),
    decreases icons.len(),
{
    if icons.len() > 0 {
        let prev = icons.drop_last();
        let n = icons.len() - 1;
        lemma_best_icon_is_last_largest(prev);
        assert forall|i: int| 0 <= i < n implies icons[i] == prev[i] by {}
        let last = icons[n];
        if icon_src(last).len() > 0 && icon_size(last) >= best_icon(prev).1 {
            if best_icon(prev).0.len() > 0 {
                let i = choose|i: int|
                    is_last_largest(prev, i) && best_icon(prev) == (icon_src(prev[i]), icon_size(
                        prev[i],
                    ));
                assert(icons[i] == prev[i]);
            } else {
                assert forall|j: int| 0 <= j < n implies #[trigger] icon_src(icons[j]).len() == 0 by {
                    assert(icon_src(prev[j]).len() == 0);
                }
            }
            assert(is_last_largest(icons, n));
        } else if best_icon(prev).0.len() > 0 {
            let i = choose|i: int|
                is_last_largest(prev, i) && best_icon(prev) == (icon_src(prev[i]), icon_size(
                    prev[i],
                ));
            assert(icons[i] == prev[i]);
            assert(is_last_largest(icons, i));
        } else {
            assert forall|j: int| 0 <= j < icons.len() implies #[trigger] icon_src(icons[j]).len()
                == 0 by {
                if j < n {
                    assert(icon_src(prev[j]).len() == 0);
                }
            }
        }
    }
}

/// The icon that a parsed manifest offers for the page at `base_url` (see
/// `manifest_icon`).
pub fn icon_from_manifest(manifest: &JsonValue, base_url: &str) -> (r: Option<String>)
    ensures
        opt_view(r) == manifest_icon(manifest@, base_url@),
{
    proof {
        lemma_container_views(*manifest);
    }
    let icons_key = chars_of("icons");
    let icons_value = match manifest {
        JsonValue::Object(o) => match find_member(o, &icons_key) {
            Some(x) => x,
            None => return None,
        },
        _ => return None,
    };
    proof {
        lemma_container_views(*icons_value);
    }
    let icons = match icons_value {
        JsonValue::Array(a) => a,
        _ => return None,
    };
    let ghost m = items_view(icons@);
    assert(manifest_icons(manifest@) == Some(m));
    let src_key = chars_of("src");
    let sizes_key = chars_of("sizes");
    let mut best_url: Option<&String> = None;
    let mut max_size: u32 = 0;
    let n: usize = icons.len();
    let mut i: usize = 0;
    assert(m.take(0) =~= Seq::<JsonView>::empty());
    while i < n
        invariant
            n == icons@.len(),
            m == items_view(icons@),
            src_key@ == "src"@,
            sizes_key@ == "sizes"@,
            i <= n,
            best_icon(m.take(i as int)).1 == max_size as nat,
            match best_url {
                Some(u) => best_icon(m.take(i as int)).0 == u@ && u@.len() > 0,
                None => best_icon(m.take(i as int)).0.len() == 0,
            },
        decreases n - i,
    {
        assert(m.take(i + 1).drop_last() =~= m.take(i as int));
        assert(m.take(i + 1).last() == icons@[i as int]@);
        let icon = &icons[i];
        let src = member_str_exec(icon, &src_key);
        match src {
            Some(s) if !s.as_str().is_empty() => {
                let size: u32 = match member_str_exec(icon, &sizes_key) {
                    Some(z) => parse_max_icon_size(z.as_str()),
                    None => 0,
                };
                if size >= max_size {
                    max_size = size;
                    best_url = Some(s);
                }
            },
            _ => {},
        }
        i = i + 1;
    }
    assert(m.take(n as int) =~= m);
    match best_url {
        Some(u) => Some(normalize_url(base_url, u.as_str())),
        None => None,
    }
}

/// The icon that a web-app manifest, given as its text, offers for the page
/// at `base_url`: the text is parsed by `serde_json`, then the choice is made
/// as `icon_from_manifest` states; `None` when the text is not JSON.
pub fn select_manifest_icon(manifest_text: &str, base_url: &str) -> (r: Option<String>)
    ensures
        match json_parse(manifest_text.spec_bytes()) {
            Some(m) => opt_view(r) == manifest_icon(m, base_url@),
            None => r is None,
        },
{
    match parse_json(manifest_text.as_bytes()) {
        Some(m) => icon_from_manifest(&m, base_url),
        None => None,
    }
}

} // verus!
