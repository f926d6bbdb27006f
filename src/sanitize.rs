//! The last step before HTML is shown: an allow-list sanitizer (ammonia) with
//! this library's policy for link targets and image sources.

use vstd::prelude::*;
use std::borrow::Cow;
use crate::text::chars_of;

verus! {

/// What ammonia's `Builder::clean` makes of `html` when the allowed URL schemes
/// are `url_schemes`, the attributes allowed on every element are extended by
/// `generic_attributes`, and every kept attribute passes `filter_attribute`.
pub uninterp spec fn sanitized(
    html: Seq<char>,
    url_schemes: Seq<Seq<char>>,
    generic_attributes: Seq<Seq<char>>,
) -> Seq<char>;

/// The characters that end a URL scheme (`:`) or show that there is none.
pub open spec fn is_scheme_stop(c: char) -> bool {
    c == ':' || c == '/' || c == '?' || c == '#'
}

/// The position of the first scheme stop in `v` at or after `i`, or `v.len()`.
pub open spec fn stop_from(v: Seq<char>, i: int) -> int
    decreases v.len() - i,
{
    if i >= v.len() || i < 0 {
        v.len() as int
    } else if is_scheme_stop(v[i]) {
        i
    } else {
        stop_from(v, i + 1)
    }
}

/// The position of the first scheme stop in `v`, or `v.len()`.
pub open spec fn scheme_end(v: Seq<char>) -> int {
    stop_from(v, 0)
}

/// Whether `v` names a scheme: a `:` comes before any `/`, `?` or `#`.
pub open spec fn has_scheme(v: Seq<char>) -> bool {
    scheme_end(v) < v.len() && v[scheme_end(v)] == ':'
}

/// `c` is the lower-case ASCII letter or symbol `lower`, or the upper-case
/// form of that letter.
pub open spec fn same_ascii(c: char, lower: char) -> bool {
    c == lower || ('a' <= lower && lower <= 'z' && (c as u32) + 32 == (lower as u32))
}

/// `v` is `word` (lower case) without regard to ASCII case.
pub open spec fn is_word(v: Seq<char>, word: Seq<char>) -> bool {
    v.len() == word.len() && forall|i: int| 0 <= i < v.len() ==> same_ascii(#[trigger] v[i], word[i])
}

/// The scheme of `v`, as written.
pub open spec fn scheme_of(v: Seq<char>) -> Seq<char> {
    v.take(scheme_end(v))
}

/// A link target is kept when it has no scheme or its scheme is `http`,
/// `https` or `mailto`.
pub open spec fn href_allowed(v: Seq<char>) -> bool {
    !has_scheme(v) || is_word(scheme_of(v), seq!['h', 't', 't', 'p'])
        || is_word(scheme_of(v), seq!['h', 't', 't', 'p', 's'])
        || is_word(scheme_of(v), seq!['m', 'a', 'i', 'l', 't', 'o'])
}

/// An image source is kept when it has no scheme, its scheme is `http` or
/// `https`, or it is a `data:image/` URL.
pub open spec fn src_allowed(v: Seq<char>) -> bool {
    !has_scheme(v) || is_word(scheme_of(v), seq!['h', 't', 't', 'p'])
        || is_word(scheme_of(v), seq!['h', 't', 't', 'p', 's'])
        || (is_word(scheme_of(v), seq!['d', 'a', 't', 'a'])
            && scheme_end(v) + 7 <= v.len()
            && is_word(v.subrange(scheme_end(v) + 1, scheme_end(v) + 7), seq!['i', 'm', 'a', 'g', 'e', '/']))
}

/// The value an attribute keeps: a link target that is not allowed becomes
/// `#`, an image source that is not allowed becomes empty, and every other
/// value stays as it is.
pub open spec fn attribute_value(attribute: Seq<char>, value: Seq<char>) -> Seq<char> {
    if attribute == seq!['h', 'r', 'e', 'f'] && !href_allowed(value) {
        seq!['#']
    } else if attribute == seq!['s', 'r', 'c'] && !src_allowed(value) {
        Seq::empty()
    } else {
        value
    }
}

/// Whether `a` and `b` hold the same characters.
pub fn same_text(a: &str, b: &str) -> (r: bool)
    ensures
        r == (a@ == b@),
{
    let x = chars_of(a);
    let y = chars_of(b);
    if x.len() != y.len() {
        return false;
    }
    let mut i: usize = 0;
    while i < x.len()
        invariant
            x@ == a@,
            y@ == b@,
            x@.len() == y@.len(),
            i <= x@.len(),
            forall|k: int| 0 <= k < i ==> x@[k] == y@[k],
        decreases x@.len() - i,
    {
        if x[i] != y[i] {
            return false;
        }
        i = i + 1;
    }
    assert(x@ =~= y@);
    true
}

fn same_ascii_exec(c: char, lower: char) -> (r: bool)
    ensures
        r == same_ascii(c, lower),
{
    c == lower || ('a' <= lower && lower <= 'z' && (c as u32) < 0xffff_ff00 && (c as u32) + 32 == (lower as u32))
}

/// Whether `v[from..from + word.len()]` is `word` without regard to ASCII case.
fn word_at(v: &Vec<char>, from: usize, word: &str) -> (r: bool)
    requires
        from <= v@.len(),
    ensures
        r == (from + word@.len() <= v@.len() && is_word(v@.subrange(from as int, from + word@.len()), word@)),
{
    let w = chars_of(word);
    if w.len() > v.len() - from {
        return false;
    }
    let mut i: usize = 0;
    while i < w.len()
        invariant
            w@ == word@,
            from + w@.len() <= v@.len(),
            v@.len() <= usize::MAX,
            i <= w@.len(),
            forall|k: int| 0 <= k < i ==> same_ascii(v@[from + k], w@[k]),
        decreases w@.len() - i,
    {
        if !same_ascii_exec(v[from + i], w[i]) {
            assert(!same_ascii(v@.subrange(from as int, from + w@.len())[i as int], w@[i as int]));
            return false;
        }
        i = i + 1;
    }
    assert forall|k: int| 0 <= k < w@.len() implies same_ascii(
        #[trigger] v@.subrange(from as int, from + w@.len())[k],
        w@[k],
    ) by {}
    true
}

/// The position where the scheme of `v` ends (see `scheme_end`).
fn find_scheme_end(v: &Vec<char>) -> (r: usize)
    ensures
        r == scheme_end(v@),
        r <= v@.len(),
{
    let mut i: usize = 0;
    while i < v.len()
        invariant
            i <= v@.len(),
            stop_from(v@, 0) == stop_from(v@, i as int),
        decreases v@.len() - i,
    {
        if v[i] == ':' || v[i] == '/' || v[i] == '?' || v[i] == '#' {
            return i;
        }
        i = i + 1;
    }
    i
}

/// Whether the URL in `v` is allowed as a link target (`for_image` false) or
/// as an image source (`for_image` true).
fn url_allowed(v: &Vec<char>, for_image: bool) -> (r: bool)
    ensures
        r == if for_image { src_allowed(v@) } else { href_allowed(v@) },
{
    let end = find_scheme_end(v);
    if end == v.len() || v[end] != ':' {
        return true;
    }
    proof {
        reveal_strlit("http");
        reveal_strlit("https");
        reveal_strlit("mailto");
        reveal_strlit("data");
        reveal_strlit("image/");
        assert("http"@ =~= seq!['h', 't', 't', 'p']);
        assert("https"@ =~= seq!['h', 't', 't', 'p', 's']);
        assert("mailto"@ =~= seq!['m', 'a', 'i', 'l', 't', 'o']);
        assert("data"@ =~= seq!['d', 'a', 't', 'a']);
        assert("image/"@ =~= seq!['i', 'm', 'a', 'g', 'e', '/']);
    }
    if word_at(v, 0, "http") && end == 4 {
        return true;
    }
    if word_at(v, 0, "https") && end == 5 {
        return true;
    }
    if !for_image {
        return word_at(v, 0, "mailto") && end == 6;
    }
    word_at(v, 0, "data") && end == 4 && word_at(v, end + 1, "image/")
}

/// The value that an attribute keeps under this library's URL policy: a link
/// target (`href`) whose scheme is not `http`, `https` or `mailto` becomes `#`;
/// an image source (`src`) that is not `http`, `https` or `data:image/` becomes
/// empty; everything else is kept.
pub fn filter_attribute(element: &str, attribute: &str, value: &str) -> (r: Option<String>)
    ensures
        r matches Some(s) && s@ == attribute_value(attribute@, value@),
{
    proof {
        reveal_strlit("href");
        reveal_strlit("src");
        reveal_strlit("#");
        reveal_strlit("");
        assert("href"@ =~= seq!['h', 'r', 'e', 'f']);
        assert("src"@ =~= seq!['s', 'r', 'c']);
        assert("#"@ =~= seq!['#']);
    }
    let v = chars_of(value);
    if same_text(attribute, "href") && !url_allowed(&v, false) {
        assert(attribute@ == seq!['h', 'r', 'e', 'f']);
        return Some(String::from_str("#"));
    }
    if same_text(attribute, "src") && !url_allowed(&v, true) {
        assert(attribute@ == seq!['s', 'r', 'c']);
        assert(!(attribute@ == seq!['h', 'r', 'e', 'f']));
        return Some(String::from_str(""));
    }
    assert(!(attribute@ == seq!['h', 'r', 'e', 'f']) || href_allowed(value@));
    assert(!(attribute@ == seq!['s', 'r', 'c']) || src_allowed(value@));
    Some(String::from_str(value))
}

/// Relies on ammonia's `Builder` (`url_schemes`, `add_generic_attributes`,
/// `attribute_filter`, `clean`): the cleaned document, as text. `clean`
/// asserts that `rel`, which it sets on links itself, is not among the
/// attributes allowed everywhere.
#[verifier::external_body]
fn clean_html(html: &str, url_schemes: &Vec<&str>, generic_attributes: &Vec<&str>) -> (r: String)
    requires
        forall|i: int| 0 <= i < generic_attributes@.len() ==> generic_attributes@[i]@ != "rel"@,
    ensures
        r@ == sanitized(
            html@,
            url_schemes@.map_values(|s: &str| s@),
            generic_attributes@.map_values(|s: &str| s@),
        ),
{
    ammonia::Builder::default()
        .url_schemes(url_schemes.iter().copied().collect())
        .add_generic_attributes(generic_attributes.iter())
        .attribute_filter(|e, a, v| filter_attribute(e, a, v).map(Cow::Owned))
        .clean(html)
        .to_string()
}

/// The URL schemes that ammonia's own scheme check lets through to
/// `filter_attribute`. Ammonia drops a link target or image source of any
/// other scheme outright; these reach the filter, which keeps the allowed ones
/// and turns `javascript:`, `vbscript:`, `file:` and the wrong uses of
/// `mailto:` and `data:` into `#` or an empty source, so the attribute stays.
pub open spec fn policy_schemes() -> Seq<Seq<char>> {
    seq!["http"@, "https"@, "mailto"@, "data"@, "javascript"@, "vbscript"@, "file"@]
}

/// The attributes allowed on every element besides ammonia's defaults.
pub open spec fn policy_attributes() -> Seq<Seq<char>> {
    seq!["class"@]
}

/// What sanitizing `html` gives.
pub open spec fn sanitize_spec(html: Seq<char>) -> Seq<char> {
    sanitized(html, policy_schemes(), policy_attributes())
}

/// Sanitizes HTML: elements and attributes outside ammonia's allow-list are
/// removed (scripts with their content), `class` is kept on every element, and
/// link targets and image sources follow `filter_attribute`.
pub fn sanitize(html: &str) -> (r: String)
    ensures
        r@ == sanitize_spec(html@),
{
    let schemes: Vec<&str> = vec!["http", "https", "mailto", "data", "javascript", "vbscript", "file"];
    let attributes: Vec<&str> = vec!["class"];
    assert(schemes@.map_values(|s: &str| s@) =~= policy_schemes());
    assert(attributes@.map_values(|s: &str| s@) =~= policy_attributes());
    proof {
        reveal_strlit("class");
        reveal_strlit("rel");
        assert(attributes@.map_values(|s: &str| s@)[0] == "class"@);
        assert(attributes@[0]@ == "class"@);
        assert("class"@.len() != "rel"@.len());
    }
    clean_html(html, &schemes, &attributes)
}

} // verus!
