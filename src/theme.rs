//! Stylesheets for the highlighting classes, from syntect's default themes.

use vstd::prelude::*;
use syntect::html::{css_for_theme_with_class_style, ClassStyle};
use crate::highlight::Registry;
use crate::sanitize::same_text;

verus! {

/// Whether syntect's default theme set has a theme of this name.
pub uninterp spec fn theme_known(name: Seq<char>) -> bool;

/// The stylesheet that syntect writes for the default theme of this name, with
/// spaced class names.
pub uninterp spec fn theme_css_text(name: Seq<char>) -> Seq<char>;

/// Relies on `ThemeSet::themes` (a `BTreeMap`) of the default themes that
/// `Registry::new` loads, and `css_for_theme_with_class_style`, which always
/// returns `Ok`: a stylesheet exactly for the themes that exist.
#[verifier::external_body]
fn theme_css(reg: &Registry, name: &str) -> (r: Option<String>)
    ensures
        r is Some <==> theme_known(name@),
        r matches Some(c) ==> c@ == theme_css_text(name@),
{
    let theme = reg.themes().themes.get(name)?;
    css_for_theme_with_class_style(theme, ClassStyle::Spaced).ok()
}

/// `a` comes before `b` in the order of `String`: code point by code point,
/// a proper prefix first.
pub open spec fn text_lt(a: Seq<char>, b: Seq<char>) -> bool
    decreases a.len(),
{
    if a.len() == 0 {
        b.len() > 0
    } else if b.len() == 0 {
        false
    } else if a[0] != b[0] {
        a[0] < b[0]
    } else {
        text_lt(a.drop_first(), b.drop_first())
    }
}

/// `n` is a known theme and no known theme comes before it.
pub open spec fn least_theme(n: Seq<char>) -> bool {
    theme_known(n) && forall|m: Seq<char>| theme_known(m) ==> !text_lt(m, n)
}

/// The stylesheet of the first theme name in order, if there is any theme.
pub open spec fn fallback_css() -> Option<Seq<char>> {
    if exists|n: Seq<char>| least_theme(n) {
        Some(theme_css_text(choose|n: Seq<char>| least_theme(n)))
    } else {
        None
    }
}

proof fn lemma_text_lt_total(a: Seq<char>, b: Seq<char>)
    requires
        a != b,
    ensures
        text_lt(a, b) || text_lt(b, a),
    decreases a.len(),
{
    if a.len() > 0 && b.len() > 0 && a[0] == b[0] {
        if a.drop_first() == b.drop_first() {
            assert(a =~= seq![a[0]] + a.drop_first());
            assert(b =~= seq![b[0]] + b.drop_first());
        }
        lemma_text_lt_total(a.drop_first(), b.drop_first());
    } else if a.len() == 0 && b.len() == 0 {
        assert(a =~= b);
    }
}

proof fn lemma_least_unique(n1: Seq<char>, n2: Seq<char>)
    requires
        least_theme(n1),
        least_theme(n2),
    ensures
        n1 == n2,
{
    if n1 != n2 {
        lemma_text_lt_total(n1, n2);
    }
}

/// Relies on `BTreeMap::keys` of `ThemeSet::themes`, whose keys are `String`s
/// in their order: the first theme name, or `None` when there is no theme.
#[verifier::external_body]
fn first_theme_name(reg: &Registry) -> (r: Option<String>)
    ensures
        r matches Some(n) ==> least_theme(n@),
        r is None ==> forall|n: Seq<char>| !theme_known(n),
{
    reg.themes().themes.keys().next().cloned()
}

/// The theme names tried for a requested theme, in order: dark ones for
/// `dark` and `drac`, light ones otherwise.
pub open spec fn preferred_themes(theme: Seq<char>) -> Seq<Seq<char>> {
    if theme == "dark"@ || theme == "drac"@ {
        seq!["Monokai"@, "base16-ocean.dark"@, "Solarized (dark)"@]
    } else {
        seq!["InspiredGitHub"@, "base16-ocean.light"@, "Solarized (light)"@]
    }
}

/// The first of `names` that is a known theme.
pub open spec fn first_theme_in(names: Seq<Seq<char>>) -> Option<Seq<char>>
    decreases names.len(),
{
    if names.len() == 0 {
        None
    } else if theme_known(names[0]) {
        Some(names[0])
    } else {
        first_theme_in(names.drop_first())
    }
}

/// The stylesheet of the first known theme among `names`, if any.
fn css_of_first(reg: &Registry, names: &Vec<&str>) -> (r: Option<String>)
    ensures
        match first_theme_in(names@.map_values(|n: &str| n@)) {
            Some(n) => r matches Some(c) && c@ == theme_css_text(n),
            None => r is None,
        },
{
    let ghost nv = names@.map_values(|n: &str| n@);
    let mut i: usize = 0;
    assert(nv.skip(0) =~= nv);
    while i < names.len()
        invariant
            i <= names@.len(),
            nv == names@.map_values(|n: &str| n@),
            first_theme_in(nv) == first_theme_in(nv.skip(i as int)),
        decreases names@.len() - i,
    {
        proof {
            assert(nv.skip(i as int).drop_first() =~= nv.skip(i + 1 as int));
            assert(nv.skip(i as int)[0] == names@[i as int]@);
        }
        match theme_css(reg, names[i]) {
            Some(c) => return Some(c),
            None => {},
        }
        i = i + 1;
    }
    assert(nv.skip(i as int).len() == 0);
    None
}

/// The stylesheet for a requested theme: the first known theme of
/// `preferred_themes`, else any theme there is; `None` only when the theme set
/// is empty.
pub fn theme_stylesheet(reg: &Registry, theme_name: &str) -> (r: Option<String>)
    ensures
        match first_theme_in(preferred_themes(theme_name@)) {
            Some(n) => r matches Some(c) && c@ == theme_css_text(n),
            None => match fallback_css() {
                Some(f) => r matches Some(c) && c@ == f,
                None => r is None,
            },
        },
{
    let names: Vec<&str> = if same_text(theme_name, "dark") || same_text(theme_name, "drac") {
        vec!["Monokai", "base16-ocean.dark", "Solarized (dark)"]
    } else {
        vec!["InspiredGitHub", "base16-ocean.light", "Solarized (light)"]
    };
    assert(names@.map_values(|n: &str| n@) =~= preferred_themes(theme_name@));
    match css_of_first(reg, &names) {
        Some(c) => Some(c),
        None => match first_theme_name(reg) {
            Some(n) => {
                proof {
                    let m = choose|m: Seq<char>| least_theme(m);
                    lemma_least_unique(n@, m);
                }
                theme_css(reg, n.as_str())
            },
            None => None,
        },
    }
}

/// The stylesheet for a requested theme, from syntect's default themes (see
/// `theme_stylesheet`).
pub fn get_syntax_theme_css(theme_name: &str) -> (r: Option<String>)
    ensures
        match first_theme_in(preferred_themes(theme_name@)) {
            Some(n) => r matches Some(c) && c@ == theme_css_text(n),
            None => match fallback_css() {
                Some(f) => r matches Some(c) && c@ == f,
                None => r is None,
            },
        },
{
    let reg = Registry::new();
    theme_stylesheet(&reg, theme_name)
}

/// The names of the syntax themes offered to users.
pub open spec fn offered_themes() -> Seq<Seq<char>> {
    seq!["InspiredGitHub"@, "Monokai"@, "Solarized (dark)"@, "Solarized (light)"@]
}

/// The syntax themes offered to users.
pub fn get_syntax_themes() -> (r: Vec<&'static str>)
    ensures
        r@.map_values(|n: &str| n@) == offered_themes(),
{
    let r: Vec<&'static str> = vec!["InspiredGitHub", "Monokai", "Solarized (dark)", "Solarized (light)"];
    assert(r@.map_values(|n: &str| n@) =~= offered_themes());
    r
}

} // verus!
