//! Class-based syntax highlighting of code through syntect's default grammars.

use vstd::prelude::*;
use syntect::highlighting::ThemeSet;
use syntect::html::ClassedHTMLGenerator;
use syntect::parsing::SyntaxSet;
use crate::text::{chars_of, push_str, string_of};

verus! {

#[verifier::external_type_specification]
#[verifier::external_body]
pub struct ExSyntaxSet(SyntaxSet);

#[verifier::external_type_specification]
#[verifier::external_body]
pub struct ExThemeSet(ThemeSet);

#[verifier::external_type_specification]
#[verifier::external_body]
pub struct ExClassedHTMLGenerator<'a>(ClassedHTMLGenerator<'a>);

/// Whether syntect's default grammar set has a grammar for `token` (as an
/// extension, or as a grammar name compared without regard to ASCII case).
pub uninterp spec fn syntax_known(token: Seq<char>) -> bool;

/// The language token that a generator's grammar was looked up by.
pub uninterp spec fn generator_token(g: ClassedHTMLGenerator) -> Seq<char>;

/// The lines that a generator has been fed, in order.
pub uninterp spec fn generator_lines(g: ClassedHTMLGenerator) -> Seq<Seq<char>>;

/// The class-annotated HTML that the grammar found by `token` makes of `lines`.
pub uninterp spec fn classed_html(token: Seq<char>, lines: Seq<Seq<char>>) -> Seq<char>;

/// The grammars and color themes that ship with syntect, loaded once and then
/// only read.
pub struct Registry {
    syntaxes: SyntaxSet,
    themes: ThemeSet,
}

/// Relies on `SyntaxSet::load_defaults_newlines`: the default grammars.
#[verifier::external_body]
fn default_syntaxes() -> SyntaxSet {
    SyntaxSet::load_defaults_newlines()
}

/// Relies on `ThemeSet::load_defaults`: the default themes.
#[verifier::external_body]
fn default_themes() -> ThemeSet {
    ThemeSet::load_defaults()
}

impl Registry {
    /// Loads syntect's default grammars and themes.
    pub fn new() -> (r: Registry) {
        Registry { syntaxes: default_syntaxes(), themes: default_themes() }
    }

    pub(crate) fn themes(&self) -> &ThemeSet {
        &self.themes
    }
}

/// Relies on `SyntaxSet::find_syntax_by_token` over the default grammars that
/// `Registry::new` loads, and `ClassedHTMLGenerator::new_with_class_style`
/// (spaced class names): a generator exists exactly when a grammar is found,
/// and it starts empty.
#[verifier::external_body]
fn start_generator<'a>(reg: &'a Registry, token: &str) -> (r: Option<ClassedHTMLGenerator<'a>>)
    ensures
        r is Some <==> syntax_known(token@),
        r matches Some(g) ==> generator_token(g) == token@ && generator_lines(g) == Seq::<Seq<char>>::empty(),
{
    let syntax = reg.syntaxes.find_syntax_by_token(token)?;
    Some(ClassedHTMLGenerator::new_with_class_style(syntax, &reg.syntaxes, syntect::html::ClassStyle::Spaced))
}

/// Relies on `ClassedHTMLGenerator::parse_html_for_line_which_includes_newline`:
/// the line is appended to what the generator has been fed.
#[verifier::external_body]
fn feed_line(g: &mut ClassedHTMLGenerator, line: &str)
    ensures
        generator_token(*final(g)) == generator_token(*old(g)),
        generator_lines(*final(g)) == generator_lines(*old(g)).push(line@),
{
    let _ = g.parse_html_for_line_which_includes_newline(line);
}

/// Relies on `ClassedHTMLGenerator::finalize`: the HTML of every line fed.
#[verifier::external_body]
fn finish(g: ClassedHTMLGenerator) -> (r: String)
    ensures
        r@ == classed_html(generator_token(g), generator_lines(g)),
{
    g.finalize()
}

/// A line as handed to the highlighter: a carriage return before the line
/// break is dropped, and the line ends with one newline.
pub open spec fn finish_line(cur: Seq<char>) -> Seq<char> {
    if cur.len() > 0 && cur.last() == '\r' {
        cur.drop_last().push('\n')
    } else {
        cur.push('\n')
    }
}

/// The complete lines of `s` and the unfinished last line, splitting at `\n`.
pub open spec fn line_state(s: Seq<char>) -> (Seq<Seq<char>>, Seq<char>)
    decreases s.len(),
{
    if s.len() == 0 {
        (Seq::empty(), Seq::empty())
    } else {
        let prev = line_state(s.drop_last());
        if s.last() == '\n' {
            (prev.0.push(finish_line(prev.1)), Seq::empty())
        } else {
            (prev.0, prev.1.push(s.last()))
        }
    }
}

/// The lines of `s` as `str::lines` gives them, each followed by a newline.
pub open spec fn code_lines(s: Seq<char>) -> Seq<Seq<char>> {
    let st = line_state(s);
    if st.1.len() == 0 {
        st.0
    } else {
        st.0.push(st.1.push('\n'))
    }
}

/// What highlighting `code` with the grammar for `token` gives.
pub open spec fn highlight_spec(token: Seq<char>, code: Seq<char>) -> Option<Seq<char>> {
    if syntax_known(token) {
        Some(classed_html(token, code_lines(code)))
    } else {
        None
    }
}

/// Highlights `code` with the grammar found by `token`, or gives `None` when
/// there is no such grammar.
pub fn highlight_lines(reg: &Registry, token: &str, code: &str) -> (r: Option<String>)
    ensures
        r is Some <==> highlight_spec(token@, code@) is Some,
        r matches Some(h) ==> highlight_spec(token@, code@) == Some(h@),
{
    let mut g = match start_generator(reg, token) {
        Some(g) => g,
        None => return None,
    };
    let cs = chars_of(code);
    let mut cur: Vec<char> = Vec::new();
    let mut i: usize = 0;
    while i < cs.len()
        invariant
            i <= cs@.len(),
            cs@ == code@,
            generator_token(g) == token@,
            generator_lines(g) == line_state(cs@.take(i as int)).0,
            cur@ == line_state(cs@.take(i as int)).1,
        decreases cs@.len() - i,
    {
        let c = cs[i];
        proof {
            let t = cs@.take(i + 1 as int);
            assert(t.drop_last() == cs@.take(i as int));
            assert(t.last() == c);
        }
        if c == '\n' {
            if cur.len() > 0 && cur[cur.len() - 1] == '\r' {
                cur.pop();
            }
            cur.push('\n');
            let line = string_of(&cur);
            feed_line(&mut g, line.as_str());
            cur = Vec::new();
        } else {
            cur.push(c);
        }
        i = i + 1;
    }
    assert(cs@.take(cs@.len() as int) == cs@);
    if cur.len() > 0 {
        cur.push('\n');
        let line = string_of(&cur);
        feed_line(&mut g, line.as_str());
    }
    Some(finish(g))
}

/// The markup around a highlighted block: `<div class="highlight"><pre><code class="language-`.
pub open spec fn block_open() -> Seq<char> {
    "<div class=\"highlight\"><pre><code class=\"language-"@
}

/// `">`, closing the code element's opening tag.
pub open spec fn block_mid() -> Seq<char> {
    "\">"@
}

/// `</code></pre></div>`.
pub open spec fn block_close() -> Seq<char> {
    "</code></pre></div>"@
}

/// A highlighted block of language `lang` around the highlighted HTML `body`.
pub open spec fn code_block(lang: Seq<char>, body: Seq<char>) -> Seq<char> {
    block_open() + lang + block_mid() + body + block_close()
}

/// Wraps highlighted HTML in the markup of a highlighted code block.
pub fn code_block_html(lang: &str, body: &str) -> (r: String)
    ensures
        r@ == code_block(lang@, body@),
{
    let mut out: Vec<char> = Vec::new();
    push_str(&mut out, "<div class=\"highlight\"><pre><code class=\"language-");
    push_str(&mut out, lang);
    push_str(&mut out, "\">");
    push_str(&mut out, body);
    push_str(&mut out, "</code></pre></div>");
    string_of(&out)
}

} // verus!
