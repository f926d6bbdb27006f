//! Markdown rendering: pulldown-cmark parses, this module rewrites the event
//! stream (fenced code blocks become highlighted markup, link targets and image
//! sources follow the URL policy), pulldown-cmark writes HTML, and the result is
//! sanitized.

use vstd::prelude::*;
use pulldown_cmark::{CodeBlockKind, Event, Options, Parser, Tag, TagEnd};
use crate::highlight::{
    classed_html, code_block, code_block_html, code_lines, highlight_lines, syntax_known, Registry,
};
use crate::sanitize::{attribute_value, filter_attribute, same_text, sanitize, sanitize_spec};
use crate::data::{json_pretty, json_pretty_text, json_valid};
use crate::text::{push_str, string_of};

verus! {

#[verifier::external_type_specification]
#[verifier::external_body]
pub struct ExEvent<'a>(Event<'a>);

#[verifier::external_type_specification]
#[verifier::external_body]
pub struct ExOptions(Options);

/// The grammar extensions that the Markdown parser enables.
#[derive(Clone, Copy, PartialEq, Eq, Structural)]
pub struct Extensions {
    pub tables: bool,
    pub footnotes: bool,
    pub strikethrough: bool,
    pub tasklists: bool,
}

/// Tables, footnotes, strikethrough and task lists, all enabled.
pub open spec fn all_extensions() -> Extensions {
    Extensions { tables: true, footnotes: true, strikethrough: true, tasklists: true }
}

impl Extensions {
    /// Every extension enabled.
    pub fn all() -> (r: Extensions)
        ensures
            r == all_extensions(),
    {
        Extensions { tables: true, footnotes: true, strikethrough: true, tasklists: true }
    }

    /// Converts to pulldown-cmark's option flags.
    #[verifier::external_body]
    fn options(&self) -> Options {
        let mut o = Options::empty();
        o.set(Options::ENABLE_TABLES, self.tables);
        o.set(Options::ENABLE_FOOTNOTES, self.footnotes);
        o.set(Options::ENABLE_STRIKETHROUGH, self.strikethrough);
        o.set(Options::ENABLE_TASKLISTS, self.tasklists);
        o
    }
}

/// One parser event, as far as the rewriting reads it.
pub enum MdToken {
    /// The start of a code block, with its language tag (empty when absent).
    CodeStart(String),
    /// The end of a code block.
    CodeEnd,
    /// Text.
    Text(String),
    /// The start of a link, with its target.
    Link(String),
    /// The start of an image, with its source.
    Image(String),
    /// Any other event.
    Other,
}

/// The value of an `MdToken`.
pub enum MdTokenView {
    CodeStart(Seq<char>),
    CodeEnd,
    Text(Seq<char>),
    Link(Seq<char>),
    Image(Seq<char>),
    Other,
}

impl View for MdToken {
    type V = MdTokenView;

    open spec fn view(&self) -> MdTokenView {
        match self {
            MdToken::CodeStart(l) => MdTokenView::CodeStart(l@),
            MdToken::CodeEnd => MdTokenView::CodeEnd,
            MdToken::Text(t) => MdTokenView::Text(t@),
            MdToken::Link(d) => MdTokenView::Link(d@),
            MdToken::Image(d) => MdTokenView::Image(d@),
            MdToken::Other => MdTokenView::Other,
        }
    }
}

impl MdToken {
    /// Converts a parser event.
    #[verifier::external_body]
    fn of_event(e: &Event) -> MdToken {
        match e {
            Event::Start(Tag::CodeBlock(CodeBlockKind::Fenced(l))) => MdToken::CodeStart(l.to_string()),
            Event::Start(Tag::CodeBlock(CodeBlockKind::Indented)) => MdToken::CodeStart(String::new()),
            Event::End(TagEnd::CodeBlock) => MdToken::CodeEnd,
            Event::Text(t) => MdToken::Text(t.to_string()),
            Event::Start(Tag::Link { dest_url, .. }) => MdToken::Link(dest_url.to_string()),
            Event::Start(Tag::Image { dest_url, .. }) => MdToken::Image(dest_url.to_string()),
            _ => MdToken::Other,
        }
    }
}

/// One event of the rewritten stream.
pub enum MdEmit {
    /// The parser event at this position, unchanged.
    Keep(usize),
    /// The link or image start at this position, with a new target.
    Retarget(usize, String),
    /// Raw HTML made by this library.
    Html(String),
    /// The start of a fenced code block with this language tag.
    CodeStart(String),
    /// Text.
    Text(String),
    /// The end of a code block.
    CodeEnd,
}

/// The value of an `MdEmit`.
pub enum MdEmitView {
    Keep(usize),
    Retarget(usize, Seq<char>),
    Html(Seq<char>),
    CodeStart(Seq<char>),
    Text(Seq<char>),
    CodeEnd,
}

impl View for MdEmit {
    type V = MdEmitView;

    open spec fn view(&self) -> MdEmitView {
        match self {
            MdEmit::Keep(i) => MdEmitView::Keep(*i),
            MdEmit::Retarget(i, d) => MdEmitView::Retarget(*i, d@),
            MdEmit::Html(h) => MdEmitView::Html(h@),
            MdEmit::CodeStart(l) => MdEmitView::CodeStart(l@),
            MdEmit::Text(t) => MdEmitView::Text(t@),
            MdEmit::CodeEnd => MdEmitView::CodeEnd,
        }
    }
}

/// Replaces the target of a link or image start event.
#[verifier::external_body]
fn retarget<'a>(e: Event<'a>, url: &str) -> Event<'a> {
    match e {
        Event::Start(Tag::Link { link_type, title, id, .. }) =>
            Event::Start(Tag::Link { link_type, dest_url: url.to_string().into(), title, id }),
        Event::Start(Tag::Image { link_type, title, id, .. }) =>
            Event::Start(Tag::Image { link_type, dest_url: url.to_string().into(), title, id }),
        e => e,
    }
}

impl MdEmit {
    /// Converts to a parser event; `events` are the parser's own events.
    #[verifier::external_body]
    fn to_event<'a>(&self, events: &Vec<Event<'a>>) -> Event<'a>
        requires
            match self@ {
                MdEmitView::Keep(i) => i < events@.len(),
                MdEmitView::Retarget(i, _) => i < events@.len(),
                _ => true,
            },
    {
        match self {
            MdEmit::Keep(i) => events[*i].clone(),
            MdEmit::Retarget(i, url) => retarget(events[*i].clone(), url),
            MdEmit::Html(h) => Event::Html(h.clone().into()),
            MdEmit::CodeStart(l) => Event::Start(Tag::CodeBlock(CodeBlockKind::Fenced(l.clone().into()))),
            MdEmit::Text(t) => Event::Text(t.clone().into()),
            MdEmit::CodeEnd => Event::End(TagEnd::CodeBlock),
        }
    }
}

/// The events that pulldown-cmark's parser gives for `content`, as tokens.
pub uninterp spec fn md_tokens(content: Seq<char>, ext: Extensions) -> Seq<MdTokenView>;

/// The HTML that pulldown-cmark's writer makes of the rewritten stream `out`,
/// where kept events are the parser's events for `content`.
pub uninterp spec fn md_html(content: Seq<char>, ext: Extensions, out: Seq<MdEmitView>) -> Seq<char>;

/// Relies on `pulldown_cmark::Parser::new_ext`: its events for `content`, one
/// token each.
#[verifier::external_body]
fn markdown_tokens(content: &str, ext: Extensions) -> (r: Vec<MdToken>)
    ensures
        r@.map_values(|t: MdToken| t@) == md_tokens(content@, ext),
{
    Parser::new_ext(content, ext.options()).map(|e| MdToken::of_event(&e)).collect()
}

/// Every position in `out` refers to one of `n` parser events.
pub open spec fn refers_within(out: Seq<MdEmitView>, n: int) -> bool {
    forall|k: int|
        0 <= k < out.len() ==> match #[trigger] out[k] {
            MdEmitView::Keep(i) => i < n,
            MdEmitView::Retarget(i, _) => i < n,
            _ => true,
        }
}

/// Relies on `pulldown_cmark::html::push_html`: the HTML of the rewritten stream.
#[verifier::external_body]
fn render_html(content: &str, ext: Extensions, out: &Vec<MdEmit>) -> (r: String)
    requires
        refers_within(out@.map_values(|e: MdEmit| e@), md_tokens(content@, ext).len() as int),
    ensures
        r@ == md_html(content@, ext, out@.map_values(|e: MdEmit| e@)),
{
    let events: Vec<Event> = Parser::new_ext(content, ext.options()).collect();
    let mut html = String::new();
    pulldown_cmark::html::push_html(&mut html, out.iter().map(|e| e.to_event(&events)));
    html
}

/// The state of the rewriting after a prefix of the tokens.
pub struct Fold {
    pub in_code: bool,
    pub lang: Seq<char>,
    pub code: Seq<char>,
    pub out: Seq<MdEmitView>,
}

/// The text a highlighted block shows: a `json` block that holds valid JSON
/// is shown pretty-printed, any other block as written.
pub open spec fn shown_code(lang: Seq<char>, code: Seq<char>) -> Seq<char> {
    if lang == "json"@ && json_valid(code) {
        json_pretty(code)
    } else {
        code
    }
}

/// What a finished code block becomes: highlighted markup when its language
/// tag is present and known, else the same block, unhighlighted.
pub open spec fn close_block(lang: Seq<char>, code: Seq<char>) -> Seq<MdEmitView> {
    if lang.len() > 0 && syntax_known(lang) {
        seq![MdEmitView::Html(code_block(lang, classed_html(lang, code_lines(shown_code(lang, code)))))]
    } else {
        seq![MdEmitView::CodeStart(lang), MdEmitView::Text(code), MdEmitView::CodeEnd]
    }
}

/// The state after token `t` at position `j`.
pub open spec fn fold_step(st: Fold, t: MdTokenView, j: int) -> Fold {
    match t {
        MdTokenView::CodeStart(l) => Fold { in_code: true, lang: l, code: Seq::empty(), out: st.out },
        MdTokenView::CodeEnd => Fold {
            in_code: false,
            lang: Seq::empty(),
            code: Seq::empty(),
            out: st.out + close_block(st.lang, st.code),
        },
        MdTokenView::Text(s) => if st.in_code {
            Fold { code: st.code + s, ..st }
        } else {
            Fold { out: st.out.push(MdEmitView::Keep(j as usize)), ..st }
        },
        MdTokenView::Link(d) => Fold {
            out: st.out.push(MdEmitView::Retarget(j as usize, attribute_value(seq!['h', 'r', 'e', 'f'], d))),
            ..st
        },
        MdTokenView::Image(d) => Fold {
            out: st.out.push(MdEmitView::Retarget(j as usize, attribute_value(seq!['s', 'r', 'c'], d))),
            ..st
        },
        MdTokenView::Other => Fold { out: st.out.push(MdEmitView::Keep(j as usize)), ..st },
    }
}

/// The state after all of `toks`.
pub open spec fn fold(toks: Seq<MdTokenView>) -> Fold
    decreases toks.len(),
{
    if toks.len() == 0 {
        Fold { in_code: false, lang: Seq::empty(), code: Seq::empty(), out: Seq::empty() }
    } else {
        fold_step(fold(toks.drop_last()), toks.last(), toks.len() - 1)
    }
}

proof fn lemma_fold_refers(toks: Seq<MdTokenView>)
    ensures
        refers_within(fold(toks).out, toks.len() as int),
    decreases toks.len(),
{
    if toks.len() > 0 {
        lemma_fold_refers(toks.drop_last());
    }
}

/// Rewrites the token stream: code block text is gathered between the block's
/// start and end, and the block is replaced by highlighted markup when its
/// language is known (a `json` block with valid JSON pretty-printed first),
/// or re-emitted unhighlighted with its text intact; link
/// targets and image sources follow `filter_attribute`; all else is kept.
pub fn rewrite_events(reg: &Registry, toks: &Vec<MdToken>) -> (r: Vec<MdEmit>)
    ensures
        r@.map_values(|e: MdEmit| e@) == fold(toks@.map_values(|t: MdToken| t@)).out,
{
    let ghost tv = toks@.map_values(|t: MdToken| t@);
    let mut in_code = false;
    let mut lang = String::new();
    let mut code: Vec<char> = Vec::new();
    let mut out: Vec<MdEmit> = Vec::new();
    let mut j: usize = 0;
    while j < toks.len()
        invariant
            j <= toks@.len(),
            tv == toks@.map_values(|t: MdToken| t@),
            in_code == fold(tv.take(j as int)).in_code,
            lang@ == fold(tv.take(j as int)).lang,
            code@ == fold(tv.take(j as int)).code,
            out@.map_values(|e: MdEmit| e@) == fold(tv.take(j as int)).out,
        decreases toks@.len() - j,
    {
        proof {
            assert(tv.take(j + 1 as int).drop_last() =~= tv.take(j as int));
            assert(tv.take(j + 1 as int).last() == toks@[j as int]@);
        }
        let ghost before = out@.map_values(|e: MdEmit| e@);
        match &toks[j] {
            MdToken::CodeStart(l) => {
                in_code = true;
                lang = l.clone();
                code = Vec::new();
            },
            MdToken::CodeEnd => {
                let text = string_of(&code);
                let mut done = false;
                if !lang.as_str().is_empty() {
                    proof { assert(lang@.len() > 0); }
                    let shown = if same_text(lang.as_str(), "json") {
                        match json_pretty_text(text.as_str()) {
                            Ok(p) => p,
                            Err(_) => text.clone(),
                        }
                    } else {
                        text.clone()
                    };
                    assert(shown@ == shown_code(lang@, code@));
                    match highlight_lines(reg, lang.as_str(), shown.as_str()) {
                        Some(h) => {
                            out.push(MdEmit::Html(code_block_html(lang.as_str(), h.as_str())));
                            done = true;
                        },
                        None => {},
                    }
                }
                if !done {
                    out.push(MdEmit::CodeStart(lang.clone()));
                    out.push(MdEmit::Text(text));
                    out.push(MdEmit::CodeEnd);
                    assert(out@.map_values(|e: MdEmit| e@) =~= before + close_block(lang@, code@));
                } else {
                    assert(out@.map_values(|e: MdEmit| e@) =~= before + close_block(lang@, code@));
                }
                in_code = false;
                lang = String::new();
                code = Vec::new();
            },
            MdToken::Text(t) => {
                if in_code {
                    push_str(&mut code, t.as_str());
                } else {
                    out.push(MdEmit::Keep(j));
                    assert(out@.map_values(|e: MdEmit| e@) =~= before.push(MdEmitView::Keep(j)));
                }
            },
            MdToken::Link(d) => {
                let v = filter_attribute("a", "href", d.as_str());
                proof { reveal_strlit("href"); assert("href"@ =~= seq!['h', 'r', 'e', 'f']); }
                match v {
                    Some(v) => {
                        out.push(MdEmit::Retarget(j, v));
                        assert(out@.map_values(|e: MdEmit| e@) =~= before.push(MdEmitView::Retarget(j, v@)));
                    },
                    None => {},
                }
            },
            MdToken::Image(d) => {
                let v = filter_attribute("img", "src", d.as_str());
                proof { reveal_strlit("src"); assert("src"@ =~= seq!['s', 'r', 'c']); }
                match v {
                    Some(v) => {
                        out.push(MdEmit::Retarget(j, v));
                        assert(out@.map_values(|e: MdEmit| e@) =~= before.push(MdEmitView::Retarget(j, v@)));
                    },
                    None => {},
                }
            },
            MdToken::Other => {
                out.push(MdEmit::Keep(j));
                assert(out@.map_values(|e: MdEmit| e@) =~= before.push(MdEmitView::Keep(j)));
            },
        }
        proof {
            assert(out@.map_values(|e: MdEmit| e@) =~= fold(tv.take(j + 1 as int)).out);
        }
        j = j + 1;
    }
    assert(tv.take(toks@.len() as int) =~= tv);
    out
}

/// What rendering Markdown `content` gives: the rewritten event stream,
/// written as HTML and sanitized.
pub open spec fn markdown_spec(content: Seq<char>) -> Seq<char> {
    sanitize_spec(
        md_html(content, all_extensions(), fold(md_tokens(content, all_extensions())).out),
    )
}

/// Renders Markdown to sanitized HTML with the grammars of `reg`.
pub fn render_markdown(reg: &Registry, content: &str) -> (r: String)
    ensures
        r@ == markdown_spec(content@),
{
    let ext = Extensions::all();
    let toks = markdown_tokens(content, ext);
    let out = rewrite_events(reg, &toks);
    proof {
        lemma_fold_refers(toks@.map_values(|t: MdToken| t@));
    }
    let html = render_html(content, ext, &out);
    sanitize(html.as_str())
}

/// Renders Markdown to sanitized HTML. Highlighting uses classes, so the theme
/// does not change the markup.
pub fn parse_markdown_with_theme(content: &str, _theme_name: &str) -> (r: String)
    ensures
        r@ == markdown_spec(content@),
{
    let reg = Registry::new();
    render_markdown(&reg, content)
}

/// Renders Markdown to sanitized HTML with the light theme.
pub fn parse_markdown(content: &str) -> (r: String)
    ensures
        r@ == markdown_spec(content@),
{
    parse_markdown_with_theme(content, "light")
}

} // verus!
