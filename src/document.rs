//! Rendering of whole documents by kind: Markdown, JSON, YAML and plain text.

use vstd::prelude::*;
use crate::escape::{escape_html, escaped};
use crate::highlight::{classed_html, code_block, code_block_html, code_lines, highlight_lines, syntax_known, Registry};
use crate::markdown::{markdown_spec, render_markdown};
use crate::text::{chars_of, push_str, string_of};
use crate::sanitize::same_text;
use crate::data::{
    json_error_text, json_pretty, json_pretty_text, json_valid, yaml_error_text, yaml_renders, yaml_text,
    yaml_value_text,
};

verus! {

/// `prefix` followed by `detail`.
pub fn prefixed(prefix: &str, detail: &str) -> (r: String)
    ensures
        r@ == prefix@ + detail@,
{
    let mut out: Vec<char> = Vec::new();
    push_str(&mut out, prefix);
    push_str(&mut out, detail);
    string_of(&out)
}

/// The first of `tokens` that has a grammar.
pub open spec fn first_known(tokens: Seq<Seq<char>>) -> Option<Seq<char>>
    decreases tokens.len(),
{
    if tokens.len() == 0 {
        None
    } else if syntax_known(tokens[0]) {
        Some(tokens[0])
    } else {
        first_known(tokens.drop_first())
    }
}

/// The highlighted block of language `lang` for `text`, using the first of
/// `tokens` that has a grammar.
pub open spec fn data_block(tokens: Seq<Seq<char>>, lang: Seq<char>, text: Seq<char>) -> Option<Seq<char>> {
    match first_known(tokens) {
        Some(t) => Some(code_block(lang, classed_html(t, code_lines(text)))),
        None => None,
    }
}

/// Highlights `text` with the first of `tokens` that has a grammar, and wraps
/// it as a block of language `lang`.
pub fn highlight_data(reg: &Registry, tokens: &Vec<&str>, lang: &str, text: &str) -> (r: Option<String>)
    ensures
        r is Some <==> data_block(tokens@.map_values(|t: &str| t@), lang@, text@) is Some,
        r matches Some(h) ==> data_block(tokens@.map_values(|t: &str| t@), lang@, text@) == Some(h@),
{
    let ghost tv = tokens@.map_values(|t: &str| t@);
    let mut i: usize = 0;
    assert(tv.skip(0) =~= tv);
    while i < tokens.len()
        invariant
            i <= tokens@.len(),
            tv == tokens@.map_values(|t: &str| t@),
            first_known(tv) == first_known(tv.skip(i as int)),
        decreases tokens@.len() - i,
    {
        proof {
            assert(tv.skip(i as int).drop_first() =~= tv.skip(i + 1 as int));
            assert(tv.skip(i as int)[0] == tokens@[i as int]@);
        }
        match highlight_lines(reg, tokens[i], text) {
            Some(h) => {
                return Some(code_block_html(lang, h.as_str()));
            },
            None => {},
        }
        i = i + 1;
    }
    assert(tv.skip(i as int).len() == 0);
    None
}

/// The JSON grammar tokens, in the order they are tried.
pub open spec fn json_tokens() -> Seq<Seq<char>> {
    seq!["JSON"@, "json"@]
}

/// The YAML grammar tokens, in the order they are tried.
pub open spec fn yaml_tokens() -> Seq<Seq<char>> {
    seq!["YAML"@, "yaml"@, "yml"@]
}

/// A block of language `lang` for `text`: highlighted with the first of
/// `tokens` that has a grammar, else escaped and unhighlighted.
pub open spec fn data_block_spec(tokens: Seq<Seq<char>>, lang: Seq<char>, text: Seq<char>) -> Seq<char> {
    match data_block(tokens, lang, text) {
        Some(h) => h,
        None => code_block(lang, escaped(text)),
    }
}

/// What rendering pretty-printed JSON text gives.
pub open spec fn json_text_spec(text: Seq<char>) -> Seq<char> {
    data_block_spec(json_tokens(), "json"@, text)
}

/// What rendering YAML text gives.
pub open spec fn yaml_text_spec(text: Seq<char>) -> Seq<char> {
    data_block_spec(yaml_tokens(), "yaml"@, text)
}

/// The view of a rendering result.
pub open spec fn result_view(r: Result<String, String>) -> Result<Seq<char>, Seq<char>> {
    match r {
        Ok(s) => Ok(s@),
        Err(e) => Err(e@),
    }
}

/// A block of language `lang` for `text`, highlighted when one of `tokens` has
/// a grammar; a missing grammar falls back to escaped, unhighlighted text.
pub fn data_block_html(reg: &Registry, tokens: &Vec<&str>, lang: &str, text: &str) -> (r: String)
    ensures
        r@ == data_block_spec(tokens@.map_values(|t: &str| t@), lang@, text@),
{
    match highlight_data(reg, tokens, lang, text) {
        Some(h) => h,
        None => {
            let esc = escape_html(text);
            code_block_html(lang, esc.as_str())
        },
    }
}

/// Renders pretty-printed JSON text as a block of language `json`.
pub fn highlight_json_text(reg: &Registry, text: &str) -> (r: String)
    ensures
        r@ == json_text_spec(text@),
{
    let tokens: Vec<&str> = vec!["JSON", "json"];
    assert(tokens@.map_values(|t: &str| t@) =~= json_tokens());
    data_block_html(reg, &tokens, "json", text)
}

/// Renders YAML text as a block of language `yaml`.
pub fn highlight_yaml_text(reg: &Registry, text: &str) -> (r: String)
    ensures
        r@ == yaml_text_spec(text@),
{
    let tokens: Vec<&str> = vec!["YAML", "yaml", "yml"];
    assert(tokens@.map_values(|t: &str| t@) =~= yaml_tokens());
    data_block_html(reg, &tokens, "yaml", text)
}

/// What rendering JSON gives: the highlighted pretty text of valid JSON, and
/// for anything else an error that starts `Invalid JSON: ` and goes on with
/// the parser's diagnostic.
pub open spec fn json_render_spec(content: Seq<char>, r: Result<Seq<char>, Seq<char>>) -> bool {
    if json_valid(content) {
        r == Ok::<Seq<char>, Seq<char>>(json_text_spec(json_pretty(content)))
    } else {
        r is Err && exists|d: Seq<char>| r->Err_0 == "Invalid JSON: "@ + d
    }
}

/// What rendering YAML gives: the highlighted text of the value written back
/// out, and for anything else an error that starts `Invalid YAML: ` and goes
/// on with the diagnostic.
pub open spec fn yaml_render_spec(content: Seq<char>, r: Result<Seq<char>, Seq<char>>) -> bool {
    if yaml_renders(content) {
        r == Ok::<Seq<char>, Seq<char>>(yaml_text_spec(yaml_text(content)))
    } else {
        r is Err && exists|d: Seq<char>| r->Err_0 == "Invalid YAML: "@ + d
    }
}

/// Parses JSON, pretty-prints it and highlights it (see `json_render_spec`).
pub fn render_json(reg: &Registry, content: &str) -> (r: Result<String, String>)
    ensures
        json_render_spec(content@, result_view(r)),
{
    match json_pretty_text(content) {
        Ok(p) => Ok(highlight_json_text(reg, p.as_str())),
        Err(e) => {
            let d = json_error_text(&e);
            Err(prefixed("Invalid JSON: ", d.as_str()))
        },
    }
}

/// Parses YAML, writes the value back out and highlights it (see
/// `yaml_render_spec`).
pub fn render_yaml(reg: &Registry, content: &str) -> (r: Result<String, String>)
    ensures
        yaml_render_spec(content@, result_view(r)),
{
    match yaml_value_text(content) {
        Ok(p) => Ok(highlight_yaml_text(reg, p.as_str())),
        Err(e) => {
            let d = yaml_error_text(&e);
            Err(prefixed("Invalid YAML: ", d.as_str()))
        },
    }
}

/// Renders JSON with syntect's default grammars (see `json_render_spec`); the
/// theme does not change the markup.
pub fn parse_json_with_theme(content: &str, _theme_name: &str) -> (r: Result<String, String>)
    ensures
        json_render_spec(content@, result_view(r)),
{
    let reg = Registry::new();
    render_json(&reg, content)
}

/// Renders YAML with syntect's default grammars (see `yaml_render_spec`); the
/// theme does not change the markup.
pub fn parse_yaml_with_theme(content: &str, _theme_name: &str) -> (r: Result<String, String>)
    ensures
        yaml_render_spec(content@, result_view(r)),
{
    let reg = Registry::new();
    render_yaml(&reg, content)
}

/// Pretty-prints JSON with two-space indentation. Invalid JSON is rejected
/// with a message that starts `Invalid JSON: ` and goes on with the parser's
/// diagnostic.
pub fn format_json_pretty(content: &str) -> (r: Result<String, String>)
    ensures
        json_valid(content@) ==> r is Ok && r->Ok_0@ == json_pretty(content@),
        !json_valid(content@) ==> r is Err && exists|d: Seq<char>| r->Err_0@ == "Invalid JSON: "@ + d,
{
    match json_pretty_text(content) {
        Ok(p) => Ok(p),
        Err(e) => {
            let d = json_error_text(&e);
            Err(prefixed("Invalid JSON: ", d.as_str()))
        },
    }
}

/// Plain text as HTML: escaped and wrapped in a fixed container.
pub open spec fn plain_text_spec(content: Seq<char>) -> Seq<char> {
    "<div class=\"markdown-body\"><pre class=\"plain-text\">"@ + escaped(content) + "</pre></div>"@
}

/// Renders plain text: no parsing, no highlighting, every special character escaped.
pub fn render_plain_text(content: &str) -> (r: String)
    ensures
        r@ == plain_text_spec(content@),
{
    let esc = escape_html(content);
    let mut out: Vec<char> = Vec::new();
    push_str(&mut out, "<div class=\"markdown-body\"><pre class=\"plain-text\">");
    push_str(&mut out, esc.as_str());
    push_str(&mut out, "</pre></div>");
    string_of(&out)
}

/// The kinds of document, told apart by file extension.
#[derive(Clone, Copy, Debug, PartialEq, Eq, Structural)]
pub enum DocumentKind {
    Markdown,
    Json,
    Yaml,
    PlainText,
}

/// What `str::to_lowercase` makes of `s`.
pub uninterp spec fn lower_of(s: Seq<char>) -> Seq<char>;

/// `c` in lower case, when it is an ASCII letter; else `c`.
pub open spec fn ascii_lower_char(c: char) -> char {
    if 'A' <= c && c <= 'Z' {
        ((c as u32) + 32) as char
    } else {
        c
    }
}

/// Every character of `s` is ASCII.
pub open spec fn all_ascii(s: Seq<char>) -> bool {
    forall|i: int| 0 <= i < s.len() ==> (s[i] as u32) < 128
}

/// Relies on `str::to_lowercase`: the result depends on the characters alone,
/// and on ASCII text it lowers the letters `A` to `Z` one for one.
#[verifier::external_body]
fn lowercase(s: &str) -> (r: String)
    ensures
        r@ == lower_of(s@),
        all_ascii(s@) ==> r@ == s@.map_values(|c: char| ascii_lower_char(c)),
{
    s.to_lowercase()
}

/// The position of the last `c` in `s`, or -1.
pub open spec fn last_index_of(s: Seq<char>, c: char) -> int
    decreases s.len(),
{
    if s.len() == 0 {
        -1
    } else if s.last() == c {
        s.len() - 1
    } else {
        last_index_of(s.drop_last(), c)
    }
}

/// The last component of a `/`-separated path.
pub open spec fn file_name_of(path: Seq<char>) -> Seq<char> {
    path.skip(last_index_of(path, '/') + 1)
}

/// The extension of a path: what follows the last `.` of its file name, when
/// that dot is not the name's first character.
pub open spec fn extension_of(path: Seq<char>) -> Option<Seq<char>> {
    let f = file_name_of(path);
    let d = last_index_of(f, '.');
    if d > 0 {
        Some(f.skip(d + 1))
    } else {
        None
    }
}

/// The kind for a lower-case extension: `md` and `markdown` are Markdown,
/// `json` JSON, `yaml` and `yml` YAML, anything else (`txt` among them) plain
/// text.
pub open spec fn kind_for_extension(ext: Seq<char>) -> DocumentKind {
    if ext == "md"@ || ext == "markdown"@ {
        DocumentKind::Markdown
    } else if ext == "json"@ {
        DocumentKind::Json
    } else if ext == "yaml"@ || ext == "yml"@ {
        DocumentKind::Yaml
    } else {
        DocumentKind::PlainText
    }
}

/// The kind of the document at `path`: by its lower-cased extension, plain
/// text when it has none.
pub open spec fn document_kind_spec(path: Seq<char>) -> DocumentKind {
    match extension_of(path) {
        Some(e) => kind_for_extension(lower_of(e)),
        None => DocumentKind::PlainText,
    }
}

/// The kind for an extension already in lower case.
pub fn kind_for_lower_extension(ext: &str) -> (r: DocumentKind)
    ensures
        r == kind_for_extension(ext@),
{
    if same_text(ext, "md") || same_text(ext, "markdown") {
        DocumentKind::Markdown
    } else if same_text(ext, "json") {
        DocumentKind::Json
    } else if same_text(ext, "yaml") || same_text(ext, "yml") {
        DocumentKind::Yaml
    } else {
        DocumentKind::PlainText
    }
}

/// One past the position of the last `c` in `v`, or 0 when there is none.
fn find_after_last(v: &Vec<char>, c: char) -> (r: usize)
    ensures
        r == last_index_of(v@, c) + 1,
        r <= v@.len(),
{
    let mut i: usize = v.len();
    assert(v@.take(v@.len() as int) =~= v@);
    while i > 0
        invariant
            i <= v@.len(),
            last_index_of(v@, c) == last_index_of(v@.take(i as int), c),
        decreases i,
    {
        assert(v@.take(i as int).drop_last() =~= v@.take(i - 1 as int));
        if v[i - 1] == c {
            return i;
        }
        i = i - 1;
    }
    0
}

fn tail_from(v: &Vec<char>, start: usize) -> (r: Vec<char>)
    requires
        start <= v@.len(),
    ensures
        r@ == v@.skip(start as int),
{
    let mut out: Vec<char> = Vec::new();
    let mut i: usize = start;
    while i < v.len()
        invariant
            start <= i <= v@.len(),
            out@ == v@.subrange(start as int, i as int),
        decreases v@.len() - i,
    {
        out.push(v[i]);
        i = i + 1;
        assert(out@ =~= v@.subrange(start as int, i as int));
    }
    assert(out@ =~= v@.skip(start as int));
    out
}

/// The kind of the document at `path`, from its extension.
pub fn document_kind(path: &str) -> (r: DocumentKind)
    ensures
        r == document_kind_spec(path@),
{
    let cs = chars_of(path);
    let name = tail_from(&cs, find_after_last(&cs, '/'));
    let after_dot = find_after_last(&name, '.');
    if after_dot <= 1 {
        return DocumentKind::PlainText;
    }
    let ext = string_of(&tail_from(&name, after_dot));
    let lower = lowercase(ext.as_str());
    kind_for_lower_extension(lower.as_str())
}

/// What rendering a document of kind `kind` gives.
pub open spec fn render_ok(kind: DocumentKind, content: Seq<char>, r: Result<Seq<char>, Seq<char>>) -> bool {
    match kind {
        DocumentKind::Markdown => r == Ok::<Seq<char>, Seq<char>>(markdown_spec(content)),
        DocumentKind::PlainText => r == Ok::<Seq<char>, Seq<char>>(plain_text_spec(content)),
        DocumentKind::Json => json_render_spec(content, r),
        DocumentKind::Yaml => yaml_render_spec(content, r),
    }
}

/// Renders `content` as a document of kind `kind`.
pub fn render_document(reg: &Registry, kind: DocumentKind, content: &str) -> (r: Result<String, String>)
    ensures
        render_ok(kind, content@, result_view(r)),
{
    match kind {
        DocumentKind::Markdown => Ok(render_markdown(reg, content)),
        DocumentKind::PlainText => Ok(render_plain_text(content)),
        DocumentKind::Json => render_json(reg, content),
        DocumentKind::Yaml => render_yaml(reg, content),
    }
}

} // verus!
