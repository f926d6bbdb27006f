use markrust_core::document::{
    document_kind, kind_for_lower_extension, parse_json_with_theme, parse_yaml_with_theme, prefixed,
    render_plain_text, DocumentKind,
};
use markrust_core::escape::escape_html;
use markrust_core::highlight::{code_block_html, highlight_lines, Registry};
use markrust_core::markdown::{parse_markdown, parse_markdown_with_theme};
use markrust_core::sanitize::{filter_attribute, same_text, sanitize};
use markrust_core::theme::{get_syntax_theme_css, get_syntax_themes};

#[test]
fn escape_html_replaces_the_five_characters() {
    assert_eq!(
        escape_html("<a href=\"x\">'&'</a>"),
        "&lt;a href=&quot;x&quot;&gt;&#039;&amp;&#039;&lt;/a&gt;"
    );
    assert_eq!(escape_html(""), "");
    assert_eq!(escape_html("plain ünïcode"), "plain ünïcode");
}

#[test]
fn plain_text_is_escaped_in_a_fixed_container() {
    assert_eq!(
        render_plain_text("a < b\n"),
        "<div class=\"markdown-body\"><pre class=\"plain-text\">a &lt; b\n</pre></div>"
    );
}

#[test]
fn link_targets_follow_the_scheme_policy() {
    let f = |a: &str, v: &str| filter_attribute("a", a, v).unwrap();
    assert_eq!(f("href", "javascript:alert(1)"), "#");
    assert_eq!(f("href", "JavaScript:alert(1)"), "#");
    assert_eq!(f("href", "data:text/html,hi"), "#");
    assert_eq!(f("href", "file:///etc/passwd"), "#");
    assert_eq!(f("href", "https://example.com/a?b#c"), "https://example.com/a?b#c");
    assert_eq!(f("href", "HTTP://example.com"), "HTTP://example.com");
    assert_eq!(f("href", "mailto:someone@example.com"), "mailto:someone@example.com");
    assert_eq!(f("href", "other.md#part"), "other.md#part");
    assert_eq!(f("href", "#part"), "#part");
    assert_eq!(f("title", "javascript:x"), "javascript:x");
}

#[test]
fn image_sources_follow_the_scheme_policy() {
    let f = |v: &str| filter_attribute("img", "src", v).unwrap();
    assert_eq!(f("http://example.com/a.png"), "http://example.com/a.png");
    assert_eq!(f("data:image/png;base64,AAAA"), "data:image/png;base64,AAAA");
    assert_eq!(f("DATA:IMAGE/gif;base64,AA"), "DATA:IMAGE/gif;base64,AA");
    assert_eq!(f("data:text/html,<b>"), "");
    assert_eq!(f("mailto:x@example.com"), "");
    assert_eq!(f("javascript:alert(1)"), "");
    assert_eq!(f("pics/a.png"), "pics/a.png");
}

#[test]
fn same_text_compares_characters() {
    assert!(same_text("abc", "abc"));
    assert!(!same_text("abc", "abd"));
    assert!(!same_text("abc", "ab"));
    assert!(same_text("", ""));
}

#[test]
fn sanitize_is_idempotent() {
    let inputs = [
        "<p>hi <b>there</b></p>",
        "<a href=\"https://example.com\">x</a>",
        "<a href=\"javascript:alert(1)\">x</a><script>evil()</script>",
        "<div class=\"highlight\"><span class=\"source json\">{}</span></div>",
        "<img src=\"data:image/png;base64,AA\" onerror=\"x()\">",
        "unclosed <b>bold <i>both",
        "",
    ];
    for x in inputs.iter() {
        let once = sanitize(x);
        assert_eq!(sanitize(&once), once, "input {:?}", x);
    }
}

#[test]
fn sanitize_removes_script_handlers_and_javascript_urls() {
    let inputs = [
        "<script>alert(1)</script>text",
        "<img src=x onerror=alert(1)>",
        "<a href=\"javascript:alert(1)\">x</a>",
        "<a href=\"JAVASCRIPT:alert(1)\" onclick=\"y()\">x</a>",
        "<p onerror=\"alert(1)\">p</p>",
    ];
    for x in inputs.iter() {
        let out = sanitize(x).to_lowercase();
        assert!(!out.contains("<script>"), "{:?} -> {:?}", x, out);
        assert!(!out.contains("onerror="), "{:?} -> {:?}", x, out);
        assert!(!out.contains("javascript:"), "{:?} -> {:?}", x, out);
    }
}

#[test]
fn sanitize_keeps_classes_and_structure() {
    let html = "<div class=\"highlight\"><pre><code class=\"language-json\"><span class=\"source json\">{}</span></code></pre></div>";
    assert_eq!(sanitize(html), html);
}

#[test]
fn unknown_language_falls_back_to_a_plain_block() {
    let out = parse_markdown("```nonexistent-lang-xyz\nlet x = 1 < 2;\n```\n");
    assert!(out.contains("<pre><code class=\"language-nonexistent-lang-xyz\">let x = 1 &lt; 2;\n</code></pre>"), "{}", out);
    assert!(!out.contains("class=\"highlight\""), "{}", out);
}

#[test]
fn block_without_language_stays_plain() {
    let out = parse_markdown("```\nraw <text>\n```\n");
    assert!(out.contains("<pre><code>raw &lt;text&gt;\n</code></pre>"), "{}", out);
}

#[test]
fn fenced_json_is_highlighted_with_classes() {
    let out = parse_markdown_with_theme("# Title\n\n```json\n{\"a\":1}\n```\n\nafter\n", "dark");
    assert!(out.contains("<h1>Title</h1>"), "{}", out);
    assert!(out.contains("<div class=\"highlight\"><pre><code class=\"language-json\">"), "{}", out);
    assert!(out.contains("<span class=\""), "{}", out);
    assert!(out.contains(">a<"), "{}", out);
    assert!(out.contains("<span class=\"constant numeric json\">1</span>"), "{}", out);
    // the block shows the pretty-printed value: one key per indented line
    let text: String = {
        let mut t = String::new();
        let mut in_tag = false;
        for ch in out.chars() {
            match ch {
                '<' => in_tag = true,
                '>' => in_tag = false,
                c if !in_tag => t.push(c),
                _ => {}
            }
        }
        t.replace("&quot;", "\"")
    };
    assert!(text.contains("{\n  \"a\": 1\n}\n"), "{:?}", text);
    assert!(out.contains("<p>after</p>"), "{}", out);
}

#[test]
fn javascript_link_target_becomes_placeholder() {
    let out = parse_markdown("[x](javascript:alert(1))");
    assert!(out.contains("href=\"#\""), "{}", out);
    assert!(!out.contains("javascript:"), "{}", out);
}

#[test]
fn safe_links_and_images_are_kept() {
    let out = parse_markdown("[x](https://example.com) ![i](data:image/png;base64,AA) ![j](javascript:x)");
    assert!(out.contains("href=\"https://example.com\""), "{}", out);
    assert!(out.contains("src=\"data:image/png;base64,AA\""), "{}", out);
    assert!(!out.contains("javascript:"), "{}", out);
}

#[test]
fn markdown_extensions_are_enabled() {
    let out = parse_markdown("| a | b |\n|---|---|\n| 1 | 2 |\n\n~~gone~~\n\n- [x] done\n");
    assert!(out.contains("<table>"), "{}", out);
    assert!(out.contains("<del>gone</del>"), "{}", out);
    assert!(out.contains("type=\"checkbox\"") || out.contains("<li>"), "{}", out);
}

#[test]
fn raw_html_link_targets_are_neutralized() {
    let out = parse_markdown("<a href=\"javascript:alert(1)\">x</a> <img src=\"file:///etc/x.png\">\n");
    assert!(out.contains("href=\"#\""), "{}", out);
    assert!(out.contains("src=\"\""), "{}", out);
    assert!(!out.contains("javascript:"), "{}", out);
    let s = sanitize("<a href=\"vbscript:x\">y</a>");
    assert!(s.contains("href=\"#\""), "{}", s);
}

#[test]
fn invalid_json_in_a_fence_is_shown_as_written() {
    let out = parse_markdown("```json\n{oops\n```\n");
    assert!(out.contains(">o</span>") && out.contains(">p</span>") && out.contains(">s</span>"), "{}", out);
    assert!(out.contains("class=\"highlight\""), "{}", out);
}

#[test]
fn raw_script_in_markdown_is_removed() {
    let out = parse_markdown("hello\n\n<script>alert(1)</script>\n\n<img src=x onerror=alert(1)>\n");
    assert!(!out.contains("<script>"), "{}", out);
    assert!(!out.contains("onerror"), "{}", out);
    assert!(out.contains("hello"), "{}", out);
}

#[test]
fn equal_json_values_render_equally() {
    let a = parse_json_with_theme("{\"b\":1,\"a\":2}", "dark").unwrap();
    let b = parse_json_with_theme("{ \"a\": 2,\n \"b\": 1 }", "light").unwrap();
    assert_eq!(a, b);
    let y1 = parse_yaml_with_theme("a: 1 # note\nb: [x, y]\n", "dark").unwrap();
    let y2 = parse_yaml_with_theme("a: 1\nb:\n  - x\n  - y\n", "light").unwrap();
    assert_eq!(y1, y2);
}

#[test]
fn json_renders_pretty_and_highlighted() {
    let out = parse_json_with_theme("{\"b\":[1,2],\"a\":true}", "light").unwrap();
    assert!(out.starts_with("<div class=\"highlight\"><pre><code class=\"language-json\">"), "{}", out);
    assert!(out.ends_with("</code></pre></div>"), "{}", out);
    assert!(out.contains("<span class=\""), "{}", out);
    assert!(out.contains("\n"), "{}", out);
}

#[test]
fn invalid_json_is_rejected_with_diagnostic() {
    let err = parse_json_with_theme("{\"a\":", "light").unwrap_err();
    assert!(err.starts_with("Invalid JSON: "), "{}", err);
    assert!(err.len() > "Invalid JSON: ".len());
}

#[test]
fn yaml_renders_highlighted() {
    let out = parse_yaml_with_theme("a: 1\nb: [x, y]\n", "light").unwrap();
    assert!(out.starts_with("<div class=\"highlight\"><pre><code class=\"language-yaml\">"), "{}", out);
    assert!(out.contains("<span class=\""), "{}", out);
}

#[test]
fn invalid_yaml_is_rejected_with_diagnostic() {
    let err = parse_yaml_with_theme("a: [1, 2\n", "light").unwrap_err();
    assert!(err.starts_with("Invalid YAML: "), "{}", err);
}

#[test]
fn highlighting_known_and_unknown_languages() {
    let reg = Registry::new();
    assert!(highlight_lines(&reg, "nonexistent-lang-xyz", "x").is_none());
    let h = highlight_lines(&reg, "rust", "fn main() {}\n").unwrap();
    assert!(h.contains("<span class=\""), "{}", h);
    assert!(h.contains("main"), "{}", h);
    let upper = highlight_lines(&reg, "JSON", "{}").unwrap();
    let lower = highlight_lines(&reg, "json", "{}").unwrap();
    assert_eq!(upper, lower);
}

#[test]
fn code_block_markup() {
    assert_eq!(
        code_block_html("rust", "X"),
        "<div class=\"highlight\"><pre><code class=\"language-rust\">X</code></pre></div>"
    );
}

#[test]
fn document_kinds_by_extension() {
    assert_eq!(document_kind("notes/a.txt"), DocumentKind::PlainText);
    assert_eq!(document_kind("notes/A.TXT"), DocumentKind::PlainText);
    assert_eq!(document_kind("/x/data.JSON"), DocumentKind::Json);
    assert_eq!(document_kind("c.yaml"), DocumentKind::Yaml);
    assert_eq!(document_kind("c.YML"), DocumentKind::Yaml);
    assert_eq!(document_kind("README.md"), DocumentKind::Markdown);
    assert_eq!(document_kind("guide.Markdown"), DocumentKind::Markdown);
    assert_eq!(document_kind("README"), DocumentKind::PlainText);
    assert_eq!(document_kind("main.rs"), DocumentKind::PlainText);
    assert_eq!(document_kind("dir/.md"), DocumentKind::PlainText);
    assert_eq!(document_kind("dir.md/file"), DocumentKind::PlainText);
    assert_eq!(kind_for_lower_extension("yml"), DocumentKind::Yaml);
    assert_eq!(kind_for_lower_extension("md"), DocumentKind::Markdown);
    assert_eq!(kind_for_lower_extension("MD"), DocumentKind::PlainText);
}

#[test]
fn prefixed_joins_text() {
    assert_eq!(prefixed("Invalid JSON: ", "eof"), "Invalid JSON: eof");
}

#[test]
fn theme_stylesheets_resolve() {
    let dark = get_syntax_theme_css("dark").unwrap();
    let light = get_syntax_theme_css("light").unwrap();
    assert!(dark.contains(".code"), "{}", dark);
    assert!(dark.contains("Monokai") || dark.contains("theme"), "{}", dark);
    assert_ne!(dark, light);
    assert_eq!(get_syntax_theme_css("drac"), Some(dark));
    assert_eq!(get_syntax_theme_css("anything"), Some(light));
}

#[test]
fn offered_syntax_themes() {
    assert_eq!(
        get_syntax_themes(),
        vec!["InspiredGitHub", "Monokai", "Solarized (dark)", "Solarized (light)"]
    );
}

#[test]
fn json_is_pretty_printed() {
    assert_eq!(
        markrust_core::format_json_pretty("{\"a\":1,\"b\":[true]}").unwrap(),
        "{\n  \"a\": 1,\n  \"b\": [\n    true\n  ]\n}"
    );
    assert!(markrust_core::format_json_pretty("[1,").unwrap_err().starts_with("Invalid JSON: "));
}

#[test]
fn crate_root_exposes_the_renderers() {
    assert_eq!(markrust_core::escape_html("&"), "&amp;");
    assert_eq!(markrust_core::parse_markdown("*x*"), "<p><em>x</em></p>\n");
    assert_eq!(markrust_core::get_syntax_themes().len(), 4);
}
