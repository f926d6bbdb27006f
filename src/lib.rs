//! Rendering core of a live Markdown / JSON / YAML / text viewer: a rendering
//! pipeline with syntax highlighting and sanitization, a least-recently-used
//! render cache, and a file-watch multiplexer with debouncing.

pub mod text;
pub mod escape;
pub mod highlight;
pub mod sanitize;
pub mod markdown;
pub mod data;
pub mod document;
pub mod theme;
pub mod cache;
pub mod watch;
pub mod service;
pub mod laws;

pub use document::{format_json_pretty, parse_json_with_theme, parse_yaml_with_theme};
pub use escape::escape_html;
pub use markdown::{parse_markdown, parse_markdown_with_theme};
pub use theme::{get_syntax_theme_css, get_syntax_themes};
