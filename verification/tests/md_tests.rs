use cfdrop::md::{escape, md_to_html, render_page, title_of, wrap_tables, strip_pre_attributes, fence_language, syntax_alias};

#[test]
fn renders_code_and_tables() {
    let out = md_to_html("run `hashFile()` now\n\n| a | b |\n|---|---|\n| 1 | 2 |\n");
    assert!(out.contains("<code>hashFile()</code>"));
    assert!(out.contains(r#"<div class="tablewrap"><table>"#));
    assert!(out.contains("</table></div>"));
}

#[test]
fn highlights_known_language() {
    let out = md_to_html("```rust\nlet x: u32 = 1;\n```\n");
    assert!(out.contains("<span style=\"color:"), "expected colored spans, got: {out}");
    assert!(!out.contains("<pre style="), "pre background must be stripped");
}

#[test]
fn typescript_fence_highlights_via_js_alias() {
    let out = md_to_html("```ts\nconst x = { a: 1 };\n```\n");
    assert!(out.contains("<span style=\"color:"), "ts should highlight via js alias: {out}");
}

#[test]
fn unknown_language_falls_back_to_plain() {
    let out = md_to_html("```notalang\nfoo & <bar>\n```\n");
    assert!(out.contains("<pre><code>foo &amp; &lt;bar&gt;\n</code></pre>"));
    assert!(!out.contains("<span style=\"color:"));
}

#[test]
fn plain_fence_is_escaped_not_highlighted() {
    let out = md_to_html("```\na < b\n```\n");
    assert!(out.contains("a &lt; b"));
    assert!(!out.contains("<span style=\"color:"));
}

#[test]
fn mermaid_fence_becomes_mermaid_pre() {
    let out = md_to_html("```mermaid\ngraph TD\n  A --> B\n```\n");
    assert!(out.contains(r#"<pre class="mermaid">graph TD"#));
    assert!(out.contains("A --&gt; B"));
    assert!(!out.contains("<span style=\"color:"));
}

#[test]
fn extracts_title() {
    assert_eq!(title_of("# Hello World\nbody", "fb"), "Hello World");
    assert_eq!(title_of("no heading here", "fb"), "fb");
}

#[test]
fn title_uses_first_heading_line_only() {
    assert_eq!(title_of("intro\n  #   Spaced Title  \r\n# Second", "fb"), "Spaced Title");
    // "# " trims to "#", which is no heading line
    assert_eq!(title_of("# \n# Later", "fb"), "Later");
    assert_eq!(title_of("#NoSpace", "fb"), "fb");
    assert_eq!(title_of("", "fb"), "fb");
}

#[test]
fn escape_replaces_the_four_html_characters() {
    assert_eq!(escape(r#"a & b < c > "d""#), "a &amp; b &lt; c &gt; &quot;d&quot;");
    assert_eq!(escape("&amp;"), "&amp;amp;");
    assert_eq!(escape("plain"), "plain");
}

#[test]
fn page_has_back_link_and_mermaid_script_only_when_asked() {
    let p = render_page("T <1>", "<p>x</p>", true);
    assert!(p.starts_with("<!DOCTYPE html>\n<html lang=\"en\">"));
    assert!(p.contains("<title>T &lt;1&gt;</title>"));
    assert!(p.contains("\u{2190} Index"));
    assert!(p.contains("overflow-x:hidden"));
    assert!(!p.contains("mermaid.min.js"));
    assert!(p.ends_with("<footer>deployed with cftmp</footer></body></html>"));
    let q = render_page("T", "<pre class=\"mermaid\">g</pre>", false);
    assert!(!q.contains("\u{2190} Index"));
    assert!(q.contains("src=\"/_cftmp/mermaid.min.js\""));
    assert!(q.contains("mermaid.initialize"));
}

#[test]
fn wraps_every_table() {
    assert_eq!(
        wrap_tables("<table>a</table><table>b</table>"),
        "<div class=\"tablewrap\"><table>a</table></div><div class=\"tablewrap\"><table>b</table></div>"
    );
    assert_eq!(wrap_tables("no tables"), "no tables");
}

#[test]
fn strips_pre_attributes() {
    assert_eq!(
        strip_pre_attributes("<pre style=\"background-color:#2b303b;\">\n<span>x</span></pre>").as_deref(),
        Some("<pre>\n<span>x</span></pre>")
    );
    assert_eq!(strip_pre_attributes("<div>").as_deref(), None);
    assert_eq!(strip_pre_attributes("<pre unclosed").as_deref(), None);
}

#[test]
fn fence_language_is_first_token() {
    assert_eq!(fence_language("rust,ignore"), "rust");
    assert_eq!(fence_language("python title=x"), "python");
    assert_eq!(fence_language(""), "");
}

#[test]
fn aliases_cover_common_fence_tokens() {
    assert_eq!(syntax_alias("tsx"), Some("js"));
    assert_eq!(syntax_alias("json5"), Some("json"));
    assert_eq!(syntax_alias("zsh"), Some("bash"));
    assert_eq!(syntax_alias("svelte"), Some("html"));
    assert_eq!(syntax_alias("rust"), None);
}

#[test]
fn indented_code_is_plain() {
    let out = md_to_html("para\n\n    x < y\n");
    assert!(out.contains("<pre><code>x &lt; y\n</code></pre>"), "{out}");
}

#[test]
fn escaped_text_cannot_open_a_tag() {
    let e = escape(r#"<script>alert("x")</script> & <b>"#);
    assert!(!e.contains('<') && !e.contains('>') && !e.contains('"'));
    assert_eq!(e, "&lt;script&gt;alert(&quot;x&quot;)&lt;/script&gt; &amp; &lt;b&gt;");
    assert_eq!(escape("plain text 123"), "plain text 123");
}

#[test]
fn every_page_is_a_whole_document() {
    for with_back in [false, true] {
        let p = render_page("T & <x>", "<p>hi</p>", with_back);
        assert!(p.starts_with("<!DOCTYPE html>"));
        assert!(p.ends_with("</body></html>"));
        assert!(p.contains("<title>T &amp; &lt;x&gt;</title>"));
        assert!(p.contains(r#"<div class="md"><p>hi</p></div>"#));
        assert!(p.contains("overflow-x:hidden"));
        assert_eq!(p.contains(r#"<a class="back" href="/">"#), with_back);
    }
}

#[test]
fn mermaid_is_started_only_on_pages_with_a_diagram() {
    let with = render_page("t", r#"<pre class="mermaid">graph TD</pre>"#, true);
    assert!(with.contains(r#"<script src="/_cftmp/mermaid.min.js"></script>"#));
    assert!(with.contains("<script>mermaid.initialize("));
    let without = render_page("mermaid.initialize", "<p>plain</p>", true);
    assert!(!without.contains(r#"<script src="/_cftmp/mermaid.min.js"></script>"#));
    assert!(!without.contains("<script>mermaid.initialize("));
}
