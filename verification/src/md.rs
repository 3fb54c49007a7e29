//! `--md` mode: Markdown files become mobile-friendly HTML pages (dark
//! theme, vertical-scroll layout) in a staging directory, which is then
//! deployed like any other asset directory.
//!
//! - `*.md` becomes `*.html`, wrapped in the mobile template
//! - everything else is copied through unchanged (images, css, ...)
//! - if the source has no `index.md`/`index.html`, an index page listing all
//!   converted pages as tappable cards is generated

use vstd::prelude::*;
use pulldown_cmark::{html, CodeBlockKind, Event, Options, Parser, Tag, TagEnd};
use crate::highlight::{highlight_spec, Highlighter};
use crate::text::{chars_of, contains_str, has_prefix, has_suffix, matches_at, occurs_in, push_char, push_chars, push_str, replace_all, replace_str, str_eq, string_of, trim, trim_bounds};

verus! {

/// The page style sheet.
pub const CSS: &'static str = r#"
:root { --bg:#0f1117; --card:#1a1d26; --fg:#e6e8ee; --dim:#8b90a0; --line:#2a2e3b;
        --orange:#ff9900; --red:#f2555a; --green:#4cc38a; --blue:#6ca0f5; }
* { box-sizing:border-box; margin:0; min-width:0; }
html, body { overflow-x:hidden; }
body { background:var(--bg); color:var(--fg); font:16px/1.6 -apple-system,BlinkMacSystemFont,"Segoe UI",Roboto,sans-serif;
       padding:16px; max-width:720px; margin:0 auto; -webkit-text-size-adjust:100%; }
a { color:var(--blue); }
.back { display:inline-block; margin-bottom:12px; font-size:.85rem; text-decoration:none; }
.md { overflow-wrap:anywhere; }
.md h1 { font-size:1.3rem; margin:20px 0 10px; color:var(--orange); }
.md h2 { font-size:1.1rem; margin:18px 0 8px; border-bottom:1px solid var(--line); padding-bottom:5px; }
.md h3 { font-size:.98rem; margin:14px 0 6px; }
.md h1:first-child { margin-top:0; }
.md p, .md ul, .md ol { margin-bottom:12px; font-size:.94rem; }
.md ul, .md ol { padding-left:22px; }
.md li { margin-bottom:4px; }
.md code { background:#232734; border:1px solid var(--line); border-radius:5px; padding:0 4px;
           font:.85em ui-monospace,SFMono-Regular,Menlo,monospace; color:var(--blue); overflow-wrap:anywhere; }
.md pre { background:#0b0d12; border:1px solid var(--line); border-radius:10px; padding:12px;
          overflow-x:auto; margin-bottom:12px;
          font:.8rem/1.5 ui-monospace,SFMono-Regular,Menlo,monospace; }
.md pre code { background:none; border:0; padding:0; color:var(--fg); font-size:1em; }
.md pre.mermaid { background:var(--card); text-align:center; font:inherit; }
.md pre.mermaid svg { max-width:100%; height:auto; }
.md blockquote { border-left:3px solid var(--orange); padding:4px 12px; color:var(--dim);
                 margin-bottom:12px; background:var(--card); border-radius:0 8px 8px 0; }
.md .tablewrap { overflow-x:auto; margin-bottom:12px; border:1px solid var(--line); border-radius:10px; }
.md table { border-collapse:collapse; font-size:.85rem; min-width:100%; }
.md th, .md td { border:1px solid var(--line); padding:6px 10px; text-align:left; }
.md th { background:var(--card); }
.md img { max-width:100%; height:auto; border-radius:10px; }
.md hr { border:0; border-top:1px solid var(--line); margin:18px 0; }
.card { display:block; width:100%; background:var(--card); border:1px solid var(--line); border-radius:12px;
        padding:14px; margin-bottom:10px; text-decoration:none; color:var(--fg); font-weight:600;
        overflow-wrap:anywhere; }
.card:active { background:#232734; }
.card .path { display:block; font-weight:400; font-size:.78rem; color:var(--dim); margin-top:3px;
              font-family:ui-monospace,SFMono-Regular,Menlo,monospace; }
footer { color:var(--dim); font-size:.75rem; text-align:center; margin:24px 0 8px; }
"#;

/// What marks a mermaid diagram in rendered HTML.
pub const MERMAID_MARKER: &'static str = "<pre class=\"mermaid\">";

/// The link back to the index shown on every page but the index.
pub const BACK_LINK: &'static str = "<a class=\"back\" href=\"/\">\u{2190} Index</a>";

/// The scripts that load and start the bundled mermaid.js.
pub const MERMAID_SCRIPT: &'static str = "<script src=\"/_cftmp/mermaid.min.js\"></script><script>mermaid.initialize({startOnLoad:true,theme:\"dark\"});</script>";

/// The HTML text for one character: `&`, `<`, `>` and `"` become entities.
pub open spec fn escape_char(c: char) -> Seq<char> {
    if c == '&' {
        "&amp;"@
    } else if c == '<' {
        "&lt;"@
    } else if c == '>' {
        "&gt;"@
    } else if c == '"' {
        "&quot;"@
    } else {
        seq![c]
    }
}

/// `s` with each character replaced by its HTML text. (Replacing `&` first
/// and then `<`, `>`, `"` one after the other gives the same text, since no
/// replacement introduces a character that a later one replaces.)
pub open spec fn escape_spec(s: Seq<char>) -> Seq<char>
    decreases s.len(),
{
    if s.len() == 0 {
        Seq::empty()
    } else {
        escape_spec(s.drop_last()) + escape_char(s.last())
    }
}

/// Escaped text holds no `<`, `>` or `"`, so it cannot open a tag or
/// close an attribute; and text with none of `&`, `<`, `>`, `"` is left as
/// it is.
pub proof fn lemma_escape_is_inert(s: Seq<char>)
    ensures
        forall|i: int| 0 <= i < escape_spec(s).len() ==> {
            let c = #[trigger] escape_spec(s)[i];
            c != '<' && c != '>' && c != '"'
        },
        (forall|i: int| 0 <= i < s.len() ==> {
            let c = #[trigger] s[i];
            c != '&' && c != '<' && c != '>' && c != '"'
        }) ==> escape_spec(s) == s,
    decreases s.len(),
{
    if s.len() > 0 {
        let d = s.drop_last();
        lemma_escape_is_inert(d);
        let p = escape_spec(d);
        let q = escape_char(s.last());
        reveal_strlit("&amp;");
        reveal_strlit("&lt;");
        reveal_strlit("&gt;");
        reveal_strlit("&quot;");
        let e = escape_spec(s);
        assert(e == p + q);
        assert forall|i: int| 0 <= i < e.len() implies {
            let c = #[trigger] e[i];
            c != '<' && c != '>' && c != '"'
        } by {
            if i < p.len() {
                assert(e[i] == p[i]);
            } else {
                assert(e[i] == q[i - p.len()]);
            }
        }
        if forall|i: int| 0 <= i < s.len() ==> {
            let c = #[trigger] s[i];
            c != '&' && c != '<' && c != '>' && c != '"'
        } {
            assert forall|i: int| 0 <= i < d.len() implies {
                let c = #[trigger] d[i];
                c != '&' && c != '<' && c != '>' && c != '"'
            } by {
                assert(d[i] == s[i]);
            }
            let l = s[s.len() - 1];
            assert(l != '&' && l != '<' && l != '>' && l != '"');
            assert(e =~= d.push(l));
            assert(d.push(l) =~= s);
        }
    }
}

/// Appends the escaped text of `s` to `out`.
pub fn push_escaped(out: &mut String, s: &str)
    ensures
        final(out)@ == old(out)@ + escape_spec(s@),
{
    let v = chars_of(s);
    let n = v.len();
    for i in 0..n
        invariant
            n == v@.len(),
            v@ == s@,
            out@ == old(out)@ + escape_spec(v@.take(i as int)),
    {
        let c = v[i];
        if c == '&' {
            push_str(out, "&amp;");
        } else if c == '<' {
            push_str(out, "&lt;");
        } else if c == '>' {
            push_str(out, "&gt;");
        } else if c == '"' {
            push_str(out, "&quot;");
        } else {
            push_char(out, c);
        }
        assert(v@.take(i + 1).drop_last() =~= v@.take(i as int));
    }
    assert(v@.take(n as int) =~= v@);
}

/// Escapes `&`, `<`, `>` and `"` for HTML.
pub fn escape(s: &str) -> (r: String)
    ensures
        r@ == escape_spec(s@),
{
    let mut r = String::new();
    push_escaped(&mut r, s);
    r
}

/// The lines of `s`: the pieces between `\n` characters.
pub open spec fn split_lines(s: Seq<char>) -> Seq<Seq<char>>
    decreases s.len(),
{
    if s.len() == 0 {
        seq![Seq::empty()]
    } else {
        let rest = split_lines(s.drop_last());
        if s.last() == '\n' {
            rest.push(Seq::empty())
        } else {
            rest.update(rest.len() - 1, rest.last().push(s.last()))
        }
    }
}

proof fn lemma_split_lines_nonempty(s: Seq<char>)
    ensures
        split_lines(s).len() >= 1,
    decreases s.len(),
{
    if s.len() > 0 {
        lemma_split_lines_nonempty(s.drop_last());
    }
}

/// The title text of a `# ` heading line: the trimmed line must start with
/// `# `; the rest, trimmed, is the title.
pub open spec fn heading_text(line: Seq<char>) -> Option<Seq<char>> {
    let t = trim(line);
    if has_prefix(t, seq!['#', ' ']) {
        Some(trim(t.skip(2)))
    } else {
        None
    }
}

/// The title text of the first heading line.
pub open spec fn first_heading(lines: Seq<Seq<char>>) -> Option<Seq<char>>
    decreases lines.len(),
{
    if lines.len() == 0 {
        None
    } else {
        match heading_text(lines[0]) {
            Some(h) => Some(h),
            None => first_heading(lines.drop_first()),
        }
    }
}

/// The title of a Markdown text: the first `# ` heading line's text, or the
/// fallback when there is none or its text is empty. (`str::lines` also
/// drops a final empty line and a `\r` before each `\n`; trimming makes
/// both irrelevant here.)
pub open spec fn title_spec(md: Seq<char>, fallback: Seq<char>) -> Seq<char> {
    match first_heading(split_lines(md)) {
        Some(h) => if h.len() > 0 {
            h
        } else {
            fallback
        },
        None => fallback,
    }
}

fn heading_of(line: &[char]) -> (r: Option<Vec<char>>)
    ensures
        match r {
            Some(h) => heading_text(line@) == Some(h@),
            None => heading_text(line@) is None,
        },
{
    let (a, b) = trim_bounds(line);
    let t = &line[a..b];
    let ghost tv = line@.subrange(a as int, b as int);
    assert(t@ == tv);
    let hash_space: [char; 2] = ['#', ' '];
    assert(hash_space@ =~= seq!['#', ' ']);
    if !matches_at(t, 0, hash_space.as_slice()) {
        assert(t@.skip(0) =~= t@);
        return None;
    }
    assert(t@.skip(0) =~= t@);
    let rest = &t[2..t.len()];
    assert(rest@ =~= tv.skip(2));
    let (c, d) = trim_bounds(rest);
    let mut h: Vec<char> = Vec::new();
    let mut k = c;
    while k < d
        invariant
            c <= k <= d <= rest@.len(),
            h@ == rest@.subrange(c as int, k as int),
        decreases d - k,
    {
        h.push(rest[k]);
        assert(rest@.subrange(c as int, k + 1) =~= rest@.subrange(c as int, k as int).push(rest@[k as int]));
        k = k + 1;
    }
    Some(h)
}

fn split_lines_exec(v: &[char]) -> (lines: Vec<Vec<char>>)
    ensures
        lines@.map_values(|l: Vec<char>| l@) == split_lines(v@),
{
    let mut done: Vec<Vec<char>> = Vec::new();
    let mut cur: Vec<char> = Vec::new();
    let n = v.len();
    assert(v@.take(0) =~= Seq::<char>::empty());
    assert(done@.map_values(|l: Vec<char>| l@).push(cur@) =~= split_lines(v@.take(0)));
    for i in 0..n
        invariant
            n == v@.len(),
            done@.map_values(|l: Vec<char>| l@).push(cur@) == split_lines(v@.take(i as int)),
    {
        proof {
            lemma_split_lines_nonempty(v@.take(i as int));
            assert(v@.take(i + 1).drop_last() =~= v@.take(i as int));
        }
        let c = v[i];
        if c == '\n' {
            let line = cur;
            done.push(line);
            cur = Vec::new();
            assert(done@.map_values(|l: Vec<char>| l@).push(cur@) =~= split_lines(v@.take(i + 1)));
        } else {
            cur.push(c);
            assert(done@.map_values(|l: Vec<char>| l@).push(cur@) =~= split_lines(v@.take(i + 1)));
        }
    }
    done.push(cur);
    assert(v@.take(n as int) =~= v@);
    assert(done@.map_values(|l: Vec<char>| l@) =~= split_lines(v@));
    done
}

/// The first `# ` heading of a Markdown text, or the fallback.
pub fn title_of(md: &str, fallback: &str) -> (t: String)
    ensures
        t@ == title_spec(md@, fallback@),
{
    let v = chars_of(md);
    let lines = split_lines_exec(v.as_slice());
    let ghost lv = lines@.map_values(|l: Vec<char>| l@);
    let n = lines.len();
    assert(lv.skip(0) =~= lv);
    for k in 0..n
        invariant
            n == lines@.len(),
            lv == lines@.map_values(|l: Vec<char>| l@),
            lv == split_lines(md@),
            first_heading(lv) == first_heading(lv.skip(k as int)),
    {
        assert(lv.skip(k as int)[0] == lines@[k as int]@);
        assert(lv.skip(k as int).drop_first() =~= lv.skip(k + 1));
        match heading_of(lines[k].as_slice()) {
            Some(h) => {
                if h.len() > 0 {
                    return string_of(h.as_slice());
                }
                return fallback.to_owned();
            },
            None => {},
        }
    }
    assert(lv.skip(n as int) =~= Seq::<Seq<char>>::empty());
    fallback.to_owned()
}

/// A full HTML page around an HTML body: escaped title, the page style, a
/// link back to the index when `with_back`, and the mermaid scripts when the
/// body holds a mermaid diagram.
pub open spec fn render_page_spec(title: Seq<char>, body: Seq<char>, with_back: bool) -> Seq<char> {
    "<!DOCTYPE html>\n<html lang=\"en\"><head><meta charset=\"utf-8\"><meta name=\"viewport\" content=\"width=device-width, initial-scale=1\"><title>"@
        + escape_spec(title) + "</title><style>"@ + CSS@ + "</style></head><body>"@ + (if with_back {
        BACK_LINK@
    } else {
        Seq::empty()
    }) + "<div class=\"md\">"@ + body + "</div><footer>deployed with cftmp</footer>"@ + (if occurs_in(
        body,
        MERMAID_MARKER@,
    ) {
        MERMAID_SCRIPT@
    } else {
        Seq::empty()
    }) + "</body></html>"@
}

/// Whether a line's trimmed text starts with exactly `#` and a space.
pub open spec fn starts_title_line(line: Seq<char>) -> bool {
    trim(line).len() >= 2 && trim(line)[0] == '#' && trim(line)[1] == ' '
}

/// The title comes only from a line whose trimmed text starts with `# `:
/// with no such line it is the fallback; otherwise it is the fallback or
/// the trimmed rest of the first such line. A `## x` or `#x` line never
/// gives it.
pub proof fn lemma_title_only_from_hash_space_lines(md: Seq<char>, fallback: Seq<char>)
    ensures
        (forall|j: int| 0 <= j < split_lines(md).len() ==> !starts_title_line(#[trigger] split_lines(md)[j]))
            ==> title_spec(md, fallback) == fallback,
        forall|j: int|
            0 <= j < split_lines(md).len() && #[trigger] starts_title_line(split_lines(md)[j]) && (forall|k: int|
                0 <= k < j ==> !starts_title_line(#[trigger] split_lines(md)[k])) ==> {
                let rest = trim(trim(split_lines(md)[j]).skip(2));
                title_spec(md, fallback) == if rest.len() > 0 {
                    rest
                } else {
                    fallback
                }
            },
{
    let lines = split_lines(md);
    assert forall|j: int| 0 <= j < lines.len() implies (heading_text(#[trigger] lines[j]) is Some <==> starts_title_line(lines[j]))
        && (starts_title_line(lines[j]) ==> heading_text(lines[j]) == Some(trim(trim(lines[j]).skip(2)))) by {
        let t = trim(lines[j]);
        if has_prefix(t, seq!['#', ' ']) {
            assert(t.take(2)[0] == t[0] && t.take(2)[1] == t[1]);
        }
        if starts_title_line(lines[j]) {
            assert(t.take(2) =~= seq!['#', ' ']);
        }
    }
    lemma_title_is_first_heading_line(md, fallback);
}

proof fn lemma_first_heading_at(lines: Seq<Seq<char>>, j: int)
    requires
        0 <= j < lines.len(),
        heading_text(lines[j]) is Some,
        forall|k: int| 0 <= k < j ==> heading_text(#[trigger] lines[k]) is None,
    ensures
        first_heading(lines) == heading_text(lines[j]),
    decreases j,
{
    if j > 0 {
        let d = lines.drop_first();
        assert forall|k: int| 0 <= k < j - 1 implies heading_text(#[trigger] d[k]) is None by {
            assert(d[k] == lines[k + 1]);
        }
        assert(d[j - 1] == lines[j]);
        assert(heading_text(lines[0]) is None);
        lemma_first_heading_at(d, j - 1);
    }
}

proof fn lemma_first_heading_none(lines: Seq<Seq<char>>)
    requires
        forall|k: int| 0 <= k < lines.len() ==> heading_text(#[trigger] lines[k]) is None,
    ensures
        first_heading(lines) is None,
    decreases lines.len(),
{
    if lines.len() > 0 {
        let d = lines.drop_first();
        assert forall|k: int| 0 <= k < d.len() implies heading_text(#[trigger] d[k]) is None by {
            assert(d[k] == lines[k + 1]);
        }
        assert(heading_text(lines[0]) is None);
        lemma_first_heading_none(d);
    }
}

/// The title is found line by line: the first line whose trimmed text
/// starts with `# ` gives it (its rest, trimmed), unless that rest is
/// empty; with no such line, or an empty rest, the title is the fallback.
/// Lines like `## x` or `#x` are no titles.
pub proof fn lemma_title_is_first_heading_line(md: Seq<char>, fallback: Seq<char>)
    ensures
        forall|j: int|
            0 <= j < split_lines(md).len() && #[trigger] heading_text(split_lines(md)[j]) is Some && (forall|k: int|
                0 <= k < j ==> heading_text(#[trigger] split_lines(md)[k]) is None) ==> title_spec(md, fallback) == {
                let h = heading_text(split_lines(md)[j]).unwrap();
                if h.len() > 0 {
                    h
                } else {
                    fallback
                }
            },
        (forall|k: int| 0 <= k < split_lines(md).len() ==> heading_text(#[trigger] split_lines(md)[k]) is None)
            ==> title_spec(md, fallback) == fallback,
{
    let lines = split_lines(md);
    assert forall|j: int|
        0 <= j < lines.len() && #[trigger] heading_text(lines[j]) is Some && (forall|k: int|
            0 <= k < j ==> heading_text(#[trigger] lines[k]) is None) implies title_spec(md, fallback) == {
            let h = heading_text(lines[j]).unwrap();
            if h.len() > 0 {
                h
            } else {
                fallback
            }
        } by {
        lemma_first_heading_at(lines, j);
    }
    if forall|k: int| 0 <= k < lines.len() ==> heading_text(#[trigger] lines[k]) is None {
        lemma_first_heading_none(lines);
    }
}

/// Wraps an HTML body into a full page.
pub fn render_page(title: &str, body: &str, with_back: bool) -> (page: String)
    ensures
        page@ == render_page_spec(title@, body@, with_back),
{
    let mut p = String::new();
    push_str(
        &mut p,
        "<!DOCTYPE html>\n<html lang=\"en\"><head><meta charset=\"utf-8\"><meta name=\"viewport\" content=\"width=device-width, initial-scale=1\"><title>",
    );
    push_escaped(&mut p, title);
    push_str(&mut p, "</title><style>");
    push_str(&mut p, CSS);
    push_str(&mut p, "</style></head><body>");
    if with_back {
        push_str(&mut p, BACK_LINK);
    }
    push_str(&mut p, "<div class=\"md\">");
    push_str(&mut p, body);
    push_str(&mut p, "</div><footer>deployed with cftmp</footer>");
    if contains_str(body, MERMAID_MARKER) {
        push_str(&mut p, MERMAID_SCRIPT);
    }
    push_str(&mut p, "</body></html>");
    p
}

proof fn lemma_occurs_between(a: Seq<char>, p: Seq<char>, b: Seq<char>)
    ensures
        occurs_in(a + p + b, p),
{
    let s = a + p + b;
    assert(s.skip(a.len() as int).take(p.len() as int) =~= p);
    assert(has_prefix(s.skip(a.len() as int), p));
}

/// The head of every page, up to its title.
pub open spec fn page_head() -> Seq<char> {
    "<!DOCTYPE html>\n<html lang=\"en\"><head><meta charset=\"utf-8\"><meta name=\"viewport\" content=\"width=device-width, initial-scale=1\"><title>"@
}

/// What every page holds: it is a whole HTML document, titled with the
/// escaped title, its body inside `<div class="md">`, the style that keeps
/// it from scrolling sideways, the link back to the index when asked for,
/// and the mermaid scripts when the body holds a mermaid diagram.
#[verifier::rlimit(100)]
#[verifier::spinoff_prover]
pub proof fn lemma_page_parts(title: Seq<char>, body: Seq<char>, with_back: bool)
    ensures
        has_prefix(render_page_spec(title, body, with_back), "<!DOCTYPE html>"@),
        has_suffix(render_page_spec(title, body, with_back), "</body></html>"@),
        occurs_in(render_page_spec(title, body, with_back), "<title>"@ + escape_spec(title) + "</title>"@),
        occurs_in(render_page_spec(title, body, with_back), "<div class=\"md\">"@ + body + "</div>"@),
        occurs_in(render_page_spec(title, body, with_back), "overflow-x:hidden"@),
        with_back ==> occurs_in(render_page_spec(title, body, with_back), BACK_LINK@),
        occurs_in(body, MERMAID_MARKER@) ==> occurs_in(render_page_spec(title, body, with_back), MERMAID_SCRIPT@),
{
    reveal_strlit("<!DOCTYPE html>\n<html lang=\"en\"><head><meta charset=\"utf-8\"><meta name=\"viewport\" content=\"width=device-width, initial-scale=1\"><title>");
    reveal_strlit("<!DOCTYPE html>");
    reveal_strlit("<title>");
    reveal_strlit("</title><style>");
    reveal_strlit("</title>");
    reveal_strlit("<style>");
    reveal_strlit("<footer>deployed with cftmp</footer>");
    reveal_strlit("</body></html>");
    reveal_strlit(r#"
:root { --bg:#0f1117; --card:#1a1d26; --fg:#e6e8ee; --dim:#8b90a0; --line:#2a2e3b;
        --orange:#ff9900; --red:#f2555a; --green:#4cc38a; --blue:#6ca0f5; }
* { box-sizing:border-box; margin:0; min-width:0; }
html, body { overflow-x:hidden; }
body { background:var(--bg); color:var(--fg); font:16px/1.6 -apple-system,BlinkMacSystemFont,"Segoe UI",Roboto,sans-serif;
       padding:16px; max-width:720px; margin:0 auto; -webkit-text-size-adjust:100%; }
a { color:var(--blue); }
.back { display:inline-block; margin-bottom:12px; font-size:.85rem; text-decoration:none; }
.md { overflow-wrap:anywhere; }
.md h1 { font-size:1.3rem; margin:20px 0 10px; color:var(--orange); }
.md h2 { font-size:1.1rem; margin:18px 0 8px; border-bottom:1px solid var(--line); padding-bottom:5px; }
.md h3 { font-size:.98rem; margin:14px 0 6px; }
.md h1:first-child { margin-top:0; }
.md p, .md ul, .md ol { margin-bottom:12px; font-size:.94rem; }
.md ul, .md ol { padding-left:22px; }
.md li { margin-bottom:4px; }
.md code { background:#232734; border:1px solid var(--line); border-radius:5px; padding:0 4px;
           font:.85em ui-monospace,SFMono-Regular,Menlo,monospace; color:var(--blue); overflow-wrap:anywhere; }
.md pre { background:#0b0d12; border:1px solid var(--line); border-radius:10px; padding:12px;
          overflow-x:auto; margin-bottom:12px;
          font:.8rem/1.5 ui-monospace,SFMono-Regular,Menlo,monospace; }
.md pre code { background:none; border:0; padding:0; color:var(--fg); font-size:1em; }
.md pre.mermaid { background:var(--card); text-align:center; font:inherit; }
.md pre.mermaid svg { max-width:100%; height:auto; }
.md blockquote { border-left:3px solid var(--orange); padding:4px 12px; color:var(--dim);
                 margin-bottom:12px; background:var(--card); border-radius:0 8px 8px 0; }
.md .tablewrap { overflow-x:auto; margin-bottom:12px; border:1px solid var(--line); border-radius:10px; }
.md table { border-collapse:collapse; font-size:.85rem; min-width:100%; }
.md th, .md td { border:1px solid var(--line); padding:6px 10px; text-align:left; }
.md th { background:var(--card); }
.md img { max-width:100%; height:auto; border-radius:10px; }
.md hr { border:0; border-top:1px solid var(--line); margin:18px 0; }
.card { display:block; width:100%; background:var(--card); border:1px solid var(--line); border-radius:12px;
        padding:14px; margin-bottom:10px; text-decoration:none; color:var(--fg); font-weight:600;
        overflow-wrap:anywhere; }
.card:active { background:#232734; }
.card .path { display:block; font-weight:400; font-size:.78rem; color:var(--dim); margin-top:3px;
              font-family:ui-monospace,SFMono-Regular,Menlo,monospace; }
footer { color:var(--dim); font-size:.75rem; text-align:center; margin:24px 0 8px; }
"#);
    assert(CSS@ == r#"
:root { --bg:#0f1117; --card:#1a1d26; --fg:#e6e8ee; --dim:#8b90a0; --line:#2a2e3b;
        --orange:#ff9900; --red:#f2555a; --green:#4cc38a; --blue:#6ca0f5; }
* { box-sizing:border-box; margin:0; min-width:0; }
html, body { overflow-x:hidden; }
body { background:var(--bg); color:var(--fg); font:16px/1.6 -apple-system,BlinkMacSystemFont,"Segoe UI",Roboto,sans-serif;
       padding:16px; max-width:720px; margin:0 auto; -webkit-text-size-adjust:100%; }
a { color:var(--blue); }
.back { display:inline-block; margin-bottom:12px; font-size:.85rem; text-decoration:none; }
.md { overflow-wrap:anywhere; }
.md h1 { font-size:1.3rem; margin:20px 0 10px; color:var(--orange); }
.md h2 { font-size:1.1rem; margin:18px 0 8px; border-bottom:1px solid var(--line); padding-bottom:5px; }
.md h3 { font-size:.98rem; margin:14px 0 6px; }
.md h1:first-child { margin-top:0; }
.md p, .md ul, .md ol { margin-bottom:12px; font-size:.94rem; }
.md ul, .md ol { padding-left:22px; }
.md li { margin-bottom:4px; }
.md code { background:#232734; border:1px solid var(--line); border-radius:5px; padding:0 4px;
           font:.85em ui-monospace,SFMono-Regular,Menlo,monospace; color:var(--blue); overflow-wrap:anywhere; }
.md pre { background:#0b0d12; border:1px solid var(--line); border-radius:10px; padding:12px;
          overflow-x:auto; margin-bottom:12px;
          font:.8rem/1.5 ui-monospace,SFMono-Regular,Menlo,monospace; }
.md pre code { background:none; border:0; padding:0; color:var(--fg); font-size:1em; }
.md pre.mermaid { background:var(--card); text-align:center; font:inherit; }
.md pre.mermaid svg { max-width:100%; height:auto; }
.md blockquote { border-left:3px solid var(--orange); padding:4px 12px; color:var(--dim);
                 margin-bottom:12px; background:var(--card); border-radius:0 8px 8px 0; }
.md .tablewrap { overflow-x:auto; margin-bottom:12px; border:1px solid var(--line); border-radius:10px; }
.md table { border-collapse:collapse; font-size:.85rem; min-width:100%; }
.md th, .md td { border:1px solid var(--line); padding:6px 10px; text-align:left; }
.md th { background:var(--card); }
.md img { max-width:100%; height:auto; border-radius:10px; }
.md hr { border:0; border-top:1px solid var(--line); margin:18px 0; }
.card { display:block; width:100%; background:var(--card); border:1px solid var(--line); border-radius:12px;
        padding:14px; margin-bottom:10px; text-decoration:none; color:var(--fg); font-weight:600;
        overflow-wrap:anywhere; }
.card:active { background:#232734; }
.card .path { display:block; font-weight:400; font-size:.78rem; color:var(--dim); margin-top:3px;
              font-family:ui-monospace,SFMono-Regular,Menlo,monospace; }
footer { color:var(--dim); font-size:.75rem; text-align:center; margin:24px 0 8px; }
"#@);
    reveal_strlit("overflow-x:hidden");
    let head = page_head();
    let back = if with_back { BACK_LINK@ } else { Seq::<char>::empty() };
    let mer = if occurs_in(body, MERMAID_MARKER@) { MERMAID_SCRIPT@ } else { Seq::<char>::empty() };
    let tail1 = "</div><footer>deployed with cftmp</footer>"@;
    let page = render_page_spec(title, body, with_back);
    assert(page == head + escape_spec(title) + "</title><style>"@ + CSS@ + "</style></head><body>"@ + back
        + "<div class=\"md\">"@ + body + tail1 + mer + "</body></html>"@);
    assert(page.take(15) =~= "<!DOCTYPE html>"@);
    assert(page.skip(page.len() - 14) =~= "</body></html>"@);
    let pre = head.take(head.len() - 7);
    assert(head =~= pre + "<title>"@);
    let after_title = "<style>"@ + CSS@ + "</style></head><body>"@ + back + "<div class=\"md\">"@ + body + tail1 + mer
        + "</body></html>"@;
    assert("</title><style>"@ =~= "</title>"@ + "<style>"@);
    assert(page =~= pre + ("<title>"@ + escape_spec(title) + "</title>"@) + after_title);
    lemma_occurs_between(pre, "<title>"@ + escape_spec(title) + "</title>"@, after_title);
    reveal_strlit("</div><footer>deployed with cftmp</footer>");
    reveal_strlit("</div>");
    let before_div = head + escape_spec(title) + "</title><style>"@ + CSS@ + "</style></head><body>"@ + back;
    let after_div = "<footer>deployed with cftmp</footer>"@ + mer + "</body></html>"@;
    assert(tail1 =~= "</div>"@ + "<footer>deployed with cftmp</footer>"@);
    assert(page =~= before_div + ("<div class=\"md\">"@ + body + "</div>"@) + after_div);
    lemma_occurs_between(before_div, "<div class=\"md\">"@ + body + "</div>"@, after_div);
    let before_css = head + escape_spec(title) + "</title><style>"@;
    let css_pre = CSS@.take(225);
    let css_post = CSS@.skip(242);
    assert(CSS@ =~= css_pre + "overflow-x:hidden"@ + css_post);
    let after_css = "</style></head><body>"@ + back + "<div class=\"md\">"@ + body + tail1 + mer + "</body></html>"@;
    assert(page =~= (before_css + css_pre) + "overflow-x:hidden"@ + (css_post + after_css));
    lemma_occurs_between(before_css + css_pre, "overflow-x:hidden"@, css_post + after_css);
    if with_back {
        let b0 = head + escape_spec(title) + "</title><style>"@ + CSS@ + "</style></head><body>"@;
        let b1 = "<div class=\"md\">"@ + body + tail1 + mer + "</body></html>"@;
        assert(page =~= b0 + BACK_LINK@ + b1);
        lemma_occurs_between(b0, BACK_LINK@, b1);
    }
    if occurs_in(body, MERMAID_MARKER@) {
        let m0 = head + escape_spec(title) + "</title><style>"@ + CSS@ + "</style></head><body>"@ + back
            + "<div class=\"md\">"@ + body + tail1;
        assert(page =~= m0 + MERMAID_SCRIPT@ + "</body></html>"@);
        lemma_occurs_between(m0, MERMAID_SCRIPT@, "</body></html>"@);
    }
}

proof fn lemma_occurs_split(a: Seq<char>, b: Seq<char>, p: Seq<char>)
    requires
        p.len() > 0,
        occurs_in(a + b, p),
    ensures
        occurs_in(a, p) || occurs_in(b, p) || exists|k: int|
            0 < k < p.len() && k <= a.len() && #[trigger] has_suffix(a, p.take(k)) && has_prefix(b, p.skip(k)),
{
    let s = a + b;
    let i = choose|i: int| 0 <= i <= s.len() && #[trigger] has_prefix(s.skip(i), p);
    if i + p.len() <= a.len() {
        assert(a.skip(i).take(p.len() as int) =~= s.skip(i).take(p.len() as int));
        assert(has_prefix(a.skip(i), p));
    } else if i >= a.len() {
        assert(b.skip(i - a.len()).take(p.len() as int) =~= s.skip(i).take(p.len() as int));
        assert(has_prefix(b.skip(i - a.len()), p));
    } else {
        let k = a.len() - i;
        assert(a.skip(a.len() - k) =~= p.take(k));
        assert(b.take(p.len() - k) =~= p.skip(k));
        assert(has_suffix(a, p.take(k)) && has_prefix(b, p.skip(k)));
    }
}

/// No `<` in `s` is followed by `a`.
pub open spec fn no_link_start(s: Seq<char>) -> bool {
    forall|j: int| 0 <= j && j + 1 < s.len() ==> !(#[trigger] s[j] == '<' && s[j + 1] == 'a')
}

proof fn lemma_no_link_start_join(x: Seq<char>, y: Seq<char>)
    requires
        no_link_start(x),
        no_link_start(y),
        !(x.len() > 0 && y.len() > 0 && x.last() == '<' && y[0] == 'a'),
    ensures
        no_link_start(x + y),
{
    let s = x + y;
    assert forall|j: int| 0 <= j && j + 1 < s.len() implies !(#[trigger] s[j] == '<' && s[j + 1] == 'a') by {
        if j + 1 < x.len() {
            assert(s[j] == x[j] && s[j + 1] == x[j + 1]);
        } else if j >= x.len() {
            assert(s[j] == y[j - x.len()] && s[j + 1] == y[j + 1 - x.len()]);
        } else {
            assert(s[j] == x.last() && s[j + 1] == y[0]);
        }
    }
}

proof fn lemma_link_absent(s: Seq<char>, p: Seq<char>)
    requires
        p.len() >= 2,
        p[0] == '<',
        p[1] == 'a',
        no_link_start(s),
    ensures
        !occurs_in(s, p),
{
    if occurs_in(s, p) {
        let i = choose|i: int| 0 <= i <= s.len() && #[trigger] has_prefix(s.skip(i), p);
        assert(s.skip(i).take(p.len() as int)[0] == s[i]);
        assert(s.skip(i).take(p.len() as int)[1] == s[i + 1]);
    }
}

proof fn lemma_link_absent_before(a: Seq<char>, rest: Seq<char>, p: Seq<char>)
    requires
        p.len() >= 2,
        p[0] == '<',
        p[1] == 'a',
        no_link_start(a),
        a.len() > 0 ==> a.last() != '<',
        !occurs_in(rest, p),
    ensures
        !occurs_in(a + rest, p),
{
    lemma_link_absent(a, p);
    if occurs_in(a + rest, p) {
        lemma_occurs_split(a, rest, p);
        let k = choose|k: int|
            0 < k < p.len() && k <= a.len() && #[trigger] has_suffix(a, p.take(k)) && has_prefix(rest, p.skip(k));
        assert(a.skip(a.len() - k)[0] == p[0]);
        if k == 1 {
            assert(a[a.len() - 1] == '<');
        } else {
            assert(a.skip(a.len() - k)[1] == p[1]);
            assert(a[a.len() - k] == '<' && a[a.len() - k + 1] == 'a');
        }
    }
}

proof fn lemma_absent_after(b: Seq<char>, z: Seq<char>, p: Seq<char>)
    requires
        p.len() > 0,
        !occurs_in(b, p),
        !occurs_in(z, p),
        z.len() > 0,
        z[0] == '<',
        forall|k: int| 1 <= k < p.len() ==> #[trigger] p[k] != '<',
    ensures
        !occurs_in(b + z, p),
{
    if occurs_in(b + z, p) {
        lemma_occurs_split(b, z, p);
        let k = choose|k: int|
            0 < k < p.len() && k <= b.len() && #[trigger] has_suffix(b, p.take(k)) && has_prefix(z, p.skip(k));
        assert(z.take(p.len() - k)[0] == p.skip(k)[0]);
        assert(p[k] != '<');
    }
}

/// A page shows the link back to the index exactly when asked to, as long
/// as its body does not itself hold such a link.
#[verifier::rlimit(100)]
#[verifier::spinoff_prover]
pub proof fn lemma_back_link_only_when_asked(title: Seq<char>, body: Seq<char>, with_back: bool)
    requires
        !occurs_in(body, "<a class=\"back\""@),
    ensures
        occurs_in(render_page_spec(title, body, with_back), BACK_LINK@) <==> with_back,
{
    lemma_page_parts(title, body, with_back);
    if !with_back {
        let q = "<a class=\"back\""@;
        reveal_strlit("<a class=\"back\"");
        reveal_strlit("<!DOCTYPE html>\n<html lang=\"en\"><head><meta charset=\"utf-8\"><meta name=\"viewport\" content=\"width=device-width, initial-scale=1\"><title>");
        reveal_strlit("</title><style>");
        reveal_strlit("</style></head><body>");
        reveal_strlit("<div class=\"md\">");
        reveal_strlit("</div><footer>deployed with cftmp</footer>");
        reveal_strlit("</body></html>");
        reveal_strlit("<script src=\"/_cftmp/mermaid.min.js\"></script><script>mermaid.initialize({startOnLoad:true,theme:\"dark\"});</script>");
        reveal_strlit(r#"
:root { --bg:#0f1117; --card:#1a1d26; --fg:#e6e8ee; --dim:#8b90a0; --line:#2a2e3b;
        --orange:#ff9900; --red:#f2555a; --green:#4cc38a; --blue:#6ca0f5; }
* { box-sizing:border-box; margin:0; min-width:0; }
html, body { overflow-x:hidden; }
body { background:var(--bg); color:var(--fg); font:16px/1.6 -apple-system,BlinkMacSystemFont,"Segoe UI",Roboto,sans-serif;
       padding:16px; max-width:720px; margin:0 auto; -webkit-text-size-adjust:100%; }
a { color:var(--blue); }
.back { display:inline-block; margin-bottom:12px; font-size:.85rem; text-decoration:none; }
.md { overflow-wrap:anywhere; }
.md h1 { font-size:1.3rem; margin:20px 0 10px; color:var(--orange); }
.md h2 { font-size:1.1rem; margin:18px 0 8px; border-bottom:1px solid var(--line); padding-bottom:5px; }
.md h3 { font-size:.98rem; margin:14px 0 6px; }
.md h1:first-child { margin-top:0; }
.md p, .md ul, .md ol { margin-bottom:12px; font-size:.94rem; }
.md ul, .md ol { padding-left:22px; }
.md li { margin-bottom:4px; }
.md code { background:#232734; border:1px solid var(--line); border-radius:5px; padding:0 4px;
           font:.85em ui-monospace,SFMono-Regular,Menlo,monospace; color:var(--blue); overflow-wrap:anywhere; }
.md pre { background:#0b0d12; border:1px solid var(--line); border-radius:10px; padding:12px;
          overflow-x:auto; margin-bottom:12px;
          font:.8rem/1.5 ui-monospace,SFMono-Regular,Menlo,monospace; }
.md pre code { background:none; border:0; padding:0; color:var(--fg); font-size:1em; }
.md pre.mermaid { background:var(--card); text-align:center; font:inherit; }
.md pre.mermaid svg { max-width:100%; height:auto; }
.md blockquote { border-left:3px solid var(--orange); padding:4px 12px; color:var(--dim);
                 margin-bottom:12px; background:var(--card); border-radius:0 8px 8px 0; }
.md .tablewrap { overflow-x:auto; margin-bottom:12px; border:1px solid var(--line); border-radius:10px; }
.md table { border-collapse:collapse; font-size:.85rem; min-width:100%; }
.md th, .md td { border:1px solid var(--line); padding:6px 10px; text-align:left; }
.md th { background:var(--card); }
.md img { max-width:100%; height:auto; border-radius:10px; }
.md hr { border:0; border-top:1px solid var(--line); margin:18px 0; }
.card { display:block; width:100%; background:var(--card); border:1px solid var(--line); border-radius:12px;
        padding:14px; margin-bottom:10px; text-decoration:none; color:var(--fg); font-weight:600;
        overflow-wrap:anywhere; }
.card:active { background:#232734; }
.card .path { display:block; font-weight:400; font-size:.78rem; color:var(--dim); margin-top:3px;
              font-family:ui-monospace,SFMono-Regular,Menlo,monospace; }
footer { color:var(--dim); font-size:.75rem; text-align:center; margin:24px 0 8px; }
"#);
        assert(CSS@ == r#"
:root { --bg:#0f1117; --card:#1a1d26; --fg:#e6e8ee; --dim:#8b90a0; --line:#2a2e3b;
        --orange:#ff9900; --red:#f2555a; --green:#4cc38a; --blue:#6ca0f5; }
* { box-sizing:border-box; margin:0; min-width:0; }
html, body { overflow-x:hidden; }
body { background:var(--bg); color:var(--fg); font:16px/1.6 -apple-system,BlinkMacSystemFont,"Segoe UI",Roboto,sans-serif;
       padding:16px; max-width:720px; margin:0 auto; -webkit-text-size-adjust:100%; }
a { color:var(--blue); }
.back { display:inline-block; margin-bottom:12px; font-size:.85rem; text-decoration:none; }
.md { overflow-wrap:anywhere; }
.md h1 { font-size:1.3rem; margin:20px 0 10px; color:var(--orange); }
.md h2 { font-size:1.1rem; margin:18px 0 8px; border-bottom:1px solid var(--line); padding-bottom:5px; }
.md h3 { font-size:.98rem; margin:14px 0 6px; }
.md h1:first-child { margin-top:0; }
.md p, .md ul, .md ol { margin-bottom:12px; font-size:.94rem; }
.md ul, .md ol { padding-left:22px; }
.md li { margin-bottom:4px; }
.md code { background:#232734; border:1px solid var(--line); border-radius:5px; padding:0 4px;
           font:.85em ui-monospace,SFMono-Regular,Menlo,monospace; color:var(--blue); overflow-wrap:anywhere; }
.md pre { background:#0b0d12; border:1px solid var(--line); border-radius:10px; padding:12px;
          overflow-x:auto; margin-bottom:12px;
          font:.8rem/1.5 ui-monospace,SFMono-Regular,Menlo,monospace; }
.md pre code { background:none; border:0; padding:0; color:var(--fg); font-size:1em; }
.md pre.mermaid { background:var(--card); text-align:center; font:inherit; }
.md pre.mermaid svg { max-width:100%; height:auto; }
.md blockquote { border-left:3px solid var(--orange); padding:4px 12px; color:var(--dim);
                 margin-bottom:12px; background:var(--card); border-radius:0 8px 8px 0; }
.md .tablewrap { overflow-x:auto; margin-bottom:12px; border:1px solid var(--line); border-radius:10px; }
.md table { border-collapse:collapse; font-size:.85rem; min-width:100%; }
.md th, .md td { border:1px solid var(--line); padding:6px 10px; text-align:left; }
.md th { background:var(--card); }
.md img { max-width:100%; height:auto; border-radius:10px; }
.md hr { border:0; border-top:1px solid var(--line); margin:18px 0; }
.card { display:block; width:100%; background:var(--card); border:1px solid var(--line); border-radius:12px;
        padding:14px; margin-bottom:10px; text-decoration:none; color:var(--fg); font-weight:600;
        overflow-wrap:anywhere; }
.card:active { background:#232734; }
.card .path { display:block; font-weight:400; font-size:.78rem; color:var(--dim); margin-top:3px;
              font-family:ui-monospace,SFMono-Regular,Menlo,monospace; }
footer { color:var(--dim); font-size:.75rem; text-align:center; margin:24px 0 8px; }
"#@);
        assert(forall|j: int| 0 <= j < CSS@.len() ==> CSS@[j] != '<');
        let head = page_head();
        let e = escape_spec(title);
        lemma_escape_is_inert(title);
        let l1 = "</title><style>"@;
        let l2 = "</style></head><body>"@;
        let l3 = "<div class=\"md\">"@;
        assert(no_link_start(head));
        assert(no_link_start(e));
        assert(no_link_start(l1));
        assert(no_link_start(CSS@));
        assert(no_link_start(l2));
        assert(no_link_start(l3));
        lemma_no_link_start_join(head, e);
        lemma_no_link_start_join(head + e, l1);
        lemma_no_link_start_join(head + e + l1, CSS@);
        lemma_no_link_start_join(head + e + l1 + CSS@, l2);
        lemma_no_link_start_join(head + e + l1 + CSS@ + l2, l3);
        let a = head + e + l1 + CSS@ + l2 + l3;
        let mer = if occurs_in(body, MERMAID_MARKER@) { MERMAID_SCRIPT@ } else { Seq::<char>::empty() };
        let z = "</div><footer>deployed with cftmp</footer>"@ + mer + "</body></html>"@;
        assert(no_link_start("</div><footer>deployed with cftmp</footer>"@));
        assert(no_link_start(MERMAID_SCRIPT@));
        assert(no_link_start("</body></html>"@));
        lemma_no_link_start_join("</div><footer>deployed with cftmp</footer>"@, mer);
        lemma_no_link_start_join("</div><footer>deployed with cftmp</footer>"@ + mer, "</body></html>"@);
        lemma_link_absent(z, q);
        assert(z[0] == '<');
        assert(forall|k: int| 1 <= k < q.len() ==> #[trigger] q[k] != '<');
        lemma_absent_after(body, z, q);
        lemma_link_absent_before(a, body + z, q);
        assert(render_page_spec(title, body, with_back) =~= a + (body + z));
        reveal_strlit("<a class=\"back\" href=\"/\">\u{2190} Index</a>");
        if occurs_in(render_page_spec(title, body, with_back), BACK_LINK@) {
            let page = render_page_spec(title, body, with_back);
            let i = choose|i: int| 0 <= i <= page.len() && #[trigger] has_prefix(page.skip(i), BACK_LINK@);
            assert(page.skip(i).take(q.len() as int) =~= q);
            assert(has_prefix(page.skip(i), q));
        }
    }
}

/// No three characters in a row of `s` are `c0`, `c1`, `c2`.
pub open spec fn no_triple(s: Seq<char>, c0: char, c1: char, c2: char) -> bool {
    forall|j: int| 0 <= j && j + 2 < s.len() ==> !(#[trigger] s[j] == c0 && s[j + 1] == c1 && s[j + 2] == c2)
}

pub(crate) proof fn lemma_triple_join(x: Seq<char>, y: Seq<char>, c0: char, c1: char, c2: char)
    requires
        no_triple(x, c0, c1, c2),
        no_triple(y, c0, c1, c2),
        x.len() > 0 ==> x.last() != c0,
        x.len() > 1 ==> x[x.len() - 2] != c0,
    ensures
        no_triple(x + y, c0, c1, c2),
{
    let s = x + y;
    assert forall|j: int| 0 <= j && j + 2 < s.len() implies !(#[trigger] s[j] == c0 && s[j + 1] == c1 && s[j + 2] == c2) by {
        if j + 2 < x.len() {
            assert(s[j] == x[j] && s[j + 1] == x[j + 1] && s[j + 2] == x[j + 2]);
        } else if j >= x.len() {
            assert(s[j] == y[j - x.len()] && s[j + 1] == y[j + 1 - x.len()] && s[j + 2] == y[j + 2 - x.len()]);
        } else {
            assert(s[j] == x[j]);
        }
    }
}

pub(crate) proof fn lemma_triple_absent(s: Seq<char>, p: Seq<char>)
    requires
        p.len() >= 3,
        no_triple(s, p[0], p[1], p[2]),
    ensures
        !occurs_in(s, p),
{
    if occurs_in(s, p) {
        let i = choose|i: int| 0 <= i <= s.len() && #[trigger] has_prefix(s.skip(i), p);
        let w = s.skip(i).take(p.len() as int);
        assert(w[0] == s[i] && w[1] == s[i + 1] && w[2] == s[i + 2]);
    }
}

proof fn lemma_triple_before(a: Seq<char>, rest: Seq<char>, p: Seq<char>)
    requires
        p.len() >= 3,
        no_triple(a, p[0], p[1], p[2]),
        a.len() > 0 ==> a.last() != p[0],
        a.len() > 1 ==> a[a.len() - 2] != p[0],
        !occurs_in(rest, p),
    ensures
        !occurs_in(a + rest, p),
{
    lemma_triple_absent(a, p);
    if occurs_in(a + rest, p) {
        lemma_occurs_split(a, rest, p);
        let k = choose|k: int|
            0 < k < p.len() && k <= a.len() && #[trigger] has_suffix(a, p.take(k)) && has_prefix(rest, p.skip(k));
        let t = a.skip(a.len() - k);
        assert(t[0] == p[0] && t[0] == a[a.len() - k]);
        if k >= 3 {
            assert(t[1] == p[1] && t[2] == p[2]);
            assert(t[1] == a[a.len() - k + 1] && t[2] == a[a.len() - k + 2]);
        }
    }
}

/// The element that loads the bundled mermaid.js.
pub open spec fn mermaid_load_tag() -> Seq<char> {
    "<script src=\"/_cftmp/mermaid.min.js\"></script>"@
}

/// The start of the element that starts mermaid.
pub open spec fn mermaid_init_tag() -> Seq<char> {
    "<script>mermaid.initialize("@
}

proof fn lemma_occurs_inner(s: Seq<char>, p: Seq<char>, off: int, q: Seq<char>)
    requires
        0 <= off,
        off + q.len() <= p.len(),
        p.subrange(off, off + q.len()) == q,
        occurs_in(s, p),
    ensures
        occurs_in(s, q),
{
    let i = choose|i: int| 0 <= i <= s.len() && #[trigger] has_prefix(s.skip(i), p);
    let w = s.skip(i).take(p.len() as int);
    assert(w == p);
    assert(s.skip(i + off).take(q.len() as int) =~= w.subrange(off, off + q.len()));
    assert(has_prefix(s.skip(i + off), q));
}

/// A text that does not name `mermaid.min.js` holds no element loading it,
/// and one that does not name `mermaid.initialize` holds no element
/// starting it.
pub proof fn lemma_mermaid_names(s: Seq<char>)
    ensures
        !occurs_in(s, "mermaid.min.js"@) ==> !occurs_in(s, mermaid_load_tag()),
        !occurs_in(s, "mermaid.initialize"@) ==> !occurs_in(s, mermaid_init_tag()),
{
    reveal_strlit("<script src=\"/_cftmp/mermaid.min.js\"></script>");
    reveal_strlit("<script>mermaid.initialize(");
    reveal_strlit("mermaid.min.js");
    reveal_strlit("mermaid.initialize");
    if occurs_in(s, mermaid_load_tag()) {
        assert(mermaid_load_tag().subrange(21, 35) =~= "mermaid.min.js"@);
        lemma_occurs_inner(s, mermaid_load_tag(), 21, "mermaid.min.js"@);
    }
    if occurs_in(s, mermaid_init_tag()) {
        assert(mermaid_init_tag().subrange(8, 26) =~= "mermaid.initialize"@);
        lemma_occurs_inner(s, mermaid_init_tag(), 8, "mermaid.initialize"@);
    }
}

/// A page loads and starts the bundled mermaid.js exactly when its body
/// holds a mermaid diagram, as long as the body does not already hold
/// those script elements itself (see [`lemma_mermaid_names`]).
#[verifier::rlimit(100)]
#[verifier::spinoff_prover]
pub proof fn lemma_mermaid_scripts_only_when_used(title: Seq<char>, body: Seq<char>, with_back: bool)
    requires
        !occurs_in(body, mermaid_load_tag()),
        !occurs_in(body, mermaid_init_tag()),
    ensures
        occurs_in(render_page_spec(title, body, with_back), mermaid_load_tag()) <==> occurs_in(body, MERMAID_MARKER@),
        occurs_in(render_page_spec(title, body, with_back), mermaid_init_tag()) <==> occurs_in(body, MERMAID_MARKER@),
{
    let st = mermaid_load_tag();
    let it = mermaid_init_tag();
    reveal_strlit("<script src=\"/_cftmp/mermaid.min.js\"></script>");
    reveal_strlit("<script>mermaid.initialize(");
    reveal_strlit("<script src=\"/_cftmp/mermaid.min.js\"></script><script>mermaid.initialize({startOnLoad:true,theme:\"dark\"});</script>");
    reveal_strlit("mermaid.min.js");
    if occurs_in(body, MERMAID_MARKER@) {
        lemma_page_parts(title, body, with_back);
        let page = render_page_spec(title, body, with_back);
        let i = choose|i: int| 0 <= i <= page.len() && #[trigger] has_prefix(page.skip(i), MERMAID_SCRIPT@);
        assert(page.skip(i).take(st.len() as int) =~= st);
        assert(has_prefix(page.skip(i), st));
        assert(MERMAID_SCRIPT@.subrange(46, 73) =~= it);
        lemma_occurs_inner(page, MERMAID_SCRIPT@, 46, it);
    } else {
        reveal_strlit("<!DOCTYPE html>\n<html lang=\"en\"><head><meta charset=\"utf-8\"><meta name=\"viewport\" content=\"width=device-width, initial-scale=1\"><title>");
        reveal_strlit("</title><style>");
        reveal_strlit("</style></head><body>");
        reveal_strlit("<div class=\"md\">");
        reveal_strlit("</div><footer>deployed with cftmp</footer>");
        reveal_strlit("</body></html>");
        reveal_strlit("<a class=\"back\" href=\"/\">\u{2190} Index</a>");
        reveal_strlit(r#"
:root { --bg:#0f1117; --card:#1a1d26; --fg:#e6e8ee; --dim:#8b90a0; --line:#2a2e3b;
        --orange:#ff9900; --red:#f2555a; --green:#4cc38a; --blue:#6ca0f5; }
* { box-sizing:border-box; margin:0; min-width:0; }
html, body { overflow-x:hidden; }
body { background:var(--bg); color:var(--fg); font:16px/1.6 -apple-system,BlinkMacSystemFont,"Segoe UI",Roboto,sans-serif;
       padding:16px; max-width:720px; margin:0 auto; -webkit-text-size-adjust:100%; }
a { color:var(--blue); }
.back { display:inline-block; margin-bottom:12px; font-size:.85rem; text-decoration:none; }
.md { overflow-wrap:anywhere; }
.md h1 { font-size:1.3rem; margin:20px 0 10px; color:var(--orange); }
.md h2 { font-size:1.1rem; margin:18px 0 8px; border-bottom:1px solid var(--line); padding-bottom:5px; }
.md h3 { font-size:.98rem; margin:14px 0 6px; }
.md h1:first-child { margin-top:0; }
.md p, .md ul, .md ol { margin-bottom:12px; font-size:.94rem; }
.md ul, .md ol { padding-left:22px; }
.md li { margin-bottom:4px; }
.md code { background:#232734; border:1px solid var(--line); border-radius:5px; padding:0 4px;
           font:.85em ui-monospace,SFMono-Regular,Menlo,monospace; color:var(--blue); overflow-wrap:anywhere; }
.md pre { background:#0b0d12; border:1px solid var(--line); border-radius:10px; padding:12px;
          overflow-x:auto; margin-bottom:12px;
          font:.8rem/1.5 ui-monospace,SFMono-Regular,Menlo,monospace; }
.md pre code { background:none; border:0; padding:0; color:var(--fg); font-size:1em; }
.md pre.mermaid { background:var(--card); text-align:center; font:inherit; }
.md pre.mermaid svg { max-width:100%; height:auto; }
.md blockquote { border-left:3px solid var(--orange); padding:4px 12px; color:var(--dim);
                 margin-bottom:12px; background:var(--card); border-radius:0 8px 8px 0; }
.md .tablewrap { overflow-x:auto; margin-bottom:12px; border:1px solid var(--line); border-radius:10px; }
.md table { border-collapse:collapse; font-size:.85rem; min-width:100%; }
.md th, .md td { border:1px solid var(--line); padding:6px 10px; text-align:left; }
.md th { background:var(--card); }
.md img { max-width:100%; height:auto; border-radius:10px; }
.md hr { border:0; border-top:1px solid var(--line); margin:18px 0; }
.card { display:block; width:100%; background:var(--card); border:1px solid var(--line); border-radius:12px;
        padding:14px; margin-bottom:10px; text-decoration:none; color:var(--fg); font-weight:600;
        overflow-wrap:anywhere; }
.card:active { background:#232734; }
.card .path { display:block; font-weight:400; font-size:.78rem; color:var(--dim); margin-top:3px;
              font-family:ui-monospace,SFMono-Regular,Menlo,monospace; }
footer { color:var(--dim); font-size:.75rem; text-align:center; margin:24px 0 8px; }
"#);
        assert(CSS@ == r#"
:root { --bg:#0f1117; --card:#1a1d26; --fg:#e6e8ee; --dim:#8b90a0; --line:#2a2e3b;
        --orange:#ff9900; --red:#f2555a; --green:#4cc38a; --blue:#6ca0f5; }
* { box-sizing:border-box; margin:0; min-width:0; }
html, body { overflow-x:hidden; }
body { background:var(--bg); color:var(--fg); font:16px/1.6 -apple-system,BlinkMacSystemFont,"Segoe UI",Roboto,sans-serif;
       padding:16px; max-width:720px; margin:0 auto; -webkit-text-size-adjust:100%; }
a { color:var(--blue); }
.back { display:inline-block; margin-bottom:12px; font-size:.85rem; text-decoration:none; }
.md { overflow-wrap:anywhere; }
.md h1 { font-size:1.3rem; margin:20px 0 10px; color:var(--orange); }
.md h2 { font-size:1.1rem; margin:18px 0 8px; border-bottom:1px solid var(--line); padding-bottom:5px; }
.md h3 { font-size:.98rem; margin:14px 0 6px; }
.md h1:first-child { margin-top:0; }
.md p, .md ul, .md ol { margin-bottom:12px; font-size:.94rem; }
.md ul, .md ol { padding-left:22px; }
.md li { margin-bottom:4px; }
.md code { background:#232734; border:1px solid var(--line); border-radius:5px; padding:0 4px;
           font:.85em ui-monospace,SFMono-Regular,Menlo,monospace; color:var(--blue); overflow-wrap:anywhere; }
.md pre { background:#0b0d12; border:1px solid var(--line); border-radius:10px; padding:12px;
          overflow-x:auto; margin-bottom:12px;
          font:.8rem/1.5 ui-monospace,SFMono-Regular,Menlo,monospace; }
.md pre code { background:none; border:0; padding:0; color:var(--fg); font-size:1em; }
.md pre.mermaid { background:var(--card); text-align:center; font:inherit; }
.md pre.mermaid svg { max-width:100%; height:auto; }
.md blockquote { border-left:3px solid var(--orange); padding:4px 12px; color:var(--dim);
                 margin-bottom:12px; background:var(--card); border-radius:0 8px 8px 0; }
.md .tablewrap { overflow-x:auto; margin-bottom:12px; border:1px solid var(--line); border-radius:10px; }
.md table { border-collapse:collapse; font-size:.85rem; min-width:100%; }
.md th, .md td { border:1px solid var(--line); padding:6px 10px; text-align:left; }
.md th { background:var(--card); }
.md img { max-width:100%; height:auto; border-radius:10px; }
.md hr { border:0; border-top:1px solid var(--line); margin:18px 0; }
.card { display:block; width:100%; background:var(--card); border:1px solid var(--line); border-radius:12px;
        padding:14px; margin-bottom:10px; text-decoration:none; color:var(--fg); font-weight:600;
        overflow-wrap:anywhere; }
.card:active { background:#232734; }
.card .path { display:block; font-weight:400; font-size:.78rem; color:var(--dim); margin-top:3px;
              font-family:ui-monospace,SFMono-Regular,Menlo,monospace; }
footer { color:var(--dim); font-size:.75rem; text-align:center; margin:24px 0 8px; }
"#@);
        assert(forall|j: int| 0 <= j < CSS@.len() ==> CSS@[j] != '<');
        let head = page_head();
        let e = escape_spec(title);
        lemma_escape_is_inert(title);
        let l1 = "</title><style>"@;
        let l2 = "</style></head><body>"@;
        let back = if with_back { BACK_LINK@ } else { Seq::<char>::empty() };
        let l3 = "<div class=\"md\">"@;
        assert(st[0] == '<' && st[1] == 's' && st[2] == 'c');
        assert(no_triple(head, '<', 's', 'c'));
        assert(no_triple(e, '<', 's', 'c'));
        assert(no_triple(l1, '<', 's', 'c'));
        assert(no_triple(CSS@, '<', 's', 'c'));
        assert(no_triple(l2, '<', 's', 'c'));
        assert(no_triple(back, '<', 's', 'c'));
        assert(no_triple(l3, '<', 's', 'c'));
        lemma_triple_join(head, e, '<', 's', 'c');
        lemma_triple_join(head + e, l1, '<', 's', 'c');
        lemma_triple_join(head + e + l1, CSS@, '<', 's', 'c');
        lemma_triple_join(head + e + l1 + CSS@, l2, '<', 's', 'c');
        lemma_triple_join(head + e + l1 + CSS@ + l2, back, '<', 's', 'c');
        let a0 = head + e + l1 + CSS@ + l2;
        if with_back {
            assert((a0 + back).last() == back.last());
            assert((a0 + back)[(a0 + back).len() - 2] == back[back.len() - 2]);
        } else {
            assert(a0 + back =~= a0);
        }
        lemma_triple_join(a0 + back, l3, '<', 's', 'c');
        let a = a0 + back + l3;
        let z = "</div><footer>deployed with cftmp</footer>"@ + "</body></html>"@;
        assert(no_triple("</div><footer>deployed with cftmp</footer>"@, '<', 's', 'c'));
        assert(no_triple("</body></html>"@, '<', 's', 'c'));
        lemma_triple_join("</div><footer>deployed with cftmp</footer>"@, "</body></html>"@, '<', 's', 'c');
        lemma_triple_absent(z, st);
        if occurs_in(body + z, st) {
            lemma_occurs_split(body, z, st);
            let k = choose|k: int|
                0 < k < st.len() && k <= body.len() && #[trigger] has_suffix(body, st.take(k)) && has_prefix(z, st.skip(k));
            assert(z.take(st.len() - k)[0] == st[k]);
            if st.len() - k >= 3 {
                assert(z.take(st.len() - k)[2] == st[k + 2]);
            }
            if k + 2 >= st.len() {
                assert(z.take(st.len() - k)[0] == z[0]);
            }
        }
        lemma_triple_before(a, body + z, st);
        lemma_triple_absent(z, it);
        assert(z[0] == '<');
        assert(forall|k: int| 1 <= k < it.len() ==> #[trigger] it[k] != '<');
        lemma_absent_after(body, z, it);
        lemma_triple_before(a, body + z, it);
        assert(render_page_spec(title, body, with_back) =~= a + (body + z));
    }
}

/// Tables wrapped so that wide ones scroll inside their own block.
pub open spec fn wrap_tables_spec(html: Seq<char>) -> Seq<char> {
    replace_all(
        replace_all(html, "<table>"@, "<div class=\"tablewrap\"><table>"@),
        "</table>"@,
        "</table></div>"@,
    )
}

/// Wraps every table in a `<div class="tablewrap">`.
pub fn wrap_tables(html: &str) -> (r: String)
    ensures
        r@ == wrap_tables_spec(html@),
{
    proof {
        reveal_strlit("<table>");
        reveal_strlit("</table>");
    }
    let a = replace_str(html, "<table>", "<div class=\"tablewrap\"><table>");
    replace_str(a.as_str(), "</table>", "</table></div>")
}

/// The language token of a fenced block's info string: the text before the
/// first `,` or whitespace.
pub open spec fn lang_token(info: Seq<char>) -> Seq<char>
    decreases info.len(),
{
    if info.len() == 0 || info[0] == ',' || crate::text::is_ws(info[0]) {
        Seq::empty()
    } else {
        seq![info[0]] + lang_token(info.drop_first())
    }
}

/// The language token of a fenced block's info string.
pub fn fence_language(info: &str) -> (lang: String)
    ensures
        lang@ == lang_token(info@),
{
    let v = chars_of(info);
    let n = v.len();
    let mut i: usize = 0;
    assert(v@.skip(0) =~= v@);
    while i < n && v[i] != ',' && !crate::text::is_whitespace(v[i])
        invariant
            i <= n == v@.len(),
            v@ == info@,
            lang_token(v@) == v@.take(i as int) + lang_token(v@.skip(i as int)),
        decreases n - i,
    {
        assert(v@.skip(i as int).drop_first() =~= v@.skip(i + 1));
        assert(v@.take(i + 1) =~= v@.take(i as int) + seq![v@[i as int]]);
        i = i + 1;
    }
    assert(lang_token(v@.skip(i as int)) =~= Seq::<char>::empty());
    string_of(&v.as_slice()[0..i])
}

/// A close relative for fence tokens that syntect's default grammars lack.
pub open spec fn syntax_alias_spec(lang: Seq<char>) -> Option<Seq<char>> {
    if lang == "ts"@ || lang == "tsx"@ || lang == "typescript"@ {
        Some("js"@)
    } else if lang == "jsonc"@ || lang == "json5"@ {
        Some("json"@)
    } else if lang == "shell"@ || lang == "zsh"@ {
        Some("bash"@)
    } else if lang == "vue"@ || lang == "svelte"@ {
        Some("html"@)
    } else {
        None
    }
}

/// The token to try when syntect does not know `lang` itself.
pub fn syntax_alias(lang: &str) -> (r: Option<&'static str>)
    ensures
        match r {
            Some(a) => syntax_alias_spec(lang@) == Some(a@),
            None => syntax_alias_spec(lang@) is None,
        },
{
    if str_eq(lang, "ts") || str_eq(lang, "tsx") || str_eq(lang, "typescript") {
        Some("js")
    } else if str_eq(lang, "jsonc") || str_eq(lang, "json5") {
        Some("json")
    } else if str_eq(lang, "shell") || str_eq(lang, "zsh") {
        Some("bash")
    } else if str_eq(lang, "vue") || str_eq(lang, "svelte") {
        Some("html")
    } else {
        None
    }
}

/// The position of the first `c` in `s`.
pub open spec fn find_char(s: Seq<char>, c: char) -> Option<int>
    decreases s.len(),
{
    if s.len() == 0 {
        None
    } else if s[0] == c {
        Some(0)
    } else {
        match find_char(s.drop_first(), c) {
            Some(i) => Some(i + 1),
            None => None,
        }
    }
}

/// Highlighted HTML with the attributes of its opening `<pre ...>` tag
/// dropped (so that the page style controls the background); `None` when
/// it does not start with `<pre` or the tag is not closed.
pub open spec fn strip_pre_attributes_spec(html: Seq<char>) -> Option<Seq<char>> {
    if has_prefix(html, "<pre"@) {
        let rest = html.skip(4);
        match find_char(rest, '>') {
            Some(i) => Some("<pre>"@ + rest.skip(i + 1)),
            None => None,
        }
    } else {
        None
    }
}

/// Drops the attributes of the opening `<pre ...>` tag.
pub fn strip_pre_attributes(html: &str) -> (r: Option<String>)
    ensures
        match r {
            Some(s) => strip_pre_attributes_spec(html@) == Some(s@),
            None => strip_pre_attributes_spec(html@) is None,
        },
{
    proof {
        reveal_strlit("<pre");
    }
    let v = chars_of(html);
    let pre = chars_of("<pre");
    if !matches_at(v.as_slice(), 0, pre.as_slice()) {
        assert(v@.skip(0) =~= v@);
        return None;
    }
    assert(v@.skip(0) =~= v@);
    let n = v.len();
    let ghost rest = v@.skip(4);
    let mut i: usize = 4;
    assert(v@.skip(4) =~= rest.skip(0));
    while i < n && v[i] != '>'
        invariant
            4 <= i <= n == v@.len(),
            rest == v@.skip(4),
            find_char(rest, '>') == match find_char(v@.skip(i as int), '>') {
                Some(j) => Some(j + (i - 4)),
                None => None,
            },
        decreases n - i,
    {
        assert(v@.skip(i as int).drop_first() =~= v@.skip(i + 1));
        i = i + 1;
    }
    if i == n {
        assert(v@.skip(n as int) =~= Seq::<char>::empty());
        return None;
    }
    let mut out = String::new();
    push_str(&mut out, "<pre>");
    push_chars(&mut out, &v.as_slice()[i + 1..n]);
    assert(v@.subrange(i + 1, n as int) =~= rest.skip((i - 4) + 1));
    Some(out)
}

#[verifier::external_type_specification]
#[verifier::external_body]
pub struct ExEvent<'a>(Event<'a>);

/// Markdown text parsed by pulldown-cmark with the given extensions. Only
/// [`parse_markdown`] makes one, so its events are always the parser's
/// events for its own text and options.
pub struct ParsedMarkdown {
    events: Vec<Event<'static>>,
    source: String,
    tables: bool,
    strikethrough: bool,
    footnotes: bool,
    tasklists: bool,
}

/// What a [`ParsedMarkdown`] was parsed from.
pub struct ParsedView {
    pub source: Seq<char>,
    pub tables: bool,
    pub strikethrough: bool,
    pub footnotes: bool,
    pub tasklists: bool,
}

impl View for ParsedMarkdown {
    type V = ParsedView;

    closed spec fn view(&self) -> ParsedView {
        ParsedView {
            source: self.source@,
            tables: self.tables,
            strikethrough: self.strikethrough,
            footnotes: self.footnotes,
            tasklists: self.tasklists,
        }
    }
}

/// A parser event as the page builder reads it: the start, text and end of
/// code blocks, and every other event as `Other`.
pub enum MdEvent {
    /// A code block starts: the info string of a fenced block, `None` for an
    /// indented one.
    CodeBlockStart(Option<String>),
    Text(String),
    CodeBlockEnd,
    Other,
}

/// The mathematical value of a [`MdEvent`].
pub enum MdEventView {
    CodeBlockStart(Option<Seq<char>>),
    Text(Seq<char>),
    CodeBlockEnd,
    Other,
}

impl View for MdEvent {
    type V = MdEventView;

    open spec fn view(&self) -> MdEventView {
        match self {
            MdEvent::CodeBlockStart(info) => MdEventView::CodeBlockStart(
                match info {
                    Some(s) => Some(s@),
                    None => None,
                },
            ),
            MdEvent::Text(t) => MdEventView::Text(t@),
            MdEvent::CodeBlockEnd => MdEventView::CodeBlockEnd,
            MdEvent::Other => MdEventView::Other,
        }
    }
}

/// The views of a list of events.
pub open spec fn md_events_view(v: Seq<MdEvent>) -> Seq<MdEventView> {
    v.map_values(|e: MdEvent| e@)
}

/// What each parser event becomes in the page: the event itself, or HTML
/// written in its place (empty HTML writes nothing).
pub enum Emit {
    Keep,
    Html(String),
}

/// The mathematical value of an [`Emit`].
pub enum EmitView {
    Keep,
    Html(Seq<char>),
}

impl View for Emit {
    type V = EmitView;

    open spec fn view(&self) -> EmitView {
        match self {
            Emit::Keep => EmitView::Keep,
            Emit::Html(h) => EmitView::Html(h@),
        }
    }
}

/// The views of a list of emits.
pub open spec fn emits_view(v: Seq<Emit>) -> Seq<EmitView> {
    v.map_values(|e: Emit| e@)
}

/// The events that `pulldown_cmark::Parser::new_ext` yields for `md` with
/// the given extensions, as read through [`MdEventView`].
pub uninterp spec fn markdown_event_views(
    md: Seq<char>,
    tables: bool,
    strikethrough: bool,
    footnotes: bool,
    tasklists: bool,
) -> Seq<MdEventView>;

/// `pulldown_cmark::Parser::new_ext` with the four extensions set as given,
/// its events kept (made `'static`) with the text and the options.
#[verifier::external_body]
fn parse_markdown(md: &str, tables: bool, strikethrough: bool, footnotes: bool, tasklists: bool) -> (p: ParsedMarkdown)
    ensures
        p@ == (ParsedView { source: md@, tables, strikethrough, footnotes, tasklists }),
{
    let mut o = Options::empty();
    o.set(Options::ENABLE_TABLES, tables);
    o.set(Options::ENABLE_STRIKETHROUGH, strikethrough);
    o.set(Options::ENABLE_FOOTNOTES, footnotes);
    o.set(Options::ENABLE_TASKLISTS, tasklists);
    let events = Parser::new_ext(md, o).map(|e| e.into_static()).collect();
    ParsedMarkdown { events, source: md.to_string(), tables, strikethrough, footnotes, tasklists }
}

/// The parser's events read as [`MdEvent`]s, one for one: a code-block
/// start, text and code-block end taken apart, every other event `Other`.
/// They are a function of the text and the options the events were parsed
/// from; what they are is left to the name.
#[verifier::external_body]
fn event_views(p: &ParsedMarkdown) -> (v: Vec<MdEvent>)
    ensures
        md_events_view(v@) == markdown_event_views(p@.source, p@.tables, p@.strikethrough, p@.footnotes, p@.tasklists),
{
    p.events.iter().map(|e| match e {
        Event::Start(Tag::CodeBlock(CodeBlockKind::Fenced(l))) => MdEvent::CodeBlockStart(Some(l.to_string())),
        Event::Start(Tag::CodeBlock(CodeBlockKind::Indented)) => MdEvent::CodeBlockStart(None),
        Event::Text(t) => MdEvent::Text(t.to_string()),
        Event::End(TagEnd::CodeBlock) => MdEvent::CodeBlockEnd,
        _ => MdEvent::Other,
    }).collect()
}

/// The HTML that `pulldown_cmark::html::push_html` writes for the events
/// that `Parser::new_ext` yields for `md` with the given extensions, each
/// event paired with an emit in order: kept as it is, or replaced by an
/// `Html` event with that text (events past the end of `emits` are left
/// out).
pub uninterp spec fn markdown_html(
    md: Seq<char>,
    tables: bool,
    strikethrough: bool,
    footnotes: bool,
    tasklists: bool,
    emits: Seq<EmitView>,
) -> Seq<char>;

/// `pulldown_cmark::html::push_html` over the parsed events, each paired
/// with an emit: kept, or replaced by an `Html` event. The HTML is a
/// function of the text and options the events were parsed from and of the
/// emits; what it is is left to the name.
#[verifier::external_body]
fn push_html(p: &ParsedMarkdown, emits: Vec<Emit>) -> (out: String)
    ensures
        out@ == markdown_html(p@.source, p@.tables, p@.strikethrough, p@.footnotes, p@.tasklists, emits_view(emits@)),
{
    let mut out = String::new();
    html::push_html(&mut out, p.events.iter().zip(emits).map(|(e, a)| match a {
        Emit::Keep => e.clone(),
        Emit::Html(h) => Event::Html(h.into()),
    }));
    out
}

/// A code block shown as plain, escaped text.
pub open spec fn plain_block(code: Seq<char>) -> Seq<char> {
    "<pre><code>"@ + escape_spec(code) + "</code></pre>"@
}

/// A mermaid block, rendered by the browser from its (escaped) text.
pub open spec fn mermaid_block(code: Seq<char>) -> Seq<char> {
    MERMAID_MARKER@ + escape_spec(code) + "</pre>"@
}

/// What a code block becomes: a mermaid block for `mermaid`; otherwise
/// its highlighted HTML when there is some (see [`highlight_spec`]), else
/// plain escaped text.
pub open spec fn render_block_spec(lang: Seq<char>, code: Seq<char>) -> Seq<char> {
    if lang == "mermaid"@ {
        mermaid_block(code)
    } else {
        match highlight_spec(code, lang) {
            Some(h) => h,
            None => plain_block(code),
        }
    }
}

/// The HTML of one code block.
pub fn render_block(hl: &Highlighter, lang: &str, code: &str) -> (html: String)
    ensures
        html@ == render_block_spec(lang@, code@),
{
    let mut out = String::new();
    if str_eq(lang, "mermaid") {
        push_str(&mut out, MERMAID_MARKER);
        push_escaped(&mut out, code);
        push_str(&mut out, "</pre>");
        return out;
    }
    match hl.highlight(code, lang) {
        Some(h) => h,
        None => {
            push_str(&mut out, "<pre><code>");
            push_escaped(&mut out, code);
            push_str(&mut out, "</code></pre>");
            out
        },
    }
}

/// What the code-block pass does with one parser event: keep it, drop it
/// (it opened a code block or was text inside one), or put the HTML of the
/// code block with that number in its place (it closed the block).
pub enum ScanItem {
    Keep,
    Drop,
    Block(nat),
}

/// The state of the code-block pass: what it does with each event so far,
/// the code block being collected (its language and text), and the
/// finished blocks.
pub struct ScanState {
    pub items: Seq<ScanItem>,
    pub open: Option<(Seq<char>, Seq<char>)>,
    pub blocks: Seq<(Seq<char>, Seq<char>)>,
}

/// The language of a code block start: the fence's language token, or
/// empty for an indented block.
pub open spec fn start_lang(info: Option<Seq<char>>) -> Seq<char> {
    match info {
        Some(l) => lang_token(l),
        None => Seq::empty(),
    }
}

/// The code-block pass over the events `evs`: a code block start opens a
/// block, text inside an open block is collected, the end of an open block
/// is replaced by its HTML, and every other event is kept.
pub open spec fn scan_events(evs: Seq<MdEventView>) -> ScanState
    decreases evs.len(),
{
    if evs.len() == 0 {
        ScanState { items: Seq::empty(), open: None, blocks: Seq::empty() }
    } else {
        let s = scan_events(evs.drop_last());
        match evs.last() {
            MdEventView::CodeBlockStart(info) => ScanState {
                items: s.items.push(ScanItem::Drop),
                open: Some((start_lang(info), Seq::empty())),
                ..s
            },
            MdEventView::Text(t) => match s.open {
                Some(o) => ScanState { items: s.items.push(ScanItem::Drop), open: Some((o.0, o.1 + t)), ..s },
                None => ScanState { items: s.items.push(ScanItem::Keep), ..s },
            },
            MdEventView::CodeBlockEnd => match s.open {
                Some(o) => ScanState {
                    items: s.items.push(ScanItem::Block(s.blocks.len())),
                    open: None,
                    blocks: s.blocks.push(o),
                },
                None => ScanState { items: s.items.push(ScanItem::Keep), ..s },
            },
            MdEventView::Other => ScanState { items: s.items.push(ScanItem::Keep), ..s },
        }
    }
}

/// The `(language, code)` of each code block, in order.
pub fn collect_code_blocks(events: &Vec<MdEvent>) -> (blocks: Vec<(String, String)>)
    ensures
        blocks@.map_values(|b: (String, String)| (b.0@, b.1@)) == scan_events(md_events_view(events@)).blocks,
{
    let ghost ev = md_events_view(events@);
    let mut blocks: Vec<(String, String)> = Vec::new();
    let mut open: Option<(String, String)> = None;
    let n = events.len();
    assert(ev.take(0) =~= Seq::<MdEventView>::empty());
    assert(blocks@.map_values(|b: (String, String)| (b.0@, b.1@)) =~= Seq::<(Seq<char>, Seq<char>)>::empty());
    for i in 0..n
        invariant
            n == events@.len(),
            ev == md_events_view(events@),
            blocks@.map_values(|b: (String, String)| (b.0@, b.1@)) == scan_events(ev.take(i as int)).blocks,
            match open {
                Some(o) => scan_events(ev.take(i as int)).open == Some((o.0@, o.1@)),
                None => scan_events(ev.take(i as int)).open is None,
            },
    {
        assert(ev.take(i + 1).drop_last() =~= ev.take(i as int));
        assert(ev.take(i + 1).last() == events@[i as int]@);
        match &events[i] {
            MdEvent::CodeBlockStart(info) => {
                let lang = match info {
                    Some(l) => fence_language(l.as_str()),
                    None => String::new(),
                };
                open = Some((lang, String::new()));
            },
            MdEvent::Text(t) => {
                open = match open {
                    Some((l, c)) => {
                        let mut c = c;
                        push_str(&mut c, t.as_str());
                        Some((l, c))
                    },
                    None => None,
                };
            },
            MdEvent::CodeBlockEnd => {
                match open {
                    Some(b) => {
                        blocks.push(b);
                        assert(blocks@.map_values(|b: (String, String)| (b.0@, b.1@)) =~= scan_events(
                            ev.take(i + 1),
                        ).blocks);
                    },
                    None => {},
                }
                open = None;
            },
            MdEvent::Other => {},
        }
    }
    assert(ev.take(n as int) =~= ev);
    blocks
}

/// What the page writes for a pass item, given the HTML of each code block.
pub open spec fn emit_of(item: ScanItem, rendered: Seq<Seq<char>>) -> EmitView {
    match item {
        ScanItem::Keep => EmitView::Keep,
        ScanItem::Drop => EmitView::Html(Seq::empty()),
        ScanItem::Block(k) => EmitView::Html(rendered[k as int]),
    }
}

/// What the page writes for each event: kept, nothing, or the HTML of the
/// code block it closes, `rendered[k]` for the k-th block.
pub open spec fn emits_spec(items: Seq<ScanItem>, rendered: Seq<Seq<char>>) -> Seq<EmitView> {
    items.map_values(|it: ScanItem| emit_of(it, rendered))
}

/// The characters of each string.
pub open spec fn texts_view(v: Seq<String>) -> Seq<Seq<char>> {
    v.map_values(|s: String| s@)
}

/// For each event, what the page writes: the event itself, nothing in place
/// of a code block's start and text, and the block's HTML in place of its
/// end, `rendered[k]` for the k-th block.
pub fn plan_emits(events: &Vec<MdEvent>, rendered: &Vec<String>) -> (out: Vec<Emit>)
    requires
        rendered@.len() == scan_events(md_events_view(events@)).blocks.len(),
    ensures
        emits_view(out@) == emits_spec(scan_events(md_events_view(events@)).items, texts_view(rendered@)),
{
    let ghost ev = md_events_view(events@);
    let ghost rv = texts_view(rendered@);
    let mut out: Vec<Emit> = Vec::new();
    let mut open = false;
    let mut done: usize = 0;
    let n = events.len();
    assert(ev.take(0) =~= Seq::<MdEventView>::empty());
    assert(emits_view(out@) =~= emits_spec(scan_events(ev.take(0)).items, rv));
    for i in 0..n
        invariant
            n == events@.len(),
            ev == md_events_view(events@),
            rv == texts_view(rendered@),
            rendered@.len() == scan_events(ev).blocks.len(),
            open == scan_events(ev.take(i as int)).open is Some,
            done == scan_events(ev.take(i as int)).blocks.len(),
            emits_view(out@) == emits_spec(scan_events(ev.take(i as int)).items, rv),
    {
        assert(ev.take(i + 1).drop_last() =~= ev.take(i as int));
        assert(ev.take(i + 1).last() == events@[i as int]@);
        proof {
            lemma_scan_blocks_grow(ev, i + 1);
        }
        let ghost before = out@;
        let e = match &events[i] {
            MdEvent::CodeBlockStart(_) => {
                open = true;
                Emit::Html(String::new())
            },
            MdEvent::Text(_) => {
                if open {
                    Emit::Html(String::new())
                } else {
                    Emit::Keep
                }
            },
            MdEvent::CodeBlockEnd => {
                if open {
                    let nr = rendered.len();
                    assert(done < nr);
                    let h = rendered[done].clone();
                    done = done + 1;
                    open = false;
                    Emit::Html(h)
                } else {
                    Emit::Keep
                }
            },
            MdEvent::Other => Emit::Keep,
        };
        out.push(e);
        assert(emits_view(out@) =~= emits_view(before).push(e@));
        assert(emits_view(out@) =~= emits_spec(scan_events(ev.take(i + 1)).items, rv));
    }
    assert(ev.take(n as int) =~= ev);
    out
}

proof fn lemma_scan_blocks_grow(evs: Seq<MdEventView>, k: int)
    requires
        0 <= k <= evs.len(),
    ensures
        scan_events(evs.take(k)).blocks.len() <= scan_events(evs).blocks.len(),
    decreases evs.len() - k,
{
    if k < evs.len() {
        lemma_scan_blocks_grow(evs, k + 1);
        assert(evs.take(k + 1).drop_last() =~= evs.take(k));
    } else {
        assert(evs.take(k) =~= evs);
    }
}

/// The HTML fragment of a Markdown text (tables, strikethrough, footnotes
/// and task lists enabled): what pulldown-cmark writes for its events with
/// each code block replaced by its rendering (see [`render_block_spec`]),
/// and every table wrapped so that a wide one scrolls inside its block.
pub open spec fn md_html_spec(md: Seq<char>) -> Seq<char> {
    let st = scan_events(markdown_event_views(md, true, true, true, true));
    let rendered = st.blocks.map_values(|b: (Seq<char>, Seq<char>)| render_block_spec(b.0, b.1));
    wrap_tables_spec(markdown_html(md, true, true, true, true, emits_spec(st.items, rendered)))
}

proof fn lemma_other_events_kept(evs: Seq<MdEventView>)
    ensures
        scan_events(evs).items.len() == evs.len(),
        forall|i: int| 0 <= i < evs.len() && #[trigger] evs[i] is Other ==> scan_events(evs).items[i] is Keep,
    decreases evs.len(),
{
    if evs.len() > 0 {
        let d = evs.drop_last();
        lemma_other_events_kept(d);
        assert forall|i: int| 0 <= i < evs.len() && #[trigger] evs[i] is Other implies scan_events(evs).items[i] is Keep by {
            if i < d.len() {
                assert(d[i] == evs[i]);
            }
        }
    }
}

/// A page body is pulldown-cmark's HTML for the Markdown parsed with all
/// four extensions on (tables, strikethrough, footnotes, task lists), one
/// emit per parser event, every event that is not part of a code block
/// written as pulldown-cmark writes it, and tables wrapped.
pub proof fn lemma_md_all_extensions(md: Seq<char>)
    ensures
        exists|e: Seq<EmitView>|
            {
                &&& e.len() == markdown_event_views(md, true, true, true, true).len()
                &&& forall|i: int|
                    0 <= i < e.len() && #[trigger] markdown_event_views(md, true, true, true, true)[i] is Other
                        ==> e[i] is Keep
                &&& md_html_spec(md) == wrap_tables_spec(markdown_html(md, true, true, true, true, e))
            },
{
    let evs = markdown_event_views(md, true, true, true, true);
    let st = scan_events(evs);
    let rendered = st.blocks.map_values(|b: (Seq<char>, Seq<char>)| render_block_spec(b.0, b.1));
    let e = emits_spec(st.items, rendered);
    lemma_other_events_kept(evs);
    assert forall|i: int| 0 <= i < e.len() && #[trigger] evs[i] is Other implies e[i] is Keep by {
        assert(st.items[i] is Keep);
    }
    assert(e.len() == evs.len());
    assert(md_html_spec(md) == wrap_tables_spec(markdown_html(md, true, true, true, true, e)));
    assert({
        &&& e.len() == markdown_event_views(md, true, true, true, true).len()
        &&& forall|i: int|
            0 <= i < e.len() && #[trigger] markdown_event_views(md, true, true, true, true)[i] is Other ==> e[i] is Keep
        &&& md_html_spec(md) == wrap_tables_spec(markdown_html(md, true, true, true, true, e))
    });
}

/// Renders Markdown to an HTML fragment with `hl` (tables, strikethrough,
/// footnotes, task lists enabled). Code blocks become mermaid, highlighted
/// or plain blocks (see [`render_block`]); tables get wrapped so wide ones
/// scroll inside the block instead of the page.
pub fn md_to_html_with(hl: &Highlighter, md: &str) -> (out: String)
    ensures
        out@ == md_html_spec(md@),
{
    let parsed = parse_markdown(md, true, true, true, true);
    let events = event_views(&parsed);
    let blocks = collect_code_blocks(&events);
    let ghost bv = blocks@.map_values(|b: (String, String)| (b.0@, b.1@));
    let mut rendered: Vec<String> = Vec::new();
    let nb = blocks.len();
    for i in 0..nb
        invariant
            nb == blocks@.len(),
            bv == blocks@.map_values(|b: (String, String)| (b.0@, b.1@)),
            rendered@.len() == i,
            forall|j: int| 0 <= j < i ==> #[trigger] rendered@[j]@ == render_block_spec(bv[j].0, bv[j].1),
    {
        let h = render_block(hl, blocks[i].0.as_str(), blocks[i].1.as_str());
        rendered.push(h);
    }
    let ghost st = scan_events(md_events_view(events@));
    assert(texts_view(rendered@) =~= st.blocks.map_values(
        |b: (Seq<char>, Seq<char>)| render_block_spec(b.0, b.1),
    ));
    let emits = plan_emits(&events, &rendered);
    let html = push_html(&parsed, emits);
    wrap_tables(html.as_str())
}

/// Renders Markdown to an HTML fragment, loading syntect's grammars and
/// themes for it.
pub fn md_to_html(md: &str) -> (out: String)
    ensures
        out@ == md_html_spec(md@),
{
    let hl = Highlighter::new();
    md_to_html_with(&hl, md)
}

} // verus!
