//! The plan of a Markdown staging directory: which pages to write and which
//! files to copy, decided from the source files and their rendered bodies;
//! the caller does the reading and writing.

use vstd::prelude::*;
use crate::highlight::Highlighter;
use crate::manifest::{extension_of, extension_spec, forward_slashes, is_hidden, is_hidden_spec, join_path, last_dot, strings_view};
use crate::md::{
    escape_spec, lemma_escape_is_inert, lemma_mermaid_scripts_only_when_used, lemma_triple_absent, lemma_triple_join,
    md_html_spec, md_to_html_with, mermaid_init_tag, mermaid_load_tag, no_triple, push_escaped, render_page,
    render_page_spec, title_of, title_spec, MERMAID_MARKER,
};
use crate::order::{compare_chars, lemma_lex_irreflexive, lemma_lex_total, lemma_lex_transitive, lex_lt, Order};
use crate::text::{chars_of, contains_str, has_suffix, occurs_in, push_char, push_str, str_eq, string_of};

verus! {

/// A file found under the source directory (hidden files are left out).
pub struct StageSource {
    /// Path components relative to the source directory.
    pub rel: Vec<String>,
    /// Where the file is on disk.
    pub disk_path: String,
    /// The text of a Markdown file; `None` for any other file.
    pub markdown: Option<String>,
}

/// The mathematical value of a [`StageSource`].
pub struct StageSourceView {
    pub rel: Seq<Seq<char>>,
    pub disk_path: Seq<char>,
    pub markdown: Option<Seq<char>>,
}

impl View for StageSource {
    type V = StageSourceView;

    open spec fn view(&self) -> StageSourceView {
        StageSourceView {
            rel: strings_view(self.rel@),
            disk_path: self.disk_path@,
            markdown: match self.markdown {
                Some(m) => Some(m@),
                None => None,
            },
        }
    }
}

/// What goes into a staged file.
pub enum StagedContent {
    /// A generated page.
    Page(String),
    /// A copy of the source file at this path.
    CopyFrom(String),
}

/// A file of the staging directory.
pub struct StagedFile {
    /// Path components relative to the staging directory.
    pub rel: Vec<String>,
    pub content: StagedContent,
}

/// The staging directory: its files in the order they are written, and
/// whether the bundled mermaid.js goes to `_cftmp/mermaid.min.js`.
pub struct StagePlan {
    pub files: Vec<StagedFile>,
    pub mermaid_asset: bool,
}

/// The mathematical value of a [`StagedContent`].
pub enum StagedContentView {
    Page(Seq<char>),
    CopyFrom(Seq<char>),
}

/// The mathematical value of a [`StagedFile`].
pub struct StagedFileView {
    pub rel: Seq<Seq<char>>,
    pub content: StagedContentView,
}

impl View for StagedFile {
    type V = StagedFileView;

    open spec fn view(&self) -> StagedFileView {
        StagedFileView {
            rel: strings_view(self.rel@),
            content: match self.content {
                StagedContent::Page(p) => StagedContentView::Page(p@),
                StagedContent::CopyFrom(p) => StagedContentView::CopyFrom(p@),
            },
        }
    }
}

/// The mathematical value of a list of staged files.
pub open spec fn staged_view(v: Seq<StagedFile>) -> Seq<StagedFileView> {
    v.map_values(|f: StagedFile| f@)
}

/// The mathematical value of a list of sources.
pub open spec fn sources_view(v: Seq<StageSource>) -> Seq<StageSourceView> {
    v.map_values(|s: StageSource| s@)
}

/// ASCII lowercase of one character.
pub open spec fn ascii_lower(c: char) -> char {
    if 'A' <= c <= 'Z' {
        ((c as u32 + 32) as u8) as char
    } else {
        c
    }
}

/// Whether a file name has the extension `md`, in any ASCII case.
pub open spec fn is_markdown_name(name: Seq<char>) -> bool {
    let e = extension_spec(name);
    e.len() == 2 && ascii_lower(e[0]) == 'm' && ascii_lower(e[1]) == 'd'
}

/// Whether a relative path names a Markdown file.
pub open spec fn is_markdown_spec(rel: Seq<Seq<char>>) -> bool {
    rel.len() > 0 && is_markdown_name(rel.last())
}

fn lower(c: char) -> (r: char)
    ensures
        r == ascii_lower(c),
{
    if 'A' <= c && c <= 'Z' {
        ((c as u32 + 32) as u8) as char
    } else {
        c
    }
}

/// Whether the relative path names a Markdown (`.md`, any case) file.
pub fn is_markdown_path(rel: &[String]) -> (r: bool)
    ensures
        r == is_markdown_spec(strings_view(rel@)),
{
    if rel.len() == 0 {
        return false;
    }
    let ext = extension_of(rel[rel.len() - 1].as_str());
    let e = chars_of(ext.as_str());
    e.len() == 2 && lower(e[0]) == 'm' && lower(e[1]) == 'd'
}

/// The name of a file without its extension (`Path::file_stem` for a name
/// with an extension).
pub open spec fn stem_spec(name: Seq<char>) -> Seq<char> {
    name.take(last_dot(name))
}

/// Where a Markdown file's page goes: the same path with the extension
/// replaced by `html`.
pub open spec fn html_rel_spec(rel: Seq<Seq<char>>) -> Seq<Seq<char>> {
    rel.update(rel.len() - 1, stem_spec(rel.last()) + ".html"@)
}

/// `s` with every trailing `.html` removed (`trim_end_matches(".html")`).
pub open spec fn strip_html_suffixes(s: Seq<char>) -> Seq<char>
    decreases s.len(),
{
    if s.len() >= 5 && has_suffix(s, ".html"@) {
        strip_html_suffixes(s.take(s.len() - 5))
    } else {
        s
    }
}

/// The link to a page: `/` and its path without `.html` (the extensionless
/// form that `html_handling` serves).
pub open spec fn page_href(out_rel: Seq<Seq<char>>) -> Seq<char> {
    seq!['/'] + strip_html_suffixes(forward_slashes(join_path(out_rel)))
}

/// Whether `a` sorts before `b` (by link, then title).
pub open spec fn page_lt(a: (Seq<char>, Seq<char>), b: (Seq<char>, Seq<char>)) -> bool {
    lex_lt(a.0, b.0) || (a.0 == b.0 && lex_lt(a.1, b.1))
}

/// `s` with `p` put before its first entry that does not sort before `p`.
pub open spec fn insert_page(s: Seq<(Seq<char>, Seq<char>)>, p: (Seq<char>, Seq<char>)) -> Seq<(Seq<char>, Seq<char>)>
    decreases s.len(),
{
    if s.len() == 0 {
        seq![p]
    } else if !page_lt(s[0], p) {
        seq![p] + s
    } else {
        seq![s[0]] + insert_page(s.drop_first(), p)
    }
}

/// The pages sorted by link, then title (insertion sort).
pub open spec fn sort_pages(s: Seq<(Seq<char>, Seq<char>)>) -> Seq<(Seq<char>, Seq<char>)>
    decreases s.len(),
{
    if s.len() == 0 {
        Seq::empty()
    } else {
        insert_page(sort_pages(s.drop_last()), s.last())
    }
}

/// The index card of a page.
pub open spec fn card_spec(p: (Seq<char>, Seq<char>)) -> Seq<char> {
    "<a class=\"card\" href=\""@ + escape_spec(p.0) + "\">"@ + escape_spec(p.1) + "<span class=\"path\">"@
        + escape_spec(p.0) + "</span></a>"@
}

/// The cards of the pages, one after the other.
pub open spec fn cards_spec(s: Seq<(Seq<char>, Seq<char>)>) -> Seq<char>
    decreases s.len(),
{
    if s.len() == 0 {
        Seq::empty()
    } else {
        cards_spec(s.drop_last()) + card_spec(s.last())
    }
}

/// The generated index page: the directory's name as title and heading,
/// then a card per page, sorted.
pub open spec fn index_page_spec(dir_name: Seq<char>, pages: Seq<(Seq<char>, Seq<char>)>) -> Seq<char> {
    render_page_spec(
        dir_name,
        "<h1>"@ + escape_spec(dir_name) + "</h1>"@ + cards_spec(sort_pages(pages)),
        false,
    )
}

/// The plan built so far: staged files, the pages for the index (link and
/// title), whether an index exists, whether a page needs mermaid.
pub struct PlanState {
    pub files: Seq<StagedFileView>,
    pub pages: Seq<(Seq<char>, Seq<char>)>,
    pub have_index: bool,
    pub mermaid: bool,
}

/// One source file's effect on the plan, `body` being its rendered HTML
/// when it is Markdown.
pub open spec fn plan_step(st: PlanState, src: StageSourceView, body: Seq<char>) -> PlanState {
    if is_hidden_spec(src.rel) {
        st
    } else if is_markdown_spec(src.rel) {
        let out_rel = html_rel_spec(src.rel);
        let title = title_spec(src.markdown.unwrap(), stem_spec(src.rel.last()));
        let is_index = forward_slashes(join_path(out_rel)) == "index.html"@;
        let page = render_page_spec(title, body, !is_index);
        PlanState {
            files: st.files.push(StagedFileView { rel: out_rel, content: StagedContentView::Page(page) }),
            pages: if is_index {
                st.pages
            } else {
                st.pages.push((page_href(out_rel), title))
            },
            have_index: st.have_index || is_index,
            mermaid: st.mermaid || occurs_in(body, MERMAID_MARKER@),
        }
    } else {
        PlanState {
            files: st.files.push(
                StagedFileView { rel: src.rel, content: StagedContentView::CopyFrom(src.disk_path) },
            ),
            have_index: st.have_index || join_path(src.rel) == "index.html"@,
            ..st
        }
    }
}

/// The plan after the first `n` sources.
pub open spec fn plan_prefix(srcs: Seq<StageSourceView>, bodies: Seq<Seq<char>>, n: nat) -> PlanState
    decreases n,
{
    if n == 0 {
        PlanState { files: Seq::empty(), pages: Seq::empty(), have_index: false, mermaid: false }
    } else {
        plan_step(plan_prefix(srcs, bodies, (n - 1) as nat), srcs[n - 1], bodies[n - 1])
    }
}

/// Why a directory could not be staged.
#[derive(Debug, Clone, PartialEq, Eq)]
pub enum StageError {
    /// There is no Markdown file and no `index.html` in the directory.
    NoMarkdown { dir: String },
}

impl StageError {
    /// The text shown for this error.
    pub fn message(&self) -> (m: String)
        ensures
            match self {
                StageError::NoMarkdown { dir } => m@ == "no markdown files found in "@ + dir@,
            },
    {
        let mut m = String::new();
        match self {
            StageError::NoMarkdown { dir } => {
                push_str(&mut m, "no markdown files found in ");
                push_str(&mut m, dir.as_str());
            },
        }
        m
    }
}

/// The staging plan for the sources, given each Markdown source's rendered
/// body: the pages and copies in source order, then, unless an index exists,
/// a generated `index.html`; refused when there is neither a page nor an
/// index.
pub open spec fn stage_plan_spec(
    srcs: Seq<StageSourceView>,
    bodies: Seq<Seq<char>>,
    dir: Seq<char>,
    dir_name: Seq<char>,
) -> Result<(Seq<StagedFileView>, bool), Seq<char>> {
    let st = plan_prefix(srcs, bodies, srcs.len());
    if st.pages.len() == 0 && !st.have_index {
        Err(dir)
    } else if st.have_index {
        Ok((st.files, st.mermaid))
    } else {
        Ok(
            (
                st.files.push(
                    StagedFileView {
                        rel: seq!["index.html"@],
                        content: StagedContentView::Page(index_page_spec(dir_name, st.pages)),
                    },
                ),
                st.mermaid,
            ),
        )
    }
}

/// The mathematical value of a planning result.
pub open spec fn plan_result_view(r: Result<StagePlan, StageError>) -> Result<(Seq<StagedFileView>, bool), Seq<char>> {
    match r {
        Ok(p) => Ok((staged_view(p.files@), p.mermaid_asset)),
        Err(StageError::NoMarkdown { dir }) => Err(dir@),
    }
}

fn clone_strings(v: &[String]) -> (r: Vec<String>)
    ensures
        strings_view(r@) == strings_view(v@),
{
    let mut r: Vec<String> = Vec::new();
    let n = v.len();
    for i in 0..n
        invariant
            n == v@.len(),
            strings_view(r@) == strings_view(v@.take(i as int)),
    {
        let c = v[i].clone();
        assert(c@ == v@[i as int]@);
        let ghost old_r = r@;
        r.push(c);
        assert(strings_view(r@) =~= strings_view(old_r).push(c@));
        assert(v@.take(i + 1) =~= v@.take(i as int).push(v@[i as int]));
        assert(strings_view(r@) =~= strings_view(v@.take(i + 1)));
    }
    assert(v@.take(n as int) =~= v@);
    r
}

/// The components joined by `/`, with `\` turned into `/` when `forward`.
pub fn path_string(rel: &[String], forward: bool) -> (p: String)
    ensures
        p@ == if forward {
            forward_slashes(join_path(strings_view(rel@)))
        } else {
            join_path(strings_view(rel@))
        },
{
    let ghost rv = strings_view(rel@);
    let ghost fw = if forward { forward_slashes(join_path(rv)) } else { join_path(rv) };
    let mut p = String::new();
    let n = rel.len();
    for i in 0..n
        invariant
            n == rel@.len(),
            rv == strings_view(rel@),
            p@ == if forward {
                forward_slashes(join_path(rv.take(i as int)))
            } else {
                join_path(rv.take(i as int))
            },
    {
        if i > 0 {
            push_char(&mut p, '/');
        }
        let c = chars_of(rel[i].as_str());
        let m = c.len();
        let ghost before = p@;
        let ghost ci = c@;
        for k in 0..m
            invariant
                m == c@.len(),
                c@ == ci,
                p@ == before + if forward {
                    forward_slashes(c@.take(k as int))
                } else {
                    c@.take(k as int)
                },
        {
            let ch = if forward && c[k] == '\\' { '/' } else { c[k] };
            push_char(&mut p, ch);
            if forward {
                assert(forward_slashes(c@.take(k + 1)) =~= forward_slashes(c@.take(k as int)).push(ch));
            } else {
                assert(c@.take(k + 1) =~= c@.take(k as int).push(c@[k as int]));
            }
        }
        assert(c@.take(m as int) =~= c@);
        proof {
            let t = rv.take(i + 1);
            assert(t.drop_last() =~= rv.take(i as int));
            assert(rv[i as int] == c@);
            if i == 0 {
                assert(join_path(t) == rv[0]);
                assert(join_path(rv.take(0)) =~= Seq::<char>::empty());
                assert(forward_slashes(Seq::<char>::empty()) =~= Seq::<char>::empty());
            } else {
                assert(join_path(t) == join_path(rv.take(i as int)) + seq!['/'] + rv[i as int]);
                assert(forward_slashes(join_path(t)) =~= forward_slashes(join_path(rv.take(i as int)))
                    + seq!['/'] + forward_slashes(rv[i as int]));
            }
        }
    }
    assert(rv.take(n as int) =~= rv);
    p
}

proof fn lemma_extension_has_dot(name: Seq<char>)
    requires
        extension_spec(name).len() > 0,
    ensures
        0 < last_dot(name) < name.len(),
{
    lemma_last_dot_bound(name);
}

proof fn lemma_last_dot_bound(name: Seq<char>)
    ensures
        -1 <= last_dot(name) < name.len(),
    decreases name.len(),
{
    if name.len() > 0 && name.last() != '.' {
        lemma_last_dot_bound(name.drop_last());
    }
}

fn stem_of(name: &str) -> (r: String)
    requires
        0 <= last_dot(name@),
    ensures
        r@ == stem_spec(name@),
{
    let v = chars_of(name);
    let n = v.len();
    let mut i = n;
    assert(v@.take(n as int) =~= v@);
    while i > 0 && v[i - 1] != '.'
        invariant
            i <= n == v@.len(),
            v@ == name@,
            last_dot(v@) == last_dot(v@.take(i as int)),
        decreases i,
    {
        assert(v@.take(i as int).drop_last() =~= v@.take(i - 1));
        i = i - 1;
    }
    if i == 0 {
        assert(v@.take(0) =~= Seq::<char>::empty());
    }
    string_of(&v.as_slice()[0..i - 1])
}

fn html_rel(rel: &[String]) -> (r: Vec<String>)
    requires
        is_markdown_spec(strings_view(rel@)),
    ensures
        strings_view(r@) == html_rel_spec(strings_view(rel@)),
{
    let ghost rv = strings_view(rel@);
    let n = rel.len();
    proof {
        lemma_extension_has_dot(rv.last());
    }
    let mut r = clone_strings(rel);
    let mut name = stem_of(rel[n - 1].as_str());
    push_str(&mut name, ".html");
    r.set(n - 1, name);
    assert(strings_view(r@) =~= html_rel_spec(rv));
    r
}

fn strip_html_suffixes_str(s: &str) -> (r: String)
    ensures
        r@ == strip_html_suffixes(s@),
{
    let v = chars_of(s);
    let suffix = chars_of(".html");
    proof {
        reveal_strlit(".html");
    }
    let mut n = v.len();
    assert(v@.take(n as int) =~= v@);
    while n >= 5 && crate::text::matches_at(&v.as_slice()[0..n], n - 5, suffix.as_slice())
        invariant
            n <= v@.len(),
            v@ == s@,
            suffix@ == ".html"@,
            suffix@.len() == 5,
            strip_html_suffixes(s@) == strip_html_suffixes(v@.take(n as int)),
        decreases n,
    {
        assert(v@.take(n as int) =~= v@.subrange(0, n as int));
        assert(v@.take(n as int).skip(n - 5).take(5) =~= v@.take(n as int).skip(n - 5));
        assert(has_suffix(v@.take(n as int), ".html"@));
        assert(v@.take(n as int).take(n - 5) =~= v@.take(n - 5));
        n = n - 5;
    }
    proof {
        if n >= 5 {
            assert(v@.take(n as int) =~= v@.subrange(0, n as int));
            if has_suffix(v@.take(n as int), ".html"@) {
                assert(v@.take(n as int).skip(n - 5).take(5) =~= v@.take(n as int).skip(n - 5));
            }
        }
    }
    string_of(&v.as_slice()[0..n])
}

fn page_lt_exec(a: &(String, String), b: &(String, String)) -> (r: bool)
    ensures
        r == page_lt((a.0@, a.1@), (b.0@, b.1@)),
{
    let a0 = chars_of(a.0.as_str());
    let b0 = chars_of(b.0.as_str());
    match compare_chars(a0.as_slice(), b0.as_slice()) {
        Order::Less => true,
        Order::Greater => {
            proof {
                lemma_lex_total(a.0@, b.0@);
            }
            false
        },
        Order::Equal => {
            let a1 = chars_of(a.1.as_str());
            let b1 = chars_of(b.1.as_str());
            proof {
                lemma_lex_irreflexive(a.0@);
            }
            match compare_chars(a1.as_slice(), b1.as_slice()) {
                Order::Less => true,
                _ => false,
            }
        },
    }
}

/// The mathematical value of a list of pages.
pub open spec fn pages_view(v: Seq<(String, String)>) -> Seq<(Seq<char>, Seq<char>)> {
    v.map_values(|p: (String, String)| (p.0@, p.1@))
}

proof fn lemma_insert_page_at(s: Seq<(Seq<char>, Seq<char>)>, p: (Seq<char>, Seq<char>), j: int)
    requires
        0 <= j <= s.len(),
        forall|k: int| 0 <= k < j ==> page_lt(s[k], p),
        j < s.len() ==> !page_lt(s[j], p),
    ensures
        insert_page(s, p) == s.take(j) + seq![p] + s.skip(j),
    decreases s.len(),
{
    if s.len() == 0 {
        assert(s.take(j) + seq![p] + s.skip(j) =~= seq![p]);
    } else if j == 0 {
        assert(s.take(0) + seq![p] + s.skip(0) =~= seq![p] + s);
    } else {
        let t = s.drop_first();
        assert forall|k: int| 0 <= k < j - 1 implies page_lt(t[k], p) by {
            assert(t[k] == s[k + 1]);
        }
        lemma_insert_page_at(t, p, j - 1);
        assert(seq![s[0]] + (t.take(j - 1) + seq![p] + t.skip(j - 1)) =~= s.take(j) + seq![p] + s.skip(j));
    }
}

fn insert_page_exec(sorted: &mut Vec<(String, String)>, p: (String, String))
    ensures
        pages_view(final(sorted)@) == insert_page(pages_view(old(sorted)@), (p.0@, p.1@)),
{
    let ghost s = pages_view(sorted@);
    let ghost pv = (p.0@, p.1@);
    let n = sorted.len();
    let mut j: usize = 0;
    while j < n && page_lt_exec(&sorted[j], &p)
        invariant
            n == sorted@.len(),
            s == pages_view(sorted@),
            pv == (p.0@, p.1@),
            j <= n,
            forall|k: int| 0 <= k < j ==> page_lt(s[k], pv),
        decreases n - j,
    {
        j = j + 1;
    }
    proof {
        lemma_insert_page_at(s, pv, j as int);
    }
    sorted.insert(j, p);
    assert(pages_view(sorted@) =~= s.take(j as int) + seq![pv] + s.skip(j as int));
}

fn sort_pages_exec(pages: &Vec<(String, String)>) -> (r: Vec<(String, String)>)
    ensures
        pages_view(r@) == sort_pages(pages_view(pages@)),
{
    let ghost pv = pages_view(pages@);
    let mut r: Vec<(String, String)> = Vec::new();
    let n = pages.len();
    assert(pv.take(0) =~= Seq::<(Seq<char>, Seq<char>)>::empty());
    assert(pages_view(r@) =~= Seq::<(Seq<char>, Seq<char>)>::empty());
    for i in 0..n
        invariant
            n == pages@.len(),
            pv == pages_view(pages@),
            pages_view(r@) == sort_pages(pv.take(i as int)),
    {
        let p = (pages[i].0.clone(), pages[i].1.clone());
        insert_page_exec(&mut r, p);
        assert(pv.take(i + 1).drop_last() =~= pv.take(i as int));
    }
    assert(pv.take(n as int) =~= pv);
    r
}

fn index_page(dir_name: &str, pages: &Vec<(String, String)>) -> (page: String)
    ensures
        page@ == index_page_spec(dir_name@, pages_view(pages@)),
{
    let sorted = sort_pages_exec(pages);
    let ghost sv = pages_view(sorted@);
    let mut body = String::new();
    push_str(&mut body, "<h1>");
    push_escaped(&mut body, dir_name);
    push_str(&mut body, "</h1>");
    let ghost head = body@;
    let n = sorted.len();
    assert(sv.take(0) =~= Seq::<(Seq<char>, Seq<char>)>::empty());
    for i in 0..n
        invariant
            n == sorted@.len(),
            sv == pages_view(sorted@),
            body@ == head + cards_spec(sv.take(i as int)),
    {
        push_str(&mut body, "<a class=\"card\" href=\"");
        push_escaped(&mut body, sorted[i].0.as_str());
        push_str(&mut body, "\">");
        push_escaped(&mut body, sorted[i].1.as_str());
        push_str(&mut body, "<span class=\"path\">");
        push_escaped(&mut body, sorted[i].0.as_str());
        push_str(&mut body, "</span></a>");
        assert(sv.take(i + 1).drop_last() =~= sv.take(i as int));
        assert(sv.take(i + 1).last() == sv[i as int]);
    }
    assert(sv.take(n as int) =~= sv);
    render_page(dir_name, body.as_str(), false)
}

/// The characters of an optional string slice.
pub open spec fn opt_str(o: Option<&str>) -> Option<Seq<char>> {
    match o {
        Some(d) => Some(d@),
        None => None,
    }
}

/// The name used for the generated index when the directory has none.
pub open spec fn index_title(dir_name: Option<Seq<char>>) -> Seq<char> {
    match dir_name {
        Some(d) => d,
        None => "pages"@,
    }
}

/// Plans the staging directory for `sources` (in walk order), with
/// `bodies[i]` the rendered HTML of source `i` when it is Markdown. `dir`
/// names the source directory in messages, `dir_name` is its last component.
pub fn plan_from_bodies(sources: &[StageSource], bodies: &[String], dir: &str, dir_name: Option<&str>) -> (r:
    Result<StagePlan, StageError>)
    requires
        bodies@.len() == sources@.len(),
        forall|i: int|
            0 <= i < sources@.len() && #[trigger] is_markdown_spec(sources@[i]@.rel) ==> sources@[i].markdown is Some,
    ensures
        plan_result_view(r) == stage_plan_spec(
            sources_view(sources@),
            strings_view(bodies@),
            dir@,
            index_title(opt_str(dir_name)),
        ),
{
    let ghost sv = sources_view(sources@);
    let ghost bv = strings_view(bodies@);
    let mut files: Vec<StagedFile> = Vec::new();
    let mut pages: Vec<(String, String)> = Vec::new();
    let mut have_index = false;
    let mut mermaid = false;
    let n = sources.len();
    assert(staged_view(files@) =~= Seq::<StagedFileView>::empty());
    assert(pages_view(pages@) =~= Seq::<(Seq<char>, Seq<char>)>::empty());
    for i in 0..n
        invariant
            n == sources@.len(),
            bodies@.len() == n,
            sv == sources_view(sources@),
            bv == strings_view(bodies@),
            forall|i: int|
                0 <= i < sources@.len() && #[trigger] is_markdown_spec(sources@[i]@.rel) ==> sources@[i].markdown is Some,
            staged_view(files@) == plan_prefix(sv, bv, i as nat).files,
            pages_view(pages@) == plan_prefix(sv, bv, i as nat).pages,
            have_index == plan_prefix(sv, bv, i as nat).have_index,
            mermaid == plan_prefix(sv, bv, i as nat).mermaid,
    {
        let src = &sources[i];
        assert(sv[i as int] == src@);
        assert(bv[i as int] == bodies@[i as int]@);
        if !is_hidden(src.rel.as_slice()) {
            if is_markdown_path(src.rel.as_slice()) {
                assert(is_markdown_spec(sources@[i as int]@.rel));
                let md = match &src.markdown {
                    Some(m) => m,
                    None => {
                        assert(false);
                        return Err(StageError::NoMarkdown { dir: dir.to_owned() });
                    },
                };
                let ghost rv = strings_view(src.rel@);
                proof {
                    lemma_extension_has_dot(rv.last());
                }
                let out_rel = html_rel(src.rel.as_slice());
                let stem = stem_of(src.rel[src.rel.len() - 1].as_str());
                let title = title_of(md.as_str(), stem.as_str());
                let rel_s = path_string(out_rel.as_slice(), true);
                let is_index = str_eq(rel_s.as_str(), "index.html");
                let body = bodies[i].as_str();
                let page = render_page(title.as_str(), body, !is_index);
                if contains_str(body, MERMAID_MARKER) {
                    mermaid = true;
                }
                if is_index {
                    have_index = true;
                } else {
                    let stripped = strip_html_suffixes_str(rel_s.as_str());
                    let mut href = String::new();
                    push_char(&mut href, '/');
                    push_str(&mut href, stripped.as_str());
                    pages.push((href, title));
                }
                files.push(StagedFile { rel: out_rel, content: StagedContent::Page(page) });
            } else {
                let joined = path_string(src.rel.as_slice(), false);
                if str_eq(joined.as_str(), "index.html") {
                    have_index = true;
                }
                files.push(
                    StagedFile {
                        rel: clone_strings(src.rel.as_slice()),
                        content: StagedContent::CopyFrom(src.disk_path.clone()),
                    },
                );
            }
        }
        assert(staged_view(files@) =~= plan_prefix(sv, bv, (i + 1) as nat).files);
        assert(pages_view(pages@) =~= plan_prefix(sv, bv, (i + 1) as nat).pages);
    }
    let ghost st = plan_prefix(sv, bv, n as nat);
    assert(sv.len() == n);
    if pages.len() == 0 && !have_index {
        return Err(StageError::NoMarkdown { dir: dir.to_owned() });
    }
    if !have_index {
        let name = match dir_name {
            Some(d) => d,
            None => "pages",
        };
        let page = index_page(name, &pages);
        let mut rel: Vec<String> = Vec::new();
        rel.push("index.html".to_owned());
        proof {
            reveal_strlit("index.html");
        }
        assert(strings_view(rel@) =~= seq!["index.html"@]);
        let ghost old_files = files@;
        let staged = StagedFile { rel, content: StagedContent::Page(page) };
        assert(staged@ == StagedFileView {
            rel: seq!["index.html"@],
            content: StagedContentView::Page(index_page_spec(index_title(opt_str(dir_name)), st.pages)),
        });
        files.push(staged);
        assert(staged_view(files@) =~= staged_view(old_files).push(staged@));
    }
    Ok(StagePlan { files, mermaid_asset: mermaid })
}

/// The rendered body of each source: the HTML fragment of its Markdown for
/// a visible Markdown file (see [`md_html_spec`]), empty for any other.
pub open spec fn page_bodies(srcs: Seq<StageSourceView>) -> Seq<Seq<char>> {
    srcs.map_values(
        |src: StageSourceView|
            if is_markdown_spec(src.rel) && !is_hidden_spec(src.rel) {
                md_html_spec(src.markdown.unwrap())
            } else {
                Seq::<char>::empty()
            },
    )
}

/// Plans the staging directory for `sources` (in walk order), rendering each
/// Markdown file with syntect's grammars loaded once: each page holds
/// [`md_html_spec`] of its file's Markdown.
pub fn stage_plan(sources: &[StageSource], dir: &str, dir_name: Option<&str>) -> (r: Result<StagePlan, StageError>)
    requires
        forall|i: int|
            0 <= i < sources@.len() && #[trigger] is_markdown_spec(sources@[i]@.rel) ==> sources@[i].markdown is Some,
    ensures
        plan_result_view(r) == stage_plan_spec(
            sources_view(sources@),
            page_bodies(sources_view(sources@)),
            dir@,
            index_title(opt_str(dir_name)),
        ),
{
    let hl = Highlighter::new();
    let ghost sv = sources_view(sources@);
    let mut bodies: Vec<String> = Vec::new();
    let n = sources.len();
    for i in 0..n
        invariant
            n == sources@.len(),
            sv == sources_view(sources@),
            bodies@.len() == i,
            forall|j: int|
                0 <= j < sources@.len() && #[trigger] is_markdown_spec(sources@[j]@.rel) ==> sources@[j].markdown is Some,
            forall|j: int| 0 <= j < i ==> #[trigger] bodies@[j]@ == page_bodies(sv)[j],
    {
        assert(sv[i as int] == sources@[i as int]@);
        let body = match &sources[i].markdown {
            Some(m) => {
                if is_markdown_path(sources[i].rel.as_slice()) && !is_hidden(sources[i].rel.as_slice()) {
                    md_to_html_with(&hl, m.as_str())
                } else {
                    String::new()
                }
            },
            None => String::new(),
        };
        proof {
            if is_markdown_spec(sv[i as int].rel) && !is_hidden_spec(sv[i as int].rel) {
                assert(sources@[i as int].markdown is Some);
            }
        }
        bodies.push(body);
    }
    let ghost bv = strings_view(bodies@);
    assert(bv =~= page_bodies(sv));
    plan_from_bodies(sources, bodies.as_slice(), dir, dir_name)
}

/// Pages in ascending order: no page sorts before one ahead of it.
pub open spec fn pages_sorted(s: Seq<(Seq<char>, Seq<char>)>) -> bool {
    forall|i: int, j: int| 0 <= i < j < s.len() ==> !page_lt(#[trigger] s[j], #[trigger] s[i])
}

proof fn lemma_page_lt_order(a: (Seq<char>, Seq<char>), b: (Seq<char>, Seq<char>))
    ensures
        !page_lt(a, a),
        !(page_lt(a, b) && page_lt(b, a)),
        a != b ==> page_lt(a, b) || page_lt(b, a),
{
    lemma_lex_irreflexive(a.0);
    lemma_lex_irreflexive(a.1);
    lemma_lex_total(a.0, b.0);
    lemma_lex_total(a.1, b.1);
}

proof fn lemma_page_lt_transitive(a: (Seq<char>, Seq<char>), b: (Seq<char>, Seq<char>), c: (Seq<char>, Seq<char>))
    requires
        page_lt(a, b),
        page_lt(b, c),
    ensures
        page_lt(a, c),
{
    if lex_lt(a.0, b.0) && lex_lt(b.0, c.0) {
        lemma_lex_transitive(a.0, b.0, c.0);
    } else if lex_lt(a.0, b.0) {
    } else if lex_lt(b.0, c.0) {
    } else {
        lemma_lex_transitive(a.1, b.1, c.1);
    }
}

proof fn lemma_not_below_chain(x: (Seq<char>, Seq<char>), y: (Seq<char>, Seq<char>), z: (Seq<char>, Seq<char>))
    requires
        !page_lt(x, y),
        !page_lt(y, z),
    ensures
        !page_lt(x, z),
{
    lemma_page_lt_order(x, y);
    if page_lt(x, z) && page_lt(y, x) {
        lemma_page_lt_transitive(y, x, z);
    }
}

proof fn lemma_insert_page_sorted(s: Seq<(Seq<char>, Seq<char>)>, p: (Seq<char>, Seq<char>))
    requires
        pages_sorted(s),
    ensures
        pages_sorted(insert_page(s, p)),
        exists|j: int| 0 <= j <= s.len() && insert_page(s, p) == s.insert(j, p),
    decreases s.len(),
{
    let r = insert_page(s, p);
    if s.len() == 0 {
        assert(r =~= s.insert(0, p));
    } else if !page_lt(s[0], p) {
        assert(r =~= s.insert(0, p));
        assert forall|i: int, j: int| 0 <= i < j < r.len() implies !page_lt(#[trigger] r[j], #[trigger] r[i]) by {
            assert(r[j] == s[j - 1]);
            if i > 0 {
                assert(r[i] == s[i - 1]);
            } else if j > 1 {
                lemma_not_below_chain(s[j - 1], s[0], p);
            }
        }
    } else {
        let t = s.drop_first();
        assert forall|i: int, j: int| 0 <= i < j < t.len() implies !page_lt(#[trigger] t[j], #[trigger] t[i]) by {
            assert(t[i] == s[i + 1] && t[j] == s[j + 1]);
        }
        lemma_insert_page_sorted(t, p);
        let q = insert_page(t, p);
        let k = choose|k: int| 0 <= k <= t.len() && q == t.insert(k, p);
        assert(r =~= s.insert(k + 1, p));
        lemma_page_lt_order(s[0], p);
        assert forall|i: int, j: int| 0 <= i < j < r.len() implies !page_lt(#[trigger] r[j], #[trigger] r[i]) by {
            assert(r[j] == q[j - 1]);
            if i > 0 {
                assert(r[i] == q[i - 1]);
            } else if j - 1 < k {
                assert(q[j - 1] == t[j - 1] && t[j - 1] == s[j]);
            } else if j - 1 > k {
                assert(q[j - 1] == t[j - 2] && t[j - 2] == s[j - 1]);
            }
        }
    }
}

/// The index lists the pages sorted by link, then title, each page exactly
/// as many times as it was found (`pages.sort()`).
pub proof fn lemma_sort_pages(s: Seq<(Seq<char>, Seq<char>)>)
    ensures
        pages_sorted(sort_pages(s)),
        sort_pages(s).to_multiset() == s.to_multiset(),
    decreases s.len(),
{
    broadcast use vstd::seq_lib::group_to_multiset_ensures;

    if s.len() > 0 {
        let d = s.drop_last();
        lemma_sort_pages(d);
        lemma_insert_page_sorted(sort_pages(d), s.last());
        let j = choose|j: int| 0 <= j <= sort_pages(d).len() && insert_page(sort_pages(d), s.last()) == sort_pages(d).insert(j, s.last());
        assert(s =~= d.push(s.last()));
        assert(sort_pages(s).to_multiset() =~= sort_pages(d).to_multiset().insert(s.last()));
    }
}

/// The link and title a Markdown source's page gets in the index.
pub open spec fn page_entry(src: StageSourceView) -> (Seq<char>, Seq<char>) {
    (page_href(html_rel_spec(src.rel)), title_spec(src.markdown.unwrap(), stem_spec(src.rel.last())))
}

/// Whether a Markdown source's page is the site's `index.html`.
pub open spec fn is_index_page(src: StageSourceView) -> bool {
    forward_slashes(join_path(html_rel_spec(src.rel))) == "index.html"@
}

/// Whether `f` is what the plan writes for `src`: its page for a Markdown
/// file, a copy of it for any other.
pub open spec fn staged_for(src: StageSourceView, f: StagedFileView) -> bool {
    if is_markdown_spec(src.rel) {
        f.rel == html_rel_spec(src.rel) && f.content is Page
    } else {
        f.rel == src.rel && f.content == StagedContentView::CopyFrom(src.disk_path)
    }
}

proof fn lemma_plan_prefix_grows(srcs: Seq<StageSourceView>, bodies: Seq<Seq<char>>, n: nat, m: nat)
    requires
        n <= m <= srcs.len(),
    ensures
        plan_prefix(srcs, bodies, n).files.len() <= plan_prefix(srcs, bodies, m).files.len(),
        forall|k: int| 0 <= k < plan_prefix(srcs, bodies, n).files.len() ==> #[trigger] plan_prefix(srcs, bodies, m).files[k]
            == plan_prefix(srcs, bodies, n).files[k],
        forall|x: (Seq<char>, Seq<char>)| plan_prefix(srcs, bodies, n).pages.contains(x) ==> plan_prefix(srcs, bodies, m).pages.contains(x),
    decreases m - n,
{
    if n < m {
        lemma_plan_prefix_grows(srcs, bodies, n, (m - 1) as nat);
        let a = plan_prefix(srcs, bodies, (m - 1) as nat);
        let b = plan_prefix(srcs, bodies, m);
        assert forall|k: int| 0 <= k < a.files.len() implies #[trigger] b.files[k] == a.files[k] by {}
        assert forall|x: (Seq<char>, Seq<char>)| a.pages.contains(x) implies b.pages.contains(x) by {
            if a.pages != b.pages {
                let w = choose|w: int| 0 <= w < a.pages.len() && a.pages[w] == x;
                assert(b.pages[w] == x);
            }
        }
    }
}

/// Every file that is not hidden is in the staging plan: each Markdown file
/// as a page at its path with `.html` in place of `.md`, any other file as a
/// copy at its own path; and every Markdown page but the site's own
/// `index.html` is listed in the generated index.
proof fn lemma_every_source_staged(srcs: Seq<StageSourceView>, bodies: Seq<Seq<char>>, n: nat)
    requires
        n <= srcs.len(),
    ensures
        forall|i: int| 0 <= i < n && !is_hidden_spec(#[trigger] srcs[i].rel) ==> exists|k: int|
            0 <= k < plan_prefix(srcs, bodies, n).files.len() && staged_for(srcs[i], plan_prefix(srcs, bodies, n).files[k]),
        forall|i: int| 0 <= i < n && !is_hidden_spec(#[trigger] srcs[i].rel) && is_markdown_spec(srcs[i].rel)
            && !is_index_page(srcs[i]) ==> plan_prefix(srcs, bodies, n).pages.contains(page_entry(srcs[i])),
    decreases n,
{
    if n > 0 {
        let m = (n - 1) as nat;
        lemma_every_source_staged(srcs, bodies, m);
        lemma_plan_prefix_grows(srcs, bodies, m, n);
        let a = plan_prefix(srcs, bodies, m);
        let b = plan_prefix(srcs, bodies, n);
        assert forall|i: int| 0 <= i < n && !is_hidden_spec(#[trigger] srcs[i].rel) implies exists|k: int|
            0 <= k < b.files.len() && staged_for(srcs[i], b.files[k]) by {
            if i < m {
                let k = choose|k: int| 0 <= k < a.files.len() && staged_for(srcs[i], a.files[k]);
                assert(b.files[k] == a.files[k]);
            } else {
                assert(b.files[a.files.len() as int] == b.files.last());
            }
        }
        assert forall|i: int| 0 <= i < n && !is_hidden_spec(#[trigger] srcs[i].rel) && is_markdown_spec(srcs[i].rel)
            && !is_index_page(srcs[i]) implies b.pages.contains(page_entry(srcs[i])) by {
            if i == m {
                assert(b.pages.last() == page_entry(srcs[i]));
            }
        }
    }
}

/// Whether a source gives the site its own `index.html`: a visible
/// `index.md` at the top, or a visible `index.html` copied as is.
pub open spec fn provides_index(src: StageSourceView) -> bool {
    !is_hidden_spec(src.rel) && if is_markdown_spec(src.rel) {
        is_index_page(src)
    } else {
        join_path(src.rel) == "index.html"@
    }
}

proof fn lemma_have_index(srcs: Seq<StageSourceView>, bodies: Seq<Seq<char>>, n: nat)
    requires
        n <= srcs.len(),
    ensures
        plan_prefix(srcs, bodies, n).have_index <==> exists|i: int| 0 <= i < n && provides_index(#[trigger] srcs[i]),
    decreases n,
{
    if n > 0 {
        let m = (n - 1) as nat;
        lemma_have_index(srcs, bodies, m);
        if plan_prefix(srcs, bodies, n).have_index {
            if !plan_prefix(srcs, bodies, m).have_index {
                assert(provides_index(srcs[m as int]));
            }
        }
        if exists|i: int| 0 <= i < n && provides_index(#[trigger] srcs[i]) {
            let i = choose|i: int| 0 <= i < n && provides_index(#[trigger] srcs[i]);
            if i < m {
                assert(plan_prefix(srcs, bodies, m).have_index);
            }
        }
    }
}

/// Every visible source is staged among `files`.
pub open spec fn all_staged(srcs: Seq<StageSourceView>, files: Seq<StagedFileView>) -> bool {
    forall|i: int| 0 <= i < srcs.len() && !is_hidden_spec(#[trigger] srcs[i].rel) ==> exists|k: int|
        0 <= k < files.len() && staged_for(srcs[i], files[k])
}

/// The last of `files` is a generated `index.html` whose cards list every
/// visible Markdown page.
pub open spec fn ends_with_index_of_all(srcs: Seq<StageSourceView>, dir_name: Seq<char>, files: Seq<StagedFileView>) -> bool {
    exists|pages: Seq<(Seq<char>, Seq<char>)>|
        {
            &&& files.len() > 0
            &&& files.last() == StagedFileView {
                rel: seq!["index.html"@],
                content: StagedContentView::Page(index_page_spec(dir_name, pages)),
            }
            &&& forall|i: int|
                0 <= i < srcs.len() && !is_hidden_spec(#[trigger] srcs[i].rel) && is_markdown_spec(srcs[i].rel)
                    ==> pages.contains(page_entry(srcs[i]))
        }
}

/// What a successful staging plan holds: every visible source, each
/// Markdown file as its page and any other file as a copy; and when no
/// source gives the site an `index.html`, a generated `index.html` last,
/// whose cards list every visible Markdown page.
pub proof fn lemma_plan_result(srcs: Seq<StageSourceView>, bodies: Seq<Seq<char>>, dir: Seq<char>, dir_name: Seq<char>)
    ensures
        stage_plan_spec(srcs, bodies, dir, dir_name) matches Ok((files, _)) ==> all_staged(srcs, files),
        (forall|i: int| 0 <= i < srcs.len() ==> !provides_index(#[trigger] srcs[i])) ==> (stage_plan_spec(
            srcs,
            bodies,
            dir,
            dir_name,
        ) matches Ok((files, _)) ==> ends_with_index_of_all(srcs, dir_name, files)),
{
    let n = srcs.len();
    lemma_every_source_staged(srcs, bodies, n);
    lemma_have_index(srcs, bodies, n);
    let st = plan_prefix(srcs, bodies, n);
    if stage_plan_spec(srcs, bodies, dir, dir_name) is Ok {
        if !st.have_index {
            let files = st.files.push(
                StagedFileView {
                    rel: seq!["index.html"@],
                    content: StagedContentView::Page(index_page_spec(dir_name, st.pages)),
                },
            );
            assert(stage_plan_spec(srcs, bodies, dir, dir_name) == Ok::<(Seq<StagedFileView>, bool), Seq<char>>((files, st.mermaid)));
            assert forall|i: int| 0 <= i < srcs.len() && !is_hidden_spec(#[trigger] srcs[i].rel) implies exists|k: int|
                0 <= k < files.len() && staged_for(srcs[i], files[k]) by {
                let k = choose|k: int| 0 <= k < st.files.len() && staged_for(srcs[i], st.files[k]);
                assert(files[k] == st.files[k]);
            }
            assert(all_staged(srcs, files));
            if forall|i: int| 0 <= i < srcs.len() ==> !provides_index(#[trigger] srcs[i]) {
                assert forall|i: int|
                    0 <= i < srcs.len() && !is_hidden_spec(#[trigger] srcs[i].rel) && is_markdown_spec(srcs[i].rel)
                        implies st.pages.contains(page_entry(srcs[i])) by {
                    assert(!provides_index(srcs[i]));
                }
                assert(ends_with_index_of_all(srcs, dir_name, files));
            }
        } else {
            assert(stage_plan_spec(srcs, bodies, dir, dir_name) == Ok::<(Seq<StagedFileView>, bool), Seq<char>>((st.files, st.mermaid)));
            assert(all_staged(srcs, st.files));
        }
    }
}

proof fn lemma_pages_empty(srcs: Seq<StageSourceView>, bodies: Seq<Seq<char>>, n: nat)
    requires
        n <= srcs.len(),
    ensures
        plan_prefix(srcs, bodies, n).pages.len() == 0 <==> forall|i: int|
            0 <= i < n && !is_hidden_spec(#[trigger] srcs[i].rel) && is_markdown_spec(srcs[i].rel) ==> is_index_page(
                srcs[i],
            ),
    decreases n,
{
    if n > 0 {
        let m = (n - 1) as nat;
        lemma_pages_empty(srcs, bodies, m);
        let a = plan_prefix(srcs, bodies, m);
        let b = plan_prefix(srcs, bodies, n);
        assert(b.pages.len() >= a.pages.len());
        if b.pages.len() == 0 {
            assert forall|i: int|
                0 <= i < n && !is_hidden_spec(#[trigger] srcs[i].rel) && is_markdown_spec(srcs[i].rel) implies is_index_page(
                srcs[i],
            ) by {
                if i == m {
                } else {
                    assert(0 <= i < m);
                }
            }
        }
    }
}

/// Staging is refused exactly when the directory has no visible Markdown
/// file and no visible top-level `index.html` (a directory holding only
/// `data.txt`, say).
pub proof fn lemma_plan_refused(srcs: Seq<StageSourceView>, bodies: Seq<Seq<char>>, dir: Seq<char>, dir_name: Seq<char>)
    ensures
        stage_plan_spec(srcs, bodies, dir, dir_name) is Err <==> {
            &&& forall|i: int| 0 <= i < srcs.len() && !is_hidden_spec(#[trigger] srcs[i].rel) ==> !is_markdown_spec(srcs[i].rel)
            &&& forall|i: int| 0 <= i < srcs.len() ==> !provides_index(#[trigger] srcs[i])
        },
{
    let n = srcs.len();
    lemma_pages_empty(srcs, bodies, n);
    lemma_have_index(srcs, bodies, n);
    if stage_plan_spec(srcs, bodies, dir, dir_name) is Err {
        assert forall|i: int| 0 <= i < srcs.len() && !is_hidden_spec(#[trigger] srcs[i].rel) implies !is_markdown_spec(srcs[i].rel) by {
            if is_markdown_spec(srcs[i].rel) {
                assert(is_index_page(srcs[i]));
                assert(provides_index(srcs[i]));
            }
        }
    }
}

proof fn lemma_plan_mermaid(srcs: Seq<StageSourceView>, bodies: Seq<Seq<char>>, n: nat)
    requires
        n <= srcs.len(),
    ensures
        plan_prefix(srcs, bodies, n).mermaid <==> exists|i: int|
            0 <= i < n && !is_hidden_spec(#[trigger] srcs[i].rel) && is_markdown_spec(srcs[i].rel) && occurs_in(
                bodies[i],
                MERMAID_MARKER@,
            ),
    decreases n,
{
    if n > 0 {
        let m = (n - 1) as nat;
        lemma_plan_mermaid(srcs, bodies, m);
        if plan_prefix(srcs, bodies, n).mermaid && !plan_prefix(srcs, bodies, m).mermaid {
            assert(!is_hidden_spec(srcs[m as int].rel));
        }
        if exists|i: int|
            0 <= i < n && !is_hidden_spec(#[trigger] srcs[i].rel) && is_markdown_spec(srcs[i].rel) && occurs_in(
                bodies[i],
                MERMAID_MARKER@,
            ) {
            let i = choose|i: int|
                0 <= i < n && !is_hidden_spec(#[trigger] srcs[i].rel) && is_markdown_spec(srcs[i].rel) && occurs_in(
                    bodies[i],
                    MERMAID_MARKER@,
                );
            if i < m {
                assert(plan_prefix(srcs, bodies, m).mermaid);
            }
        }
    }
}

/// The bundled mermaid.js is asked for exactly when the rendered body of
/// some visible Markdown file holds a mermaid diagram.
pub proof fn lemma_mermaid_asset(srcs: Seq<StageSourceView>, bodies: Seq<Seq<char>>, dir: Seq<char>, dir_name: Seq<char>)
    ensures
        stage_plan_spec(srcs, bodies, dir, dir_name) matches Ok((_, mermaid)) ==> (mermaid <==> exists|i: int|
            0 <= i < srcs.len() && !is_hidden_spec(#[trigger] srcs[i].rel) && is_markdown_spec(srcs[i].rel)
                && occurs_in(bodies[i], MERMAID_MARKER@)),
{
    lemma_plan_mermaid(srcs, bodies, srcs.len());
}

/// The page a visible Markdown source becomes: its path with `.html`, the
/// page for its title and rendered body, with the link back to the index
/// unless it is the site's `index.html`.
pub open spec fn page_of(src: StageSourceView, body: Seq<char>) -> StagedFileView {
    StagedFileView {
        rel: html_rel_spec(src.rel),
        content: StagedContentView::Page(
            render_page_spec(page_entry(src).1, body, !is_index_page(src)),
        ),
    }
}

proof fn lemma_pages_of_sources(srcs: Seq<StageSourceView>, bodies: Seq<Seq<char>>, n: nat)
    requires
        n <= srcs.len(),
    ensures
        forall|i: int| 0 <= i < n && !is_hidden_spec(#[trigger] srcs[i].rel) && is_markdown_spec(srcs[i].rel) ==> plan_prefix(
            srcs,
            bodies,
            n,
        ).files.contains(page_of(srcs[i], bodies[i])),
    decreases n,
{
    if n > 0 {
        let m = (n - 1) as nat;
        lemma_pages_of_sources(srcs, bodies, m);
        lemma_plan_prefix_grows(srcs, bodies, m, n);
        let a = plan_prefix(srcs, bodies, m);
        let b = plan_prefix(srcs, bodies, n);
        assert forall|i: int| 0 <= i < n && !is_hidden_spec(#[trigger] srcs[i].rel) && is_markdown_spec(srcs[i].rel)
            implies b.files.contains(page_of(srcs[i], bodies[i])) by {
            if i < m {
                let k = choose|k: int| 0 <= k < a.files.len() && a.files[k] == page_of(srcs[i], bodies[i]);
                assert(b.files[k] == a.files[k]);
            } else {
                assert(b.files[a.files.len() as int] == page_of(srcs[i], bodies[i]));
            }
        }
    }
}

/// Every visible Markdown file is staged as its own page, built from its
/// own rendered body: so the page loads mermaid.js exactly when that body
/// holds a diagram (see [`lemma_mermaid_scripts_only_when_used`]).
pub proof fn lemma_staged_pages(srcs: Seq<StageSourceView>, bodies: Seq<Seq<char>>, dir: Seq<char>, dir_name: Seq<char>)
    ensures
        stage_plan_spec(srcs, bodies, dir, dir_name) matches Ok((files, _)) ==> forall|i: int|
            0 <= i < srcs.len() && !is_hidden_spec(#[trigger] srcs[i].rel) && is_markdown_spec(srcs[i].rel)
                ==> files.contains(page_of(srcs[i], bodies[i])),
{
    let n = srcs.len();
    lemma_pages_of_sources(srcs, bodies, n);
    let st = plan_prefix(srcs, bodies, n);
    if !st.have_index {
        let files = st.files.push(
            StagedFileView {
                rel: seq!["index.html"@],
                content: StagedContentView::Page(index_page_spec(dir_name, st.pages)),
            },
        );
        assert forall|i: int| 0 <= i < srcs.len() && !is_hidden_spec(#[trigger] srcs[i].rel) && is_markdown_spec(srcs[i].rel)
            implies files.contains(page_of(srcs[i], bodies[i])) by {
            let k = choose|k: int| 0 <= k < st.files.len() && st.files[k] == page_of(srcs[i], bodies[i]);
            assert(files[k] == st.files[k]);
        }
    }
}

/// No `<` among the last two characters.
pub open spec fn tail_ok(s: Seq<char>) -> bool {
    &&& s.len() > 0 ==> s.last() != '<'
    &&& s.len() > 1 ==> s[s.len() - 2] != '<'
}

proof fn lemma_free_join(x: Seq<char>, y: Seq<char>, c1: char, c2: char)
    requires
        no_triple(x, '<', c1, c2),
        tail_ok(x),
        no_triple(y, '<', c1, c2),
        tail_ok(y),
    ensures
        no_triple(x + y, '<', c1, c2),
        tail_ok(x + y),
{
    lemma_triple_join(x, y, '<', c1, c2);
    let s = x + y;
    if y.len() == 1 && x.len() > 0 {
        assert(s[s.len() - 2] == x.last());
    }
    if y.len() == 0 {
        assert(s =~= x);
    }
}

proof fn lemma_escaped_free(t: Seq<char>, c1: char, c2: char)
    ensures
        no_triple(escape_spec(t), '<', c1, c2),
        tail_ok(escape_spec(t)),
{
    lemma_escape_is_inert(t);
    let e = escape_spec(t);
    if e.len() > 0 {
        assert(e[e.len() - 1] != '<');
    }
    if e.len() > 1 {
        assert(e[e.len() - 2] != '<');
    }
}

proof fn lemma_cards_free(s: Seq<(Seq<char>, Seq<char>)>, c1: char, c2: char)
    requires
        (c1 == 's' && c2 == 'c') || (c1 == 'p' && c2 == 'r'),
    ensures
        no_triple(cards_spec(s), '<', c1, c2),
        tail_ok(cards_spec(s)),
    decreases s.len(),
{
    reveal_strlit("<a class=\"card\" href=\"");
    reveal_strlit("\">");
    reveal_strlit("<span class=\"path\">");
    reveal_strlit("</span></a>");
    if s.len() > 0 {
        lemma_cards_free(s.drop_last(), c1, c2);
        let p = s.last();
        let l1 = "<a class=\"card\" href=\""@;
        let l2 = "\">"@;
        let l3 = "<span class=\"path\">"@;
        let l4 = "</span></a>"@;
        assert(no_triple(l1, '<', c1, c2) && tail_ok(l1));
        assert(no_triple(l2, '<', c1, c2) && tail_ok(l2));
        assert(no_triple(l3, '<', c1, c2) && tail_ok(l3));
        assert(no_triple(l4, '<', c1, c2) && tail_ok(l4));
        lemma_escaped_free(p.0, c1, c2);
        lemma_escaped_free(p.1, c1, c2);
        lemma_free_join(l1, escape_spec(p.0), c1, c2);
        lemma_free_join(l1 + escape_spec(p.0), l2, c1, c2);
        lemma_free_join(l1 + escape_spec(p.0) + l2, escape_spec(p.1), c1, c2);
        lemma_free_join(l1 + escape_spec(p.0) + l2 + escape_spec(p.1), l3, c1, c2);
        lemma_free_join(l1 + escape_spec(p.0) + l2 + escape_spec(p.1) + l3, escape_spec(p.0), c1, c2);
        lemma_free_join(l1 + escape_spec(p.0) + l2 + escape_spec(p.1) + l3 + escape_spec(p.0), l4, c1, c2);
        assert(card_spec(p) == l1 + escape_spec(p.0) + l2 + escape_spec(p.1) + l3 + escape_spec(p.0) + l4);
        lemma_free_join(cards_spec(s.drop_last()), card_spec(p), c1, c2);
    }
}

proof fn lemma_index_body_free(dir_name: Seq<char>, cards: Seq<char>, c1: char, c2: char)
    requires
        (c1 == 's' && c2 == 'c') || (c1 == 'p' && c2 == 'r'),
        no_triple(cards, '<', c1, c2),
        tail_ok(cards),
    ensures
        no_triple("<h1>"@ + escape_spec(dir_name) + "</h1>"@ + cards, '<', c1, c2),
{
    reveal_strlit("<h1>");
    reveal_strlit("</h1>");
    assert(no_triple("<h1>"@, '<', c1, c2) && tail_ok("<h1>"@));
    assert(no_triple("</h1>"@, '<', c1, c2) && tail_ok("</h1>"@));
    lemma_escaped_free(dir_name, c1, c2);
    lemma_free_join("<h1>"@, escape_spec(dir_name), c1, c2);
    lemma_free_join("<h1>"@ + escape_spec(dir_name), "</h1>"@, c1, c2);
    lemma_free_join("<h1>"@ + escape_spec(dir_name) + "</h1>"@, cards, c1, c2);
}

/// The generated index page never loads or starts mermaid.js: its body is
/// the heading and the cards, which hold no diagram.
pub proof fn lemma_index_page_without_mermaid(dir_name: Seq<char>, pages: Seq<(Seq<char>, Seq<char>)>)
    ensures
        !occurs_in(index_page_spec(dir_name, pages), mermaid_load_tag()),
        !occurs_in(index_page_spec(dir_name, pages), mermaid_init_tag()),
{
    let cards = cards_spec(sort_pages(pages));
    let body = "<h1>"@ + escape_spec(dir_name) + "</h1>"@ + cards;
    lemma_cards_free(sort_pages(pages), 's', 'c');
    lemma_cards_free(sort_pages(pages), 'p', 'r');
    lemma_index_body_free(dir_name, cards, 's', 'c');
    lemma_index_body_free(dir_name, cards, 'p', 'r');
    reveal_strlit("<pre class=\"mermaid\">");
    reveal_strlit("<script src=\"/_cftmp/mermaid.min.js\"></script>");
    reveal_strlit("<script>mermaid.initialize(");
    lemma_triple_absent(body, MERMAID_MARKER@);
    lemma_triple_absent(body, mermaid_load_tag());
    lemma_triple_absent(body, mermaid_init_tag());
    lemma_mermaid_scripts_only_when_used(dir_name, body, false);
}

proof fn lemma_join_single(rel: Seq<Seq<char>>, name: Seq<char>, slashes: bool)
    requires
        forall|j: int| 0 <= j < name.len() ==> #[trigger] name[j] != '/' && name[j] != '\\',
        (if slashes { forward_slashes(join_path(rel)) } else { join_path(rel) }) == name,
        rel.len() > 0,
    ensures
        rel == seq![name],
{
    if rel.len() >= 2 {
        let d = join_path(rel.drop_last());
        let full = join_path(rel);
        assert(full == d + seq!['/'] + rel.last());
        assert(full[d.len() as int] == '/');
        if slashes {
            assert(forward_slashes(full)[d.len() as int] == '/');
        }
        assert(name[d.len() as int] == '/');
    } else {
        let c = rel[0];
        if slashes {
            assert(forward_slashes(c) == name);
            assert forall|j: int| 0 <= j < c.len() implies #[trigger] c[j] == name[j] by {
                assert(forward_slashes(c)[j] == name[j]);
            }
            assert(c =~= name);
        }
        assert(rel =~= seq![name]);
    }
}

/// The site has its own index only through a file at the top: a Markdown
/// file counts as the index exactly when its page's whole path is
/// `index.html` (a nested `dir/index.md` is an ordinary page, listed in the
/// generated index and linking back to it), and another file exactly when
/// it is `index.html` itself.
pub proof fn lemma_site_index_is_top_level(src: StageSourceView)
    ensures
        is_markdown_spec(src.rel) ==> (is_index_page(src) <==> html_rel_spec(src.rel) == seq!["index.html"@]),
        !is_markdown_spec(src.rel) ==> (provides_index(src) <==> !is_hidden_spec(src.rel) && src.rel == seq![
            "index.html"@,
        ]),
{
    reveal_strlit("index.html");
    let name = "index.html"@;
    assert forall|j: int| 0 <= j < name.len() implies #[trigger] name[j] != '/' && name[j] != '\\' by {}
    if is_markdown_spec(src.rel) {
        let h = html_rel_spec(src.rel);
        assert(h.len() == src.rel.len());
        if is_index_page(src) {
            lemma_join_single(h, name, true);
        }
        if h == seq![name] {
            assert(join_path(h) == name);
            assert(forward_slashes(name) =~= name);
        }
    } else {
        if provides_index(src) {
            if src.rel.len() == 0 {
                assert(join_path(src.rel) =~= Seq::<char>::empty());
            } else {
                lemma_join_single(src.rel, name, false);
            }
        }
        if src.rel == seq![name] {
            assert(join_path(src.rel) == name);
        }
    }
}

} // verus!
