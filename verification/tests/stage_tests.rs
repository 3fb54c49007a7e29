use cfdrop::stage::{is_markdown_path, stage_plan, StageError, StagePlan, StageSource, StagedContent};

fn src(rel: &str, markdown: Option<&str>) -> StageSource {
    StageSource {
        rel: rel.split('/').map(|s| s.to_string()).collect(),
        disk_path: format!("/src/{rel}"),
        markdown: markdown.map(|m| m.to_string()),
    }
}

fn page<'a>(plan: &'a StagePlan, rel: &str) -> Option<&'a str> {
    plan.files.iter().find(|f| f.rel.join("/") == rel).and_then(|f| match &f.content {
        StagedContent::Page(p) => Some(p.as_str()),
        StagedContent::CopyFrom(_) => None,
    })
}

fn has(plan: &StagePlan, rel: &str) -> bool {
    plan.files.iter().any(|f| f.rel.join("/") == rel)
}

#[test]
fn mermaid_asset_and_script_only_when_used() {
    let sources = vec![
        src("diagram.md", Some("# D\n\n```mermaid\ngraph TD\nA-->B\n```\n")),
        src("plain.md", Some("# P\n\ntext only")),
    ];
    let plan = stage_plan(&sources, "/src", Some("src")).unwrap();
    assert!(plan.mermaid_asset);
    let diagram = page(&plan, "diagram.html").unwrap();
    assert!(diagram.contains(r#"src="/_cftmp/mermaid.min.js""#));
    assert!(diagram.contains("mermaid.initialize"));
    let plain = page(&plan, "plain.html").unwrap();
    assert!(!plain.contains("mermaid.min.js"));
}

#[test]
fn no_mermaid_asset_when_unused() {
    let plan = stage_plan(&[src("a.md", Some("# A\n\nplain"))], "/src", Some("src")).unwrap();
    assert!(!plan.mermaid_asset);
    assert!(!plan.files.iter().any(|f| f.rel[0] == "_cftmp"));
}

#[test]
fn stages_md_dir_with_auto_index() {
    let sources = vec![
        src("alpha.md", Some("# Alpha Page\n\nhello `code`")),
        src("sub/beta.md", Some("no heading")),
        src("logo.txt", None),
    ];
    let plan = stage_plan(&sources, "/src", Some("src")).unwrap();
    assert!(has(&plan, "alpha.html"));
    assert!(has(&plan, "sub/beta.html"));
    assert!(has(&plan, "logo.txt"));
    let index = page(&plan, "index.html").unwrap();
    assert!(index.contains(r#"href="/alpha""#));
    assert!(index.contains("Alpha Page"));
    assert!(index.contains(r#"href="/sub/beta""#));
    let alpha = page(&plan, "alpha.html").unwrap();
    assert!(alpha.contains("<code>code</code>"));
    assert!(alpha.contains("\u{2190} Index"));
    assert!(alpha.contains("overflow-x:hidden"));
    // the page without a heading is titled by its file stem
    assert!(index.contains(">beta<span class=\"path\">/sub/beta</span>"));
    match &plan.files.iter().find(|f| f.rel.join("/") == "logo.txt").unwrap().content {
        StagedContent::CopyFrom(p) => assert_eq!(p, "/src/logo.txt"),
        StagedContent::Page(_) => panic!("logo.txt must be copied"),
    }
}

#[test]
fn respects_existing_index_md() {
    let sources = vec![src("index.md", Some("# My Home\n\ncustom")), src("other.md", Some("# Other"))];
    let plan = stage_plan(&sources, "/src", Some("src")).unwrap();
    let index = page(&plan, "index.html").unwrap();
    assert!(index.contains("My Home"));
    assert!(!index.contains(r#"class="card""#));
    assert!(!index.contains("\u{2190} Index"));
    assert_eq!(plan.files.iter().filter(|f| f.rel.join("/") == "index.html").count(), 1);
}

#[test]
fn rejects_dir_without_markdown() {
    let err = stage_plan(&[src("data.txt", None)], "/src", Some("src")).err().unwrap();
    assert_eq!(err, StageError::NoMarkdown { dir: "/src".into() });
    assert_eq!(err.message(), "no markdown files found in /src");
}

#[test]
fn index_cards_are_sorted_and_escaped() {
    let sources = vec![
        src("zeta.md", Some("# Z & z")),
        src("alpha.MD", Some("# A")),
        src("x.html.md", Some("# X")),
    ];
    let plan = stage_plan(&sources, "/src", None).unwrap();
    let index = page(&plan, "index.html").unwrap();
    assert!(index.contains("<title>pages</title>"));
    assert!(index.contains("<h1>pages</h1>"));
    let a = index.find(r#"href="/alpha""#).unwrap();
    let x = index.find(r#"href="/x""#).unwrap();
    let z = index.find(r#"href="/zeta""#).unwrap();
    assert!(a < x && x < z);
    assert!(index.contains("Z &amp; z"));
    assert!(has(&plan, "alpha.html"));
    assert!(has(&plan, "x.html.html"));
}

#[test]
fn copied_index_html_counts_as_index() {
    let plan = stage_plan(&[src("index.html", None)], "/src", Some("src")).unwrap();
    assert_eq!(plan.files.len(), 1);
    assert!(!plan.mermaid_asset);
}

#[test]
fn markdown_paths_by_extension() {
    let rel = |s: &str| -> Vec<String> { s.split('/').map(|x| x.to_string()).collect() };
    assert!(is_markdown_path(&rel("a/b.md")));
    assert!(is_markdown_path(&rel("B.Md")));
    assert!(!is_markdown_path(&rel("notes.markdown")));
    assert!(!is_markdown_path(&rel(".md")));
}

#[test]
fn every_visible_source_is_staged_and_every_page_listed() {
    let sources = vec![
        src("b.md", Some("# Bee\n")),
        src("img/logo.png", None),
        src("a/deep.MD", Some("no heading\n")),
        src("style.css", None),
    ];
    let plan = stage_plan(&sources, "/src/site", Some("site")).unwrap();
    assert!(page(&plan, "b.html").is_some());
    assert!(page(&plan, "a/deep.html").is_some());
    assert!(has(&plan, "img/logo.png"));
    assert!(has(&plan, "style.css"));
    let index = page(&plan, "index.html").unwrap();
    let a = index.find(r#"href="/a/deep""#).unwrap();
    let b = index.find(r#"href="/b""#).unwrap();
    assert!(a < b);
    assert!(index.contains(">deep<span"));
    assert!(index.contains(">Bee<span"));
    assert_eq!(plan.files.len(), 5);
}

#[test]
fn refused_exactly_without_visible_markdown_or_index() {
    let only_data = vec![src("data.txt", None), src(".notes/a.md", Some("# A\n"))];
    assert!(matches!(stage_plan(&only_data, "/d", Some("d")), Err(StageError::NoMarkdown { .. })));
    let with_index = vec![src("data.txt", None), src("index.html", None)];
    let plan = stage_plan(&with_index, "/d", Some("d")).unwrap();
    assert_eq!(plan.files.len(), 2);
    assert!(!plan.mermaid_asset);
}

#[test]
fn generated_index_never_loads_mermaid() {
    let sources = vec![src("diagram.md", Some("# <script>mermaid.initialize(\n\n```mermaid\ngraph TD\n```\n"))];
    let plan = stage_plan(&sources, "/src/x", Some("x")).unwrap();
    let index = page(&plan, "index.html").unwrap();
    assert!(!index.contains("mermaid.min.js\"></script>"));
    assert!(!index.contains("<script>mermaid.initialize("));
    assert!(page(&plan, "diagram.html").unwrap().contains("<script>mermaid.initialize("));
}
