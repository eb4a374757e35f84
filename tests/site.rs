use rum::backlinks::process_backlinks;
use rum::cli::Formats;
use rum::content::{ContentProcessor, Document};
use rum::frontmatter::Frontmatter;
use rum::live::{LiveAction, LiveEvent, LivePhase, LiveState};
use rum::navigation::{build_navigation, NavigationTree};
use rum::site::{
    build_site, generate_search_index, is_document_file, output_path, sort_documents,
};
use rum::templates::{Config, TemplateEngine};

fn doc(rel: &str, title: Option<&str>, order: Option<u32>, body: &str) -> Document {
    let mut fm = Frontmatter::empty();
    fm.title = title.map(|t| t.to_string());
    fm.order = order;
    ContentProcessor::parse_document(&format!("/src/{}", rel), rel, fm, body)
}

fn config(versions: &[&str]) -> Config {
    Config {
        title: "Docs".to_string(),
        versions: versions.iter().map(|v| v.to_string()).collect(),
        breadcrumbs: true,
        default_theme: None,
        search_enabled: true,
    }
}

fn leaf_paths(tree: &NavigationTree) -> Vec<String> {
    let mut out = Vec::new();
    let mut stack: Vec<usize> = tree.items.iter().rev().cloned().collect();
    while let Some(i) = stack.pop() {
        let node = &tree.nodes[i];
        if !node.path.is_empty() {
            out.push(node.path.clone());
        }
        for c in node.children.iter().rev() {
            stack.push(*c);
        }
    }
    out
}

#[test]
fn backlinks_follow_links() {
    let docs = vec![
        doc("a.md", Some("Alpha"), None, "[[Beta]] and [[beta]]"),
        doc("b.md", Some("Beta"), None, "nothing"),
        doc("c.md", None, None, "[see](B.md)"),
    ];
    let docs = process_backlinks(docs);
    assert_eq!(docs[1].backlinks, vec!["Alpha", "Alpha", "c.md"]);
    assert!(docs[0].backlinks.is_empty());
    assert!(docs[2].backlinks.is_empty());
}

#[test]
fn backlinks_go_to_last_matching_document() {
    let docs = vec![
        doc("x.md", Some("Same"), None, ""),
        doc("y.md", Some("Same"), None, ""),
        doc("z.md", Some("Linker"), None, "[[same]]"),
    ];
    let docs = process_backlinks(docs);
    assert!(docs[0].backlinks.is_empty());
    assert_eq!(docs[1].backlinks, vec!["Linker"]);
}

#[test]
fn navigation_mirrors_directories() {
    let docs = vec![
        doc("index.md", Some("Home"), None, ""),
        doc("v1/page.md", Some("Page"), None, ""),
        doc("v1/other.md", None, None, ""),
        doc("guide/v1/deep.md", None, None, ""),
    ];
    let tree = build_navigation(&docs);
    assert_eq!(tree.items.len(), 3);
    let v1 = &tree.nodes[tree.items[1]];
    assert_eq!(v1.title, "v1");
    assert!(v1.path.is_empty());
    assert_eq!(v1.children.len(), 2);
    assert_eq!(tree.nodes[v1.children[1]].title, "other");
    assert_eq!(tree.nodes[v1.children[1]].version.as_deref(), Some("v1"));
    let mut leaves = leaf_paths(&tree);
    leaves.sort();
    assert_eq!(leaves, vec!["guide/v1/deep.md", "index.md", "v1/other.md", "v1/page.md"]);
}

#[test]
fn navigation_keeps_duplicate_leaves() {
    let docs = vec![doc("a/x.md", None, None, ""), doc("a/x.md", None, None, "")];
    let tree = build_navigation(&docs);
    assert_eq!(tree.items.len(), 1);
    assert_eq!(tree.nodes[tree.items[0]].children.len(), 2);
}

#[test]
fn sidebar_marks_active_page() {
    let docs = vec![
        doc("index.md", Some("Home"), None, ""),
        doc("v1/page.md", Some("Page"), None, ""),
    ];
    let tree = build_navigation(&docs);
    let engine = TemplateEngine::new();
    let html = engine.render_sidebar(&tree, "v1/page.md");
    let expected = "<nav class=\"sidebar\">\n<ul>\n<li>\n  <a href=\"/index.html\">Home</a>\n</li>\n<li>\n  <span>v1</span>\n  <ul>\n  <li class=\"active\">\n    <a href=\"/v1/page.html\">Page</a>\n  </li>\n  </ul>\n</li>\n</ul>\n</nav>";
    assert_eq!(html, expected);
}

#[test]
fn nav_href_gets_version_prefix() {
    let mut tree = NavigationTree::new();
    tree.add_path("guide.md", "Guide".to_string(), Some("v3".to_string()));
    let engine = TemplateEngine::new();
    let html = engine.render_nav_item(&tree, 0, "other.md", 2);
    assert_eq!(html, "    <li>\n      <a href=\"/v3/guide.html\">Guide</a>\n    </li>\n");
}

#[test]
fn breadcrumbs_per_component() {
    let engine = TemplateEngine::new();
    assert_eq!(
        engine.render_breadcrumbs("v1/page.md"),
        "<nav class=\"breadcrumbs\">\n<a href=\"/\">Home</a> / <a href=\"/v1\">v1</a> / <a href=\"/v1/page.html\">page.md</a>\n</nav>"
    );
}

#[test]
fn backlinks_fragment() {
    let engine = TemplateEngine::new();
    assert_eq!(
        engine.render_backlinks(&vec!["Other Page".to_string()]),
        "<div class=\"backlinks\">\n<h3>Pages that link here</h3>\n<ul>\n<li><a href=\"#other-page\">Other Page</a></li>\n</ul>\n</div>"
    );
}

#[test]
fn version_selector_only_with_several_versions() {
    let engine = TemplateEngine::new();
    assert_eq!(engine.render_version_selector(&vec!["v1".to_string()], &None), "");
    assert_eq!(
        engine.render_version_selector(
            &vec!["v1".to_string(), "v2".to_string()],
            &Some("v2".to_string())
        ),
        "<select id=\"version-selector\" onchange=\"switchVersion(this.value)\">\n<option value=\"v1\">v1</option>\n<option value=\"v2\" selected>v2</option>\n</select>"
    );
}

#[test]
fn render_fills_every_token() {
    let docs = vec![doc("a.md", None, None, "text")];
    let tree = build_navigation(&docs);
    let engine = TemplateEngine {
        base_template: "{{PAGE_TITLE}}|{{TITLE}}|{{SITE_TITLE}}|{{BREADCRUMBS}}|{{BACKLINKS}}|{{VERSION_SELECTOR}}|{{DEFAULT_THEME}}|{{SEARCH_ENABLED}}".to_string(),
    };
    let mut cfg = config(&["v1"]);
    cfg.breadcrumbs = false;
    cfg.search_enabled = false;
    let html = engine.render(&docs[0], &tree, &cfg);
    assert_eq!(html, "Untitled - Docs|Untitled|Docs||||light|false");
}

#[test]
fn search_index_entries() {
    let docs = vec![
        doc("a.md", Some("A \"q\""), None, "Hi"),
        doc("v2/b.md", None, None, "line\nnext"),
    ];
    assert_eq!(
        generate_search_index(&docs),
        "[{\"content\":\"Hi\",\"path\":\"a.md\",\"title\":\"A \\\"q\\\"\",\"version\":null},{\"content\":\"line\\nnext\",\"path\":\"v2/b.md\",\"title\":\"v2/b.md\",\"version\":\"v2\"}]"
    );
    assert_eq!(generate_search_index(&vec![]), "[]");
}

#[test]
fn output_paths_and_document_files() {
    assert_eq!(output_path("v1/page.md"), "v1/page.html");
    assert_eq!(output_path("index.md"), "index.html");
    assert_eq!(output_path("notes/readme"), "notes/readme.html");
    assert!(is_document_file("a/b.md"));
    assert!(is_document_file("x.adoc"));
    assert!(is_document_file("x.rst"));
    assert!(is_document_file("x.txt"));
    assert!(!is_document_file("x.html"));
    assert!(!is_document_file(".md"));
    assert!(!is_document_file("md"));
}

#[test]
fn sort_is_stable_by_order() {
    let docs = vec![
        doc("a.md", None, None, ""),
        doc("b.md", None, Some(2), ""),
        doc("c.md", None, Some(999), ""),
        doc("d.md", None, Some(1), ""),
        doc("e.md", None, Some(2), ""),
    ];
    let sorted = sort_documents(docs);
    let names: Vec<&str> = sorted.iter().map(|d| d.relative_path.as_str()).collect();
    assert_eq!(names, vec!["d.md", "b.md", "e.md", "a.md", "c.md"]);
}

#[test]
fn format_selector() {
    let f = Formats::select("html,pdf");
    assert!(f.html && f.pdf && !f.man);
    let f = Formats::select("man");
    assert!(!f.html && !f.pdf && f.man);
}

#[test]
fn live_rebuilds_queue() {
    let s = LiveState::initial();
    assert_eq!(s.phase, LivePhase::Building);
    let (s, a) = s.step(LiveEvent::BuildSucceeded);
    assert_eq!((s.phase, a), (LivePhase::Ready, LiveAction::Serve));
    let (s, a) = s.step(LiveEvent::SourceChanged);
    assert_eq!((s.phase, a), (LivePhase::Rebuilding, LiveAction::StartBuild));
    let (s, a) = s.step(LiveEvent::SourceChanged);
    let (s, b) = s.step(LiveEvent::SourceChanged);
    assert_eq!((a, b, s.pending), (LiveAction::Idle, LiveAction::Idle, 2));
    let (s, a) = s.step(LiveEvent::BuildFailed);
    assert_eq!((s.phase, s.pending, a), (LivePhase::Rebuilding, 1, LiveAction::StartBuild));
    let (s, a) = s.step(LiveEvent::BuildSucceeded);
    assert_eq!((s.pending, a), (0, LiveAction::StartBuild));
    let (s, a) = s.step(LiveEvent::BuildSucceeded);
    assert_eq!((s.phase, a), (LivePhase::Ready, LiveAction::Idle));
    let (_, a) = LiveState::initial().step(LiveEvent::BuildFailed);
    assert_eq!(a, LiveAction::Abort);
}

#[test]
fn end_to_end_three_documents() {
    let mut docs = Vec::new();
    for (rel, text) in [
        ("index.md", "# Welcome\n"),
        ("v1/page.md", "---\ntitle: Page\nversion: v1\n---\nPage body\n"),
        ("v1/other.md", "---\ntitle: Other\n---\nSee [[Page]].\n"),
    ] {
        let block = ContentProcessor::split_header(text);
        let parsed = block.as_ref().map(|b| {
            let mut fm = Frontmatter::empty();
            for line in b.header.lines() {
                if let Some(t) = line.strip_prefix("title: ") {
                    fm.title = Some(t.to_string());
                }
                if let Some(v) = line.strip_prefix("version: ") {
                    fm.version = Some(v.to_string());
                }
            }
            fm
        });
        let (fm, body) = ContentProcessor::extract_frontmatter(text, block, parsed);
        docs.push(ContentProcessor::parse_document(&format!("/src/{}", rel), rel, fm, &body));
    }
    let engine = TemplateEngine::new();
    let site = build_site(docs, &config(&["v1"]), &engine);
    assert_eq!(site.pages.len(), 3);
    let other = site.pages.iter().find(|p| p.path == "v1/other.html").unwrap();
    assert_eq!(other.html.matches("<a href=\"/v1/page.html\">Page</a>").count(), 1);
    assert_eq!(other.html.matches("<a href=\"/v1/other.html\">Other</a>").count(), 1);
    assert_eq!(other.html.matches("class=\"active\"").count(), 1);
    let page = site.pages.iter().find(|p| p.path == "v1/page.html").unwrap();
    assert!(page.html.contains("<div class=\"backlinks\">"));
    assert!(page.html.contains("<li><a href=\"#other\">Other</a></li>"));
    assert!(site.pages.iter().any(|p| p.path == "index.html"));
}

#[test]
fn body_tokens_pass_through_literally() {
    let docs = vec![doc("a.md", Some("A"), None, "{{SIDEBAR}} {{SEARCH_ENABLED}}")];
    let tree = build_navigation(&docs);
    let engine = TemplateEngine { base_template: "<{{CONTENT}}>{{SEARCH_ENABLED}}".to_string() };
    let html = engine.render(&docs[0], &tree, &config(&["v1"]));
    assert_eq!(html, format!("<{}>true", docs[0].html_content));
    assert!(html.contains("{{SIDEBAR}} {{SEARCH_ENABLED}}"));
}

#[test]
fn add_path_reuses_directories() {
    let mut t = NavigationTree::new();
    t.add_path("v1/page.md", "Page".to_string(), Some("v1".to_string()));
    assert_eq!(t.items.len(), 1);
    let dir = &t.nodes[t.items[0]];
    assert_eq!((dir.title.as_str(), dir.path.as_str(), dir.version.is_none()), ("v1", "", true));
    assert_eq!(dir.children.len(), 1);
    let leaf = &t.nodes[dir.children[0]];
    assert_eq!((leaf.title.as_str(), leaf.path.as_str()), ("Page", "v1/page.md"));
    assert_eq!(leaf.version.as_deref(), Some("v1"));
    assert!(leaf.children.is_empty());

    let mut t = NavigationTree::new();
    t.add_path("a/x.md", "X".to_string(), None);
    t.add_path("a/y.md", "Y".to_string(), None);
    assert_eq!(t.items.len(), 1);
    let a = &t.nodes[t.items[0]];
    let titles: Vec<&str> = a.children.iter().map(|c| t.nodes[*c].title.as_str()).collect();
    assert_eq!(titles, vec!["X", "Y"]);
    assert_eq!(t.nodes.len(), 3);
}
