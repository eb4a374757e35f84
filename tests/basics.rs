use rum::content::ContentProcessor;
use rum::export::Exporter;
use rum::frontmatter::HeaderFormat;
use rum::navigation::NavigationTree;
use rum::paths::split_components;
use rum::text::{chars_of, replace_str, string_of};

#[test]
fn replace_is_left_to_right_without_overlap() {
    assert_eq!(replace_str("aaa", "aa", "b"), "ba");
    assert_eq!(replace_str("x.md.md", ".md", ".html"), "x.html.html");
    assert_eq!(replace_str("abc", "z", "y"), "abc");
    assert_eq!(replace_str("", "a", "b"), "");
}

#[test]
fn components_skip_empty_segments() {
    let cs = split_components(&chars_of("/a//b/c.md/"));
    let names: Vec<String> = cs.iter().map(|c| string_of(c)).collect();
    assert_eq!(names, vec!["a", "b", "c.md"]);
    assert!(split_components(&chars_of("")).is_empty());
}

#[test]
fn empty_trees_and_processors() {
    let t = NavigationTree::default();
    assert!(t.nodes.is_empty() && t.items.is_empty());
    let t = NavigationTree::new();
    assert!(t.nodes.is_empty() && t.items.is_empty());
    let _ = ContentProcessor::new();
    let _ = ContentProcessor::default();
}

#[test]
fn exporter_keeps_output_dir() {
    assert_eq!(Exporter::new("dist").output_dir, "dist");
}

#[test]
fn json_header_that_fails_keeps_whole_text() {
    let text = "```json\nnot json\n```\nbody";
    let b = ContentProcessor::split_header(text).unwrap();
    assert_eq!(b.format, HeaderFormat::Json);
    assert_eq!(b.body, "body");
    let (fm, body) = ContentProcessor::extract_frontmatter(text, Some(b), None);
    assert!(fm.title.is_none() && fm.extra.is_empty());
    assert_eq!(body, text);
}

#[test]
fn path_without_components_adds_nothing() {
    let mut t = NavigationTree::new();
    t.add_path("/", "x".to_string(), None);
    assert!(t.nodes.is_empty());
    t.add_path("a/b/c.md", "C".to_string(), None);
    t.add_path("a/b/d.md", "D".to_string(), None);
    assert_eq!(t.nodes.len(), 4);
    assert_eq!(t.items.len(), 1);
}
