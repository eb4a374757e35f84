use rum::content::ContentProcessor;
use rum::frontmatter::{Frontmatter, HeaderFormat};

fn scalar(v: &serde_yaml::Value, key: &str) -> Option<String> {
    match v.get(key) {
        Some(serde_yaml::Value::String(s)) => Some(s.clone()),
        Some(serde_yaml::Value::Number(n)) => Some(n.to_string()),
        Some(serde_yaml::Value::Bool(b)) => Some(b.to_string()),
        _ => None,
    }
}

fn yaml_header(text: &str) -> Option<Frontmatter> {
    let v: serde_yaml::Value = serde_yaml::from_str(text).ok()?;
    Some(Frontmatter {
        title: scalar(&v, "title"),
        version: scalar(&v, "version"),
        tags: None,
        author: scalar(&v, "author"),
        description: scalar(&v, "description"),
        order: v.get("order").and_then(|o| o.as_u64()).map(|o| o as u32),
        extra: Vec::new(),
    })
}

#[test]
fn test_extract_frontmatter() {
    let content = r#"---
title: Test Page
version: 0.1
tags: [test, example]
author: night0721
description: Example
---
# Content here
"#;
    let block = ContentProcessor::split_header(content);
    let parsed = block.as_ref().and_then(|b| yaml_header(&b.header));
    let (fm, md) = ContentProcessor::extract_frontmatter(content, block, parsed);
    assert_eq!(fm.title, Some("Test Page".to_string()));
    assert_eq!(fm.version, Some("0.1".to_string()));
    assert_eq!(fm.author, Some("night0721".to_string()));
    assert_eq!(fm.description, Some("Example".to_string()));
    assert!(md.contains("Content here"));
}

#[test]
fn header_styles_strip_the_block() {
    let yaml = "---\ntitle: A\n---\nbody\n";
    let b = ContentProcessor::split_header(yaml).unwrap();
    assert_eq!(b.format, HeaderFormat::Yaml);
    assert_eq!(b.header, "title: A");
    assert_eq!(b.body, "body\n");

    let json = "```json\n{\"title\": \"A\"}\n```\nbody\n";
    let b = ContentProcessor::split_header(json).unwrap();
    assert_eq!(b.format, HeaderFormat::Json);
    assert_eq!(b.header, "{\"title\": \"A\"}");
    assert_eq!(b.body, "body\n");

    let toml = "+++\ntitle = \"A\"\n+++\nbody\n";
    let b = ContentProcessor::split_header(toml).unwrap();
    assert_eq!(b.format, HeaderFormat::Toml);
    assert_eq!(b.header, "title = \"A\"");
    assert_eq!(b.body, "body\n");
}

#[test]
fn header_missing_or_unclosed() {
    assert!(ContentProcessor::split_header("# Title\ntext\n").is_none());
    assert!(ContentProcessor::split_header("---\ntitle: A\nno end\n").is_none());
    let (fm, body) = ContentProcessor::extract_frontmatter("plain\n", None, None);
    assert!(fm.title.is_none());
    assert_eq!(body, "plain\n");
}

#[test]
fn malformed_header_falls_back() {
    let yaml = "---\n: : bad\n---\nbody\n";
    let b = ContentProcessor::split_header(yaml).unwrap();
    let (fm, body) = ContentProcessor::extract_frontmatter(yaml, Some(b), None);
    assert!(fm.title.is_none());
    assert_eq!(body, "body\n");

    let toml = "+++\nnot toml\n+++\nbody\n";
    let b = ContentProcessor::split_header(toml).unwrap();
    let (fm, body) = ContentProcessor::extract_frontmatter(toml, Some(b), None);
    assert!(fm.title.is_none());
    assert_eq!(body, toml);
}

#[test]
fn parsed_header_is_kept() {
    let doc = "+++\ntitle = \"T\"\n+++\nrest";
    let b = ContentProcessor::split_header(doc).unwrap();
    let mut fm = Frontmatter::empty();
    fm.title = Some("T".to_string());
    fm.author = Some("me".to_string());
    let (got, body) = ContentProcessor::extract_frontmatter(doc, Some(b), Some(fm));
    assert_eq!(got.title.as_deref(), Some("T"));
    assert_eq!(got.author.as_deref(), Some("me"));
    assert_eq!(body, "rest");
}

#[test]
fn version_inference() {
    assert_eq!(ContentProcessor::extract_version("v2/guide.md"), Some("v2".to_string()));
    assert_eq!(ContentProcessor::extract_version("latest/guide.md"), Some("latest".to_string()));
    assert_eq!(ContentProcessor::extract_version("guide.md"), None);
    assert_eq!(ContentProcessor::extract_version("docs/guide.md"), None);
    assert_eq!(ContentProcessor::extract_version("v1.md"), None);
}

#[test]
fn slug_lowercases_and_hyphenates() {
    assert_eq!(ContentProcessor::slug("Page Name"), "page-name");
    assert_eq!(ContentProcessor::slug("Page Name"), ContentProcessor::slug("Page Name"));
    assert_eq!(ContentProcessor::slug("PAGE name"), ContentProcessor::slug("page Name"));
    assert_eq!(ContentProcessor::slug("Page  Name"), "page--name");
    assert_ne!(ContentProcessor::slug("Page  Name"), ContentProcessor::slug("Page Name"));
}

#[test]
fn wiki_links_rewritten_shortcodes_kept() {
    let out = ContentProcessor::process_content("See [[Page Name]] and {{note}}x{{/note}}.");
    assert_eq!(out, "See [Page Name](page-name.html) and {{note}}x{{/note}}.");
    assert_eq!(ContentProcessor::process_content("[[]] [[a]b]]"), "[[]] [[a]b]]");
    assert_eq!(ContentProcessor::process_content("[[[x]]"), "[[x]([x.html)");
}

#[test]
fn links_are_extracted_in_order() {
    let links = ContentProcessor::extract_links(
        "[x](b.md) [[A]] [y](http://e.com) [[B c]] [z](c/d.md)",
    );
    assert_eq!(links, vec!["A", "B c", "b.md", "c/d.md"]);
    assert!(ContentProcessor::extract_links("no links").is_empty());
}

#[test]
fn markdown_features() {
    let html = ContentProcessor::markdown_to_html("~~gone~~");
    assert!(html.contains("<del>gone</del>"));
    let html = ContentProcessor::markdown_to_html("| a | b |\n|---|---|\n| 1 | 2 |\n");
    assert!(html.contains("<table>"));
    let html = ContentProcessor::markdown_to_html("- [x] done\n- [ ] todo\n");
    assert!(html.contains("type=\"checkbox\""));
    let html = ContentProcessor::markdown_to_html("\"quoted\" -- dash");
    assert!(html.contains("\u{201c}quoted\u{201d}"));
    assert!(html.contains("\u{2013}"));
}

#[test]
fn parse_document_fields() {
    let doc = ContentProcessor::parse_document(
        "/src/v1/a.md",
        "v1/a.md",
        Frontmatter::empty(),
        "Go to [[Next Page]].",
    );
    assert_eq!(doc.version.as_deref(), Some("v1"));
    assert_eq!(doc.content, "Go to [Next Page](next-page.html).");
    assert!(doc.html_content.contains("<a href=\"next-page.html\">Next Page</a>"));
    assert_eq!(doc.links, vec!["Next Page"]);
    assert!(doc.backlinks.is_empty());
    assert_eq!(doc.relative_path, "v1/a.md");
    assert_eq!(doc.path, "/src/v1/a.md");
}
