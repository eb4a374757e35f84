//! Turning one document into its processed form: the version taken from
//! its path, wiki links rewritten to standard links, the outbound links,
//! and the HTML of the body.

use pulldown_cmark::{html, Options, Parser};
use vstd::prelude::*;
use crate::frontmatter::Frontmatter;
use crate::paths::{components, split_components};
use crate::text::{
    chars_of, find_from, find_from_exec, lower_of, lowercase, push_chars, push_char, replace_spec,
    replace_str, slice_chars, chars_eq, starts_with, starts_with_exec, string_of, string_views,
};

verus! {

broadcast use vstd::string::group_string_axioms;

/// A path component names a version when it starts with `v` or is `latest`.
pub open spec fn is_version_segment(c: Seq<char>) -> bool {
    (c.len() > 0 && c[0] == 'v') || c == "latest"@
}

/// The version of a document at `path`: its first component, when that names a
/// version and the document does not stand at the top level.
pub open spec fn version_of(path: Seq<char>) -> Option<Seq<char>> {
    let cs = components(path);
    if cs.len() > 1 && is_version_segment(cs[0]) {
        Some(cs[0])
    } else {
        None
    }
}

/// The link target of a page name: lowercased, each space a hyphen.
pub open spec fn slug_spec(name: Seq<char>) -> Seq<char> {
    replace_spec(lower_of(name), " "@, "-"@)
}

/// A wiki link `[[name]]` starts at `i`: a non-empty name without `]`.
pub open spec fn wiki_at(s: Seq<char>, i: int) -> bool {
    &&& 0 <= i
    &&& i + 1 < s.len()
    &&& s[i] == '['
    &&& s[i + 1] == '['
    &&& find_from(s, i + 2, ']') > i + 2
    &&& find_from(s, i + 2, ']') + 1 < s.len()
    &&& s[find_from(s, i + 2, ']') + 1] == ']'
}

/// The standard link that replaces the wiki link to `name`.
pub open spec fn wiki_link_for(name: Seq<char>) -> Seq<char> {
    "["@ + name + "]("@ + slug_spec(name) + ".html)"@
}

/// `s` from position `i` on, with each wiki link rewritten, leftmost first.
pub open spec fn rewrite_from(s: Seq<char>, i: int) -> Seq<char>
    decreases s.len() - i,
{
    if i < 0 || i >= s.len() {
        Seq::empty()
    } else if wiki_at(s, i) {
        let j = find_from(s, i + 2, ']');
        wiki_link_for(s.subrange(i + 2, j)) + rewrite_from(s, j + 2)
    } else {
        seq![s[i]] + rewrite_from(s, i + 1)
    }
}

/// A body with every wiki link rewritten; everything else, shortcodes
/// included, is kept as it is.
pub open spec fn rewrite(s: Seq<char>) -> Seq<char> {
    rewrite_from(s, 0)
}

/// The names of the wiki links of `s` from position `i` on.
pub open spec fn wiki_targets_from(s: Seq<char>, i: int) -> Seq<Seq<char>>
    decreases s.len() - i,
{
    if i < 0 || i >= s.len() {
        Seq::empty()
    } else if wiki_at(s, i) {
        let j = find_from(s, i + 2, ']');
        seq![s.subrange(i + 2, j)] + wiki_targets_from(s, j + 2)
    } else {
        wiki_targets_from(s, i + 1)
    }
}

/// A standard link `[text](target)` starts at `i`: non-empty text without
/// `]`, non-empty target without `)`.
pub open spec fn md_link_at(s: Seq<char>, i: int) -> bool {
    &&& 0 <= i < s.len()
    &&& s[i] == '['
    &&& find_from(s, i + 1, ']') > i + 1
    &&& find_from(s, i + 1, ']') + 1 < s.len()
    &&& s[find_from(s, i + 1, ']') + 1] == '('
    &&& find_from(s, find_from(s, i + 1, ']') + 2, ')') > find_from(s, i + 1, ']') + 2
    &&& find_from(s, find_from(s, i + 1, ']') + 2, ')') < s.len()
}

/// The targets of the standard links of `s` from position `i` on, leaving out
/// those that start with `http`.
pub open spec fn md_targets_from(s: Seq<char>, i: int) -> Seq<Seq<char>>
    decreases s.len() - i,
{
    if i < 0 || i >= s.len() {
        Seq::empty()
    } else if md_link_at(s, i) {
        let j = find_from(s, i + 1, ']');
        let k = find_from(s, j + 2, ')');
        let t = s.subrange(j + 2, k);
        (if starts_with(t, "http"@) {
            Seq::empty()
        } else {
            seq![t]
        }) + md_targets_from(s, k + 1)
    } else {
        md_targets_from(s, i + 1)
    }
}

/// The outbound links of a body: its wiki link names, then its standard link
/// targets that are not absolute, each in order of appearance.
pub open spec fn links_of(s: Seq<char>) -> Seq<Seq<char>> {
    wiki_targets_from(s, 0) + md_targets_from(s, 0)
}

/// What the Markdown renderer yields for a text.
pub uninterp spec fn html_of(markdown: Seq<char>) -> Seq<char>;

/// Relies on `pulldown_cmark::Parser::new_ext` and `pulldown_cmark::html::push_html`,
/// with tables, strikethrough, task lists and smart punctuation switched on:
/// the HTML depends on the text alone.
#[verifier::external_body]
fn render_markdown(markdown: &str) -> (r: String)
    ensures
        r@ == html_of(markdown@),
{
    let options = Options::ENABLE_TABLES | Options::ENABLE_STRIKETHROUGH
        | Options::ENABLE_TASKLISTS | Options::ENABLE_SMART_PUNCTUATION;
    let mut out = String::new();
    html::push_html(&mut out, Parser::new_ext(markdown, options));
    out
}

/// One processed source document.
pub struct Document {
    pub frontmatter: Frontmatter,
    /// The body with wiki links rewritten.
    pub content: String,
    pub html_content: String,
    pub path: String,
    /// The path below the source root, `/`-separated.
    pub relative_path: String,
    pub version: Option<String>,
    /// Labels of the documents that link here, one per link.
    pub backlinks: Vec<String>,
    pub links: Vec<String>,
}

/// The processing steps applied to each document.
pub struct ContentProcessor {}

/// Titles with the same lowercase form, such as titles that differ only in
/// case, get the same link target.
pub proof fn lemma_slug_by_lowercase(a: Seq<char>, b: Seq<char>)
    requires
        lower_of(a) == lower_of(b),
    ensures
        slug_spec(a) == slug_spec(b),
{
}

/// Where a wiki link starts, the rewrite writes the standard link for its
/// name, whose target is the name's slug with `.html`, whatever text
/// surrounds it; scanning goes on after the link.
pub proof fn lemma_wiki_link_target(s: Seq<char>, i: int)
    requires
        wiki_at(s, i),
    ensures
        rewrite_from(s, i) == wiki_link_for(s.subrange(i + 2, find_from(s, i + 2, ']')))
            + rewrite_from(s, find_from(s, i + 2, ']') + 2),
{
}

/// The characters of an optional string.
pub open spec fn opt_view(o: Option<String>) -> Option<Seq<char>> {
    match o {
        Some(s) => Some(s@),
        None => None,
    }
}

impl ContentProcessor {
    pub fn new() -> (r: ContentProcessor) {
        ContentProcessor {  }
    }

    /// The link target that a wiki link to `name` gets.
    pub fn slug(name: &str) -> (r: String)
        ensures
            r@ == slug_spec(name@),
    {
        let lower = lowercase(name);
        replace_str(lower.as_str(), " ", "-")
    }

    /// The version of the document at `relative_path`.
    pub fn extract_version(relative_path: &str) -> (r: Option<String>)
        ensures
            opt_view(r) == version_of(relative_path@),
    {
        let cs = split_components(&chars_of(relative_path));
        if cs.len() > 1 {
            let first = &cs[0];
            assert(first@ == components(relative_path@)[0]);
            let latest = chars_of("latest");
            if (first.len() > 0 && first[0] == 'v') || chars_eq(first, &latest) {
                return Some(string_of(first));
            }
        }
        None
    }

    fn wiki_at_exec(s: &Vec<char>, i: usize) -> (b: bool)
        ensures
            b == wiki_at(s@, i as int),
    {
        if i >= s.len() || s.len() - i < 2 || s[i] != '[' || s[i + 1] != '[' {
            return false;
        }
        let j = find_from_exec(s, i + 2, ']');
        j > i + 2 && j < s.len() - 1 && s[j + 1] == ']'
    }

    fn md_link_exec(s: &Vec<char>, i: usize) -> (b: bool)
        ensures
            b == md_link_at(s@, i as int),
    {
        if i >= s.len() || s[i] != '[' {
            return false;
        }
        let j = find_from_exec(s, i + 1, ']');
        if !(j > i + 1 && j < s.len() - 1 && s[j + 1] == '(') {
            return false;
        }
        let k = find_from_exec(s, j + 2, ')');
        k > j + 2 && k < s.len()
    }

    /// The body with every wiki link `[[name]]` rewritten to the standard link
    /// `[name](slug.html)`.
    pub fn process_content(content: &str) -> (r: String)
        ensures
            r@ == rewrite(content@),
    {
        let s = chars_of(content);
        let open_text = chars_of("[");
        let mid_text = chars_of("](");
        let close_text = chars_of(".html)");
        let mut out = String::new();
        let mut i: usize = 0;
        while i < s.len()
            invariant
                i <= s.len(),
                s@ == content@,
                open_text@ == "["@,
                mid_text@ == "]("@,
                close_text@ == ".html)"@,
                out@ + rewrite_from(s@, i as int) == rewrite(s@),
            decreases s.len() - i,
        {
            let ghost o0 = out@;
            if Self::wiki_at_exec(&s, i) {
                let j = find_from_exec(&s, i + 2, ']');
                let name = slice_chars(&s, i + 2, j);
                let name_str = string_of(&name);
                let slug = Self::slug(name_str.as_str());
                push_chars(&mut out, &open_text);
                push_chars(&mut out, &name);
                push_chars(&mut out, &mid_text);
                out.append(slug.as_str());
                push_chars(&mut out, &close_text);
                let ghost w = wiki_link_for(s@.subrange(i + 2, j as int));
                assert(out@ =~= o0 + w);
                assert((o0 + w) + rewrite_from(s@, j + 2) =~= o0 + (w + rewrite_from(
                    s@,
                    j + 2,
                )));
                i = j + 2;
            } else {
                push_char(&mut out, s[i]);
                assert((o0 + seq![s@[i as int]]) + rewrite_from(s@, i + 1) =~= o0 + (seq![
                    s@[i as int],
                ] + rewrite_from(s@, i + 1)));
                i = i + 1;
            }
        }
        out
    }

    /// The outbound links of a body: wiki link names first, then the targets
    /// of standard links that do not start with `http`. Documents pass their
    /// body as written, before wiki links are rewritten, so a wiki link counts
    /// by its page name and the `slug.html` target that the rewrite produces
    /// is not collected a second time.
    pub fn extract_links(content: &str) -> (r: Vec<String>)
        ensures
            string_views(r@) == links_of(content@),
    {
        let s = chars_of(content);
        let mut r: Vec<String> = Vec::new();
        let mut i: usize = 0;
        while i < s.len()
            invariant
                i <= s.len(),
                s@ == content@,
                string_views(r@) + wiki_targets_from(s@, i as int) == wiki_targets_from(s@, 0),
            decreases s.len() - i,
        {
            let ghost r0 = string_views(r@);
            if Self::wiki_at_exec(&s, i) {
                let j = find_from_exec(&s, i + 2, ']');
                let name = slice_chars(&s, i + 2, j);
                r.push(string_of(&name));
                let ghost t = seq![s@.subrange(i + 2, j as int)];
                assert(string_views(r@) =~= r0 + t);
                assert((r0 + t) + wiki_targets_from(s@, j + 2) =~= r0 + (t + wiki_targets_from(
                    s@,
                    j + 2,
                )));
                i = j + 2;
            } else {
                i = i + 1;
            }
        }
        assert(string_views(r@) =~= wiki_targets_from(s@, 0));
        let http = chars_of("http");
        let mut i: usize = 0;
        while i < s.len()
            invariant
                i <= s.len(),
                s@ == content@,
                http@ == "http"@,
                string_views(r@) + md_targets_from(s@, i as int) == links_of(s@),
            decreases s.len() - i,
        {
            let ghost r0 = string_views(r@);
            if Self::md_link_exec(&s, i) {
                let j = find_from_exec(&s, i + 1, ']');
                let k = find_from_exec(&s, j + 2, ')');
                let t = slice_chars(&s, j + 2, k);
                let ghost ts = if starts_with(t@, "http"@) {
                    Seq::<Seq<char>>::empty()
                } else {
                    seq![t@]
                };
                if !starts_with_exec(&t, &http) {
                    r.push(string_of(&t));
                }
                assert(string_views(r@) =~= r0 + ts);
                assert((r0 + ts) + md_targets_from(s@, k + 1) =~= r0 + (ts + md_targets_from(
                    s@,
                    k + 1,
                )));
                i = k + 1;
            } else {
                i = i + 1;
            }
        }
        r
    }

    /// Relies on the Markdown renderer, see `html_of`.
    pub fn markdown_to_html(markdown: &str) -> (r: String)
        ensures
            r@ == html_of(markdown@),
    {
        render_markdown(markdown)
    }

    /// The processed document for a body whose header was already taken
    /// off: its version comes from `relative_path`, its wiki links are
    /// rewritten, its HTML is rendered from the rewritten body, and its links
    /// are read from the body as written. Backlinks start empty.
    pub fn parse_document(path: &str, relative_path: &str, frontmatter: Frontmatter, body: &str) -> (doc: Document)
        ensures
            doc.frontmatter == frontmatter,
            doc.content@ == rewrite(body@),
            doc.html_content@ == html_of(rewrite(body@)),
            doc.path@ == path@,
            doc.relative_path@ == relative_path@,
            opt_view(doc.version) == version_of(relative_path@),
            doc.backlinks@.len() == 0,
            string_views(doc.links@) == links_of(body@),
    {
        let version = Self::extract_version(relative_path);
        let processed = Self::process_content(body);
        let html_content = Self::markdown_to_html(processed.as_str());
        let links = Self::extract_links(body);
        Document {
            frontmatter,
            content: processed,
            html_content,
            path: String::from_str(path),
            relative_path: String::from_str(relative_path),
            version,
            backlinks: Vec::new(),
            links,
        }
    }
}

impl Default for ContentProcessor {
    fn default() -> (r: ContentProcessor)
        ensures
            r == (ContentProcessor {  }),
    {
        ContentProcessor::new()
    }
}

} // verus!
