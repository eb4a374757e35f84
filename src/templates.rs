//! Page rendering: HTML fragments for the sidebar, breadcrumbs, backlinks
//! and version selector, substituted into one base template by literal
//! token replacement.

use vstd::prelude::*;
use crate::content::{opt_view, slug_spec, ContentProcessor, Document};
use crate::navigation::{NavigationItem, NavigationTree};
use crate::paths::{components, file_stem, file_stem_exec, join, split_components, views};
use crate::text::{
    occurs_at, occurs_at_exec, push_char, chars_eq, chars_of, ends_with, ends_with_exec, replace_spec, replace_str, starts_with,
    starts_with_exec, string_of, string_views,
};

verus! {

broadcast use vstd::string::group_string_axioms;

/// `s` repeated `n` times.
pub open spec fn repeat(s: Seq<char>, n: nat) -> Seq<char>
    decreases n,
{
    if n == 0 {
        Seq::empty()
    } else {
        repeat(s, (n - 1) as nat) + s
    }
}

/// Two spaces per level of depth.
pub fn indent(depth: usize) -> (r: String)
    ensures
        r@ == repeat("  "@, depth as nat),
{
    let mut r = String::new();
    let mut k: usize = 0;
    while k < depth
        invariant
            k <= depth,
            r@ == repeat("  "@, k as nat),
        decreases depth - k,
    {
        r.append("  ");
        k = k + 1;
    }
    r
}

/// The site settings that rendering reads.
pub struct Config {
    pub title: String,
    pub versions: Vec<String>,
    pub breadcrumbs: bool,
    pub default_theme: Option<String>,
    pub search_enabled: bool,
}

/// `/`-separated path text turned into an href, `.md` becoming `.html`.
pub open spec fn html_href(path: Seq<char>) -> Seq<char> {
    let h = replace_spec(path, "\\"@, "/"@);
    if ends_with(h, ".md"@) {
        replace_spec(h, ".md"@, ".html"@)
    } else {
        h
    }
}

/// The href of a navigation leaf: prefixed with its version unless the path
/// already starts with it, and made absolute.
pub open spec fn nav_href(path: Seq<char>, version: Option<Seq<char>>) -> Seq<char> {
    let h = html_href(path);
    let v = match version {
        Some(v) => if starts_with(h, v) {
            h
        } else {
            v + "/"@ + h
        },
        None => h,
    };
    "/"@ + v
}

/// A sidebar node is active when it is a leaf with the page's file stem.
pub open spec fn is_active(path: Seq<char>, cur: Seq<char>) -> bool {
    path.len() > 0 && file_stem(path) == file_stem(cur)
}

/// The opening tag of a sidebar entry.
pub open spec fn item_head(depth: nat, active: bool) -> Seq<char> {
    repeat("  "@, depth) + "<li"@ + (if active {
        " class=\"active\""@
    } else {
        Seq::empty()
    }) + ">\n"@
}

/// The link of a leaf, or the name of a directory.
pub open spec fn item_label(
    path: Seq<char>,
    title: Seq<char>,
    version: Option<Seq<char>>,
    depth: nat,
) -> Seq<char> {
    if path.len() > 0 {
        repeat("  "@, depth + 1) + "<a href=\""@ + nav_href(path, version) + "\">"@ + title
            + "</a>\n"@
    } else {
        repeat("  "@, depth + 1) + "<span>"@ + title + "</span>\n"@
    }
}

/// The HTML of node `i` of the sidebar at `depth`, for the page at `cur`.
pub open spec fn item_html(t: NavigationTree, i: int, cur: Seq<char>, depth: nat) -> Seq<char>
    decreases t.len() - i, 1int, 0int,
{
    if i < 0 || i >= t.len() {
        Seq::empty()
    } else {
        let node = t.nodes@[i];
        let inner = repeat("  "@, depth + 1);
        let kids = if t.n_children(i) > 0 {
            inner + "<ul>\n"@ + children_html(t, i, 0, cur, depth + 1) + inner + "</ul>\n"@
        } else {
            Seq::empty()
        };
        item_head(depth, is_active(node.path@, cur)) + item_label(
            node.path@,
            node.title@,
            opt_view(node.version),
            depth,
        ) + kids + repeat("  "@, depth) + "</li>\n"@
    }
}

/// The HTML of the children of node `i` from the `k`-th on.
pub open spec fn children_html(t: NavigationTree, i: int, k: int, cur: Seq<char>, depth: nat) -> Seq<
    char,
>
    decreases t.len() - i, 0int, t.n_children(i) - k,
{
    if i < 0 || i >= t.len() || k < 0 || k >= t.n_children(i) || !(i < t.child(i, k) < t.len()) {
        Seq::empty()
    } else {
        item_html(t, t.child(i, k), cur, depth) + children_html(t, i, k + 1, cur, depth)
    }
}

/// The HTML of the top-level nodes from the `k`-th on.
pub open spec fn roots_html(t: NavigationTree, k: int, cur: Seq<char>) -> Seq<char>
    decreases t.items@.len() - k,
{
    if k < 0 || k >= t.items@.len() {
        Seq::empty()
    } else {
        item_html(t, t.items@[k] as int, cur, 0) + roots_html(t, k + 1, cur)
    }
}

/// The sidebar for the page at `cur`.
pub open spec fn sidebar_html(t: NavigationTree, cur: Seq<char>) -> Seq<char> {
    "<nav class=\"sidebar\">\n<ul>\n"@ + roots_html(t, 0, cur) + "</ul>\n</nav>"@
}

/// One breadcrumb: the link to the path made of the first `k + 1` components.
pub open spec fn crumb(cs: Seq<Seq<char>>, k: int) -> Seq<char> {
    " / <a href=\""@ + "/"@ + html_href(join(cs.take(k + 1))) + "\">"@ + replace_spec(
        cs[k],
        ".html"@,
        ""@,
    ) + "</a>"@
}

/// The first `n` breadcrumbs.
pub open spec fn crumbs(cs: Seq<Seq<char>>, n: int) -> Seq<char>
    decreases n,
{
    if n <= 0 {
        Seq::empty()
    } else {
        crumbs(cs, n - 1) + crumb(cs, n - 1)
    }
}

/// The breadcrumb trail of the page at `path`.
pub open spec fn breadcrumbs_html(path: Seq<char>) -> Seq<char> {
    let cs = components(path);
    "<nav class=\"breadcrumbs\">\n"@ + "<a href=\"/\">Home</a>"@ + crumbs(cs, cs.len() as int)
        + "\n</nav>"@
}

/// The list entry of one backlink.
pub open spec fn backlink_item(link: Seq<char>) -> Seq<char> {
    "<li><a href=\"#"@ + slug_spec(link) + "\">"@ + link + "</a></li>\n"@
}

/// The list entries of the first `n` backlinks.
pub open spec fn backlink_items(links: Seq<Seq<char>>, n: int) -> Seq<char>
    decreases n,
{
    if n <= 0 {
        Seq::empty()
    } else {
        backlink_items(links, n - 1) + backlink_item(links[n - 1])
    }
}

/// The backlinks section.
pub open spec fn backlinks_html(links: Seq<Seq<char>>) -> Seq<char> {
    "<div class=\"backlinks\">\n<h3>Pages that link here</h3>\n<ul>\n"@ + backlink_items(
        links,
        links.len() as int,
    ) + "</ul>\n</div>"@
}

/// The option of one version, selected when it is the page's version.
pub open spec fn version_option(v: Seq<char>, current: Option<Seq<char>>) -> Seq<char> {
    "<option value=\""@ + v + "\""@ + (if current == Some(v) {
        " selected"@
    } else {
        Seq::empty()
    }) + ">"@ + v + "</option>\n"@
}

/// The options of the first `n` versions.
pub open spec fn version_options(vs: Seq<Seq<char>>, current: Option<Seq<char>>, n: int) -> Seq<
    char,
>
    decreases n,
{
    if n <= 0 {
        Seq::empty()
    } else {
        version_options(vs, current, n - 1) + version_option(vs[n - 1], current)
    }
}

/// The version selector: nothing unless more than one version is configured.
pub open spec fn version_selector_html(vs: Seq<Seq<char>>, current: Option<Seq<char>>) -> Seq<char> {
    if vs.len() <= 1 {
        Seq::empty()
    } else {
        "<select id=\"version-selector\" onchange=\"switchVersion(this.value)\">\n"@
            + version_options(vs, current, vs.len() as int) + "</select>"@
    }
}

/// Both paths have the same file stem, or neither has one.
fn same_stem(a: &str, b: &str) -> (r: bool)
    ensures
        r == (file_stem(a@) == file_stem(b@)),
{
    match (file_stem_exec(a), file_stem_exec(b)) {
        (Some(x), Some(y)) => chars_eq(&x, &y),
        (None, None) => true,
        _ => false,
    }
}

/// See `html_href`.
fn html_href_exec(path: &str) -> (r: String)
    ensures
        r@ == html_href(path@),
{
    let h = replace_str(path, "\\", "/");
    if ends_with_exec(&chars_of(h.as_str()), &chars_of(".md")) {
        replace_str(h.as_str(), ".md", ".html")
    } else {
        h
    }
}

/// See `nav_href`.
fn nav_href_exec(path: &str, version: &Option<String>) -> (r: String)
    ensures
        r@ == nav_href(path@, opt_view(*version)),
{
    let h = html_href_exec(path);
    let mut r = String::from_str("/");
    match version {
        Some(v) => {
            if !starts_with_exec(&chars_of(h.as_str()), &chars_of(v.as_str())) {
                r.append(v.as_str());
                r.append("/");
            }
        },
        None => {},
    }
    r.append(h.as_str());
    r
}

/// The fixed page template; each `{{NAME}}` token is replaced on rendering.
pub const BASE_TEMPLATE: &'static str = "<!DOCTYPE html>
<html lang=\"en\" data-theme=\"{{DEFAULT_THEME}}\">
<head>
<meta charset=\"utf-8\">
<meta name=\"viewport\" content=\"width=device-width, initial-scale=1\">
<title>{{PAGE_TITLE}}</title>
<link rel=\"stylesheet\" href=\"/assets/css/style.css\">
</head>
<body data-search=\"{{SEARCH_ENABLED}}\">
<header>
<a class=\"site-title\" href=\"/\">{{SITE_TITLE}}</a>
{{VERSION_SELECTOR}}
</header>
<div class=\"layout\">
{{SIDEBAR}}
<main>
{{BREADCRUMBS}}
<article>
<h1>{{TITLE}}</h1>
{{CONTENT}}
</article>
{{BACKLINKS}}
</main>
</div>
<script src=\"/assets/js/app.js\"></script>
</body>
</html>
";

/// Renders pages from the base template.
pub struct TemplateEngine {
    pub base_template: String,
}

impl TemplateEngine {
    pub fn new() -> (r: TemplateEngine)
        ensures
            r.base_template@ == BASE_TEMPLATE@,
    {
        TemplateEngine { base_template: String::from_str(BASE_TEMPLATE) }
    }

    /// The HTML of node `i` of the sidebar, and of the nodes below it.
    pub fn render_nav_item(&self, tree: &NavigationTree, i: usize, current_path: &str, depth: usize) -> (r: String)
        requires
            tree.wf(),
            i < tree.len(),
            depth + (tree.len() - i) <= usize::MAX,
        ensures
            r@ == item_html(*tree, i as int, current_path@, depth as nat),
        decreases tree.len() - i,
    {
        let node = &tree.nodes[i];
        let ind = indent(depth);
        let inner = indent(depth + 1);
        let mut html = Self::render_item_head(depth, node.path.as_str(), current_path);
        let label = Self::render_item_label(node, depth);
        html.append(label.as_str());
        let ghost t = *tree;
        let ghost cur = current_path@;
        let ghost d1 = (depth + 1) as nat;
        let ghost upto_label = html@;
        if node.children.len() > 0 {
            html.append(inner.as_str());
            html.append("<ul>\n");
            let ghost pre = html@;
            let mut k: usize = 0;
            while k < node.children.len()
                invariant
                    tree.wf(),
                    t == *tree,
                    d1 == depth + 1,
                    cur == current_path@,
                    i < tree.len(),
                    depth + (tree.len() - i) <= usize::MAX,
                    *node == tree.nodes@[i as int],
                    k <= node.children.len(),
                    html@ + children_html(t, i as int, k as int, cur, d1) == pre + children_html(
                        t,
                        i as int,
                        0,
                        cur,
                        d1,
                    ),
                decreases node.children.len() - k,
            {
                let c = node.children[k];
                assert(t.child(i as int, k as int) == c);
                let d = depth + 1;
                let sub = self.render_nav_item(tree, c, current_path, d);

                let ghost h0 = html@;
                assert(i < t.child(i as int, k as int) < t.len());
                assert(children_html(t, i as int, k as int, cur, d1) == sub@ + children_html(
                    t,
                    i as int,
                    k + 1,
                    cur,
                    d1,
                ));
                html.append(sub.as_str());
                assert((h0 + sub@) + children_html(t, i as int, k + 1, cur, d1) =~= h0 + (sub@
                    + children_html(t, i as int, k + 1, cur, d1)));
                k = k + 1;
            }
            html.append(inner.as_str());
            html.append("</ul>\n");
            assert(html@ =~= upto_label + (inner@ + "<ul>\n"@ + children_html(t, i as int, 0, cur, d1)
                + inner@ + "</ul>\n"@));
        } else {
            assert(html@ =~= upto_label + Seq::<char>::empty());
        }
        html.append(ind.as_str());
        html.append("</li>\n");
        html
    }

    fn render_item_head(depth: usize, path: &str, current_path: &str) -> (r: String)
        ensures
            r@ == item_head(depth as nat, is_active(path@, current_path@)),
    {
        let active = path.unicode_len() > 0 && same_stem(path, current_path);
        let mut html = indent(depth);
        html.append("<li");
        if active {
            html.append(" class=\"active\"");
        }
        html.append(">\n");
        html
    }

    fn render_item_label(node: &NavigationItem, depth: usize) -> (r: String)
        requires
            depth < usize::MAX,
        ensures
            r@ == item_label(node.path@, node.title@, opt_view(node.version), depth as nat),
    {
        let mut html = indent(depth + 1);
        if node.path.as_str().unicode_len() > 0 {
            let href = nav_href_exec(node.path.as_str(), &node.version);
            html.append("<a href=\"");
            html.append(href.as_str());
            html.append("\">");
            html.append(node.title.as_str());
            html.append("</a>\n");
        } else {
            html.append("<span>");
            html.append(node.title.as_str());
            html.append("</span>\n");
        }
        html
    }
}

/// The page title: the header title, else `Untitled`.
pub open spec fn page_title_of(doc: Document) -> Seq<char> {
    match doc.frontmatter.title {
        Some(t) => t@,
        None => "Untitled"@,
    }
}

/// The first of `names`, from the `k`-th on, that occurs in `tpl` at `i`, or -1.
pub open spec fn token_at(tpl: Seq<char>, names: Seq<Seq<char>>, i: int, k: int) -> int
    decreases names.len() - k,
{
    if k < 0 || k >= names.len() {
        -1
    } else if occurs_at(tpl, i, names[k]) {
        k
    } else {
        token_at(tpl, names, i, k + 1)
    }
}

/// `tpl` from position `i` on, with each token of `names` that stands there
/// replaced by the matching fragment. The scan runs over the template alone:
/// a fragment, once put in, is never scanned again.
pub open spec fn fill_from(tpl: Seq<char>, names: Seq<Seq<char>>, frags: Seq<Seq<char>>, i: int) -> Seq<
    char,
>
    decreases tpl.len() - i,
{
    if i < 0 || i >= tpl.len() {
        Seq::empty()
    } else {
        let k = token_at(tpl, names, i, 0);
        if 0 <= k < names.len() && k < frags.len() && occurs_at(tpl, i, names[k]) {
            frags[k] + fill_from(tpl, names, frags, i + names[k].len())
        } else {
            seq![tpl[i]] + fill_from(tpl, names, frags, i + 1)
        }
    }
}

/// The tokens of the base template.
pub open spec fn page_tokens() -> Seq<Seq<char>> {
    seq![
        "{{SITE_TITLE}}"@,
        "{{PAGE_TITLE}}"@,
        "{{TITLE}}"@,
        "{{CONTENT}}"@,
        "{{SIDEBAR}}"@,
        "{{BREADCRUMBS}}"@,
        "{{BACKLINKS}}"@,
        "{{VERSION_SELECTOR}}"@,
        "{{DEFAULT_THEME}}"@,
        "{{SEARCH_ENABLED}}"@,
    ]
}

/// What each token of `page_tokens` stands for on the page of `doc`.
pub open spec fn page_fragments(doc: Document, nav: NavigationTree, config: Config) -> Seq<Seq<char>> {
    let title = page_title_of(doc);
    let site = config.title@;
    let crumbs = if config.breadcrumbs {
        breadcrumbs_html(doc.relative_path@)
    } else {
        Seq::empty()
    };
    let back = if doc.backlinks@.len() > 0 {
        backlinks_html(string_views(doc.backlinks@))
    } else {
        Seq::empty()
    };
    let theme = match config.default_theme {
        Some(t) => t@,
        None => "light"@,
    };
    let search = if config.search_enabled {
        "true"@
    } else {
        "false"@
    };
    seq![
        site,
        title + " - "@ + site,
        title,
        doc.html_content@,
        sidebar_html(nav, doc.relative_path@),
        crumbs,
        back,
        version_selector_html(string_views(config.versions@), opt_view(doc.version)),
        theme,
        search,
    ]
}

/// A whole page: the base template with each of its tokens replaced by the
/// matching fragment.
pub open spec fn page_html(tpl: Seq<char>, doc: Document, nav: NavigationTree, config: Config) -> Seq<
    char,
> {
    fill_from(tpl, page_tokens(), page_fragments(doc, nav, config), 0)
}

/// Where `{{CONTENT}}` stands in the template, the page holds the body's
/// HTML verbatim, followed by the rest of the template filled in.
pub proof fn lemma_content_verbatim(
    tpl: Seq<char>,
    doc: Document,
    nav: NavigationTree,
    config: Config,
    i: int,
)
    requires
        occurs_at(tpl, i, "{{CONTENT}}"@),
    ensures
        fill_from(tpl, page_tokens(), page_fragments(doc, nav, config), i) == doc.html_content@
            + fill_from(tpl, page_tokens(), page_fragments(doc, nav, config), i + "{{CONTENT}}"@.len()),
{
    reveal_strlit("{{SITE_TITLE}}");
    reveal_strlit("{{PAGE_TITLE}}");
    reveal_strlit("{{TITLE}}");
    reveal_strlit("{{CONTENT}}");
    let names = page_tokens();
    assert(tpl[i + 2] == 'C') by {
        assert(tpl.subrange(i, i + 11)[2] == "{{CONTENT}}"@[2]);
    }
    assert(!occurs_at(tpl, i, names[0])) by {
        if occurs_at(tpl, i, names[0]) {
            assert(tpl.subrange(i, i + 14)[2] == names[0][2]);
        }
    }
    assert(!occurs_at(tpl, i, names[1])) by {
        if occurs_at(tpl, i, names[1]) {
            assert(tpl.subrange(i, i + 14)[2] == names[1][2]);
        }
    }
    assert(!occurs_at(tpl, i, names[2])) by {
        if occurs_at(tpl, i, names[2]) {
            assert(tpl.subrange(i, i + 9)[2] == names[2][2]);
        }
    }
    assert(occurs_at(tpl, i, names[3]));
    assert(token_at(tpl, names, i, 3) == 3);
    assert(token_at(tpl, names, i, 2) == 3);
    assert(token_at(tpl, names, i, 1) == 3);
    assert(token_at(tpl, names, i, 0) == 3);
}

/// `tpl` with each token of `names` replaced by the matching fragment, in
/// one scan of `tpl`.
pub fn fill_template(tpl: &str, names: &Vec<String>, frags: &Vec<String>) -> (r: String)
    requires
        names.len() == frags.len(),
    ensures
        r@ == fill_from(tpl@, string_views(names@), string_views(frags@), 0),
{
    let ghost nv = string_views(names@);
    let ghost fv = string_views(frags@);
    let t = chars_of(tpl);
    let mut ncs: Vec<Vec<char>> = Vec::new();
    let mut k: usize = 0;
    while k < names.len()
        invariant
            k <= names.len(),
            ncs.len() == k,
            nv == string_views(names@),
            forall|j: int| 0 <= j < k ==> (#[trigger] ncs@[j])@ == nv[j],
        decreases names.len() - k,
    {
        ncs.push(chars_of(names[k].as_str()));
        k = k + 1;
    }
    let mut out = String::new();
    let mut i: usize = 0;
    while i < t.len()
        invariant
            i <= t.len(),
            t@ == tpl@,
            names.len() == frags.len(),
            ncs.len() == names.len(),
            nv == string_views(names@),
            fv == string_views(frags@),
            forall|j: int| 0 <= j < ncs.len() ==> (#[trigger] ncs@[j])@ == nv[j],
            out@ + fill_from(t@, nv, fv, i as int) == fill_from(t@, nv, fv, 0),
        decreases t.len() - i,
    {
        let mut k: usize = 0;
        let mut found: Option<usize> = None;
        while k < ncs.len()
            invariant
                k <= ncs.len(),
                ncs.len() == nv.len(),
                forall|j: int| 0 <= j < ncs.len() ==> (#[trigger] ncs@[j])@ == nv[j],
                found is None ==> token_at(t@, nv, i as int, 0) == token_at(t@, nv, i as int, k as int),
                found matches Some(f) ==> f < ncs.len() && token_at(t@, nv, i as int, 0) == f
                    && occurs_at(t@, i as int, nv[f as int]),
            decreases ncs.len() - k,
        {
            if found.is_none() {
                if occurs_at_exec(&t, i, &ncs[k]) {
                    found = Some(k);
                }
            }
            k = k + 1;
        }
        let ghost o0 = out@;
        match found {
            Some(f) => {
                assert(occurs_at(t@, i as int, nv[f as int]));
                out.append(frags[f].as_str());
                assert(fv[f as int] == frags@[f as int]@);
                assert((o0 + fv[f as int]) + fill_from(t@, nv, fv, i + nv[f as int].len()) =~= o0 + (
                fv[f as int] + fill_from(t@, nv, fv, i + nv[f as int].len())));
                i = i + ncs[f].len();
            },
            None => {
                push_char(&mut out, t[i]);
                assert((o0 + seq![t@[i as int]]) + fill_from(t@, nv, fv, i + 1) =~= o0 + (seq![
                    t@[i as int],
                ] + fill_from(t@, nv, fv, i + 1)));
                i = i + 1;
            },
        }
    }
    out
}

impl TemplateEngine {
    /// The sidebar: every top-level node, depth first.
    pub fn render_sidebar(&self, navigation: &NavigationTree, current_path: &str) -> (r: String)
        requires
            navigation.wf(),
        ensures
            r@ == sidebar_html(*navigation, current_path@),
    {
        let mut html = String::from_str("<nav class=\"sidebar\">\n<ul>\n");
        let ghost pre = html@;
        let ghost t = *navigation;
        let n_nodes = navigation.nodes.len();
        let mut k: usize = 0;
        while k < navigation.items.len()
            invariant
                navigation.wf(),
                n_nodes == navigation.nodes@.len(),
                t == *navigation,
                k <= navigation.items.len(),
                html@ + roots_html(t, k as int, current_path@) == pre + roots_html(t, 0, current_path@),
            decreases navigation.items.len() - k,
        {
            let r = navigation.items[k];
            let item = self.render_nav_item(navigation, r, current_path, 0);
            let ghost h0 = html@;
            html.append(item.as_str());
            assert((h0 + item@) + roots_html(t, k + 1, current_path@) =~= h0 + (item@ + roots_html(
                t,
                k + 1,
                current_path@,
            )));
            k = k + 1;
        }
        html.append("</ul>\n</nav>");
        html
    }

    /// The breadcrumb trail: `Home`, then one link per path component.
    pub fn render_breadcrumbs(&self, path: &str) -> (r: String)
        ensures
            r@ == breadcrumbs_html(path@),
    {
        let cs = split_components(&chars_of(path));
        let ghost csv = views(cs@);
        let mut html = String::from_str("<nav class=\"breadcrumbs\">\n");
        html.append("<a href=\"/\">Home</a>");
        let ghost pre = html@;
        let mut prefix: Vec<char> = Vec::new();
        let mut k: usize = 0;
        while k < cs.len()
            invariant
                csv == views(cs@),
                csv == components(path@),
                k <= cs.len(),
                html@ == pre + crumbs(csv, k as int),
                k > 0 ==> prefix@ == join(csv.take(k as int)),
                k == 0 ==> prefix@.len() == 0,
            decreases cs.len() - k,
        {
            let ghost p0 = prefix@;
            if k > 0 {
                prefix.push('/');
            }
            let c = &cs[k];
            let mut j: usize = 0;
            let ghost p1 = prefix@;
            while j < c.len()
                invariant
                    j <= c.len(),
                    prefix@ == p1 + c@.take(j as int),
                decreases c.len() - j,
            {
                prefix.push(c[j]);
                j = j + 1;
                assert(prefix@ =~= p1 + c@.take(j as int));
            }
            assert(c@.take(j as int) =~= c@);
            assert(csv[k as int] == c@);
            proof {
                let tk = csv.take(k + 1);
                if k == 0 {
                    assert(tk.len() == 1 && tk[0] == c@);
                    assert(prefix@ =~= join(tk));
                } else {
                    assert(tk.drop_last() =~= csv.take(k as int));
                    assert(tk.last() == csv[k as int]);
                    assert(p1 == p0.push('/'));
                    assert(join(tk) == join(tk.drop_last()) + seq!['/'] + tk.last());
                    assert(prefix@ =~= join(tk));
                }
            }
            let href = html_href_exec(string_of(&prefix).as_str());
            let name = replace_str(string_of(c).as_str(), ".html", "");
            let ghost h0 = html@;
            html.append(" / <a href=\"");
            html.append("/");
            html.append(href.as_str());
            html.append("\">");
            html.append(name.as_str());
            html.append("</a>");
            assert(html@ =~= h0 + crumb(csv, k as int));
            k = k + 1;
        }
        html.append("\n</nav>");
        html
    }

    /// The backlinks section, one entry per backlink.
    pub fn render_backlinks(&self, backlinks: &Vec<String>) -> (r: String)
        ensures
            r@ == backlinks_html(string_views(backlinks@)),
    {
        let ghost ls = string_views(backlinks@);
        let mut html = String::from_str(
            "<div class=\"backlinks\">\n<h3>Pages that link here</h3>\n<ul>\n",
        );
        let ghost pre = html@;
        let mut k: usize = 0;
        while k < backlinks.len()
            invariant
                ls == string_views(backlinks@),
                k <= backlinks.len(),
                html@ == pre + backlink_items(ls, k as int),
            decreases backlinks.len() - k,
        {
            let link = &backlinks[k];
            let slug = ContentProcessor::slug(link.as_str());
            let ghost h0 = html@;
            html.append("<li><a href=\"#");
            html.append(slug.as_str());
            html.append("\">");
            html.append(link.as_str());
            html.append("</a></li>\n");
            assert(ls[k as int] == link@);
            assert(html@ =~= h0 + backlink_item(ls[k as int]));
            k = k + 1;
        }
        html.append("</ul>\n</div>");
        assert(backlinks@.len() == ls.len());
        html
    }

    /// The version selector, marking the page's version as selected; empty
    /// unless more than one version is configured.
    pub fn render_version_selector(&self, versions: &Vec<String>, current_version: &Option<String>) -> (r: String)
        ensures
            r@ == version_selector_html(string_views(versions@), opt_view(*current_version)),
    {
        let ghost vs = string_views(versions@);
        let ghost cur = opt_view(*current_version);
        if versions.len() <= 1 {
            return String::new();
        }
        let mut html = String::from_str(
            "<select id=\"version-selector\" onchange=\"switchVersion(this.value)\">\n",
        );
        let ghost pre = html@;
        let mut k: usize = 0;
        while k < versions.len()
            invariant
                vs == string_views(versions@),
                cur == opt_view(*current_version),
                k <= versions.len(),
                html@ == pre + version_options(vs, cur, k as int),
            decreases versions.len() - k,
        {
            let v = &versions[k];
            let selected = match current_version {
                Some(c) => chars_eq(&chars_of(c.as_str()), &chars_of(v.as_str())),
                None => false,
            };
            let ghost h0 = html@;
            html.append("<option value=\"");
            html.append(v.as_str());
            html.append("\"");
            if selected {
                html.append(" selected");
            }
            html.append(">");
            html.append(v.as_str());
            html.append("</option>\n");
            assert(vs[k as int] == v@);
            assert(html@ =~= h0 + version_option(vs[k as int], cur));
            k = k + 1;
        }
        html.append("</select>");
        html
    }

    /// The whole page of `doc`.
    pub fn render(&self, doc: &Document, navigation: &NavigationTree, config: &Config) -> (r: String)
        requires
            navigation.wf(),
        ensures
            r@ == page_html(self.base_template@, *doc, *navigation, *config),
    {
        let title = match &doc.frontmatter.title {
            Some(t) => t.clone(),
            None => String::from_str("Untitled"),
        };
        let mut page_title = title.clone();
        page_title.append(" - ");
        page_title.append(config.title.as_str());
        let sidebar = self.render_sidebar(navigation, doc.relative_path.as_str());
        let crumbs = if config.breadcrumbs {
            self.render_breadcrumbs(doc.relative_path.as_str())
        } else {
            String::new()
        };
        let back = if doc.backlinks.len() > 0 {
            self.render_backlinks(&doc.backlinks)
        } else {
            String::new()
        };
        let vsel = self.render_version_selector(&config.versions, &doc.version);
        let theme = match &config.default_theme {
            Some(t) => t.clone(),
            None => String::from_str("light"),
        };
        let search = if config.search_enabled {
            "true"
        } else {
            "false"
        };
        let names = vec![
            String::from_str("{{SITE_TITLE}}"),
            String::from_str("{{PAGE_TITLE}}"),
            String::from_str("{{TITLE}}"),
            String::from_str("{{CONTENT}}"),
            String::from_str("{{SIDEBAR}}"),
            String::from_str("{{BREADCRUMBS}}"),
            String::from_str("{{BACKLINKS}}"),
            String::from_str("{{VERSION_SELECTOR}}"),
            String::from_str("{{DEFAULT_THEME}}"),
            String::from_str("{{SEARCH_ENABLED}}"),
        ];
        let frags = vec![
            config.title.clone(),
            page_title,
            title,
            doc.html_content.clone(),
            sidebar,
            crumbs,
            back,
            vsel,
            theme,
            String::from_str(search),
        ];
        assert(string_views(names@) =~= page_tokens());
        assert(string_views(frags@) =~= page_fragments(*doc, *navigation, *config));
        fill_template(self.base_template.as_str(), &names, &frags)
    }
}

} // verus!
