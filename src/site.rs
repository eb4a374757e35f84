//! Assembling a site from processed documents: which files are documents,
//! the order of documents, the search index, and the rendered pages.

use vstd::prelude::*;
use crate::backlinks::{incoming, label, process_backlinks, same_but_backlinks};
use crate::content::Document;
use crate::homes::single_home;
use crate::navigation::{
    build_navigation, document_leaves, document_paths, leaves, placed_under_dirs, NavigationTree,
};
use crate::paths::{components, html_path, last_dot, last_dot_before, split_components, stem_chars, stem_of, views};
use crate::templates::{page_html, Config, TemplateEngine};
use crate::text::{chars_eq, chars_of, slice_chars, string_of, string_views};

verus! {

broadcast use vstd::string::group_string_axioms;

/// The extension of a file name: what follows its last dot, unless that
/// dot leads the name.
pub open spec fn extension_of(name: Seq<char>) -> Option<Seq<char>> {
    let d = last_dot_before(name, name.len() as int);
    if d <= 0 {
        None
    } else {
        Some(name.skip(d + 1))
    }
}

/// A file is a document when its extension is `md`, `rst`, `txt` or `adoc`.
pub open spec fn is_document_path(path: Seq<char>) -> bool {
    let cs = components(path);
    cs.len() > 0 && match extension_of(cs.last()) {
        Some(e) => e == "md"@ || e == "rst"@ || e == "txt"@ || e == "adoc"@,
        None => false,
    }
}

/// Whether the file at `path` is a document.
pub fn is_document_file(path: &str) -> (r: bool)
    ensures
        r == is_document_path(path@),
{
    let cs = split_components(&chars_of(path));
    if cs.len() == 0 {
        return false;
    }
    let name = &cs[cs.len() - 1];
    assert(name@ == components(path@).last());
    match last_dot(name) {
        Some(d) if d > 0 => {
            let e = slice_chars(name, d + 1, name.len());
            assert(e@ =~= name@.skip(d + 1));
            chars_eq(&e, &chars_of("md")) || chars_eq(&e, &chars_of("rst")) || chars_eq(
                &e,
                &chars_of("txt"),
            ) || chars_eq(&e, &chars_of("adoc"))
        },
        _ => false,
    }
}

/// The ordering number of a document; one without gets 999.
pub open spec fn order_key(d: Document) -> u32 {
    match d.frontmatter.order {
        Some(o) => o,
        None => 999,
    }
}

/// The first position at or after `j` whose document orders after key `k`.
pub open spec fn insert_pos(s: Seq<Document>, k: u32, j: int) -> int
    decreases s.len() - j,
{
    if j < 0 || j >= s.len() {
        s.len() as int
    } else if order_key(s[j]) > k {
        j
    } else {
        insert_pos(s, k, j + 1)
    }
}

/// `x` placed after every document of `s` that does not order after it.
pub open spec fn insert_sorted(s: Seq<Document>, x: Document) -> Seq<Document> {
    s.insert(insert_pos(s, order_key(x), 0), x)
}

/// The first `n` documents, sorted by ordering number, ties in their order.
pub open spec fn sorted_upto(s: Seq<Document>, n: int) -> Seq<Document>
    decreases n,
{
    if n <= 0 {
        Seq::empty()
    } else {
        insert_sorted(sorted_upto(s, n - 1), s[n - 1])
    }
}

/// The documents sorted by ordering number, ties in their order.
pub open spec fn stable_sorted(s: Seq<Document>) -> Seq<Document> {
    sorted_upto(s, s.len() as int)
}

/// The documents come in ascending order of ordering number.
pub open spec fn sorted_by_order(s: Seq<Document>) -> bool {
    forall|i: int, j: int| 0 <= i < j < s.len() ==> order_key(s[i]) <= order_key(s[j])
}

proof fn lemma_insert_pos(s: Seq<Document>, k: u32, from: int)
    requires
        0 <= from <= s.len(),
    ensures
        from <= insert_pos(s, k, from) <= s.len(),
        forall|i: int| from <= i < insert_pos(s, k, from) ==> order_key(#[trigger] s[i]) <= k,
        insert_pos(s, k, from) < s.len() ==> order_key(s[insert_pos(s, k, from)]) > k,
    decreases s.len() - from,
{
    if from < s.len() && order_key(s[from]) <= k {
        lemma_insert_pos(s, k, from + 1);
    }
}

proof fn lemma_insert_keeps_sorted(s: Seq<Document>, x: Document)
    requires
        sorted_by_order(s),
    ensures
        sorted_by_order(insert_sorted(s, x)),
        insert_sorted(s, x).len() == s.len() + 1,
{
    let k = order_key(x);
    lemma_insert_pos(s, k, 0);
    let j = insert_pos(s, k, 0);
    let r = insert_sorted(s, x);
    assert forall|a: int, b: int| 0 <= a < b < r.len() implies order_key(r[a]) <= order_key(r[b]) by {
        if b < j {
            assert(r[a] == s[a] && r[b] == s[b]);
        } else if b == j {
            assert(r[a] == s[a]);
        } else if a < j {
            assert(r[a] == s[a] && r[b] == s[b - 1]);
            assert(order_key(s[j]) > k);
            assert(order_key(s[a]) <= k);
        } else if a == j {
            assert(r[b] == s[b - 1]);
            assert(order_key(s[j]) > k);
            if b - 1 > j {
                assert(order_key(s[j]) <= order_key(s[b - 1]));
            }
        } else {
            assert(r[a] == s[a - 1] && r[b] == s[b - 1]);
        }
    }
}

proof fn lemma_sorted_upto(s: Seq<Document>, n: int)
    requires
        0 <= n <= s.len(),
    ensures
        sorted_by_order(sorted_upto(s, n)),
    decreases n,
{
    if n > 0 {
        lemma_sorted_upto(s, n - 1);
        lemma_insert_keeps_sorted(sorted_upto(s, n - 1), s[n - 1]);
    }
}

fn key_of(d: &Document) -> (k: u32)
    ensures
        k == order_key(*d),
{
    match d.frontmatter.order {
        Some(o) => o,
        None => 999,
    }
}

/// Sorts documents by ordering number, keeping the order of ties.
pub fn sort_documents(documents: Vec<Document>) -> (r: Vec<Document>)
    ensures
        r@ == stable_sorted(documents@),
        sorted_by_order(r@),
{
    let ghost orig = documents@;
    let mut rest = documents;
    let mut out: Vec<Document> = Vec::new();
    let n = rest.len();
    let mut i: usize = 0;
    while i < n
        invariant
            n == orig.len(),
            i <= n,
            rest@ == orig.skip(i as int),
            out@ == sorted_upto(orig, i as int),
        decreases n - i,
    {
        let x = rest.remove(0);
        assert(x == orig[i as int]);
        let k = key_of(&x);
        let mut j: usize = 0;
        while j < out.len() && key_of(&out[j]) <= k
            invariant
                j <= out.len(),
                insert_pos(out@, k, 0) == insert_pos(out@, k, j as int),
            decreases out.len() - j,
        {
            j = j + 1;
        }
        out.insert(j, x);
        assert(rest@ =~= orig.skip(i + 1));
        i = i + 1;
    }
    assert(orig.skip(n as int).len() == 0);
    proof {
        lemma_sorted_upto(orig, n as int);
    }
    out
}

/// The hexadecimal digit of `n`, lower case.
pub open spec fn hex_digit(n: int) -> char {
    seq!['0', '1', '2', '3', '4', '5', '6', '7', '8', '9', 'a', 'b', 'c', 'd', 'e', 'f'][n]
}

/// How a JSON string writes one character.
pub open spec fn json_char(c: char) -> Seq<char> {
    if c == '"' {
        seq!['\\', '"']
    } else if c == '\\' {
        seq!['\\', '\\']
    } else if c == '\n' {
        seq!['\\', 'n']
    } else if c == '\r' {
        seq!['\\', 'r']
    } else if c == '\t' {
        seq!['\\', 't']
    } else if c == '\x08' {
        seq!['\\', 'b']
    } else if c == '\x0c' {
        seq!['\\', 'f']
    } else if (c as u32) < 0x20 {
        seq!['\\', 'u', '0', '0', hex_digit((c as int) / 16), hex_digit((c as int) % 16)]
    } else {
        seq![c]
    }
}

/// The characters of `s` escaped for a JSON string.
pub open spec fn json_escape(s: Seq<char>) -> Seq<char>
    decreases s.len(),
{
    if s.len() == 0 {
        Seq::empty()
    } else {
        json_escape(s.drop_last()) + json_char(s.last())
    }
}

/// `s` as a JSON string literal.
pub open spec fn json_quote(s: Seq<char>) -> Seq<char> {
    seq!['"'] + json_escape(s) + seq!['"']
}

/// Relies on `serde_json::to_string` for a `str`: a quoted JSON string that
/// escapes `"`, `\`, and the control characters below U+0020 (short forms
/// for backspace, tab, line feed, form feed, carriage return; `\u00xx`
/// otherwise). Writing a `str` into a `Vec<u8>` does not fail.
#[verifier::external_body]
fn json_string(s: &str) -> (r: String)
    ensures
        r@ == json_quote(s@),
{
    serde_json::to_string(s).unwrap_or_default()
}

/// The search index entry of one document, keys in sorted order.
pub open spec fn search_entry(d: Document) -> Seq<char> {
    "{\"content\":"@ + json_quote(d.content@) + ",\"path\":"@ + json_quote(d.relative_path@)
        + ",\"title\":"@ + json_quote(label(d)) + ",\"version\":"@ + match d.version {
        Some(v) => json_quote(v@),
        None => "null"@,
    } + "}"@
}

/// The entries of the first `n` documents, separated by commas.
pub open spec fn search_entries(docs: Seq<Document>, n: int) -> Seq<char>
    decreases n,
{
    if n <= 0 {
        Seq::empty()
    } else if n == 1 {
        search_entry(docs[0])
    } else {
        search_entries(docs, n - 1) + ","@ + search_entry(docs[n - 1])
    }
}

/// The search index: a JSON array with one entry per document.
pub open spec fn search_index_spec(docs: Seq<Document>) -> Seq<char> {
    "["@ + search_entries(docs, docs.len() as int) + "]"@
}

fn search_entry_json(d: &Document) -> (r: String)
    ensures
        r@ == search_entry(*d),
{
    let mut out = String::from_str("{\"content\":");
    out.append(json_string(d.content.as_str()).as_str());
    out.append(",\"path\":");
    out.append(json_string(d.relative_path.as_str()).as_str());
    out.append(",\"title\":");
    let title = match &d.frontmatter.title {
        Some(t) => json_string(t.as_str()),
        None => json_string(d.relative_path.as_str()),
    };
    out.append(title.as_str());
    out.append(",\"version\":");
    match &d.version {
        Some(v) => out.append(json_string(v.as_str()).as_str()),
        None => out.append("null"),
    }
    out.append("}");
    out
}

/// The search index of the documents.
pub fn generate_search_index(documents: &Vec<Document>) -> (r: String)
    ensures
        r@ == search_index_spec(documents@),
{
    let mut out = String::from_str("[");
    let ghost pre = out@;
    let mut k: usize = 0;
    while k < documents.len()
        invariant
            k <= documents.len(),
            out@ == pre + search_entries(documents@, k as int),
        decreases documents.len() - k,
    {
        let ghost o0 = out@;
        if k > 0 {
            out.append(",");
        }
        let entry = search_entry_json(&documents[k]);
        out.append(entry.as_str());
        proof {
            if k == 0 {
                assert(out@ =~= o0 + search_entry(documents@[0]));
            } else {
                assert(out@ =~= o0 + ","@ + search_entry(documents@[k as int]));
            }
        }
        k = k + 1;
    }
    out.append("]");
    out
}

/// Where the page of the document at `relative_path` is written, below the
/// output root: the same path with the extension `html`.
pub fn output_path(relative_path: &str) -> (r: String)
    ensures
        r@ == html_path(relative_path@),
{
    let mut cs = split_components(&chars_of(relative_path));
    if cs.len() == 0 {
        return String::from_str(relative_path);
    }
    let ghost csv = views(cs@);
    let last = cs.pop().unwrap();
    assert(views(cs@) =~= csv.drop_last());
    assert(last@ == csv.last());
    let mut name = stem_chars(&last);
    let ext = chars_of(".html");
    let mut k: usize = 0;
    let ghost n0 = name@;
    while k < ext.len()
        invariant
            k <= ext.len(),
            name@ == n0 + ext@.take(k as int),
        decreases ext.len() - k,
    {
        name.push(ext[k]);
        k = k + 1;
        assert(name@ =~= n0 + ext@.take(k as int));
    }
    assert(ext@.take(k as int) =~= ext@);
    proof {
        reveal_strlit(".html");
    }
    assert(ext@ =~= seq!['.', 'h', 't', 'm', 'l']);
    let ghost before = views(cs@);
    cs.push(name);
    assert(views(cs@) =~= before.push(name@));
    assert(views(cs@) =~= csv.drop_last().push(stem_of(csv.last()) + seq!['.', 'h', 't', 'm', 'l']));
    string_of(&crate::paths::join_components(&cs))
}

/// One rendered page and where it goes below the output root.
pub struct Page {
    pub path: String,
    pub html: String,
}

/// The pages of the documents, one per document, in their order.
pub fn render_pages(
    documents: &Vec<Document>,
    navigation: &NavigationTree,
    config: &Config,
    engine: &TemplateEngine,
) -> (r: Vec<Page>)
    requires
        navigation.wf(),
    ensures
        r.len() == documents.len(),
        forall|k: int|
            0 <= k < r.len() ==> (#[trigger] r@[k]).path@ == html_path(documents@[k].relative_path@)
                && r@[k].html@ == page_html(
                engine.base_template@,
                documents@[k],
                *navigation,
                *config,
            ),
{
    let mut pages: Vec<Page> = Vec::new();
    let mut k: usize = 0;
    while k < documents.len()
        invariant
            navigation.wf(),
            k <= documents.len(),
            pages.len() == k,
            forall|j: int|
                0 <= j < k ==> (#[trigger] pages@[j]).path@ == html_path(
                    documents@[j].relative_path@,
                ) && pages@[j].html@ == page_html(
                    engine.base_template@,
                    documents@[j],
                    *navigation,
                    *config,
                ),
        decreases documents.len() - k,
    {
        let d = &documents[k];
        let page = Page {
            path: output_path(d.relative_path.as_str()),
            html: engine.render(d, navigation, config),
        };
        pages.push(page);
        k = k + 1;
    }
    pages
}

/// Everything a build writes, before it is written.
pub struct Site {
    /// The documents, sorted, with backlinks filled in.
    pub documents: Vec<Document>,
    pub navigation: NavigationTree,
    pub search_index: String,
    pub pages: Vec<Page>,
}

/// A full build from the processed documents: sort them, fill the
/// backlinks, build the navigation, the search index and every page.
pub fn build_site(documents: Vec<Document>, config: &Config, engine: &TemplateEngine) -> (r: Site)
    ensures
        r.documents.len() == documents.len(),
        forall|t: int|
            0 <= t < r.documents.len() ==> same_but_backlinks(
                stable_sorted(documents@)[t],
                #[trigger] r.documents@[t],
            ) && string_views(r.documents@[t].backlinks@) == string_views(
                stable_sorted(documents@)[t].backlinks@,
            ) + incoming(stable_sorted(documents@), t, documents.len() as int),
        sorted_by_order(r.documents@),
        r.navigation.wf(),
        r.navigation.leaf_paths() == document_paths(r.documents@),
        leaves(r.navigation) == document_leaves(r.documents@, r.documents.len() as int),
        r.navigation.dirs_unique(),
        single_home(r.navigation),
        placed_under_dirs(r.navigation, r.documents@, r.documents.len() as int),
        r.search_index@ == search_index_spec(r.documents@),
        r.pages.len() == r.documents.len(),
        forall|k: int|
            0 <= k < r.pages.len() ==> (#[trigger] r.pages@[k]).path@ == html_path(
                r.documents@[k].relative_path@,
            ) && r.pages@[k].html@ == page_html(
                engine.base_template@,
                r.documents@[k],
                r.navigation,
                *config,
            ),
{
    let sorted = sort_documents(documents);
    proof {
        lemma_sorted_len(documents@, documents@.len() as int);
    }
    let ghost sv = sorted@;
    let docs = process_backlinks(sorted);
    assert forall|i: int, j: int| 0 <= i < j < docs@.len() implies order_key(docs@[i]) <= order_key(
        docs@[j],
    ) by {
        assert(same_but_backlinks(sv[i], docs@[i]));
        assert(same_but_backlinks(sv[j], docs@[j]));
    }
    let navigation = build_navigation(&docs);
    let search_index = generate_search_index(&docs);
    let pages = render_pages(&docs, &navigation, config, engine);
    Site { documents: docs, navigation, search_index, pages }
}

proof fn lemma_sorted_len(s: Seq<Document>, n: int)
    requires
        0 <= n <= s.len(),
    ensures
        sorted_upto(s, n).len() == n,
    decreases n,
{
    if n > 0 {
        lemma_sorted_len(s, n - 1);
        lemma_insert_pos_bound(sorted_upto(s, n - 1), order_key(s[n - 1]), 0);
    }
}

proof fn lemma_insert_pos_bound(s: Seq<Document>, k: u32, j: int)
    requires
        0 <= j <= s.len(),
    ensures
        j <= insert_pos(s, k, j) <= s.len(),
    decreases s.len() - j,
{
    if j < s.len() {
        lemma_insert_pos_bound(s, k, j + 1);
    }
}

} // verus!
