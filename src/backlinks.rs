//! The backlink pass: each link that resolves to a document adds the
//! linking document's label to that document's backlinks.

use vstd::prelude::*;
use crate::content::Document;
use crate::text::{chars_eq, chars_of, lower_of, lowercase, string_views};

verus! {

/// A document answers to `key` by its lowercased title or its lowercased path.
pub open spec fn answers_to(doc: Document, key: Seq<char>) -> bool {
    ||| (doc.frontmatter.title matches Some(t) && lower_of(t@) == key)
    ||| lower_of(doc.relative_path@) == key
}

/// The last of the first `n` documents that answers to `key`.
pub open spec fn resolve_upto(docs: Seq<Document>, key: Seq<char>, n: int) -> Option<int>
    decreases n,
{
    if n <= 0 {
        None
    } else if answers_to(docs[n - 1], key) {
        Some(n - 1)
    } else {
        resolve_upto(docs, key, n - 1)
    }
}

/// The document a link with lowercased target `key` resolves to: when
/// several answer to it, the last one.
pub open spec fn resolve(docs: Seq<Document>, key: Seq<char>) -> Option<int> {
    resolve_upto(docs, key, docs.len() as int)
}

/// How a document is named in another's backlinks: its title, else its path.
pub open spec fn label(doc: Document) -> Seq<char> {
    match doc.frontmatter.title {
        Some(t) => t@,
        None => doc.relative_path@,
    }
}

/// The labels that the first `m` links of document `s` add to document `t`.
pub open spec fn links_to(docs: Seq<Document>, t: int, s: int, m: int) -> Seq<Seq<char>>
    decreases m,
{
    if m <= 0 {
        Seq::empty()
    } else {
        links_to(docs, t, s, m - 1) + if resolve(docs, lower_of(docs[s].links@[m - 1]@)) == Some(
            t,
        ) {
            seq![label(docs[s])]
        } else {
            Seq::<Seq<char>>::empty()
        }
    }
}

/// The labels that documents before `u` add to document `t`, by source, then by link.
pub open spec fn incoming(docs: Seq<Document>, t: int, u: int) -> Seq<Seq<char>>
    decreases u,
{
    if u <= 0 {
        Seq::empty()
    } else {
        incoming(docs, t, u - 1) + links_to(docs, t, u - 1, docs[u - 1].links@.len() as int)
    }
}

/// `b` is `a` with backlinks added: every other field is kept.
pub open spec fn same_but_backlinks(a: Document, b: Document) -> bool {
    &&& b.frontmatter == a.frontmatter
    &&& b.content == a.content
    &&& b.html_content == a.html_content
    &&& b.path == a.path
    &&& b.relative_path == a.relative_path
    &&& b.version == a.version
    &&& b.links == a.links
}

/// A link from `a` that resolves to `b` puts `a`'s label among the labels
/// that the pass adds to `b`.
pub proof fn lemma_backlink_complete(docs: Seq<Document>, a: int, l: int, b: int)
    requires
        0 <= a < docs.len(),
        0 <= l < docs[a].links@.len(),
        resolve(docs, lower_of(docs[a].links@[l]@)) == Some(b),
    ensures
        incoming(docs, b, docs.len() as int).contains(label(docs[a])),
{
    lemma_links_to_contains(docs, b, a, l, docs[a].links@.len() as int);
    lemma_incoming_contains(docs, b, a, docs.len() as int);
}

proof fn lemma_links_to_contains(docs: Seq<Document>, t: int, s: int, l: int, m: int)
    requires
        0 <= s < docs.len(),
        0 <= l < m <= docs[s].links@.len(),
        resolve(docs, lower_of(docs[s].links@[l]@)) == Some(t),
    ensures
        links_to(docs, t, s, m).contains(label(docs[s])),
    decreases m,
{
    let prev = links_to(docs, t, s, m - 1);
    let whole = links_to(docs, t, s, m);
    if l < m - 1 {
        lemma_links_to_contains(docs, t, s, l, m - 1);
        let i = choose|i: int| 0 <= i < prev.len() && prev[i] == label(docs[s]);
        assert(whole[i] == prev[i]);
    } else {
        assert(whole[prev.len() as int] == label(docs[s]));
    }
}

proof fn lemma_incoming_contains(docs: Seq<Document>, t: int, s: int, u: int)
    requires
        0 <= s < u <= docs.len(),
        links_to(docs, t, s, docs[s].links@.len() as int).contains(label(docs[s])),
    ensures
        incoming(docs, t, u).contains(label(docs[s])),
    decreases u,
{
    let prev = incoming(docs, t, u - 1);
    let whole = incoming(docs, t, u);
    if s < u - 1 {
        lemma_incoming_contains(docs, t, s, u - 1);
        let i = choose|i: int| 0 <= i < prev.len() && prev[i] == label(docs[s]);
        assert(whole[i] == prev[i]);
    } else {
        let own = links_to(docs, t, s, docs[s].links@.len() as int);
        let i = choose|i: int| 0 <= i < own.len() && own[i] == label(docs[s]);
        assert(whole[prev.len() + i] == own[i]);
    }
}

/// `titles` and `paths` hold, for each document, its lowercased title (if it
/// has one) and its lowercased path.
pub open spec fn keys_match(
    docs: Seq<Document>,
    titles: Seq<Option<Vec<char>>>,
    paths: Seq<Vec<char>>,
) -> bool {
    &&& titles.len() == docs.len()
    &&& paths.len() == docs.len()
    &&& forall|j: int|
        0 <= j < docs.len() ==> match (#[trigger] docs[j]).frontmatter.title {
            Some(t) => titles[j] matches Some(k) && k@ == lower_of(t@),
            None => titles[j] is None,
        }
    &&& forall|j: int| 0 <= j < docs.len() ==> (#[trigger] paths[j])@ == lower_of(docs[j].relative_path@)
}

/// The lookup keys of each document: lowercased title and lowercased path.
fn lookup_keys(docs: &Vec<Document>) -> (r: (Vec<Option<Vec<char>>>, Vec<Vec<char>>))
    ensures
        keys_match(docs@, r.0@, r.1@),
{
    let mut titles: Vec<Option<Vec<char>>> = Vec::new();
    let mut paths: Vec<Vec<char>> = Vec::new();
    let mut j: usize = 0;
    while j < docs.len()
        invariant
            j <= docs.len(),
            titles.len() == j,
            paths.len() == j,
            forall|i: int|
                0 <= i < j ==> match (#[trigger] docs@[i]).frontmatter.title {
                    Some(t) => titles@[i] matches Some(k) && k@ == lower_of(t@),
                    None => titles@[i] is None,
                },
            forall|i: int| 0 <= i < j ==> (#[trigger] paths@[i])@ == lower_of(docs@[i].relative_path@),
        decreases docs.len() - j,
    {
        let doc = &docs[j];
        let t = match &doc.frontmatter.title {
            Some(t) => Some(chars_of(lowercase(t.as_str()).as_str())),
            None => None,
        };
        titles.push(t);
        paths.push(chars_of(lowercase(doc.relative_path.as_str()).as_str()));
        j = j + 1;
    }
    assert(keys_match(docs@, titles@, paths@));
    (titles, paths)
}

/// The document that `key` resolves to, by the keys of `lookup_keys`.
fn resolve_exec(
    docs: &Vec<Document>,
    titles: &Vec<Option<Vec<char>>>,
    paths: &Vec<Vec<char>>,
    key: &Vec<char>,
) -> (r: Option<usize>)
    requires
        titles.len() == docs.len(),
        paths.len() == docs.len(),
        keys_match(docs@, titles@, paths@),
    ensures
        r matches Some(t) ==> t < docs.len(),
        match r {
            Some(t) => resolve(docs@, key@) == Some(t as int),
            None => resolve(docs@, key@) is None,
        },
{
    let mut n: usize = docs.len();
    while n > 0
        invariant
            n <= docs.len(),
            titles.len() == docs.len(),
            paths.len() == docs.len(),
            keys_match(docs@, titles@, paths@),
            resolve(docs@, key@) == resolve_upto(docs@, key@, n as int),
        decreases n,
    {
        let j = n - 1;
        let by_title = match &titles[j] {
            Some(k) => chars_eq(k, key),
            None => false,
        };
        assert(docs@[j as int] == docs@[j as int]);
        assert(paths@[j as int] == paths@[j as int]);
        if by_title || chars_eq(&paths[j], key) {
            return Some(j);
        }
        n = j;
    }
    None
}

proof fn lemma_resolve_same(a: Seq<Document>, b: Seq<Document>, key: Seq<char>, n: int)
    requires
        a.len() == b.len(),
        n <= a.len(),
        forall|t: int| 0 <= t < b.len() ==> same_but_backlinks(a[t], #[trigger] b[t]),
    ensures
        resolve_upto(a, key, n) == resolve_upto(b, key, n),
    decreases n,
{
    if n > 0 {
        assert(same_but_backlinks(a[n - 1], b[n - 1]));
        lemma_resolve_same(a, b, key, n - 1);
    }
}

/// Fills the backlinks: for each document in order, for each of its links
/// in order, when the lowercased target resolves to a document, that
/// document gets the linking document's label appended.
pub fn process_backlinks(documents: Vec<Document>) -> (r: Vec<Document>)
    ensures
        r.len() == documents.len(),
        forall|t: int| 0 <= t < r.len() ==> same_but_backlinks(documents@[t], #[trigger] r@[t]),
        forall|t: int|
            0 <= t < r.len() ==> string_views((#[trigger] r@[t]).backlinks@) == string_views(
                documents@[t].backlinks@,
            ) + incoming(documents@, t, documents.len() as int),
{
    let ghost orig = documents@;
    let mut documents = documents;
    let (titles, paths) = lookup_keys(&documents);
    let mut s: usize = 0;
    while s < documents.len()
        invariant
            s <= documents.len() == orig.len(),
            titles.len() == documents.len(),
            paths.len() == documents.len(),
            keys_match(orig, titles@, paths@),
            forall|t: int| 0 <= t < documents.len() ==> same_but_backlinks(orig[t], #[trigger] documents@[t]),
            forall|t: int|
                0 <= t < documents.len() ==> string_views((#[trigger] documents@[t]).backlinks@)
                    == string_views(orig[t].backlinks@) + incoming(orig, t, s as int),
        decreases orig.len() - s,
    {
        let n_links = documents[s].links.len();
        let mut m: usize = 0;
        while m < n_links
            invariant
                s < documents.len() == orig.len(),
                m <= n_links == orig[s as int].links@.len(),
                titles.len() == documents.len(),
                paths.len() == documents.len(),
                keys_match(orig, titles@, paths@),
                forall|t: int| 0 <= t < documents.len() ==> same_but_backlinks(orig[t], #[trigger] documents@[t]),
                forall|t: int|
                    0 <= t < documents.len() ==> string_views((#[trigger] documents@[t]).backlinks@)
                        == string_views(orig[t].backlinks@) + incoming(orig, t, s as int)
                        + links_to(orig, t, s as int, m as int),
            decreases n_links - m,
        {
            let key = chars_of(lowercase(documents[s].links[m].as_str()).as_str());
            proof {
                lemma_resolve_same(orig, documents@, key@, orig.len() as int);
                assert(documents@[s as int].links == orig[s as int].links);
            }
            let target = resolve_exec(&documents, &titles, &paths, &key);
            let ghost before = documents@;
            let ghost lbl = label(orig[s as int]);
            match target {
                Some(t) => {
                    let lab = match &documents[s].frontmatter.title {
                        Some(x) => x.clone(),
                        None => documents[s].relative_path.clone(),
                    };
                    assert(lab@ == lbl);
                    documents[t].backlinks.push(lab);
                    proof {
                        assert forall|u: int| 0 <= u < documents.len() implies same_but_backlinks(
                            orig[u],
                            #[trigger] documents@[u],
                        ) by {
                            assert(same_but_backlinks(orig[u], before[u]));
                        }
                        assert forall|u: int| 0 <= u < documents.len() implies string_views(
                            (#[trigger] documents@[u]).backlinks@,
                        ) == string_views(orig[u].backlinks@) + incoming(orig, u, s as int) + links_to(
                            orig,
                            u,
                            s as int,
                            m + 1,
                        ) by {
                            assert(string_views(before[u].backlinks@) == string_views(
                                orig[u].backlinks@,
                            ) + incoming(orig, u, s as int) + links_to(orig, u, s as int, m as int));
                            if u == t {
                                assert(string_views(documents@[u].backlinks@) =~= string_views(
                                    before[u].backlinks@,
                                ).push(lbl));
                            } else {
                                assert(documents@[u] == before[u]);
                            }
                        }
                    }
                },
                None => {
                    proof {
                        assert forall|u: int| 0 <= u < documents.len() implies string_views(
                            (#[trigger] documents@[u]).backlinks@,
                        ) == string_views(orig[u].backlinks@) + incoming(orig, u, s as int) + links_to(
                            orig,
                            u,
                            s as int,
                            m + 1,
                        ) by {
                            assert(links_to(orig, u, s as int, m + 1) =~= links_to(
                                orig,
                                u,
                                s as int,
                                m as int,
                            ));
                        }
                    }
                },
            }
            m = m + 1;
        }
        proof {
            assert forall|u: int| 0 <= u < documents.len() implies string_views(
                (#[trigger] documents@[u]).backlinks@,
            ) == string_views(orig[u].backlinks@) + incoming(orig, u, s + 1) by {
                assert(string_views(orig[u].backlinks@) + incoming(orig, u, s as int) + links_to(
                    orig,
                    u,
                    s as int,
                    n_links as int,
                ) =~= string_views(orig[u].backlinks@) + incoming(orig, u, s + 1));
            }
        }
        s = s + 1;
    }
    documents
}

} // verus!
