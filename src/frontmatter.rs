//! Metadata headers at the start of a document.

use vstd::prelude::*;
use crate::content::ContentProcessor;
use crate::text::{
    chars_of, occurs_at, occurs_at_exec, slice_chars, starts_with, starts_with_exec, string_of,
};

verus! {

/// A value of a header field that the library does not read.
#[verifier::external_type_specification]
#[verifier::external_body]
pub struct ExYamlValue(serde_yaml::Value);

/// The metadata header of a document; every field may be absent.
pub struct Frontmatter {
    pub title: Option<String>,
    pub version: Option<String>,
    pub tags: Option<Vec<String>>,
    pub author: Option<String>,
    pub description: Option<String>,
    pub order: Option<u32>,
    /// The other fields of the header, values kept as read; see `keys_unique`.
    pub extra: Vec<(String, serde_yaml::Value)>,
}

impl Frontmatter {
    /// The header with every field absent.
    pub fn empty() -> (r: Frontmatter)
        ensures
            r.is_empty_header(),
            r.keys_unique(),
    {
        Frontmatter {
            title: None,
            version: None,
            tags: None,
            author: None,
            description: None,
            order: None,
            extra: Vec::new(),
        }
    }
}

} // verus!

verus! {

/// The three header conventions, told apart by their opening line.
#[derive(PartialEq, Eq, Structural, Clone, Copy, Debug)]
pub enum HeaderFormat {
    /// `---` lines around a YAML header.
    Yaml,
    /// A fenced block tagged `json`.
    Json,
    /// `+++` lines around a TOML header.
    Toml,
}

/// The line that opens a header of format `f`.
pub open spec fn opener(f: HeaderFormat) -> Seq<char> {
    match f {
        HeaderFormat::Yaml => "---\n"@,
        HeaderFormat::Json => "```json\n"@,
        HeaderFormat::Toml => "+++\n"@,
    }
}

/// What closes a header of format `f`.
pub open spec fn closer(f: HeaderFormat) -> Seq<char> {
    match f {
        HeaderFormat::Yaml => "\n---\n"@,
        HeaderFormat::Json => "\n```\n"@,
        HeaderFormat::Toml => "\n+++\n"@,
    }
}

/// The first position at or after `from` where `p` occurs in `s`, or -1.
pub open spec fn find_seq(s: Seq<char>, p: Seq<char>, from: int) -> int
    decreases s.len() - from,
{
    if from < 0 || from >= s.len() {
        -1
    } else if occurs_at(s, from, p) {
        from
    } else {
        find_seq(s, p, from + 1)
    }
}

/// A header of format `f` is present: `s` starts with its opener and the
/// closer follows.
pub open spec fn has_header(s: Seq<char>, f: HeaderFormat) -> bool {
    starts_with(s, opener(f)) && find_seq(s, closer(f), opener(f).len() as int) >= 0
}

/// The header text and the body of a document whose header has format `f`.
pub open spec fn header_parts(s: Seq<char>, f: HeaderFormat) -> (Seq<char>, Seq<char>) {
    let e = find_seq(s, closer(f), opener(f).len() as int);
    (s.subrange(opener(f).len() as int, e), s.skip(e + closer(f).len()))
}

/// The header found at the start of `s`, tried in the order YAML, JSON, TOML.
pub open spec fn detect(s: Seq<char>) -> Option<HeaderFormat> {
    if has_header(s, HeaderFormat::Yaml) {
        Some(HeaderFormat::Yaml)
    } else if has_header(s, HeaderFormat::Json) {
        Some(HeaderFormat::Json)
    } else if has_header(s, HeaderFormat::Toml) {
        Some(HeaderFormat::Toml)
    } else {
        None
    }
}

/// A header block cut from the start of a document.
pub struct HeaderBlock {
    pub format: HeaderFormat,
    /// The text between the delimiters.
    pub header: String,
    /// Everything after the closing delimiter.
    pub body: String,
}

/// The header and body that `extract_frontmatter` settles on.
pub open spec fn settled(
    content: Seq<char>,
    block: Option<HeaderBlock>,
    parsed: Option<Frontmatter>,
    r: (Frontmatter, String),
) -> bool {
    match block {
        None => r.0.is_empty_header() && r.1@ == content,
        Some(b) => match parsed {
            Some(fm) => r.0 == fm && r.1@ == b.body@,
            None => r.0.is_empty_header() && if b.format == HeaderFormat::Yaml {
                r.1@ == b.body@
            } else {
                r.1@ == content
            },
        },
    }
}

impl Frontmatter {
    /// Each extra field's key appears once.
    pub open spec fn keys_unique(self) -> bool {
        forall|i: int, j: int|
            0 <= i < j < self.extra@.len() ==> (#[trigger] self.extra@[i]).0@ != (
            #[trigger] self.extra@[j]).0@
    }

    /// Every field is absent.
    pub open spec fn is_empty_header(self) -> bool {
        &&& self.title is None
        &&& self.version is None
        &&& self.tags is None
        &&& self.author is None
        &&& self.description is None
        &&& self.order is None
        &&& self.extra@.len() == 0
    }
}

impl ContentProcessor {
    fn position_of(s: &Vec<char>, p: &Vec<char>, from: usize) -> (r: Option<usize>)
        ensures
            match r {
                Some(i) => find_seq(s@, p@, from as int) == i as int && from <= i && i + p.len() <= s.len(),
                None => find_seq(s@, p@, from as int) == -1,
            },
    {
        let mut i: usize = from;
        while i < s.len()
            invariant
                from <= i,
                find_seq(s@, p@, from as int) == find_seq(s@, p@, i as int),
            decreases s.len() - i,
        {
            if occurs_at_exec(s, i, p) {
                return Some(i);
            }
            i = i + 1;
        }
        None
    }

    fn try_format(s: &Vec<char>, f: HeaderFormat, open: &str, close: &str) -> (r: Option<HeaderBlock>)
        requires
            open@ == opener(f),
            close@ == closer(f),
        ensures
            match r {
                Some(b) => has_header(s@, f) && b.format == f && (b.header@, b.body@) == header_parts(
                    s@,
                    f,
                ),
                None => !has_header(s@, f),
            },
    {
        let o = chars_of(open);
        let c = chars_of(close);
        if !starts_with_exec(s, &o) {
            return None;
        }
        match Self::position_of(s, &c, o.len()) {
            Some(e) => {
                let header = slice_chars(s, o.len(), e);
                let body = slice_chars(s, e + c.len(), s.len());
                assert(body@ =~= s@.skip(e + c.len()));
                Some(HeaderBlock { format: f, header: string_of(&header), body: string_of(&body) })
            },
            None => None,
        }
    }

    /// Cuts the header block from the start of a document, if one of the three
    /// conventions opens it and its closing delimiter follows.
    pub fn split_header(content: &str) -> (r: Option<HeaderBlock>)
        ensures
            match r {
                Some(b) => detect(content@) == Some(b.format) && (b.header@, b.body@)
                    == header_parts(content@, b.format),
                None => detect(content@) is None,
            },
    {
        let s = chars_of(content);
        if let Some(b) = Self::try_format(&s, HeaderFormat::Yaml, "---\n", "\n---\n") {
            return Some(b);
        }
        if let Some(b) = Self::try_format(&s, HeaderFormat::Json, "```json\n", "\n```\n") {
            return Some(b);
        }
        Self::try_format(&s, HeaderFormat::Toml, "+++\n", "\n+++\n")
    }

    /// The header and body of a document, given the header block cut from it
    /// and what parsing that block's text gave. A parsed header is taken with
    /// the body after the block. A block that did not parse gives the empty
    /// header: for YAML with the body after the block, for the other formats
    /// with the whole content. No block gives the empty header and the whole
    /// content.
    pub fn extract_frontmatter(content: &str, block: Option<HeaderBlock>, parsed: Option<Frontmatter>) -> (r: (Frontmatter, String))
        ensures
            settled(content@, block, parsed, r),
    {
        match block {
            None => (Frontmatter::empty(), String::from_str(content)),
            Some(b) => match parsed {
                Some(fm) => (fm, b.body),
                None => {
                    if b.format == HeaderFormat::Yaml {
                        (Frontmatter::empty(), b.body)
                    } else {
                        (Frontmatter::empty(), String::from_str(content))
                    }
                },
            },
        }
    }
}

/// A document written as opener, header, closer and body, whose header holds
/// no closer, gives back that header and that body.
pub proof fn lemma_header_round_trip(f: HeaderFormat, header: Seq<char>, body: Seq<char>)
    requires
        forall|i: int| 0 <= i < header.len() ==> !occurs_at(header + closer(f), i, closer(f)),
    ensures
        detect(opener(f) + header + closer(f) + body) == Some(f),
        header_parts(opener(f) + header + closer(f) + body, f) == (header, body),
{
    reveal_strlit("---\n");
    reveal_strlit("```json\n");
    reveal_strlit("+++\n");
    reveal_strlit("\n---\n");
    reveal_strlit("\n```\n");
    reveal_strlit("\n+++\n");
    let s = opener(f) + header + closer(f) + body;
    let o = opener(f).len() as int;
    let c = closer(f);
    assert(s.take(o) =~= opener(f));
    assert forall|i: int| o <= i < o + header.len() implies !occurs_at(s, i, c) by {
        let t = header + c;
        assert(!occurs_at(t, i - o, c));
        if occurs_at(s, i, c) {
            assert(s.subrange(i, i + c.len()) =~= t.subrange(i - o, i - o + c.len()));
        }
    }
    lemma_find_skips(s, c, o, o + header.len());
    assert(s.subrange(o + header.len(), o + header.len() + c.len()) =~= c);
    assert(occurs_at(s, o + header.len(), c));
    assert(s.subrange(o, o + header.len()) =~= header);
    assert(s.skip(o + header.len() + c.len()) =~= body);
    assert(s[0] == opener(f)[0]);
    if f != HeaderFormat::Yaml {
        assert(s.take(4)[0] != "---\n"@[0]);
    }
    if f == HeaderFormat::Toml {
        assert(s.take(8)[0] != "```json\n"@[0]);
    }
}

proof fn lemma_find_skips(s: Seq<char>, p: Seq<char>, from: int, to: int)
    requires
        0 <= from <= to < s.len(),
        forall|i: int| from <= i < to ==> !occurs_at(s, i, p),
    ensures
        find_seq(s, p, from) == find_seq(s, p, to),
    decreases to - from,
{
    if from < to {
        lemma_find_skips(s, p, from + 1, to);
    }
}

} // verus!
