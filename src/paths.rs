//! Document paths, relative to the source root, written with `/` between
//! components. Empty components (from a doubled or trailing `/`) are dropped.

use vstd::prelude::*;

verus! {

/// `cur` as a component list: nothing when it is empty.
pub open spec fn flush(cur: Seq<char>) -> Seq<Seq<char>> {
    if cur.len() > 0 {
        seq![cur]
    } else {
        Seq::empty()
    }
}

/// The components of `s` from position `i` on, where `cur` holds the
/// characters of the component already begun.
pub open spec fn comps_from(s: Seq<char>, i: int, cur: Seq<char>) -> Seq<Seq<char>>
    decreases s.len() - i,
{
    if i < 0 || i >= s.len() {
        flush(cur)
    } else if s[i] == '/' {
        flush(cur) + comps_from(s, i + 1, Seq::empty())
    } else {
        comps_from(s, i + 1, cur.push(s[i]))
    }
}

/// The non-empty `/`-separated components of a path.
pub open spec fn components(s: Seq<char>) -> Seq<Seq<char>> {
    comps_from(s, 0, Seq::empty())
}

/// Components joined back with `/`.
pub open spec fn join(cs: Seq<Seq<char>>) -> Seq<char>
    decreases cs.len(),
{
    if cs.len() == 0 {
        Seq::empty()
    } else if cs.len() == 1 {
        cs[0]
    } else {
        join(cs.drop_last()) + seq!['/'] + cs.last()
    }
}

/// The position of the last `.` before position `i`, or -1.
pub open spec fn last_dot_before(n: Seq<char>, i: int) -> int
    decreases i,
{
    if i <= 0 {
        -1
    } else if n[i - 1] == '.' {
        i - 1
    } else {
        last_dot_before(n, i - 1)
    }
}

/// A file name without its extension; a name whose only dot leads keeps it.
pub open spec fn stem_of(n: Seq<char>) -> Seq<char> {
    let d = last_dot_before(n, n.len() as int);
    if d <= 0 {
        n
    } else {
        n.take(d)
    }
}

/// The stem of a path's last component, if it has one.
pub open spec fn file_stem(path: Seq<char>) -> Option<Seq<char>> {
    let cs = components(path);
    if cs.len() == 0 {
        None
    } else {
        Some(stem_of(cs.last()))
    }
}

/// A path with the extension of its last component changed to `html`.
pub open spec fn html_path(path: Seq<char>) -> Seq<char> {
    let cs = components(path);
    if cs.len() == 0 {
        path
    } else {
        join(cs.drop_last().push(stem_of(cs.last()) + seq!['.', 'h', 't', 'm', 'l']))
    }
}

/// Views of a list of character vectors.
pub open spec fn views(v: Seq<Vec<char>>) -> Seq<Seq<char>> {
    v.map_values(|c: Vec<char>| c@)
}

/// The components of a path.
pub fn split_components(s: &Vec<char>) -> (r: Vec<Vec<char>>)
    ensures
        views(r@) == components(s@),
{
    let mut r: Vec<Vec<char>> = Vec::new();
    let mut cur: Vec<char> = Vec::new();
    let mut i: usize = 0;
    while i < s.len()
        invariant
            i <= s.len(),
            views(r@) + comps_from(s@, i as int, cur@) == components(s@),
        decreases s.len() - i,
    {
        let ghost r0 = views(r@);
        let ghost c0 = cur@;
        if s[i] == '/' {
            if cur.len() > 0 {
                r.push(cur);
                cur = Vec::new();
            }
            assert(views(r@) =~= r0 + flush(c0));
            assert(cur@ =~= Seq::<char>::empty());
            let ghost rest = comps_from(s@, i + 1, Seq::empty());
            assert((r0 + flush(c0)) + rest =~= r0 + (flush(c0) + rest));
        } else {
            cur.push(s[i]);
        }
        i = i + 1;
    }
    let ghost r0 = views(r@);
    let ghost c0 = cur@;
    if cur.len() > 0 {
        r.push(cur);
    }
    assert(views(r@) =~= r0 + flush(c0));
    r
}

/// Components joined back with `/`.
pub fn join_components(cs: &Vec<Vec<char>>) -> (r: Vec<char>)
    ensures
        r@ == join(views(cs@)),
{
    let mut r: Vec<char> = Vec::new();
    let mut i: usize = 0;
    while i < cs.len()
        invariant
            i <= cs.len(),
            r@ == join(views(cs@).take(i as int)),
        decreases cs.len() - i,
    {
        let ghost r0 = r@;
        if i > 0 {
            r.push('/');
        }
        let mut k: usize = 0;
        let ghost r1 = r@;
        let c = &cs[i];
        while k < c.len()
            invariant
                k <= c.len(),
                i < cs.len(),
                *c == cs[i as int],
                r@ == r1 + c@.take(k as int),
            decreases c.len() - k,
        {
            r.push(c[k]);
            k = k + 1;
            assert(r@ =~= r1 + c@.take(k as int));
        }
        assert(cs[i as int]@.take(k as int) =~= cs[i as int]@);
        let ghost t = views(cs@).take(i + 1);
        assert(t.drop_last() =~= views(cs@).take(i as int));
        if i == 0 {
            assert(r@ =~= join(t));
        }
        i = i + 1;
    }
    assert(views(cs@).take(i as int) =~= views(cs@));
    r
}

/// The position of the last `.` in `n`, if there is one.
pub fn last_dot(n: &Vec<char>) -> (d: Option<usize>)
    ensures
        d matches Some(x) ==> x == last_dot_before(n@, n.len() as int) && x < n.len(),
        d is None ==> last_dot_before(n@, n.len() as int) == -1,
{
    let mut i: usize = n.len();
    while i > 0
        invariant
            i <= n.len(),
            last_dot_before(n@, n.len() as int) == last_dot_before(n@, i as int),
        decreases i,
    {
        if n[i - 1] == '.' {
            return Some(i - 1);
        }
        i = i - 1;
    }
    None
}

/// A file name without its extension.
pub fn stem_chars(n: &Vec<char>) -> (r: Vec<char>)
    ensures
        r@ == stem_of(n@),
{
    match last_dot(n) {
        Some(d) if d > 0 => {
            let mut r: Vec<char> = Vec::new();
            let mut k: usize = 0;
            while k < d
                invariant
                    0 < d < n.len(),
                    k <= d,
                    r@ == n@.take(k as int),
                decreases d - k,
            {
                r.push(n[k]);
                k = k + 1;
                assert(r@ =~= n@.take(k as int));
            }
            r
        },
        _ => n.clone(),
    }
}

/// The stem of a path's last component, if it has one.
pub fn file_stem_exec(path: &str) -> (r: Option<Vec<char>>)
    ensures
        match r {
            Some(v) => file_stem(path@) == Some(v@),
            None => file_stem(path@) is None,
        },
{
    let cs = split_components(&crate::text::chars_of(path));
    if cs.len() == 0 {
        None
    } else {
        let last = &cs[cs.len() - 1];
        assert(last@ == components(path@).last());
        Some(stem_chars(last))
    }
}

/// An empty path has no components.
pub proof fn lemma_empty_path(s: Seq<char>)
    requires
        s.len() == 0,
    ensures
        components(s).len() == 0,
{
}

} // verus!
