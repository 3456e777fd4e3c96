//! Unix path arithmetic on path strings: joining, components, file names.
use vstd::prelude::*;
use crate::text::{chars_eq, chars_of, split_char, split_on, string_of, sub_chars, views};

verus! {

broadcast use vstd::string::group_string_axioms;

/// `Path::join` on Unix: an absolute `b` replaces `a`; otherwise a `/` is put
/// between them unless `a` is empty or already ends in `/`.
pub open spec fn join_spec(a: Seq<char>, b: Seq<char>) -> Seq<char> {
    if b.len() > 0 && b[0] == '/' {
        b
    } else if a.len() == 0 || a.last() == '/' {
        a + b
    } else {
        a + seq!['/'] + b
    }
}

/// A segment that names something (not empty, not `.`).
pub open spec fn is_named(seg: Seq<char>) -> bool {
    seg.len() > 0 && seg != seq!['.']
}

/// The last named segment at or before `i`.
pub open spec fn last_named(segs: Seq<Seq<char>>, i: int) -> Option<Seq<char>>
    decreases i + 1,
{
    if i < 0 || i >= segs.len() {
        None
    } else if is_named(segs[i]) {
        Some(segs[i])
    } else {
        last_named(segs, i - 1)
    }
}

/// `Path::file_name`: the last component when it is a normal one.
pub open spec fn file_name_spec(p: Seq<char>) -> Option<Seq<char>> {
    let segs = split_char(p, '/');
    match last_named(segs, segs.len() - 1) {
        Some(n) => if n == seq!['.', '.'] {
            None
        } else {
            Some(n)
        },
        None => None,
    }
}

/// The last position of `c` at or before `i`.
pub open spec fn last_index_from(s: Seq<char>, c: char, i: int) -> Option<int>
    decreases i + 1,
{
    if i < 0 || i >= s.len() {
        None
    } else if s[i] == c {
        Some(i)
    } else {
        last_index_from(s, c, i - 1)
    }
}

/// `Path::file_stem`: the file name up to its last `.`, unless that dot
/// starts the name (or there is none).
pub open spec fn file_stem_spec(p: Seq<char>) -> Option<Seq<char>> {
    match file_name_spec(p) {
        Some(n) => match last_index_from(n, '.', n.len() - 1) {
            Some(d) => if d == 0 {
                Some(n)
            } else {
                Some(n.take(d))
            },
            None => Some(n),
        },
        None => None,
    }
}

/// `Path::join`.
pub fn join_path(a: &str, b: &str) -> (r: String)
    ensures
        r@ == join_spec(a@, b@),
{
    let av = chars_of(a);
    let bv = chars_of(b);
    if bv.len() > 0 && bv[0] == '/' {
        return string_of(bv.as_slice());
    }
    let mut v = av;
    if !(v.len() == 0 || v[v.len() - 1] == '/') {
        v.push('/');
    }
    crate::text::extend_chars(&mut v, bv.as_slice());
    string_of(v.as_slice())
}

/// `Path::file_name`.
pub fn file_name_chars(p: &[char]) -> (r: Option<Vec<char>>)
    ensures
        match r {
            Some(n) => file_name_spec(p@) == Some(n@),
            None => file_name_spec(p@) is None,
        },
{
    let segs = split_on(p, '/');
    let ghost gs = split_char(p@, '/');
    let mut i: usize = segs.len();
    while i > 0 && !(segs[i - 1].len() > 0 && !(segs[i - 1].len() == 1 && segs[i - 1][0] == '.'))
        invariant
            i <= segs.len(),
            views(segs@) == gs,
            last_named(gs, gs.len() - 1) == last_named(gs, i - 1),
        decreases i,
    {
        assert(segs@[i - 1]@ == gs[i - 1]);
        proof {
            if segs@[i - 1]@.len() == 1 && segs@[i - 1]@[0] == '.' {
                assert(segs@[i - 1]@ =~= seq!['.']);
            }
        }
        i -= 1;
    }
    if i == 0 {
        return None;
    }
    assert(segs@[i - 1]@ == gs[i - 1]);
    proof {
        if segs@[i - 1]@.len() == 1 && segs@[i - 1]@[0] == '.' {
            assert(segs@[i - 1]@ =~= seq!['.']);
        }
    }
    let n = sub_chars(segs[i - 1].as_slice(), 0, segs[i - 1].len());
    assert(n@ =~= gs[i - 1]);
    if n.len() == 2 && n[0] == '.' && n[1] == '.' {
        assert(n@ =~= seq!['.', '.']);
        return None;
    }
    Some(n)
}

/// `Path::file_stem`.
pub fn file_stem_chars(p: &[char]) -> (r: Option<Vec<char>>)
    ensures
        match r {
            Some(n) => file_stem_spec(p@) == Some(n@),
            None => file_stem_spec(p@) is None,
        },
{
    match file_name_chars(p) {
        Some(n) => {
            let mut i: usize = n.len();
            while i > 0 && n[i - 1] != '.'
                invariant
                    i <= n.len(),
                    last_index_from(n@, '.', n.len() - 1) == last_index_from(n@, '.', i - 1),
                decreases i,
            {
                i -= 1;
            }
            if i <= 1 {
                Some(n)
            } else {
                Some(sub_chars(n.as_slice(), 0, i - 1))
            }
        },
        None => None,
    }
}

} // verus!
