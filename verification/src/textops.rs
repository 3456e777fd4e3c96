//! Small text operations of the commands: path routing, line formats,
//! counting, truncation and decimal numbers.
use vstd::prelude::*;
use crate::text::{
    chars_eq, chars_of, contains, contains_chars, extend_chars, extend_str, has_prefix,
    has_suffix, join, join_chars, lines, lines_of, starts_with_chars, string_of, sub_chars, trim,
    trim_chars, trim_end, trim_end_chars, views, find, find_chars, is_ws, occurs_at,
};

verus! {

broadcast use vstd::string::group_string_axioms;

// ---------------------------------------------------------------------------
// Status directories
// ---------------------------------------------------------------------------

/// One of the four status directories (axis two: position is status).
pub open spec fn is_status_name(s: Seq<char>) -> bool {
    s == "pool"@ || s == "working"@ || s == "finished"@ || s == "community"@
}

/// The four status directories, in their fixed order.
pub fn statuses() -> (r: Vec<&'static str>)
    ensures
        r@.len() == 4,
        r@[0]@ == "pool"@,
        r@[1]@ == "working"@,
        r@[2]@ == "finished"@,
        r@[3]@ == "community"@,
{
    let mut r: Vec<&'static str> = Vec::new();
    r.push("pool");
    r.push("working");
    r.push("finished");
    r.push("community");
    r
}

pub fn is_status(s: &[char]) -> (b: bool)
    ensures
        b == is_status_name(s@),
{
    let a = chars_of("pool");
    let b = chars_of("working");
    let c = chars_of("finished");
    let d = chars_of("community");
    chars_eq(s, a.as_slice()) || chars_eq(s, b.as_slice()) || chars_eq(s, c.as_slice())
        || chars_eq(s, d.as_slice())
}

/// `trim_start_matches("./")`.
pub open spec fn strip_dot_slash(s: Seq<char>) -> Seq<char>
    decreases s.len(),
{
    if s.len() >= 2 && s[0] == '.' && s[1] == '/' {
        strip_dot_slash(s.skip(2))
    } else {
        s
    }
}

/// Up to the first `/` or `\`.
pub open spec fn first_segment(s: Seq<char>) -> Seq<char>
    decreases s.len(),
{
    if s.len() == 0 || s[0] == '/' || s[0] == '\\' {
        seq![]
    } else {
        seq![s[0]] + first_segment(s.drop_first())
    }
}

/// A bare status-directory path (`pool/…`, `./working/…`) is routed under
/// `projects/<project>/`; any other path is left as it is. The flag says
/// whether routing happened.
pub open spec fn route_spec(rel: Seq<char>, project: Seq<char>) -> (Seq<char>, bool) {
    let t = strip_dot_slash(rel);
    if is_status_name(first_segment(t)) {
        ("projects/"@ + project + "/"@ + t, true)
    } else {
        (rel, false)
    }
}

/// Route a bare status-directory path under the current project, so that
/// nothing lands in the top level of the state root.
pub fn route_state_rel(rel: &str, project: &str) -> (r: (String, bool))
    ensures
        (r.0@, r.1) == route_spec(rel@, project@),
{
    let v = chars_of(rel);
    let mut i: usize = 0;
    assert(v@.skip(0) =~= v@);
    while i < v.len() && v.len() - i >= 2 && v[i] == '.' && v[i + 1] == '/'
        invariant
            i <= v.len(),
            strip_dot_slash(v@) == strip_dot_slash(v@.skip(i as int)),
        decreases v.len() - i,
    {
        assert(v@.skip(i as int).skip(2) =~= v@.skip(i + 2));
        i += 2;
    }
    let t = sub_chars(v.as_slice(), i, v.len());
    assert(t@ =~= v@.skip(i as int));
    let mut j: usize = 0;
    assert(t@.skip(0) =~= t@);
    assert(t@.take(0) =~= Seq::<char>::empty());
    while j < t.len() && t[j] != '/' && t[j] != '\\'
        invariant
            j <= t.len(),
            first_segment(t@) == t@.take(j as int) + first_segment(t@.skip(j as int)),
        decreases t.len() - j,
    {
        assert(t@.skip(j as int).drop_first() =~= t@.skip(j + 1));
        assert(t@.take(j + 1) =~= t@.take(j as int) + seq![t@[j as int]]);
        j += 1;
    }
    assert(first_segment(t@.skip(j as int)) =~= seq![]);
    let first = sub_chars(t.as_slice(), 0, j);
    assert(first@ =~= first_segment(t@));
    if is_status(first.as_slice()) {
        let mut out: Vec<char> = Vec::new();
        extend_str(&mut out, "projects/");
        extend_str(&mut out, project);
        extend_str(&mut out, "/");
        extend_chars(&mut out, t.as_slice());
        (string_of(out.as_slice()), true)
    } else {
        (string_of(v.as_slice()), false)
    }
}

// ---------------------------------------------------------------------------
// Lines and counts
// ---------------------------------------------------------------------------

/// A pitfall line without its trailing `<!-- date · actor -->` comment.
pub open spec fn strip_tail_comment_spec(line: Seq<char>) -> Seq<char> {
    match find(line, "<!--"@) {
        Some(i) => trim_end(line.take(i)),
        None => trim_end(line),
    }
}

/// Drop the trailing `<!-- date · actor -->` comment of a pitfall line.
pub fn strip_pitfall_tail_comment(line: &str) -> (r: String)
    ensures
        r@ == strip_tail_comment_spec(line@),
{
    let v = chars_of(line);
    let pat = chars_of("<!--");
    match find_chars(v.as_slice(), pat.as_slice()) {
        Some(i) => {
            let head = sub_chars(v.as_slice(), 0, i);
            assert(head@ =~= v@.take(i as int));
            string_of(trim_end_chars(head.as_slice()).as_slice())
        },
        None => string_of(trim_end_chars(v.as_slice()).as_slice()),
    }
}

/// The number of lines among `ls` that contain `marker`.
pub open spec fn count_containing(ls: Seq<Seq<char>>, marker: Seq<char>) -> nat
    decreases ls.len(),
{
    if ls.len() == 0 {
        0
    } else {
        count_containing(ls.drop_last(), marker) + if contains(ls.last(), marker) {
            1nat
        } else {
            0nat
        }
    }
}

/// The number of body lines that contain `marker`.
pub fn append_marker_count(body: &str, marker: &str) -> (n: usize)
    ensures
        n == count_containing(lines(body@), marker@),
{
    let b = chars_of(body);
    let m = chars_of(marker);
    let ls = lines_of(b.as_slice());
    let ghost gl = lines(body@);
    let mut n: usize = 0;
    let mut i: usize = 0;
    while i < ls.len()
        invariant
            i <= ls.len(),
            views(ls@) == gl,
            m@ == marker@,
            n == count_containing(gl.take(i as int), marker@),
            n <= i,
        decreases ls.len() - i,
    {
        assert(ls@[i as int]@ == gl[i as int]);
        assert(gl.take(i + 1).drop_last() =~= gl.take(i as int));
        if contains_chars(ls[i].as_slice(), m.as_slice()) {
            n += 1;
        }
        i += 1;
    }
    assert(gl.take(ls.len() as int) =~= gl);
    n
}

/// The number of quick-lane entries (`] quick:` lines) in a body.
pub fn count_quick_lines(body: &str) -> (n: usize)
    ensures
        n == count_containing(lines(body@), "] quick:"@),
{
    append_marker_count(body, "] quick:")
}

/// At most `n` characters, with `…` after a cut.
pub open spec fn truncate_spec(s: Seq<char>, n: nat) -> Seq<char> {
    if s.len() <= n {
        s
    } else {
        s.take(n as int) + "…"@
    }
}

/// Cut `s` to `n` characters, marking the cut with `…`.
pub fn truncate(s: &str, n: usize) -> (r: String)
    ensures
        r@ == truncate_spec(s@, n as nat),
{
    let v = chars_of(s);
    if v.len() <= n {
        return string_of(v.as_slice());
    }
    let mut t = sub_chars(v.as_slice(), 0, n);
    assert(t@ =~= v@.take(n as int));
    extend_str(&mut t, "…");
    string_of(t.as_slice())
}

// ---------------------------------------------------------------------------
// Decimal numbers
// ---------------------------------------------------------------------------

pub open spec fn digit_char(d: nat) -> char {
    if d == 0 {
        '0'
    } else if d == 1 {
        '1'
    } else if d == 2 {
        '2'
    } else if d == 3 {
        '3'
    } else if d == 4 {
        '4'
    } else if d == 5 {
        '5'
    } else if d == 6 {
        '6'
    } else if d == 7 {
        '7'
    } else if d == 8 {
        '8'
    } else {
        '9'
    }
}

/// The decimal digits of `n` (as `{}` prints an unsigned integer).
pub open spec fn decimal(n: nat) -> Seq<char>
    decreases n,
{
    if n < 10 {
        seq![digit_char(n)]
    } else {
        decimal(n / 10).push(digit_char(n % 10))
    }
}

fn digit(d: usize) -> (c: char)
    requires
        d < 10,
    ensures
        c == digit_char(d as nat),
{
    if d == 0 {
        '0'
    } else if d == 1 {
        '1'
    } else if d == 2 {
        '2'
    } else if d == 3 {
        '3'
    } else if d == 4 {
        '4'
    } else if d == 5 {
        '5'
    } else if d == 6 {
        '6'
    } else if d == 7 {
        '7'
    } else if d == 8 {
        '8'
    } else {
        '9'
    }
}

/// The decimal digits of `n`.
pub fn decimal_chars(n: usize) -> (r: Vec<char>)
    ensures
        r@ == decimal(n as nat),
    decreases n,
{
    if n < 10 {
        let mut r: Vec<char> = Vec::new();
        r.push(digit(n));
        assert(r@ =~= seq![digit_char(n as nat)]);
        r
    } else {
        let mut r = decimal_chars(n / 10);
        r.push(digit(n % 10));
        r
    }
}

} // verus!
