//! Editing a Markdown body section by section.
use vstd::prelude::*;
use crate::document::{heading_level_chars, heading_level_spec, heading_matches_chars, heading_matches_spec};
use crate::rules::{closes_section, section_end_from};
use crate::text::{
    chars_of, extend_chars, extend_str, has_suffix, join, join_chars, lines, lines_of, string_of,
    sub_chars, trim, trim_chars, trim_end, trim_end_chars, views,
};

verus! {

broadcast use vstd::string::group_string_axioms;

/// The last line at or before `i` that is a heading matching `h`.
pub open spec fn last_heading_from(ls: Seq<Seq<char>>, h: Seq<char>, i: int) -> Option<int>
    decreases i + 1,
{
    if i < 0 || i >= ls.len() {
        None
    } else if heading_matches_spec(ls[i], h) {
        Some(i)
    } else {
        last_heading_from(ls, h, i - 1)
    }
}

/// Move `k` back over blank lines, but not before `lo`.
pub open spec fn back_over_blank(ls: Seq<Seq<char>>, lo: int, k: int) -> int
    decreases k,
{
    if k > lo && 0 < k <= ls.len() && trim(ls[k - 1]).len() == 0 {
        back_over_blank(ls, lo, k - 1)
    } else {
        k
    }
}

/// `text` with a final newline.
pub open spec fn with_newline(text: Seq<char>) -> Seq<char> {
    if has_suffix(text, seq!['\n']) {
        text
    } else {
        text + seq!['\n']
    }
}

/// The body with `text` appended at the end of the last section whose
/// heading matches `heading` (before its trailing blank lines); without such
/// a section, a new `## heading` section holding `text` is added at the end.
pub open spec fn append_to_section_spec(body: Seq<char>, heading: Seq<char>, text: Seq<char>) -> Seq<char> {
    let ls = lines(body);
    let t = with_newline(text);
    let nl = seq!['\n'];
    match last_heading_from(ls, heading, ls.len() - 1) {
        Some(start) => {
            let end = section_end_from(ls, heading_level_spec(ls[start]), start + 1);
            let ins = back_over_blank(ls, start + 1, end);
            let a = join(ls.subrange(0, ins), nl) + nl + t;
            let b = if ins < end {
                a + join(ls.subrange(ins, end), nl) + nl
            } else {
                a
            };
            if end < ls.len() {
                let c = b + join(ls.subrange(end, ls.len() as int), nl);
                if has_suffix(c, nl) {
                    c
                } else {
                    c + nl
                }
            } else {
                b
            }
        },
        None => trim_end(body) + "\n\n## "@ + heading + nl + t,
    }
}

fn copy_lines(ls: &Vec<Vec<char>>, a: usize, b: usize) -> (r: Vec<Vec<char>>)
    requires
        a <= b <= ls.len(),
    ensures
        views(r@) == views(ls@).subrange(a as int, b as int),
{
    let mut r: Vec<Vec<char>> = Vec::new();
    let mut k: usize = a;
    while k < b
        invariant
            a <= k <= b <= ls.len(),
            views(r@) == views(ls@).subrange(a as int, k as int),
        decreases b - k,
    {
        let piece = sub_chars(ls[k].as_slice(), 0, ls[k].len());
        assert(piece@ =~= views(ls@)[k as int]);
        let ghost before = views(r@);
        r.push(piece);
        assert(views(r@) =~= before.push(views(ls@)[k as int]));
        assert(views(r@) =~= views(ls@).subrange(a as int, k + 1));
        k += 1;
    }
    r
}

fn ends_with_newline(v: &Vec<char>) -> (b: bool)
    ensures
        b == has_suffix(v@, seq!['\n']),
{
    let b = v.len() > 0 && v[v.len() - 1] == '\n';
    proof {
        if v.len() > 0 {
            if v@[v.len() - 1] == '\n' {
                assert(v@.skip(v.len() - 1) =~= seq!['\n']);
            } else {
                assert(v@.skip(v.len() - 1)[0] == v@[v.len() - 1]);
            }
        }
    }
    b
}

/// `append_to_section` on characters.
#[verifier::loop_isolation(false)]
pub fn append_to_section_chars(body: &[char], heading: &[char], text: &[char]) -> (r: Vec<char>)
    ensures
        r@ == append_to_section_spec(body@, heading@, text@),
{
    let ls = lines_of(body);
    let ghost gl = lines(body@);
    let nl = chars_of("\n");
    assert(nl@ =~= seq!['\n']) by {
        reveal_strlit("\n");
    }
    let mut t = sub_chars(text, 0, text.len());
    assert(t@ =~= text@);
    if !ends_with_newline(&t) {
        t.push('\n');
    }
    assert(t@ == with_newline(text@));
    // the last matching heading
    let mut i: usize = ls.len();
    while i > 0 && !heading_matches_chars(ls[i - 1].as_slice(), heading)
        invariant
            i <= ls.len(),
            views(ls@) == gl,
            last_heading_from(gl, heading@, gl.len() - 1) == last_heading_from(gl, heading@, i - 1),
        decreases i,
    {
        assert(ls@[i - 1]@ == gl[i - 1]);
        i -= 1;
    }
    if i == 0 {
        let mut out = trim_end_chars(body);
        extend_str(&mut out, "\n\n## ");
        extend_chars(&mut out, heading);
        out.push('\n');
        extend_chars(&mut out, t.as_slice());
        return out;
    }
    let start = i - 1;
    assert(ls@[start as int]@ == gl[start as int]);
    let level = heading_level_chars(ls[start].as_slice());
    // the end of the section
    let mut end: usize = start + 1;
    while end < ls.len() && !(ls[end].len() > 0 && ls[end][0] == '#' && heading_level_chars(
        ls[end].as_slice(),
    ) <= level)
        invariant
            start < end <= ls.len(),
            views(ls@) == gl,
            section_end_from(gl, level as nat, start + 1) == section_end_from(gl, level as nat, end as int),
        decreases ls.len() - end,
    {
        assert(ls@[end as int]@ == gl[end as int]);
        end += 1;
    }
    if end < ls.len() {
        assert(ls@[end as int]@ == gl[end as int]);
    }
    // back over trailing blank lines
    let mut ins: usize = end;
    while ins > start + 1 && trim_chars(ls[ins - 1].as_slice()).len() == 0
        invariant
            start + 1 <= ins <= end <= ls.len(),
            views(ls@) == gl,
            back_over_blank(gl, start + 1, end as int) == back_over_blank(gl, start + 1, ins as int),
        decreases ins,
    {
        assert(ls@[ins - 1]@ == gl[ins - 1]);
        ins -= 1;
    }
    if ins > start + 1 {
        assert(ls@[ins - 1]@ == gl[ins - 1]);
    }
    assert(last_heading_from(gl, heading@, gl.len() - 1) == Some(start as int));
    assert(section_end_from(gl, heading_level_spec(gl[start as int]), start + 1) == end as int);
    assert(back_over_blank(gl, start + 1, end as int) == ins as int);
    let ghost a = join(gl.subrange(0, ins as int), seq!['\n']) + seq!['\n'] + t@;
    let ghost b = if ins < end {
        a + join(gl.subrange(ins as int, end as int), seq!['\n']) + seq!['\n']
    } else {
        a
    };
    let head = copy_lines(&ls, 0, ins);
    let mut out = join_chars(&head, nl.as_slice());
    out.push('\n');
    extend_chars(&mut out, t.as_slice());
    assert(out@ =~= a);
    if ins < end {
        let mid = copy_lines(&ls, ins, end);
        let mj = join_chars(&mid, nl.as_slice());
        extend_chars(&mut out, mj.as_slice());
        out.push('\n');
    }
    assert(out@ =~= b);
    if end < ls.len() {
        let tail = copy_lines(&ls, end, ls.len());
        let tj = join_chars(&tail, nl.as_slice());
        extend_chars(&mut out, tj.as_slice());
        if !ends_with_newline(&out) {
            out.push('\n');
        }
    }
    out
}

/// Append `text` to the end of the section under `heading` (such as
/// "决策" or "决策日志"), or add the section when the body has none.
pub fn append_to_section(body: &str, heading: &str, text: &str) -> (r: String)
    ensures
        r@ == append_to_section_spec(body@, heading@, text@),
{
    let b = chars_of(body);
    let h = chars_of(heading);
    let t = chars_of(text);
    let r = append_to_section_chars(b.as_slice(), h.as_slice(), t.as_slice());
    string_of(r.as_slice())
}

/// Insert a whole block (its own heading included, such as `### 待测`) at
/// the end of the section under `heading`.
pub fn insert_after_section(body: &str, heading: &str, block: &str) -> (r: String)
    ensures
        r@ == append_to_section_spec(body@, heading@, trim_end(block@)),
{
    let b = chars_of(body);
    let h = chars_of(heading);
    let t = chars_of(block);
    let tt = trim_end_chars(t.as_slice());
    let r = append_to_section_chars(b.as_slice(), h.as_slice(), tt.as_slice());
    string_of(r.as_slice())
}

} // verus!
