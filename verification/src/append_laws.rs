//! Appending to a body section, stated over lines: where the appended text
//! lands, and what two appends to the same section add up to.
use vstd::prelude::*;
use crate::document::{heading_level_spec, heading_matches_spec, heading_text_spec};
use crate::laws::lemma_split_concat;
use crate::rules::{closes_section, section_end_from};
use crate::section::{append_to_section_spec, back_over_blank, last_heading_from, with_newline};
use crate::section_laws::{
    ends_cr, lemma_back_bounds, lemma_join_last, lemma_last_heading_bounds, lemma_last_heading_matches,
    lemma_lines_join, lemma_lines_no_nl, lemma_section_end_bounds, lemma_strip_crs_none, no_nl,
};
use crate::text::{
    has_suffix, join, lemma_join_concat, lemma_join_split, lines, lines_from, split_char, split_from, strip_cr,
    trim,
};

verus! {

broadcast use vstd::string::group_string_axioms;

/// `c` does not occur in `s`.
pub open spec fn lacks(s: Seq<char>, c: char) -> bool {
    forall|i: int| 0 <= i < s.len() ==> s[i] != c
}

/// The line starts with `#`.
pub open spec fn starts_hash(l: Seq<char>) -> bool {
    l.len() > 0 && l[0] == '#'
}

/// Where an append to the last section headed `heading` puts its text: the
/// line index at that section's end, before its trailing blank lines.
pub open spec fn insertion_line(ls: Seq<Seq<char>>, heading: Seq<char>) -> int {
    let s = last_heading_from(ls, heading, ls.len() - 1)->0;
    back_over_blank(ls, s + 1, section_end_from(ls, heading_level_spec(ls[s]), s + 1))
}

proof fn lemma_lacks_rest(s: Seq<char>, c: char)
    requires
        s.len() > 0,
        lacks(s, c),
    ensures
        lacks(s.drop_first(), c),
        s[0] != c,
{
    assert forall|i: int| 0 <= i < s.drop_first().len() implies s.drop_first()[i] != c by {
        assert(s.drop_first()[i] == s[i + 1]);
    }
}

proof fn lemma_lacks_push(s: Seq<char>, x: char, c: char)
    requires
        lacks(s, c),
        x != c,
    ensures
        lacks(s.push(x), c),
{
    assert forall|i: int| 0 <= i < s.push(x).len() implies s.push(x)[i] != c by {
        if i < s.len() {
            assert(s.push(x)[i] == s[i]);
        }
    }
}

/// A text closed by a line break, without carriage returns, has the pieces
/// between its breaks as its lines.
proof fn lemma_lines_closed(x: Seq<char>, cur: Seq<char>)
    requires
        lacks(cur, '\r'),
        lacks(x, '\r'),
    ensures
        lines_from(x + seq!['\n'], cur) == split_from(x, '\n', cur),
    decreases x.len(),
{
    let v = x + seq!['\n'];
    if cur.len() > 0 {
        assert(cur.last() == cur[cur.len() - 1]);
    }
    assert(strip_cr(cur) == cur);
    if x.len() == 0 {
        assert(v.drop_first() =~= Seq::<char>::empty());
        assert(lines_from(Seq::<char>::empty(), seq![]) =~= Seq::<Seq<char>>::empty());
        assert(lines_from(v, cur) =~= seq![cur]);
    } else {
        lemma_lacks_rest(x, '\r');
        assert(v[0] == x[0]);
        assert(v.drop_first() =~= x.drop_first() + seq!['\n']);
        if x[0] == '\n' {
            lemma_lines_closed(x.drop_first(), seq![]);
        } else {
            lemma_lacks_push(cur, x[0], '\r');
            lemma_lines_closed(x.drop_first(), cur.push(x[0]));
        }
    }
}

/// A text that does not end in a line break, without carriage returns,
/// has the pieces between its breaks as its lines.
proof fn lemma_lines_open(x: Seq<char>, cur: Seq<char>)
    requires
        x.len() > 0,
        x.last() != '\n',
        lacks(cur, '\r'),
        lacks(x, '\r'),
    ensures
        lines_from(x, cur) == split_from(x, '\n', cur),
    decreases x.len(),
{
    lemma_lacks_rest(x, '\r');
    if cur.len() > 0 {
        assert(cur.last() == cur[cur.len() - 1]);
    }
    assert(strip_cr(cur) == cur);
    if x.len() == 1 {
        assert(x.drop_first() =~= Seq::<char>::empty());
        assert(x[0] == x.last());
        assert(cur.push(x[0]).len() > 0);
        assert(lines_from(x, cur) == lines_from(x.drop_first(), cur.push(x[0])));
        assert(lines_from(Seq::<char>::empty(), cur.push(x[0])) =~= seq![cur.push(x[0])]);
        assert(split_from(x, '\n', cur) == split_from(x.drop_first(), '\n', cur.push(x[0])));
        assert(split_from(Seq::<char>::empty(), '\n', cur.push(x[0])) =~= seq![cur.push(x[0])]);
    } else {
        assert(x.drop_first().last() == x.last());
        if x[0] == '\n' {
            lemma_lines_open(x.drop_first(), seq![]);
        } else {
            lemma_lacks_push(cur, x[0], '\r');
            lemma_lines_open(x.drop_first(), cur.push(x[0]));
        }
    }
}

/// The last piece of a split is empty exactly when the text (after the
/// partial piece) is empty or ends in the separator.
proof fn lemma_split_last_empty(x: Seq<char>, cur: Seq<char>)
    requires
        lacks(cur, '\n'),
    ensures
        split_from(x, '\n', cur).len() > 0,
        split_from(x, '\n', cur).last().len() == 0 <==> ((cur + x).len() == 0 || (cur + x).last() == '\n'),
    decreases x.len(),
{
    if x.len() == 0 {
        assert(cur + x =~= cur);
        if cur.len() > 0 {
            assert(cur.last() == cur[cur.len() - 1]);
        }
    } else if x[0] == '\n' {
        let rest = split_from(x.drop_first(), '\n', seq![]);
        lemma_split_last_empty(x.drop_first(), seq![]);
        assert(split_from(x, '\n', cur) == seq![cur] + rest);
        assert((seq![cur] + rest).last() == rest.last());
        assert(Seq::<char>::empty() + x.drop_first() =~= x.drop_first());
        if x.drop_first().len() > 0 {
            assert((cur + x).last() == x.drop_first().last());
        } else {
            assert((cur + x).last() == x[0]);
        }
    } else {
        lemma_lacks_push(cur, x[0], '\n');
        lemma_split_last_empty(x.drop_first(), cur.push(x[0]));
        assert(cur.push(x[0]) + x.drop_first() =~= cur + x);
    }
}

/// The lines of a text without `c` do not hold `c`.
proof fn lemma_lines_lack(s: Seq<char>, cur: Seq<char>, c: char)
    requires
        lacks(s, c),
        lacks(cur, c),
    ensures
        forall|k: int| 0 <= k < lines_from(s, cur).len() ==> lacks(#[trigger] lines_from(s, cur)[k], c),
    decreases s.len(),
{
    if s.len() == 0 {
        if cur.len() > 0 {
            assert(lines_from(s, cur) =~= seq![cur]);
        }
    } else {
        lemma_lacks_rest(s, c);
        if s[0] == '\n' {
            lemma_lines_lack(s.drop_first(), seq![], c);
            let r = lines_from(s.drop_first(), seq![]);
            assert(lines_from(s, cur) == seq![strip_cr(cur)] + r);
            assert(lacks(strip_cr(cur), c)) by {
                assert forall|i: int| 0 <= i < strip_cr(cur).len() implies strip_cr(cur)[i] != c by {
                    assert(strip_cr(cur)[i] == cur[i]);
                }
            }
            assert forall|k: int| 0 <= k < lines_from(s, cur).len() implies lacks(
                #[trigger] lines_from(s, cur)[k],
                c,
            ) by {
                if k > 0 {
                    assert(lines_from(s, cur)[k] == r[k - 1]);
                }
            }
        } else {
            lemma_lacks_push(cur, s[0], c);
            lemma_lines_lack(s.drop_first(), cur.push(s[0]), c);
            assert(lines_from(s, cur) == lines_from(s.drop_first(), cur.push(s[0])));
        }
    }
}

/// A text ending in `\n` is the text before it with that break.
proof fn lemma_suffix_nl(t: Seq<char>)
    requires
        has_suffix(t, seq!['\n']),
    ensures
        t =~= t.drop_last() + seq!['\n'],
{
    assert(t.skip(t.len() - 1)[0] == t[t.len() - 1]);
}

/// `t` without a final line break.
pub open spec fn unclosed(t: Seq<char>) -> Seq<char> {
    if has_suffix(t, seq!['\n']) {
        t.drop_last()
    } else {
        t
    }
}

/// `with_newline(t)` is `t` without a final break, then one break; the
/// pieces of that text are the lines of `with_newline(t)` and join back to
/// it.
proof fn lemma_text_lines(t: Seq<char>)
    requires
        lacks(t, '\r'),
    ensures
        with_newline(t) == unclosed(t) + seq!['\n'],
        lacks(unclosed(t), '\r'),
        lines(with_newline(t)).len() > 0,
        join(lines(with_newline(t)), seq!['\n']) + seq!['\n'] == with_newline(t),
        lines(with_newline(t)) == split_char(unclosed(t), '\n'),
{
    let nl = seq!['\n'];
    let x = unclosed(t);
    if has_suffix(t, nl) {
        lemma_suffix_nl(t);
    }
    assert(with_newline(t) =~= x + nl);
    assert(lacks(x, '\r')) by {
        assert forall|i: int| 0 <= i < x.len() implies x[i] != '\r' by {
            assert(x[i] == t[i]);
        }
    }
    lemma_lines_closed(x, seq![]);
    lemma_join_split(x, '\n', seq![]);
    assert(Seq::<char>::empty() + x =~= x);
}

/// Blank: nothing but whitespace.
pub open spec fn is_blank(l: Seq<char>) -> bool {
    trim(l).len() == 0
}

/// Lines joined by breaks, each closed by one; nothing for no lines.
pub open spec fn closed_join(ls: Seq<Seq<char>>) -> Seq<char> {
    if ls.len() == 0 {
        seq![]
    } else {
        join(ls, seq!['\n']) + seq!['\n']
    }
}

/// With a non-empty last body line, the append is the body's lines up to
/// the insertion point, each closed by a break, then the text as it is
/// (closed by a break), then the rest of the body's lines.
proof fn lemma_append_raw(body: Seq<char>, heading: Seq<char>, text: Seq<char>)
    requires
        last_heading_from(lines(body), heading, lines(body).len() - 1) is Some,
        lines(body).last().len() > 0,
    ensures
        0 < insertion_line(lines(body), heading) <= lines(body).len(),
        append_to_section_spec(body, heading, text) == closed_join(
            lines(body).take(insertion_line(lines(body), heading)),
        ) + with_newline(text) + closed_join(lines(body).skip(insertion_line(lines(body), heading))),
{
    let ls = lines(body);
    let nl = seq!['\n'];
    let t = with_newline(text);
    let s = last_heading_from(ls, heading, ls.len() - 1)->0;
    lemma_last_heading_bounds(ls, heading, ls.len() - 1);
    let lv = heading_level_spec(ls[s]);
    let e = section_end_from(ls, lv, s + 1);
    lemma_section_end_bounds(ls, lv, s + 1);
    let k = back_over_blank(ls, s + 1, e);
    lemma_back_bounds(ls, s + 1, e);
    assert(k == insertion_line(ls, heading));
    let l1 = ls.subrange(0, k);
    let m = ls.subrange(k, e);
    let r = ls.subrange(e, ls.len() as int);
    assert(l1.len() > 0);
    assert(ls.take(k) =~= l1);
    assert(ls.skip(k) =~= m + r);
    let a = join(l1, nl) + nl + t;
    let b = if k < e {
        a + join(m, nl) + nl
    } else {
        a
    };
    if e < ls.len() {
        let c = b + join(r, nl);
        assert(r.last() == ls.last());
        lemma_join_last(r);
        lemma_lines_no_nl(body, seq![]);
        assert(no_nl(ls[ls.len() - 1]));
        assert(ls.last().last() == ls[ls.len() - 1][ls.last().len() - 1]);
        assert(c.last() == join(r, nl).last());
        assert(!has_suffix(c, nl)) by {
            if has_suffix(c, nl) {
                assert(c.skip(c.len() - 1)[0] == c.last());
            }
        }
        assert(append_to_section_spec(body, heading, text) == c + nl);
        if k < e {
            lemma_join_concat(m, r, nl);
        } else {
            assert(m + r =~= r);
        }
        assert(c + nl =~= closed_join(l1) + t + closed_join(m + r));
    } else {
        assert(r =~= Seq::<Seq<char>>::empty());
        assert(m + r =~= m);
        assert(append_to_section_spec(body, heading, text) == b);
        assert(b =~= closed_join(l1) + t + closed_join(m + r));
    }
}

/// The section's end before its trailing blank lines is the core of both
/// laws: with a non-empty last body line, the append is the body's lines
/// with the text's lines put in at that point.
proof fn lemma_append_closed(body: Seq<char>, heading: Seq<char>, text: Seq<char>)
    requires
        last_heading_from(lines(body), heading, lines(body).len() - 1) is Some,
        lines(body).last().len() > 0,
        lacks(text, '\r'),
    ensures
        append_to_section_spec(body, heading, text) == join(
            lines(body).take(insertion_line(lines(body), heading)) + lines(with_newline(text)) + lines(
                body,
            ).skip(insertion_line(lines(body), heading)),
            seq!['\n'],
        ) + seq!['\n'],
{
    let ls = lines(body);
    let nl = seq!['\n'];
    let k = insertion_line(ls, heading);
    lemma_append_raw(body, heading, text);
    lemma_text_lines(text);
    let tl = lines(with_newline(text));
    let l1 = ls.take(k);
    let sk = ls.skip(k);
    lemma_join_concat(l1, tl, nl);
    if sk.len() > 0 {
        lemma_join_concat(l1 + tl, sk, nl);
        assert(join(l1 + tl + sk, nl) + nl =~= closed_join(l1) + with_newline(text) + closed_join(sk));
    } else {
        assert(l1 + tl + sk =~= l1 + tl);
        assert(join(l1 + tl + sk, nl) + nl =~= closed_join(l1) + with_newline(text) + closed_join(sk));
    }
}

/// A body without carriage returns, neither a lone line break nor ending
/// in an empty line, has a non-empty last line.
proof fn lemma_last_line_filled(body: Seq<char>)
    requires
        lacks(body, '\r'),
        !has_suffix(body, "\n\n"@),
        lines(body).len() > 0,
        body != seq!['\n'],
    ensures
        lines(body).last().len() > 0,
{
    reveal_strlit("\n\n");
    let e = Seq::<char>::empty();
    if body.len() == 0 {
        assert(lines(body) =~= Seq::<Seq<char>>::empty());
    }
    assert(e + body =~= body);
    if body.last() == '\n' {
        let x = body.drop_last();
        assert(body =~= x + seq!['\n']);
        assert(lacks(x, '\r')) by {
            assert forall|i: int| 0 <= i < x.len() implies x[i] != '\r' by {
                assert(x[i] == body[i]);
            }
        }
        lemma_lines_closed(x, e);
        lemma_split_last_empty(x, e);
        assert(e + x =~= x);
        if x.len() == 0 {
            assert(body =~= seq!['\n']);
        } else if x.last() == '\n' {
            assert(body.skip(body.len() - 2) =~= "\n\n"@);
        }
    } else {
        lemma_lines_open(body, e);
        lemma_split_last_empty(body, e);
    }
}

/// A heading that matches somewhere at or before `i` makes the backward
/// search succeed.
proof fn lemma_last_heading_found(ls: Seq<Seq<char>>, h: Seq<char>, i: int, j: int)
    requires
        0 <= j <= i < ls.len(),
        heading_matches_spec(ls[j], h),
    ensures
        last_heading_from(ls, h, i) is Some,
    decreases i,
{
    if !heading_matches_spec(ls[i], h) {
        lemma_last_heading_found(ls, h, i - 1, j);
    }
}

/// The body holds a heading matching `heading` and a non-empty last line.
pub proof fn lemma_section_present(body: Seq<char>, heading: Seq<char>)
    requires
        lacks(body, '\r'),
        !has_suffix(body, "\n\n"@),
        exists|i: int| 0 <= i < lines(body).len() && heading_matches_spec(#[trigger] lines(body)[i], heading),
    ensures
        last_heading_from(lines(body), heading, lines(body).len() - 1) is Some,
        lines(body).last().len() > 0,
{
    let ls = lines(body);
    let i = choose|i: int| 0 <= i < ls.len() && heading_matches_spec(#[trigger] ls[i], heading);
    lemma_last_heading_found(ls, heading, ls.len() - 1, i);
    if body == seq!['\n'] {
        let e = Seq::<char>::empty();
        assert(body.drop_first() =~= e);
        assert(lines_from(e, e) =~= Seq::<Seq<char>>::empty());
        assert(ls =~= seq![e]);
        assert(heading_text_spec(e) is None);
    }
    lemma_last_line_filled(body);
}

/// Appending to an existing section, in closed form: the body's lines up to
/// the insertion point (the end of the last section whose heading matches,
/// before its trailing blank lines), then the lines of the text, then the
/// rest of the body's lines, joined by line breaks and closed by one.
pub proof fn law_append_lands_at_section_end(body: Seq<char>, heading: Seq<char>, text: Seq<char>)
    requires
        lacks(body, '\r'),
        lacks(text, '\r'),
        !has_suffix(body, "\n\n"@),
        exists|i: int| 0 <= i < lines(body).len() && heading_matches_spec(#[trigger] lines(body)[i], heading),
    ensures
        append_to_section_spec(body, heading, text) == join(
            lines(body).take(insertion_line(lines(body), heading)) + lines(with_newline(text)) + lines(
                body,
            ).skip(insertion_line(lines(body), heading)),
            seq!['\n'],
        ) + seq!['\n'],
{
    lemma_section_present(body, heading);
    lemma_append_closed(body, heading, text);
}


/// What the backward search finds matches, and nothing after it does.
proof fn lemma_last_heading_props(ls: Seq<Seq<char>>, h: Seq<char>, i: int)
    requires
        i < ls.len(),
        last_heading_from(ls, h, i) is Some,
    ensures
        forall|j: int|
            last_heading_from(ls, h, i)->0 < j <= i ==> !heading_matches_spec(#[trigger] ls[j], h),
    decreases i + 1,
{
    if 0 <= i && !heading_matches_spec(ls[i], h) {
        lemma_last_heading_props(ls, h, i - 1);
    }
}

/// A matching line with no match after it is what the backward search finds.
proof fn lemma_last_heading_is(ls: Seq<Seq<char>>, h: Seq<char>, i: int, s: int)
    requires
        0 <= s <= i < ls.len(),
        heading_matches_spec(ls[s], h),
        forall|j: int| s < j <= i ==> !heading_matches_spec(#[trigger] ls[j], h),
    ensures
        last_heading_from(ls, h, i) == Some(s),
    decreases i,
{
    if i > s {
        lemma_last_heading_is(ls, h, i - 1, s);
    }
}

/// The section ends at the first closing line, or at the end.
pub proof fn lemma_section_end_props(ls: Seq<Seq<char>>, lv: nat, j: int)
    requires
        0 <= j <= ls.len(),
    ensures
        forall|q: int| j <= q < section_end_from(ls, lv, j) ==> !closes_section(#[trigger] ls[q], lv),
        section_end_from(ls, lv, j) == ls.len() || closes_section(ls[section_end_from(ls, lv, j)], lv),
    decreases ls.len() - j,
{
    if j < ls.len() && !closes_section(ls[j], lv) {
        lemma_section_end_props(ls, lv, j + 1);
    }
}

proof fn lemma_section_end_is(ls: Seq<Seq<char>>, lv: nat, j: int, e: int)
    requires
        0 <= j <= e <= ls.len(),
        forall|q: int| j <= q < e ==> !closes_section(#[trigger] ls[q], lv),
        e == ls.len() || closes_section(ls[e], lv),
    ensures
        section_end_from(ls, lv, j) == e,
    decreases e - j,
{
    if j < e {
        lemma_section_end_is(ls, lv, j + 1, e);
    }
}

/// Moving back over blank lines stops at a non-blank line or at `lo`.
pub proof fn lemma_back_props(ls: Seq<Seq<char>>, lo: int, e: int)
    requires
        1 <= lo <= e <= ls.len(),
    ensures
        forall|q: int| back_over_blank(ls, lo, e) <= q < e ==> is_blank(#[trigger] ls[q]),
        back_over_blank(ls, lo, e) == lo || !is_blank(ls[back_over_blank(ls, lo, e) - 1]),
    decreases e,
{
    if e > lo && is_blank(ls[e - 1]) {
        lemma_back_props(ls, lo, e - 1);
    }
}

proof fn lemma_back_is(ls: Seq<Seq<char>>, lo: int, k: int, e: int)
    requires
        1 <= lo <= k <= e <= ls.len(),
        forall|q: int| k <= q < e ==> is_blank(#[trigger] ls[q]),
        k == lo || !is_blank(ls[k - 1]),
    ensures
        back_over_blank(ls, lo, e) == k,
    decreases e - k,
{
    if k < e {
        assert(is_blank(ls[e - 1]));
        lemma_back_is(ls, lo, k, e - 1);
    }
}

proof fn lemma_lacks_concat(a: Seq<char>, b: Seq<char>, c: char)
    requires
        lacks(a, c),
        lacks(b, c),
    ensures
        lacks(a + b, c),
{
    assert forall|i: int| 0 <= i < (a + b).len() implies (a + b)[i] != c by {
        if i < a.len() {
            assert((a + b)[i] == a[i]);
        } else {
            assert((a + b)[i] == b[i - a.len()]);
        }
    }
}

/// The lines of a non-empty `t` are those of `with_newline(t)`.
proof fn lemma_text_lines_same(t: Seq<char>)
    requires
        lacks(t, '\r'),
        t.len() > 0,
    ensures
        lines(t) == lines(with_newline(t)),
{
    let nl = seq!['\n'];
    lemma_text_lines(t);
    if !has_suffix(t, nl) {
        assert(t.last() != '\n') by {
            if t.last() == '\n' {
                assert(t.skip(t.len() - 1) =~= nl);
            }
        }
        lemma_lines_open(t, seq![]);
    }
}


/// After one append, the body's lines are the old lines with the text's
/// lines put in at the insertion point.
proof fn lemma_lines_after_append(body: Seq<char>, heading: Seq<char>, t1: Seq<char>)
    requires
        lacks(body, '\r'),
        lacks(t1, '\r'),
        last_heading_from(lines(body), heading, lines(body).len() - 1) is Some,
        lines(body).last().len() > 0,
    ensures
        lines(append_to_section_spec(body, heading, t1)) == lines(body).take(insertion_line(lines(body), heading))
            + lines(with_newline(t1)) + lines(body).skip(insertion_line(lines(body), heading)),
{
    let ls = lines(body);
    let k = insertion_line(ls, heading);
    let s = last_heading_from(ls, heading, ls.len() - 1)->0;
    lemma_last_heading_bounds(ls, heading, ls.len() - 1);
    let lv = heading_level_spec(ls[s]);
    lemma_section_end_bounds(ls, lv, s + 1);
    lemma_back_bounds(ls, s + 1, section_end_from(ls, lv, s + 1));
    let t1l = lines(with_newline(t1));
    let lp = ls.take(k) + t1l + ls.skip(k);
    lemma_append_closed(body, heading, t1);
    lemma_text_lines(t1);
    lemma_lacks_concat(unclosed(t1), seq!['\n'], '\r');
    lemma_lines_no_nl(body, seq![]);
    lemma_lines_no_nl(with_newline(t1), seq![]);
    lemma_lines_lack(body, seq![], '\r');
    lemma_lines_lack(with_newline(t1), seq![], '\r');
    let n1 = t1l.len() as int;
    assert forall|q: int| 0 <= q < lp.len() implies no_nl(#[trigger] lp[q]) && !ends_cr(lp[q]) by {
        if q < k {
            assert(lp[q] == ls[q]);
        } else if q < k + n1 {
            assert(lp[q] == t1l[q - k]);
        } else {
            assert(lp[q] == ls[q - n1]);
        }
        if ends_cr(lp[q]) {
            assert(lp[q][lp[q].len() - 1] == '\r');
        }
    }
    lemma_lines_join(lp);
    lemma_strip_crs_none(lp);
}

/// After one append, the same section is found again, and its insertion
/// point has moved past the appended lines.
proof fn lemma_insertion_after_append(ls: Seq<Seq<char>>, heading: Seq<char>, t1l: Seq<Seq<char>>)
    requires
        last_heading_from(ls, heading, ls.len() - 1) is Some,
        ls.last().len() > 0,
        t1l.len() > 0,
        forall|i: int| 0 <= i < t1l.len() ==> !starts_hash(#[trigger] t1l[i]),
        !is_blank(t1l.last()),
    ensures
        last_heading_from(
            ls.take(insertion_line(ls, heading)) + t1l + ls.skip(insertion_line(ls, heading)),
            heading,
            ls.len() + t1l.len() - 1,
        ) == last_heading_from(ls, heading, ls.len() - 1),
        insertion_line(ls.take(insertion_line(ls, heading)) + t1l + ls.skip(insertion_line(ls, heading)), heading)
            == insertion_line(ls, heading) + t1l.len(),
        (ls.take(insertion_line(ls, heading)) + t1l + ls.skip(insertion_line(ls, heading))).last().len() > 0,
{
    let k = insertion_line(ls, heading);
    let lp = ls.take(k) + t1l + ls.skip(k);
    let n1 = t1l.len() as int;
    let s = last_heading_from(ls, heading, ls.len() - 1)->0;
    lemma_last_heading_bounds(ls, heading, ls.len() - 1);
    lemma_last_heading_matches(ls, heading, ls.len() - 1);
    lemma_last_heading_props(ls, heading, ls.len() - 1);
    let lv = heading_level_spec(ls[s]);
    let e = section_end_from(ls, lv, s + 1);
    lemma_section_end_bounds(ls, lv, s + 1);
    lemma_section_end_props(ls, lv, s + 1);
    lemma_back_bounds(ls, s + 1, e);
    lemma_back_props(ls, s + 1, e);
    assert(lp.len() == ls.len() + n1);
    // the same heading, and none after it
    assert forall|j: int| s < j <= lp.len() - 1 implies !heading_matches_spec(#[trigger] lp[j], heading) by {
        if k <= j < k + n1 {
            assert(lp[j] == t1l[j - k]);
            assert(!starts_hash(t1l[j - k]));
        } else if j >= k + n1 {
            assert(lp[j] == ls[j - n1]);
        } else {
            assert(lp[j] == ls[j]);
        }
    }
    assert(lp[s] == ls[s]);
    lemma_last_heading_is(lp, heading, lp.len() - 1, s);
    // the section's end moves by the appended lines
    assert forall|q: int| s + 1 <= q < e + n1 implies !closes_section(#[trigger] lp[q], lv) by {
        if k <= q < k + n1 {
            assert(lp[q] == t1l[q - k]);
            assert(!starts_hash(t1l[q - k]));
        } else if q >= k + n1 {
            assert(lp[q] == ls[q - n1]);
            assert(!closes_section(ls[q - n1], lv));
        } else {
            assert(lp[q] == ls[q]);
            assert(!closes_section(ls[q], lv));
        }
    }
    if e < ls.len() {
        assert(lp[e + n1] == ls[e]);
    }
    lemma_section_end_is(lp, lv, s + 1, e + n1);
    // and so does the insertion point
    assert forall|q: int| k + n1 <= q < e + n1 implies is_blank(#[trigger] lp[q]) by {
        assert(lp[q] == ls[q - n1]);
        assert(is_blank(ls[q - n1]));
    }
    assert(lp[k + n1 - 1] == t1l.last());
    lemma_back_is(lp, s + 1, k + n1, e + n1);
    // the last line
    if k < ls.len() {
        assert(lp.last() == ls.last());
    } else {
        assert(lp.last() == t1l.last());
        if t1l.last().len() == 0 {
            assert(trim(t1l.last()) =~= Seq::<char>::empty());
        }
    }
}


/// Two appends to the same section add up to one append of both texts, the
/// first closed by a line break: the second text lands right after the
/// first. This holds when the first text holds no line starting with `#`
/// (which would open or close a section) and ends in a non-blank line (else
/// the second append would go in before its blank tail), and the second
/// text is not empty (an empty one still adds a line break).
pub proof fn law_two_appends_accumulate(body: Seq<char>, heading: Seq<char>, t1: Seq<char>, t2: Seq<char>)
    requires
        lacks(body, '\r'),
        lacks(t1, '\r'),
        !has_suffix(body, "\n\n"@),
        exists|i: int| 0 <= i < lines(body).len() && heading_matches_spec(#[trigger] lines(body)[i], heading),
        forall|i: int| 0 <= i < lines(t1).len() ==> !starts_hash(#[trigger] lines(t1)[i]),
        lines(t1).len() > 0,
        !is_blank(lines(t1).last()),
        t2.len() > 0,
    ensures
        append_to_section_spec(append_to_section_spec(body, heading, t1), heading, t2) == append_to_section_spec(
            body,
            heading,
            with_newline(t1) + t2,
        ),
{
    let nl = seq!['\n'];
    let ls = lines(body);
    lemma_section_present(body, heading);
    let k = insertion_line(ls, heading);
    if t1.len() == 0 {
        assert(lines(t1) =~= Seq::<Seq<char>>::empty());
    }
    lemma_text_lines_same(t1);
    lemma_text_lines(t1);
    let t1l = lines(with_newline(t1));
    let n1 = t1l.len() as int;
    // the first append, and where the second lands in its result
    let body1 = append_to_section_spec(body, heading, t1);
    lemma_lines_after_append(body, heading, t1);
    let lp = ls.take(k) + t1l + ls.skip(k);
    assert(lines(body1) == lp);
    lemma_insertion_after_append(ls, heading, t1l);
    lemma_append_raw(body, heading, t1);
    assert(lp.len() == ls.len() + n1);
    lemma_append_raw(body1, heading, t2);
    let l1 = ls.take(k);
    let sk = ls.skip(k);
    assert(lp.take(k + n1) =~= l1 + t1l);
    assert(lp.skip(k + n1) =~= sk);
    lemma_join_concat(l1, t1l, nl);
    assert(closed_join(l1 + t1l) =~= closed_join(l1) + with_newline(t1));
    // one append of both texts
    let t3 = with_newline(t1) + t2;
    lemma_append_raw(body, heading, t3);
    assert(has_suffix(t3, nl) == has_suffix(t2, nl)) by {
        assert(t3.skip(t3.len() - 1) =~= t2.skip(t2.len() - 1));
    }
    assert(with_newline(t3) =~= with_newline(t1) + with_newline(t2));
}

} // verus!
