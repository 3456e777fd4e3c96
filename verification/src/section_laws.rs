//! Properties of appending to a body section: the quick lane's counter
//! counts each entry once, and a registered skip leaves the falsification
//! record in place.
use vstd::prelude::*;
use crate::document::{
    digit_pred, has_heading_spec, hash_pred, heading_level_spec, heading_matches_spec, heading_text_spec, sep_pred,
};
use crate::rules::{falsification_rule_spec, fv, Level};
use crate::workflow::pending_block_spec;
use crate::laws::{lemma_lines_concat, lemma_trim_end_last};
use crate::rules::section_end_from;
use crate::section::{append_to_section_spec, back_over_blank, last_heading_from, with_newline};
use crate::text::{
    contains, has_prefix, has_suffix, is_ws, join, lead_len, lemma_lead_len, lines, lines_from, occurs_at, strip_cr,
    trail_len, trim_end, trim_start, ws_pred,
};
use crate::textops::count_containing;
use crate::workflow::quick_line_spec;

verus! {

broadcast use vstd::string::group_string_axioms;

/// No line break in `s`.
pub open spec fn no_nl(s: Seq<char>) -> bool {
    forall|i: int| 0 <= i < s.len() ==> s[i] != '\n'
}

/// Counting over two lists of lines adds up.
proof fn lemma_count_concat(a: Seq<Seq<char>>, b: Seq<Seq<char>>, m: Seq<char>)
    ensures
        count_containing(a + b, m) == count_containing(a, m) + count_containing(b, m),
    decreases b.len(),
{
    if b.len() == 0 {
        assert(a + b =~= a);
    } else {
        assert((a + b).drop_last() =~= a + b.drop_last());
        assert((a + b).last() == b.last());
        lemma_count_concat(a, b.drop_last(), m);
    }
}

/// Counting over one line.
proof fn lemma_count_single(l: Seq<char>, m: Seq<char>)
    ensures
        count_containing(seq![l], m) == if contains(l, m) {
            1nat
        } else {
            0nat
        },
{
    assert(seq![l].drop_last() =~= Seq::<Seq<char>>::empty());
    assert(count_containing(Seq::<Seq<char>>::empty(), m) == 0);
    assert(seq![l].last() == l);
}

/// The lines with one final carriage return taken off each.
pub open spec fn strip_crs(ls: Seq<Seq<char>>) -> Seq<Seq<char>> {
    ls.map_values(|l: Seq<char>| strip_cr(l))
}

/// The line ends in a carriage return.
pub open spec fn ends_cr(l: Seq<char>) -> bool {
    l.len() > 0 && l.last() == '\r'
}

/// A single line with its break reads back as that line (less a final
/// carriage return).
proof fn lemma_lines_one(l: Seq<char>, cur: Seq<char>)
    requires
        no_nl(l),
    ensures
        lines_from(l + seq!['\n'], cur) == seq![strip_cr(cur + l)],
    decreases l.len(),
{
    let v = l + seq!['\n'];
    if l.len() == 0 {
        assert(v.drop_first() =~= Seq::<char>::empty());
        assert(lines_from(Seq::<char>::empty(), seq![]) =~= Seq::<Seq<char>>::empty());
        assert(cur + l =~= cur);
        assert(lines_from(v, cur) =~= seq![strip_cr(cur)]);
    } else {
        assert(v[0] == l[0]);
        assert(v.drop_first() =~= l.drop_first() + seq!['\n']);
        let c2 = cur.push(l[0]);
        lemma_lines_one(l.drop_first(), c2);
        assert(c2 + l.drop_first() =~= cur + l);
    }
}

/// Lines joined with breaks, and a final break, read back as those lines
/// (less a final carriage return on each).
pub proof fn lemma_lines_join(ls: Seq<Seq<char>>)
    requires
        ls.len() > 0,
        forall|k: int| 0 <= k < ls.len() ==> no_nl(#[trigger] ls[k]),
    ensures
        lines(join(ls, seq!['\n']) + seq!['\n']) == strip_crs(ls),
    decreases ls.len(),
{
    let nl = seq!['\n'];
    if ls.len() == 1 {
        assert(join(ls, nl) == ls[0]);
        lemma_lines_one(ls[0], seq![]);
        assert(Seq::<char>::empty() + ls[0] =~= ls[0]);
        assert(strip_crs(ls) =~= seq![strip_cr(ls[0])]);
    } else {
        let p = ls.drop_last();
        assert forall|k: int| 0 <= k < p.len() implies no_nl(#[trigger] p[k]) by {
            assert(p[k] == ls[k]);
        }
        lemma_lines_join(p);
        assert(no_nl(ls[ls.len() - 1]));
        assert(join(ls, nl) == join(p, nl) + nl + ls.last());
        assert(join(ls, nl) + nl =~= join(p, nl) + nl + (ls.last() + nl));
        lemma_lines_concat(join(p, nl), ls.last() + nl, seq![]);
        lemma_lines_one(ls.last(), seq![]);
        assert(Seq::<char>::empty() + ls.last() =~= ls.last());
        assert(strip_crs(p) + seq![strip_cr(ls.last())] =~= strip_crs(ls));
    }
}

/// Lines that do not end in a carriage return are left as they are.
pub proof fn lemma_strip_crs_none(ls: Seq<Seq<char>>)
    requires
        forall|k: int| 0 <= k < ls.len() ==> !ends_cr(#[trigger] ls[k]),
    ensures
        strip_crs(ls) == ls,
{
    assert forall|k: int| 0 <= k < ls.len() implies #[trigger] strip_crs(ls)[k] == ls[k] by {
        assert(!ends_cr(ls[k]));
    }
    assert(strip_crs(ls) =~= ls);
}

/// No line holds a line break.
pub proof fn lemma_lines_no_nl(s: Seq<char>, cur: Seq<char>)
    requires
        no_nl(cur),
    ensures
        forall|k: int| 0 <= k < lines_from(s, cur).len() ==> no_nl(#[trigger] lines_from(s, cur)[k]),
    decreases s.len(),
{
    if s.len() == 0 {
        if cur.len() > 0 {
            assert(lines_from(s, cur) =~= seq![cur]);
        }
    } else if s[0] == '\n' {
        lemma_lines_no_nl(s.drop_first(), seq![]);
        let r = lines_from(s.drop_first(), seq![]);
        assert(lines_from(s, cur) == seq![strip_cr(cur)] + r);
        assert(no_nl(strip_cr(cur)));
        assert forall|k: int| 0 <= k < lines_from(s, cur).len() implies no_nl(
            #[trigger] lines_from(s, cur)[k],
        ) by {
            if k > 0 {
                assert(lines_from(s, cur)[k] == r[k - 1]);
            } else {
                assert(lines_from(s, cur)[0] == strip_cr(cur));
            }
        }
    } else {
        let c2 = cur.push(s[0]);
        assert(no_nl(c2));
        lemma_lines_no_nl(s.drop_first(), c2);
        assert(lines_from(s, cur) == lines_from(s.drop_first(), c2));
    }
}

/// A trailing whitespace character neither makes nor breaks the marker.
proof fn lemma_contains_ws_push(x: Seq<char>, c: char)
    requires
        is_ws(c),
    ensures
        contains(x.push(c), "] quick:"@) == contains(x, "] quick:"@),
{
    let m = "] quick:"@;
    reveal_strlit("] quick:");
    assert(m.len() == 8 && m[7] == ':');
    let y = x.push(c);
    if contains(x, m) {
        let i = choose|i: int| occurs_at(x, m, i);
        assert(y.subrange(i, i + 8) =~= x.subrange(i, i + 8));
        assert(occurs_at(y, m, i));
    }
    if contains(y, m) {
        let i = choose|i: int| occurs_at(y, m, i);
        if i + 8 > x.len() {
            assert(y.subrange(i, i + 8)[7] == y[i + 7]);
            assert(y[i + 7] == c);
        } else {
            assert(x.subrange(i, i + 8) =~= y.subrange(i, i + 8));
            assert(occurs_at(x, m, i));
        }
    }
}

/// A final carriage return neither makes nor breaks the marker.
proof fn lemma_contains_strip_cr(x: Seq<char>)
    ensures
        contains(strip_cr(x), "] quick:"@) == contains(x, "] quick:"@),
{
    if x.len() > 0 && x.last() == '\r' {
        assert(x =~= x.drop_last().push('\r'));
        lemma_contains_ws_push(x.drop_last(), '\r');
    }
}

/// Taking the final carriage returns off does not change the count.
proof fn lemma_count_strip_crs(ls: Seq<Seq<char>>)
    ensures
        count_containing(strip_crs(ls), "] quick:"@) == count_containing(ls, "] quick:"@),
    decreases ls.len(),
{
    if ls.len() > 0 {
        assert(strip_crs(ls).drop_last() =~= strip_crs(ls.drop_last()));
        assert(strip_crs(ls).last() == strip_cr(ls.last()));
        lemma_count_strip_crs(ls.drop_last());
        lemma_contains_strip_cr(ls.last());
    }
}

/// Whitespace after the current partial line: only that line can count.
proof fn lemma_ws_tail(u: Seq<char>, cur: Seq<char>)
    requires
        forall|i: int| 0 <= i < u.len() ==> is_ws(#[trigger] u[i]),
    ensures
        count_containing(lines_from(u, cur), "] quick:"@) == if contains(cur, "] quick:"@) {
            1nat
        } else {
            0nat
        },
    decreases u.len(),
{
    let m = "] quick:"@;
    lemma_empty_unmarked();
    if u.len() == 0 {
        if cur.len() == 0 {
            assert(lines_from(u, cur) =~= Seq::<Seq<char>>::empty());
            assert(cur =~= Seq::<char>::empty());
        } else {
            assert(lines_from(u, cur) =~= seq![cur]);
            lemma_count_single(cur, m);
        }
    } else if u[0] == '\n' {
        lemma_ws_tail(u.drop_first(), seq![]);
        assert(lines_from(u, cur) == seq![strip_cr(cur)] + lines_from(u.drop_first(), seq![]));
        lemma_count_concat(seq![strip_cr(cur)], lines_from(u.drop_first(), seq![]), m);
        lemma_count_single(strip_cr(cur), m);
        lemma_contains_strip_cr(cur);
    } else {
        assert(is_ws(u[0]));
        lemma_contains_ws_push(cur, u[0]);
        lemma_ws_tail(u.drop_first(), cur.push(u[0]));
        assert(lines_from(u, cur) == lines_from(u.drop_first(), cur.push(u[0])));
    }
}

/// Trailing whitespace counts like a single closing break.
proof fn lemma_ws_tail_as_break(s: Seq<char>, u: Seq<char>, cur: Seq<char>)
    requires
        forall|i: int| 0 <= i < u.len() ==> is_ws(#[trigger] u[i]),
    ensures
        count_containing(lines_from(s + u, cur), "] quick:"@) == count_containing(
            lines_from(s + seq!['\n'], cur),
            "] quick:"@,
        ),
    decreases s.len(),
{
    let m = "] quick:"@;
    let nl = seq!['\n'];
    if s.len() == 0 {
        assert(s + u =~= u);
        assert(s + nl =~= nl);
        lemma_ws_tail(u, cur);
        assert(nl.drop_first() =~= Seq::<char>::empty());
        assert(lines_from(Seq::<char>::empty(), seq![]) =~= Seq::<Seq<char>>::empty());
        assert(lines_from(nl, cur) == seq![strip_cr(cur)] + lines_from(nl.drop_first(), seq![]));
        assert(lines_from(nl, cur) =~= seq![strip_cr(cur)]);
        lemma_count_single(strip_cr(cur), m);
        lemma_contains_strip_cr(cur);
    } else {
        assert((s + u)[0] == s[0]);
        assert((s + nl)[0] == s[0]);
        assert((s + u).drop_first() =~= s.drop_first() + u);
        assert((s + nl).drop_first() =~= s.drop_first() + nl);
        if s[0] == '\n' {
            lemma_ws_tail_as_break(s.drop_first(), u, seq![]);
            assert(lines_from(s + u, cur) == seq![strip_cr(cur)] + lines_from(s.drop_first() + u, seq![]));
            assert(lines_from(s + nl, cur) == seq![strip_cr(cur)] + lines_from(s.drop_first() + nl, seq![]));
            lemma_count_concat(seq![strip_cr(cur)], lines_from(s.drop_first() + u, seq![]), m);
            lemma_count_concat(seq![strip_cr(cur)], lines_from(s.drop_first() + nl, seq![]), m);
        } else {
            lemma_ws_tail_as_break(s.drop_first(), u, cur.push(s[0]));
            assert(lines_from(s + u, cur) == lines_from(s.drop_first() + u, cur.push(s[0])));
            assert(lines_from(s + nl, cur) == lines_from(s.drop_first() + nl, cur.push(s[0])));
        }
    }
}

/// What `trim_end` removes is whitespace.
proof fn lemma_trail_is_ws(s: Seq<char>)
    ensures
        trail_len(s, ws_pred()) <= s.len(),
        forall|j: int| s.len() - trail_len(s, ws_pred()) <= j < s.len() ==> is_ws(#[trigger] s[j]),
    decreases s.len(),
{
    let f = ws_pred();
    if s.len() > 0 && f(s.last()) {
        lemma_trail_is_ws(s.drop_last());
        assert(trail_len(s, f) == 1 + trail_len(s.drop_last(), f));
        assert forall|j: int| s.len() - trail_len(s, f) <= j < s.len() implies is_ws(#[trigger] s[j]) by {
            if j < s.len() - 1 {
                assert(s[j] == s.drop_last()[j]);
            }
        }
    }
}

pub proof fn lemma_last_heading_bounds(ls: Seq<Seq<char>>, h: Seq<char>, i: int)
    ensures
        last_heading_from(ls, h, i) matches Some(k) ==> 0 <= k <= i && k < ls.len(),
    decreases i + 1,
{
    if 0 <= i < ls.len() {
        lemma_last_heading_bounds(ls, h, i - 1);
    }
}

pub proof fn lemma_section_end_bounds(ls: Seq<Seq<char>>, level: nat, j: int)
    requires
        0 <= j <= ls.len(),
    ensures
        j <= section_end_from(ls, level, j) <= ls.len(),
    decreases ls.len() - j,
{
    if j < ls.len() {
        lemma_section_end_bounds(ls, level, j + 1);
    }
}

pub proof fn lemma_back_bounds(ls: Seq<Seq<char>>, lo: int, k: int)
    requires
        lo <= k,
    ensures
        lo <= back_over_blank(ls, lo, k) <= k,
    decreases k,
{
    if k > lo && 0 < k <= ls.len() && crate::text::trim(ls[k - 1]).len() == 0 {
        lemma_back_bounds(ls, lo, k - 1);
    }
}

/// The empty line holds no marker.
proof fn lemma_empty_unmarked()
    ensures
        !contains(Seq::<char>::empty(), "] quick:"@),
{
    reveal_strlit("] quick:");
    let e = Seq::<char>::empty();
    if contains(e, "] quick:"@) {
        let i = choose|i: int| occurs_at(e, "] quick:"@, i);
    }
}

/// The joined lines end in the last one's last character.
pub proof fn lemma_join_last(ls: Seq<Seq<char>>)
    requires
        ls.len() > 0,
        ls.last().len() > 0,
    ensures
        join(ls, seq!['\n']).len() > 0,
        join(ls, seq!['\n']).last() == ls.last().last(),
{
    if ls.len() > 1 {
        assert(join(ls, seq!['\n']) == join(ls.drop_last(), seq!['\n']) + seq!['\n'] + ls.last());
    }
}

/// Lines `b` (ending in a break) followed by the joined lines `es`, closed
/// by a break unless they already end in one: the count adds up.
proof fn lemma_count_tail(b: Seq<char>, es: Seq<Seq<char>>)
    requires
        b.len() > 0,
        b.last() == '\n',
        es.len() > 0,
        forall|k: int| 0 <= k < es.len() ==> no_nl(#[trigger] es[k]),
    ensures
        ({
            let c = b + join(es, seq!['\n']);
            let r = if has_suffix(c, seq!['\n']) {
                c
            } else {
                c + seq!['\n']
            };
            count_containing(lines(r), "] quick:"@) == count_containing(lines(b), "] quick:"@)
                + count_containing(es, "] quick:"@)
        }),
{
    let m = "] quick:"@;
    let nl = seq!['\n'];
    let b0 = b.drop_last();
    assert(b =~= b0 + nl);
    let c = b + join(es, nl);
    let e = es.last();
    lemma_empty_unmarked();
    if e.len() > 0 {
        lemma_join_last(es);
        assert(c.last() == e.last());
        assert(no_nl(e));
        assert(e.last() == e[e.len() - 1]);
        assert(!has_suffix(c, nl)) by {
            if has_suffix(c, nl) {
                assert(c.skip(c.len() - 1)[0] == c.last());
            }
        }
        assert(c + nl =~= b0 + nl + (join(es, nl) + nl));
        lemma_lines_concat(b0, join(es, nl) + nl, seq![]);
        lemma_lines_join(es);
        lemma_count_strip_crs(es);
        lemma_count_concat(lines(b), strip_crs(es), m);
        assert(lines(c + nl) == lines(b) + strip_crs(es));
    } else if es.len() == 1 {
        assert(e =~= Seq::<char>::empty());
        assert(join(es, nl) == e);
        assert(c =~= b);
        assert(c.skip(c.len() - 1) =~= nl);
        assert(has_suffix(c, nl));
        assert(es =~= seq![e]);
        lemma_count_single(e, m);
        assert(count_containing(es, m) == 0);
    } else {
        assert(e =~= Seq::<char>::empty());
        let p = es.drop_last();
        assert(join(es, nl) == join(p, nl) + nl + e);
        assert(c =~= b0 + nl + (join(p, nl) + nl));
        assert(c.skip(c.len() - 1) =~= nl);
        assert(has_suffix(c, nl));
        assert forall|k: int| 0 <= k < p.len() implies no_nl(#[trigger] p[k]) by {
            assert(p[k] == es[k]);
        }
        lemma_lines_concat(b0, join(p, nl) + nl, seq![]);
        lemma_lines_join(p);
        lemma_count_strip_crs(p);
        lemma_count_concat(lines(b), strip_crs(p), m);
        assert(lines(c) == lines(b) + strip_crs(p));
        assert(count_containing(es, m) == count_containing(p, m));
    }
}

/// Each quick-lane entry counts once: logging one under `## 决策日志`
/// raises the number of `] quick:` lines by exactly one, for any body, when
/// the entry stays on one line (its time, message and actor hold no line
/// break).
pub proof fn law_quick_entry_counts_once(body: Seq<char>, now: Seq<char>, msg: Seq<char>, actor: Seq<char>)
    requires
        no_nl(now),
        no_nl(msg),
        no_nl(actor),
    ensures
        count_containing(
            lines(append_to_section_spec(body, "决策日志"@, quick_line_spec(now, msg, actor))),
            "] quick:"@,
        ) == count_containing(lines(body), "] quick:"@) + 1,
{
    let m = "] quick:"@;
    let nl = seq!['\n'];
    let h = "决策日志"@;
    let q = quick_line_spec(now, msg, actor);
    reveal_strlit("- [");
    reveal_strlit("] quick: ");
    reveal_strlit(" — ");
    reveal_strlit("] quick:");
    reveal_strlit("决策日志");
    reveal_strlit("\n\n## ");
    lemma_empty_unmarked();
    // the entry: one line, holding the marker
    let pre = "- ["@ + now;
    assert(q == pre + "] quick: "@ + msg + " — "@ + actor);
    assert(no_nl(q));
    assert(q.len() > 0 && q.last() == q[q.len() - 1]);
    assert(!has_suffix(q, nl)) by {
        if has_suffix(q, nl) {
            assert(q.skip(q.len() - 1)[0] == q.last());
        }
    }
    assert(with_newline(q) == q + nl);
    assert(occurs_at(q, m, pre.len() as int)) by {
        assert forall|k: int| 0 <= k < 8 implies q[pre.len() + k] == m[k] by {
            assert(q[pre.len() + k] == "] quick: "@[k]);
        }
        assert(q.subrange(pre.len() as int, pre.len() + 8int) =~= m);
    }
    assert(contains(q, m));
    lemma_lines_one(q, seq![]);
    assert(Seq::<char>::empty() + q =~= q);
    let sq = strip_cr(q);
    lemma_contains_strip_cr(q);
    lemma_count_single(sq, m);
    // the body's lines hold no break
    let ls = lines(body);
    lemma_lines_no_nl(body, seq![]);
    let r = append_to_section_spec(body, h, q);
    lemma_last_heading_bounds(ls, h, ls.len() - 1);
    match last_heading_from(ls, h, ls.len() - 1) {
        Some(start) => {
            let end = section_end_from(ls, heading_level_spec(ls[start]), start + 1);
            lemma_section_end_bounds(ls, heading_level_spec(ls[start]), start + 1);
            let ins = back_over_blank(ls, start + 1, end);
            lemma_back_bounds(ls, start + 1, end);
            let p = ls.subrange(0, ins);
            let mid = ls.subrange(ins, end);
            let es = ls.subrange(end, ls.len() as int);
            assert forall|k: int| 0 <= k < p.len() implies no_nl(#[trigger] p[k]) by {
                assert(p[k] == ls[k]);
            }
            assert forall|k: int| 0 <= k < mid.len() implies no_nl(#[trigger] mid[k]) by {
                assert(mid[k] == ls[ins + k]);
            }
            assert forall|k: int| 0 <= k < es.len() implies no_nl(#[trigger] es[k]) by {
                assert(es[k] == ls[end + k]);
            }
            // the section up to the new entry
            let a0 = join(p, nl) + nl + q;
            let a = join(p, nl) + nl + (q + nl);
            assert(a =~= a0 + nl);
            lemma_lines_concat(join(p, nl), q + nl, seq![]);
            lemma_lines_join(p);
            assert(lines(a) == strip_crs(p) + seq![sq]);
            lemma_count_strip_crs(p);
            lemma_count_concat(strip_crs(p), seq![sq], m);
            // the rest of the section
            let b = if ins < end {
                a + join(mid, nl) + nl
            } else {
                a
            };
            if ins < end {
                assert(b =~= a0 + nl + (join(mid, nl) + nl));
                lemma_lines_concat(a0, join(mid, nl) + nl, seq![]);
                lemma_lines_join(mid);
                lemma_count_strip_crs(mid);
                lemma_count_concat(strip_crs(p) + seq![sq], strip_crs(mid), m);
            } else {
                assert(mid =~= Seq::<Seq<char>>::empty());
            }
            assert(count_containing(lines(b), m) == count_containing(p, m) + 1 + count_containing(mid, m));
            assert(b.len() > 0 && b.last() == '\n');
            // the sections after it
            if end < ls.len() {
                lemma_count_tail(b, es);
            } else {
                assert(es =~= Seq::<Seq<char>>::empty());
            }
            assert(count_containing(lines(r), m) == count_containing(lines(b), m) + count_containing(es, m));
            assert(ls =~= p + mid + es);
            lemma_count_concat(p, mid, m);
            lemma_count_concat(p + mid, es, m);
        },
        None => {
            let t = trim_end(body);
            let k = "## "@ + h;
            reveal_strlit("## ");
            assert(k =~= seq!['#', '#', ' ', '决', '策', '日', '志']);
            assert(no_nl(k));
            assert(strip_cr(k) == k);
            assert(!contains(k, m)) by {
                if contains(k, m) {
                    let i = choose|i: int| occurs_at(k, m, i);
                    assert(k.subrange(i, i + 8)[0] == k[i]);
                }
            }
            let rest = k + nl + (q + nl);
            assert(r =~= t + nl + (nl + rest));
            lemma_lines_concat(t, nl + rest, seq![]);
            assert((nl + rest)[0] == '\n');
            assert((nl + rest).drop_first() =~= rest);
            assert(strip_cr(Seq::<char>::empty()) =~= Seq::<char>::empty());
            lemma_lines_concat(k, q + nl, seq![]);
            lemma_lines_one(k, seq![]);
            assert(Seq::<char>::empty() + k =~= k);
            let tail = seq![Seq::<char>::empty()] + (seq![k] + seq![sq]);
            assert(lines_from(nl + rest, seq![]) == tail);
            assert(count_containing(tail, m) == 1) by {
                lemma_count_single(Seq::<char>::empty(), m);
                lemma_count_single(k, m);
                lemma_count_concat(seq![k], seq![sq], m);
                lemma_count_concat(seq![Seq::<char>::empty()], seq![k] + seq![sq], m);
            }
            lemma_count_concat(lines_from(t + nl, seq![]), tail, m);
            // trailing whitespace of the body counted like one break
            lemma_trail_is_ws(body);
            let w = body.skip(t.len() as int);
            assert(body =~= t + w);
            assert forall|i: int| 0 <= i < w.len() implies is_ws(#[trigger] w[i]) by {
                assert(w[i] == body[t.len() + i]);
            }
            lemma_ws_tail_as_break(t, w, seq![]);
        },
    }
}

// ---------------------------------------------------------------------------
// A registered skip keeps the falsification record
// ---------------------------------------------------------------------------

/// The heading `last_heading_from` finds matches.
pub proof fn lemma_last_heading_matches(ls: Seq<Seq<char>>, h: Seq<char>, i: int)
    ensures
        last_heading_from(ls, h, i) matches Some(k) ==> heading_matches_spec(ls[k], h),
    decreases i + 1,
{
    if 0 <= i < ls.len() && !heading_matches_spec(ls[i], h) {
        lemma_last_heading_matches(ls, h, i - 1);
    }
}

/// After a line break, the lines of what follows are appended.
proof fn lemma_lines_after_break(a: Seq<char>, y: Seq<char>)
    requires
        a.len() > 0,
        a.last() == '\n',
    ensures
        lines(a + y) == lines(a) + lines(y),
{
    let a0 = a.drop_last();
    assert(a =~= a0 + seq!['\n']);
    assert(a + y =~= a0 + seq!['\n'] + y);
    lemma_lines_concat(a0, y, seq![]);
}

/// The leading run of `s` with one more character at the end.
proof fn lemma_lead_len_push(s: Seq<char>, c: char, f: spec_fn(char) -> bool)
    ensures
        lead_len(s, f) <= s.len(),
        lead_len(s.push(c), f) == if lead_len(s, f) == s.len() && f(c) {
            s.len() + 1
        } else {
            lead_len(s, f)
        },
    decreases s.len(),
{
    if s.len() > 0 {
        assert(s.push(c)[0] == s[0]);
        assert(s.push(c).drop_first() =~= s.drop_first().push(c));
        lemma_lead_len_push(s.drop_first(), c, f);
        assert(lead_len(s.push(c), f) == if f(s[0]) {
            1 + lead_len(s.drop_first().push(c), f)
        } else {
            0
        });
    } else {
        assert(s.push(c) =~= seq![c]);
        assert(seq![c].drop_first() =~= Seq::<char>::empty());
        assert(lead_len(Seq::<char>::empty(), f) == 0);
        assert(seq![c][0] == c);
    }
}

/// `trim_start` of `x` with a final carriage return: empty when `x` is all
/// whitespace, else `trim_start(x)` with the carriage return.
proof fn lemma_trim_start_push_cr(x: Seq<char>)
    ensures
        lead_len(x, ws_pred()) <= x.len(),
        lead_len(x, ws_pred()) == x.len() ==> trim_start(x.push('\r')).len() == 0,
        lead_len(x, ws_pred()) < x.len() ==> trim_start(x.push('\r')) == trim_start(x).push('\r'),
{
    lemma_lead_len_push(x, '\r', ws_pred());
    assert(is_ws('\r'));
    let n = lead_len(x, ws_pred());
    if n < x.len() {
        assert(x.push('\r').skip(n as int) =~= x.skip(n as int).push('\r'));
    }
}

/// A heading line still names its heading without a final carriage return
/// (for a heading text that does not itself end in one).
proof fn lemma_heading_matches_strip_cr(l: Seq<char>, h: Seq<char>)
    requires
        heading_matches_spec(l, h),
        h.len() > 0,
        h.last() != '\r',
    ensures
        heading_matches_spec(strip_cr(l), h),
{
    if l.len() > 0 && l.last() == '\r' {
        let l2 = l.drop_last();
        assert(l =~= l2.push('\r'));
        assert(l2.len() > 0) by {
            if l2.len() == 0 {
                assert(l[0] == '\r');
            }
        }
        assert(l2[0] == l[0]);
        lemma_lead_len_push(l2, '\r', hash_pred());
        let n = lead_len(l2, hash_pred());
        assert(lead_len(l, hash_pred()) == n);
        let x2 = l2.skip(n as int);
        assert(l.skip(n as int) =~= x2.push('\r'));
        lemma_trim_start_push_cr(x2);
        let t = trim_start(l.skip(n as int));
        let t2 = trim_start(x2);
        if lead_len(x2, ws_pred()) == x2.len() {
            assert(t.len() == 0);
            lemma_lead_len_push(t, '\r', digit_pred());
            assert(false);
        }
        assert(t == t2.push('\r'));
        lemma_lead_len_push(t2, '\r', digit_pred());
        let d = lead_len(t2, digit_pred());
        assert(lead_len(t, digit_pred()) == d);
        let text = heading_text_spec(l)->0;
        let text2 = heading_text_spec(l2)->0;
        if d > 0 {
            let rest2 = t2.skip(d as int);
            assert(t.skip(d as int) =~= rest2.push('\r'));
            lemma_lead_len_push(rest2, '\r', sep_pred());
            let k = lead_len(rest2, sep_pred());
            assert(lead_len(rest2.push('\r'), sep_pred()) == k);
            if k > 0 {
                let y2 = rest2.skip(k as int);
                assert(rest2.push('\r').skip(k as int) =~= y2.push('\r'));
                lemma_trim_start_push_cr(y2);
                if lead_len(y2, ws_pred()) == y2.len() {
                    assert(text.len() == 0);
                    assert(false);
                }
                assert(text == text2.push('\r'));
            } else {
                assert(text == text2.push('\r'));
            }
        } else {
            assert(text == text2.push('\r'));
        }
        assert(has_prefix(text, h));
        assert(h.len() < text.len()) by {
            if h.len() == text.len() {
                assert(text.take(h.len() as int)[h.len() - 1] == text.last());
            }
        }
        assert(text2.take(h.len() as int) =~= text.take(h.len() as int));
        assert(has_prefix(text2, h));
    }
}

/// `## 反证实验` is a heading for 反证实验.
proof fn lemma_record_heading_matches()
    ensures
        heading_matches_spec("## 反证实验"@, "反证实验"@),
{
    let l = "## 反证实验"@;
    let h = "反证实验"@;
    reveal_strlit("## 反证实验");
    reveal_strlit("反证实验");
    lemma_lead_len(l, hash_pred(), 2);
    let rest = l.skip(2);
    lemma_lead_len(rest, ws_pred(), 1);
    let t = trim_start(rest);
    assert(t =~= h);
    lemma_lead_len(t, digit_pred(), 0);
    assert(t.take(h.len() as int) =~= h);
    assert(has_prefix(t, h));
}

/// Appending into an existing 反证实验 section keeps its heading.
proof fn lemma_record_kept_found(src: Seq<char>, text: Seq<char>)
    requires
        last_heading_from(lines(src), "反证实验"@, lines(src).len() - 1) is Some,
    ensures
        has_heading_spec(append_to_section_spec(src, "反证实验"@, text), "反证实验"@),
{
    let nl = seq!['\n'];
    let h = "反证实验"@;
    let t = with_newline(text);
    let r = append_to_section_spec(src, h, text);
    assert(t.len() > 0 && t.last() == '\n') by {
        if has_suffix(text, nl) {
            assert(text.skip(text.len() - 1)[0] == text.last());
        }
    }
    let ls = lines(src);
    lemma_lines_no_nl(src, seq![]);
    lemma_last_heading_bounds(ls, h, ls.len() - 1);
    lemma_last_heading_matches(ls, h, ls.len() - 1);
    let start = last_heading_from(ls, h, ls.len() - 1)->0;
    let end = section_end_from(ls, heading_level_spec(ls[start]), start + 1);
    lemma_section_end_bounds(ls, heading_level_spec(ls[start]), start + 1);
    let ins = back_over_blank(ls, start + 1, end);
    lemma_back_bounds(ls, start + 1, end);
    let p = ls.subrange(0, ins);
    assert forall|k: int| 0 <= k < p.len() implies no_nl(#[trigger] p[k]) by {
        assert(p[k] == ls[k]);
    }
    let a = join(p, nl) + nl + t;
    lemma_lines_concat(join(p, nl), t, seq![]);
    lemma_lines_join(p);
    assert(lines(a) == strip_crs(p) + lines(t));
    assert(a.last() == t.last());
    let b = if ins < end {
        a + join(ls.subrange(ins, end), nl) + nl
    } else {
        a
    };
    if ins < end {
        assert(b =~= a + (join(ls.subrange(ins, end), nl) + nl));
        lemma_lines_after_break(a, join(ls.subrange(ins, end), nl) + nl);
    }
    assert(b.len() > 0 && b.last() == '\n');
    assert(lines(b).len() >= p.len() && lines(b)[start] == strip_cr(ls[start]));
    if end < ls.len() {
        let e = join(ls.subrange(end, ls.len() as int), nl);
        let c = b + e;
        lemma_lines_after_break(b, e);
        if !has_suffix(c, nl) {
            assert(c + nl =~= b + (e + nl));
            lemma_lines_after_break(b, e + nl);
        }
    }
    assert(lines(r).len() > start && lines(r)[start] == strip_cr(ls[start]));
    reveal_strlit("反证实验");
    assert(h.len() > 0 && h.last() != '\r');
    lemma_heading_matches_strip_cr(ls[start], h);
    assert(heading_matches_spec(lines(r)[start], h));
}

/// Without a 反证实验 section, appending adds one.
proof fn lemma_record_kept_missing(src: Seq<char>, text: Seq<char>)
    requires
        trim_end(src) == src,
        last_heading_from(lines(src), "反证实验"@, lines(src).len() - 1) is None,
    ensures
        has_heading_spec(append_to_section_spec(src, "反证实验"@, text), "反证实验"@),
{
    let nl = seq!['\n'];
    let h = "反证实验"@;
    let t = with_newline(text);
    let r = append_to_section_spec(src, h, text);
    let k = "## 反证实验"@;
    reveal_strlit("## 反证实验");
    reveal_strlit("反证实验");
    reveal_strlit("\n\n## ");
    assert(k =~= "## "@ + h) by {
        reveal_strlit("## ");
    }
    assert(no_nl(k));
    assert(r =~= src + nl + (nl + (k + nl + t)));
    lemma_lines_concat(src, nl + (k + nl + t), seq![]);
    assert((nl + (k + nl + t)).drop_first() =~= k + nl + t);
    assert(lines_from(nl + (k + nl + t), seq![]) == seq![strip_cr(Seq::<char>::empty())] + lines_from(
        k + nl + t,
        seq![],
    ));
    lemma_lines_concat(k, t, seq![]);
    lemma_lines_one(k, seq![]);
    assert(Seq::<char>::empty() + k =~= k);
    assert(strip_cr(k) == k);
    let n: int = lines_from(src + nl, seq![]).len() as int;
    assert(lines(r)[n + 1] == k);
    lemma_record_heading_matches();
    assert(heading_matches_spec(lines(r)[n + 1], h));
}

/// Registering a skipped falsification keeps the record in place: the body
/// still has its 反证实验 section (it is added when missing), so for an item
/// in `working` the falsification rule only notes the pending test, and
/// nothing it reports blocks `promote`.
pub proof fn law_registered_skip_keeps_the_record(
    body: Seq<char>,
    reason: Seq<char>,
    today: Seq<char>,
    mode: Seq<char>,
)
    ensures
        has_heading_spec(
            append_to_section_spec(trim_end(body), "反证实验"@, trim_end(pending_block_spec(reason, today))),
            "反证实验"@,
        ),
        falsification_rule_spec(
            append_to_section_spec(trim_end(body), "反证实验"@, trim_end(pending_block_spec(reason, today))),
            Some("pending"@),
            "working"@,
            mode,
        ) == seq![
            fv(
                Level::Info,
                "PendingVerification"@,
                "存在 `pending` 待测项：complete 前必须实际执行并填真实结果"@,
            ),
        ],
{
    let h = "反证实验"@;
    let text = trim_end(pending_block_spec(reason, today));
    let src = trim_end(body);
    if last_heading_from(lines(src), h, lines(src).len() - 1) is Some {
        lemma_record_kept_found(src, text);
    } else {
        lemma_trim_end_last(body);
        lemma_trail_is_ws(src);
        assert(trim_end(src) =~= src);
        lemma_record_kept_missing(src, text);
    }
    reveal_strlit("finished");
    reveal_strlit("community");
    reveal_strlit("working");
    assert("working"@ != "finished"@ && "working"@ != "community"@) by {
        assert("working"@.len() == 7 && "finished"@.len() == 8 && "community"@.len() == 9);
    }
}

} // verus!
