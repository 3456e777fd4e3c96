//! Properties that hold across the library's operations.
use vstd::prelude::*;
use crate::commands::{clear_pending_spec, is_pending_of, kept_lines, pitfall_line_spec, term_block_spec};
use crate::document::{
    after_open_spec, assemble_spec, delimiter_from, is_fm_delimiter, raw_lines, split_frontmatter_spec,
};
use crate::path::{is_named, join_spec};
use crate::rules::{falsification_rule_spec, pending_spec, required_fields_spec};
use crate::search::strip_bullets;
use crate::section_laws::{ends_cr, lemma_lines_join, lemma_lines_no_nl, lemma_strip_crs_none, no_nl};
use crate::store::{components_spec, lexically_inside, named_from, path_starts_with_spec};
use crate::templates::render_spec;
use crate::text::{
    contains, find, has_prefix, has_suffix, is_ws, join, lemma_find_first, lemma_find_none, lemma_join_split,
    lines, lines_from, occurs_at, split_char, split_from, strip_cr, trail_len, trim_end, ws_pred,
};
use crate::textops::{first_segment, is_status_name, route_spec, strip_dot_slash, strip_tail_comment_spec};
use crate::workflow::pending_line_spec;

verus! {

broadcast use vstd::string::group_string_axioms;

/// Routing is idempotent: a routed path is left as it is when routed again
/// (it starts with `projects/`, which is no status directory).
pub proof fn law_route_idempotent(rel: Seq<char>, project: Seq<char>)
    ensures
        route_spec(route_spec(rel, project).0, project).0 == route_spec(rel, project).0,
        !route_spec(route_spec(rel, project).0, project).1,
{
    let r = route_spec(rel, project);
    if r.1 {
        let p = r.0;
        let t = strip_dot_slash(rel);
        reveal_strlit("projects/");
        reveal_strlit("/");
        assert(p == "projects/"@ + project + "/"@ + t);
        assert(p.len() >= 9);
        assert(p[0] == 'p');
        assert(p[1] == 'r');
        assert(strip_dot_slash(p) == p);
        let q = p.drop_first();
        assert(q[0] == 'r');
        assert(first_segment(p) == seq![p[0]] + first_segment(q));
        assert(first_segment(q) == seq![q[0]] + first_segment(q.drop_first()));
        let f = first_segment(p);
        assert(f.len() >= 2);
        assert(f[0] == 'p');
        assert(f[1] == 'r');
        reveal_strlit("pool");
        reveal_strlit("working");
        reveal_strlit("finished");
        reveal_strlit("community");
        assert(f != "pool"@) by { assert("pool"@[1] == 'o'); }
        assert(f != "working"@) by { assert("working"@[0] == 'w'); }
        assert(f != "finished"@) by { assert("finished"@[0] == 'f'); }
        assert(f != "community"@) by { assert("community"@[0] == 'c'); }
        assert(!is_status_name(f));
    }
}

/// A falsification registered as pending counts as pending (so `complete`
/// refuses the item until it is cleared).
pub proof fn law_registered_pending_blocks_complete(body: Seq<char>)
    ensures
        pending_spec(body, Some("pending"@)),
{
}

/// Finished and community items are exempt from the falsification record
/// and the pruning sections.
pub proof fn law_closed_items_exempt(
    body: Seq<char>,
    falsification: Option<Seq<char>>,
    fields: Seq<Seq<char>>,
    located: Seq<char>,
    mode: Seq<char>,
)
    requires
        located == "finished"@ || located == "community"@,
    ensures
        falsification_rule_spec(body, falsification, located, mode) == Seq::<crate::rules::FindingView>::empty(),
        required_fields_spec(body, fields, located) == Seq::<crate::rules::FindingView>::empty(),
{
}

/// The line registered for a skipped falsification is the one clearing the
/// item's pending entries removes.
pub proof fn law_pending_line_is_cleared(slug: Seq<char>, reason: Seq<char>, today: Seq<char>)
    ensures
        is_pending_of(pending_line_spec(slug, reason, today), slug),
{
    let l = pending_line_spec(slug, reason, today);
    let head = "- [ ] "@;
    let tail = " · 跳过反证 · 理由："@;
    reveal_strlit("- [ ] ");
    reveal_strlit("- [ ]");
    reveal_strlit(" · 跳过反证 · 理由：");
    reveal_strlit(" ");
    assert(head.len() == 6);
    assert(tail[0] == ' ');
    let u = head + slug + tail;
    assert(l == u + reason + " · "@ + today);
    assert(forall|k: int| 0 <= k < u.len() ==> l[k] == u[k]);
    assert(l.subrange(0, 5) =~= "- [ ]"@);
    assert(occurs_at(l, "- [ ]"@, 0));
    let key = slug + " "@;
    assert(l.subrange(6, 6 + key.len() as int) =~= key) by {
        assert forall|k: int| 0 <= k < key.len() implies l[6 + k] == key[k] by {
            if k < slug.len() {
                assert(u[6 + k] == slug[k]);
            } else {
                assert(u[6 + slug.len() as int] == tail[0]);
            }
        }
    }
    assert(occurs_at(l, key, 6));
}

/// Clearing a slug's pending entries keeps every other line, in order, and
/// no open entry of that slug.
pub proof fn law_clearing_keeps_exactly_the_others(ls: Seq<Seq<char>>, slug: Seq<char>)
    ensures
        kept_lines(ls, slug) == ls.filter(|l: Seq<char>| !is_pending_of(l, slug)),
        forall|k: int|
            0 <= k < kept_lines(ls, slug).len() ==> !is_pending_of(#[trigger] kept_lines(ls, slug)[k], slug),
    decreases ls.len(),
{
    let f = |l: Seq<char>| !is_pending_of(l, slug);
    reveal(Seq::filter);
    if ls.len() > 0 {
        law_clearing_keeps_exactly_the_others(ls.drop_last(), slug);
        assert(ls.filter(f) == if f(ls.last()) {
            ls.drop_last().filter(f).push(ls.last())
        } else {
            ls.drop_last().filter(f)
        });
    } else {
        assert(ls.filter(f) =~= Seq::<Seq<char>>::empty());
    }
    let kept = kept_lines(ls, slug);
    assert forall|k: int| 0 <= k < kept.len() implies !is_pending_of(#[trigger] kept[k], slug) by {
        ls.lemma_filter_pred(f, k);
    }
}

/// A list with no open entry of `slug` is kept whole.
proof fn lemma_kept_whole(ls: Seq<Seq<char>>, slug: Seq<char>)
    requires
        forall|k: int| 0 <= k < ls.len() ==> !is_pending_of(#[trigger] ls[k], slug),
    ensures
        kept_lines(ls, slug) == ls,
    decreases ls.len(),
{
    if ls.len() > 0 {
        let p = ls.drop_last();
        assert forall|k: int| 0 <= k < p.len() implies !is_pending_of(#[trigger] p[k], slug) by {
            assert(p[k] == ls[k]);
        }
        lemma_kept_whole(p, slug);
        assert(!is_pending_of(ls[ls.len() - 1], slug));
        assert(p.push(ls.last()) =~= ls);
    }
}

/// What is kept of lines without a break holds no break.
proof fn lemma_kept_no_nl(ls: Seq<Seq<char>>, slug: Seq<char>)
    requires
        forall|k: int| 0 <= k < ls.len() ==> no_nl(#[trigger] ls[k]),
    ensures
        forall|k: int| 0 <= k < kept_lines(ls, slug).len() ==> no_nl(#[trigger] kept_lines(ls, slug)[k]),
    decreases ls.len(),
{
    if ls.len() > 0 {
        let p = ls.drop_last();
        assert forall|k: int| 0 <= k < p.len() implies no_nl(#[trigger] p[k]) by {
            assert(p[k] == ls[k]);
        }
        lemma_kept_no_nl(p, slug);
        assert(no_nl(ls[ls.len() - 1]));
        let rest = kept_lines(p, slug);
        if !is_pending_of(ls.last(), slug) {
            assert(kept_lines(ls, slug) == rest.push(ls.last()));
            assert forall|k: int| 0 <= k < rest.push(ls.last()).len() implies no_nl(
                #[trigger] rest.push(ls.last())[k],
            ) by {
                if k < rest.len() {
                    assert(rest.push(ls.last())[k] == rest[k]);
                }
            }
        } else {
            assert(kept_lines(ls, slug) == rest);
        }
    }
}

/// Clearing a slug's pending entries twice is clearing them once, unless a
/// line that stays ends in a carriage return (which the second reading of
/// the list would take off).
pub proof fn law_clearing_twice_is_clearing_once(t: Seq<char>, slug: Seq<char>)
    requires
        forall|k: int|
            0 <= k < kept_lines(lines(t), slug).len() ==> !ends_cr(#[trigger] kept_lines(lines(t), slug)[k]),
    ensures
        clear_pending_spec(clear_pending_spec(t, slug), slug) == clear_pending_spec(t, slug),
{
    let nl = seq!['\n'];
    let kept = kept_lines(lines(t), slug);
    law_clearing_keeps_exactly_the_others(lines(t), slug);
    lemma_lines_no_nl(t, seq![]);
    let once = clear_pending_spec(t, slug);
    assert(once == join(kept, nl) + nl);
    if kept.len() > 0 {
        lemma_kept_no_nl(lines(t), slug);
        lemma_lines_join(kept);
        lemma_strip_crs_none(kept);
        lemma_kept_whole(kept, slug);
    } else {
        assert(join(kept, nl) == Seq::<char>::empty());
        assert(once =~= nl);
        assert(nl.drop_first() =~= Seq::<char>::empty());
        assert(lines_from(Seq::<char>::empty(), seq![]) =~= Seq::<Seq<char>>::empty());
        assert(strip_cr(Seq::<char>::empty()) =~= Seq::<char>::empty());
        assert(lines(once) =~= seq![Seq::<char>::empty()]);
        let e = Seq::<char>::empty();
        reveal_strlit("- [ ]");
        assert(!contains(e, "- [ ]"@)) by {
            if contains(e, "- [ ]"@) {
                let i = choose|i: int| occurs_at(e, "- [ ]"@, i);
            }
        }
        lemma_kept_whole(seq![e], slug);
    }
}

/// A text without `{{` renders to itself.
pub proof fn law_render_plain_text(text: Seq<char>, vars: spec_fn(Seq<char>) -> Option<Seq<char>>)
    requires
        !contains(text, "{{"@),
    ensures
        render_spec(text, vars) == text,
{
    assert(find(text, "{{"@) is None) by {
        reveal_strlit("{{");
        assert forall|j: int| 0 <= j <= text.len() - 2 implies !occurs_at(text, "{{"@, j) by {}
        lemma_find_none(text, "{{"@);
    }
}

/// After `term new`, the term's table is there: a second `term new` of the
/// same slug is refused.
pub proof fn law_term_new_refuses_twice(raw: Seq<char>, slug: Seq<char>, origin: Option<Seq<char>>)
    ensures
        contains(
            (if has_suffix(raw, seq!['\n']) {
                raw
            } else {
                raw + seq!['\n']
            }) + term_block_spec(slug, origin),
            "[term."@ + slug + "]"@,
        ),
{
    let head = if has_suffix(raw, seq!['\n']) {
        raw
    } else {
        raw + seq!['\n']
    };
    let key = "[term."@ + slug + "]"@;
    let block = term_block_spec(slug, origin);
    let t = head + block;
    let open = "\n[term."@;
    let close = "]\nslug = \""@;
    reveal_strlit("\n[term.");
    reveal_strlit("[term.");
    reveal_strlit("]");
    reveal_strlit("]\nslug = \"");
    assert(open.len() == 7);
    assert(close[0] == ']');
    let front = open + slug + close;
    assert(forall|k: int| 0 <= k < front.len() ==> block[k] == front[k]);
    let start: int = head.len() as int + 1;
    assert(key.len() == slug.len() + 7);
    assert(t.len() >= head.len() + front.len());
    assert(t.subrange(start, start + key.len() as int) =~= key) by {
        assert forall|k: int| 0 <= k < key.len() implies t[start + k] == key[k] by {
            assert(t[start + k] == block[1 + k]);
            if k < 6 {
                assert(front[1 + k] == open[1 + k]);
            } else if k < 6 + slug.len() {
                assert(front[1 + k] == slug[k - 6]);
            } else {
                assert(front[1 + k] == close[0]);
            }
        }
    }
    assert(occurs_at(t, key, start));
}


// ---------------------------------------------------------------------------
// Framing: what `assemble` writes, `split_frontmatter` reads back.
// ---------------------------------------------------------------------------

/// The lines of `s`, a line break and `t` are those of `s` with its break,
/// then those of `t`.
pub proof fn lemma_lines_concat(s: Seq<char>, t: Seq<char>, cur: Seq<char>)
    ensures
        lines_from(s + seq!['\n'] + t, cur) == lines_from(s + seq!['\n'], cur) + lines_from(
            t,
            seq![],
        ),
    decreases s.len(),
{
    let w = s + seq!['\n'] + t;
    let v = s + seq!['\n'];
    if s.len() == 0 {
        assert(w.drop_first() =~= t);
        assert(v.drop_first() =~= Seq::<char>::empty());
        assert(lines_from(Seq::<char>::empty(), seq![]) =~= Seq::<Seq<char>>::empty());
        assert(lines_from(v, cur) =~= seq![strip_cr(cur)]);
    } else {
        assert(w[0] == s[0]);
        assert(v[0] == s[0]);
        assert(w.drop_first() =~= s.drop_first() + seq!['\n'] + t);
        assert(v.drop_first() =~= s.drop_first() + seq!['\n']);
        if s[0] == '\n' {
            lemma_lines_concat(s.drop_first(), t, seq![]);
            assert(seq![strip_cr(cur)] + (lines_from(v.drop_first(), seq![]) + lines_from(
                t,
                seq![],
            )) =~= (seq![strip_cr(cur)] + lines_from(v.drop_first(), seq![])) + lines_from(
                t,
                seq![],
            ));
        } else {
            lemma_lines_concat(s.drop_first(), t, cur.push(s[0]));
        }
    }
}

/// A text without `c` is a single piece.
proof fn lemma_split_plain(s: Seq<char>, c: char, cur: Seq<char>)
    requires
        forall|i: int| 0 <= i < s.len() ==> s[i] != c,
    ensures
        split_from(s, c, cur) == seq![cur + s],
    decreases s.len(),
{
    if s.len() == 0 {
        assert(cur + s =~= cur);
    } else {
        assert(s[0] != c);
        lemma_split_plain(s.drop_first(), c, cur.push(s[0]));
        assert(cur.push(s[0]) + s.drop_first() =~= cur + s);
    }
}

/// Lines that are no delimiter are passed over.
proof fn lemma_delimiter_skip(ls: Seq<Seq<char>>, i: int, n: int)
    requires
        0 <= i <= n <= ls.len(),
        forall|k: int| i <= k < n ==> !is_fm_delimiter(#[trigger] ls[k]),
    ensures
        delimiter_from(ls, i) == delimiter_from(ls, n),
    decreases n - i,
{
    if i < n {
        lemma_delimiter_skip(ls, i + 1, n);
    }
}

/// `trim_end` leaves no whitespace at the end.
pub proof fn lemma_trim_end_last(s: Seq<char>)
    ensures
        trim_end(s).len() > 0 ==> !is_ws(trim_end(s).last()),
        trail_len(trim_end(s), ws_pred()) == 0,
        trail_len(s, ws_pred()) <= s.len(),
    decreases s.len(),
{
    let f = ws_pred();
    if s.len() > 0 && f(s.last()) {
        lemma_trim_end_last(s.drop_last());
        assert(trail_len(s, f) == 1 + trail_len(s.drop_last(), f));
        assert(trim_end(s) =~= trim_end(s.drop_last()));
    } else {
        assert(trail_len(s, f) == 0);
        assert(trim_end(s) =~= s);
    }
}

/// What `assemble` writes, the frontmatter split reads back: the trimmed
/// frontmatter text and the body, provided no line of the frontmatter is
/// itself a delimiter line.
pub proof fn law_frame_round_trip(fm_yaml: Seq<char>, body: Seq<char>)
    requires
        forall|k: int|
            0 <= k < raw_lines(trim_end(fm_yaml)).len() ==> !is_fm_delimiter(
                #[trigger] raw_lines(trim_end(fm_yaml))[k],
            ),
    ensures
        split_frontmatter_spec(assemble_spec(fm_yaml, body)) == Some((trim_end(fm_yaml), body)),
{
    let y = trim_end(fm_yaml);
    let raw = assemble_spec(fm_yaml, body);
    reveal_strlit("---\n");
    reveal_strlit("\n---\n");
    reveal_strlit("---");
    reveal_strlit("\n");
    reveal_strlit("\r\n");
    let dashes = "---"@;
    let t = dashes + seq!['\n'] + body;
    let r = y + seq!['\n'] + t;
    // after the opening line
    assert(raw.take(3) =~= dashes);
    assert(raw.skip(3).take(1) =~= "\n"@);
    assert(raw.skip(3).skip(1) =~= r);
    assert(after_open_spec(raw) == Some(r));
    // the lines: those of the frontmatter, the closing line, those of the body
    let ly = split_char(y, '\n');
    let lb = split_char(body, '\n');
    lemma_split_concat(y, '\n', t, seq![]);
    lemma_split_concat(dashes, '\n', body, seq![]);
    lemma_split_plain(dashes, '\n', seq![]);
    assert(Seq::<char>::empty() + dashes =~= dashes);
    let ls = ly + (seq![dashes] + lb);
    assert(raw_lines(r) == ls);
    lemma_join_split(y, '\n', seq![]);
    lemma_join_split(body, '\n', seq![]);
    assert(Seq::<char>::empty() + y =~= y);
    assert(Seq::<char>::empty() + body =~= body);
    // the closing line is the first delimiter
    assert forall|k: int| 0 <= k < ly.len() implies !is_fm_delimiter(#[trigger] ls[k]) by {
        assert(ls[k] == ly[k]);
        assert(raw_lines(y)[k] == ly[k]);
    }
    lemma_delimiter_skip(ls, 0, ly.len() as int);
    assert(ls[ly.len() as int] == dashes);
    assert(trail_len(dashes, ws_pred()) == 0);
    assert(trim_end(dashes) =~= dashes);
    assert(is_fm_delimiter(dashes));
    assert(delimiter_from(ls, 0) == Some(ly.len() as int));
    // the two parts
    assert(ls.take(ly.len() as int) =~= ly);
    assert(ls.skip(ly.len() as int + 1) =~= lb);
    assert(seq!['\n'] =~= "\n"@);
    lemma_trim_end_last(fm_yaml);
    assert(trim_end(y) =~= y);
}


// ---------------------------------------------------------------------------
// The path guard
// ---------------------------------------------------------------------------

/// Splitting at `c` around one `c`: the pieces before it, then those after.
pub proof fn lemma_split_concat(s: Seq<char>, c: char, t: Seq<char>, cur: Seq<char>)
    ensures
        split_from(s + seq![c] + t, c, cur) == split_from(s, c, cur) + split_from(t, c, seq![]),
    decreases s.len(),
{
    let w = s + seq![c] + t;
    if s.len() == 0 {
        assert(w.drop_first() =~= t);
        assert(split_from(s, c, cur) == seq![cur]);
    } else {
        assert(w[0] == s[0]);
        assert(w.drop_first() =~= s.drop_first() + seq![c] + t);
        if s[0] == c {
            lemma_split_concat(s.drop_first(), c, t, seq![]);
            assert(seq![cur] + (split_from(s.drop_first(), c, seq![]) + split_from(t, c, seq![]))
                =~= (seq![cur] + split_from(s.drop_first(), c, seq![])) + split_from(t, c, seq![]));
        } else {
            lemma_split_concat(s.drop_first(), c, t, cur.push(s[0]));
        }
    }
}

/// The named segments of `b`, read past the segments of `a`.
proof fn lemma_named_after(a: Seq<Seq<char>>, b: Seq<Seq<char>>, j: int)
    requires
        0 <= j <= b.len(),
    ensures
        named_from(a + b, a.len() + j) == named_from(b, j),
    decreases b.len() - j,
{
    if j < b.len() {
        lemma_named_after(a, b, j + 1);
        assert((a + b)[a.len() + j] == b[j]);
    }
}

/// The named segments of two lists of segments, one after the other.
proof fn lemma_named_concat(a: Seq<Seq<char>>, b: Seq<Seq<char>>, i: int)
    requires
        0 <= i <= a.len(),
    ensures
        named_from(a + b, i) == named_from(a, i) + named_from(b, 0),
    decreases a.len() - i,
{
    if i == a.len() {
        lemma_named_after(a, b, 0);
        assert(named_from(a, i) == Seq::<Seq<char>>::empty());
        assert(Seq::<Seq<char>>::empty() + named_from(b, 0) =~= named_from(b, 0));
    } else {
        lemma_named_concat(a, b, i + 1);
        assert((a + b)[i] == a[i]);
        if is_named(a[i]) {
            assert(seq![a[i]] + (named_from(a, i + 1) + named_from(b, 0)) =~= (seq![a[i]]
                + named_from(a, i + 1)) + named_from(b, 0));
        }
    }
}

/// Every named segment is one of the segments.
proof fn lemma_named_are_segments(segs: Seq<Seq<char>>, i: int, k: int)
    requires
        0 <= i,
        0 <= k < named_from(segs, i).len(),
    ensures
        exists|j: int| i <= j < segs.len() && named_from(segs, i)[k] == #[trigger] segs[j],
    decreases segs.len() - i,
{
    if i < segs.len() {
        if is_named(segs[i]) {
            if k == 0 {
                assert(named_from(segs, i)[0] == segs[i]);
            } else {
                lemma_named_are_segments(segs, i + 1, k - 1);
                let j = choose|j: int| i + 1 <= j < segs.len() && named_from(segs, i + 1)[k - 1] == #[trigger] segs[j];
                assert(named_from(segs, i)[k] == segs[j]);
            }
        } else {
            lemma_named_are_segments(segs, i + 1, k);
            let j = choose|j: int| i + 1 <= j < segs.len() && named_from(segs, i + 1)[k] == #[trigger] segs[j];
            assert(named_from(segs, i)[k] == segs[j]);
        }
    }
}

/// A path that passes the lexical guard stays under the root it is joined
/// to: the joined path's components are the root's followed by the path's
/// named segments, none of which is `..`.
pub proof fn law_guarded_path_stays_under_root(root: Seq<char>, rel: Seq<char>)
    requires
        root.len() > 0,
        root[0] == '/',
        lexically_inside(rel),
    ensures
        components_spec(join_spec(root, rel)) == components_spec(root) + named_from(split_char(rel, '/'), 0),
        path_starts_with_spec(join_spec(root, rel), root),
        forall|k: int|
            components_spec(root).len() <= k < components_spec(join_spec(root, rel)).len()
                ==> #[trigger] components_spec(join_spec(root, rel))[k] != seq!['.', '.'],
{
    let joined = join_spec(root, rel);
    let named_rel = named_from(split_char(rel, '/'), 0);
    if root.last() == '/' {
        let r0 = root.drop_last();
        assert(root =~= r0 + seq!['/'] + Seq::<char>::empty());
        assert(joined =~= r0 + seq!['/'] + rel);
        lemma_split_concat(r0, '/', rel, seq![]);
        lemma_split_concat(r0, '/', Seq::<char>::empty(), seq![]);
        assert(split_from(Seq::<char>::empty(), '/', seq![]) == seq![Seq::<char>::empty()]);
        let sr = split_char(r0, '/');
        lemma_named_concat(sr, split_char(rel, '/'), 0);
        lemma_named_concat(sr, seq![Seq::<char>::empty()], 0);
        assert(!is_named(Seq::<char>::empty()));
        assert(named_from(seq![Seq::<char>::empty()], 1) == Seq::<Seq<char>>::empty());
        assert(named_from(seq![Seq::<char>::empty()], 0) =~= Seq::<Seq<char>>::empty());
        assert(named_from(split_char(root, '/'), 0) =~= named_from(sr, 0));
    } else {
        assert(joined =~= root + seq!['/'] + rel);
        lemma_split_concat(root, '/', rel, seq![]);
        lemma_named_concat(split_char(root, '/'), split_char(rel, '/'), 0);
    }
    assert(joined[0] == '/');
    assert(components_spec(joined) =~= components_spec(root) + named_rel);
    let a = components_spec(joined);
    let b = components_spec(root);
    assert(a.take(b.len() as int) =~= b);
    assert forall|k: int| b.len() <= k < a.len() implies #[trigger] a[k] != seq!['.', '.'] by {
        assert(a[k] == named_rel[k - b.len()]);
        lemma_named_are_segments(split_char(rel, '/'), 0, k - b.len());
    }
}


// ---------------------------------------------------------------------------
// Pitfalls: what is recorded is what a search shows
// ---------------------------------------------------------------------------

/// Trailing whitespace does not survive `trim_end`.
proof fn lemma_trim_end_ws_suffix(x: Seq<char>, w: Seq<char>)
    requires
        forall|i: int| 0 <= i < w.len() ==> is_ws(#[trigger] w[i]),
    ensures
        trim_end(x + w) == trim_end(x),
    decreases w.len(),
{
    let f = ws_pred();
    if w.len() > 0 {
        assert((x + w).drop_last() =~= x + w.drop_last());
        assert((x + w).last() == w.last());
        assert(f((x + w).last()));
        lemma_trim_end_ws_suffix(x, w.drop_last());
        lemma_trim_end_last(x + w.drop_last());
        assert(trail_len(x + w, f) == 1 + trail_len(x + w.drop_last(), f));
        assert(trim_end(x + w) =~= trim_end(x + w.drop_last()));
    } else {
        assert(x + w =~= x);
    }
}

/// A recorded pitfall reads back, in a search, as its text: the bullet and
/// the trailing date/actor comment are taken off again (for a text that
/// holds no comment opener and does not itself start with a bullet: `- `,
/// or a lone `-`, which the separating space would make one).
pub proof fn law_pitfall_reads_back_as_its_text(text: Seq<char>, today: Seq<char>, actor: Seq<char>)
    requires
        !contains(text, "<!--"@),
        !(text.len() > 0 && text[0] == '-' && (text.len() == 1 || text[1] == ' ')),
    ensures
        strip_tail_comment_spec(strip_bullets(pitfall_line_spec(text, today, actor))) == trim_end(text),
{
    let open = "<!--"@;
    let gap = "  <!-- "@;
    reveal_strlit("- ");
    reveal_strlit("  <!-- ");
    reveal_strlit(" · ");
    reveal_strlit(" -->");
    reveal_strlit("<!--");
    let line = pitfall_line_spec(text, today, actor);
    let rest = text + gap + today + " · "@ + actor + " -->"@;
    assert(line == "- "@ + text + gap + today + " · "@ + actor + " -->"@);
    assert(line.skip(2) =~= rest);
    assert(line[0] == '-' && line[1] == ' ');
    assert(!(rest.len() >= 2 && rest[0] == '-' && rest[1] == ' ')) by {
        if text.len() >= 2 {
            assert(rest[0] == text[0] && rest[1] == text[1]);
        } else if text.len() == 1 {
            assert(rest[1] == gap[0]);
        } else {
            assert(rest[0] == gap[0]);
        }
    }
    assert(strip_bullets(line) == strip_bullets(line.skip(2)));
    assert(strip_bullets(rest) == rest);
    assert(strip_bullets(line) == rest);
    let n = text.len() as int;
    // the comment opens right after the text and its two spaces
    assert(occurs_at(rest, open, n + 2)) by {
        assert(rest.subrange(n + 2, n + 6) =~= open);
    }
    assert forall|j: int| 0 <= j < n + 2 implies !occurs_at(rest, open, j) by {
        if occurs_at(rest, open, j) {
            assert(rest.subrange(j, j + 4) == open);
            if j + 4 <= n {
                assert(text.subrange(j, j + 4) =~= rest.subrange(j, j + 4));
                assert(occurs_at(text, open, j));
            } else {
                let k = n - j;
                assert(0 <= k < 4 || j >= n);
                if j >= n {
                    assert(rest.subrange(j, j + 4)[0] == rest[j]);
                    assert(rest[j] == gap[j - n]);
                } else if k == 3 {
                    assert(rest.subrange(j, j + 4)[3] == rest[n]);
                    assert(rest[n] == gap[0]);
                } else if k == 2 {
                    assert(rest.subrange(j, j + 4)[2] == rest[n]);
                    assert(rest[n] == gap[0]);
                } else {
                    assert(rest.subrange(j, j + 4)[1] == rest[n]);
                    assert(rest[n] == gap[0]);
                }
            }
        }
    }
    lemma_find_first(rest, open, n + 2);
    assert(rest.take(n + 2) =~= text + seq![' ', ' ']);
    lemma_trim_end_ws_suffix(text, seq![' ', ' ']);
}

} // verus!
