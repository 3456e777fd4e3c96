//! Read-only search over the pitfall lists.
use vstd::prelude::*;
use crate::text::string_views;
use crate::text::{
    chars_eq, chars_of, contains, contains_chars, is_whitespace, is_ws, lines, lines_of, string_of,
    sub_chars, views,
};
use crate::textops::{strip_pitfall_tail_comment, strip_tail_comment_spec};

verus! {

broadcast use vstd::string::group_string_axioms;

/// What `str::to_lowercase` returns, as `std` computes it.
pub uninterp spec fn lowercase(s: Seq<char>) -> Seq<char>;

/// `str::to_lowercase`: the Unicode lower-case mapping of the text.
#[verifier::external_body]
fn to_lowercase(s: &str) -> (r: String)
    ensures
        r@ == lowercase(s@),
{
    s.to_lowercase()
}

/// The words of `s` still to come, given the partial word `cur`.
pub open spec fn words_from(s: Seq<char>, cur: Seq<char>) -> Seq<Seq<char>>
    decreases s.len(),
{
    if s.len() == 0 {
        if cur.len() > 0 {
            seq![cur]
        } else {
            seq![]
        }
    } else if is_ws(s[0]) {
        (if cur.len() > 0 {
            seq![cur]
        } else {
            seq![]
        }) + words_from(s.drop_first(), seq![])
    } else {
        words_from(s.drop_first(), cur.push(s[0]))
    }
}

/// `str::split_whitespace`.
pub open spec fn words(s: Seq<char>) -> Seq<Seq<char>> {
    words_from(s, seq![])
}


/// The search terms: the query's words, lower-cased.
pub fn search_tokens(query: &str) -> (r: Vec<String>)
    ensures
        string_views(r@) == words(query@).map_values(|w: Seq<char>| lowercase(w)),
{
    let v = chars_of(query);
    let mut ws: Vec<Vec<char>> = Vec::new();
    let mut cur: Vec<char> = Vec::new();
    let mut i: usize = 0;
    assert(v@.skip(0) =~= v@);
    while i < v.len()
        invariant
            i <= v.len(),
            v@ == query@,
            views(ws@) + words_from(v@.skip(i as int), cur@) == words(query@),
        decreases v.len() - i,
    {
        assert(v@.skip(i as int).drop_first() =~= v@.skip(i + 1));
        assert(v@.skip(i as int)[0] == v@[i as int]);
        if is_whitespace(v[i]) {
            if cur.len() > 0 {
                let ghost before = views(ws@);
                let ghost c = cur@;
                ws.push(cur);
                assert(views(ws@) =~= before.push(c));
                assert(views(ws@) + words_from(v@.skip(i + 1), seq![]) =~= before + (seq![c]
                    + words_from(v@.skip(i + 1), seq![])));
            } else {
                assert((Seq::<Seq<char>>::empty() + words_from(v@.skip(i + 1), seq![])) =~= words_from(
                    v@.skip(i + 1),
                    seq![],
                ));
            }
            cur = Vec::new();
        } else {
            cur.push(v[i]);
        }
        i += 1;
    }
    if cur.len() > 0 {
        let ghost before = views(ws@);
        let ghost c = cur@;
        ws.push(cur);
        assert(views(ws@) =~= before + seq![c]);
    } else {
        assert(views(ws@) =~= views(ws@) + Seq::<Seq<char>>::empty());
    }
    let ghost all = views(ws@);
    let mut out: Vec<String> = Vec::new();
    let mut j: usize = 0;
    while j < ws.len()
        invariant
            j <= ws.len(),
            all == views(ws@),
            string_views(out@) == all.take(j as int).map_values(|w: Seq<char>| lowercase(w)),
        decreases ws.len() - j,
    {
        let w = string_of(ws[j].as_slice());
        let l = to_lowercase(w.as_str());
        let ghost before = string_views(out@);
        out.push(l);
        assert(string_views(out@) =~= before.push(lowercase(all[j as int])));
        assert(all.take(j + 1).map_values(|w: Seq<char>| lowercase(w)) =~= all.take(j as int).map_values(
            |w: Seq<char>| lowercase(w),
        ).push(lowercase(all[j as int])));
        j += 1;
    }
    assert(all.take(ws.len() as int) =~= all);
    out
}

/// `trim_start_matches("- ")`.
pub open spec fn strip_bullets(s: Seq<char>) -> Seq<char>
    decreases s.len(),
{
    if s.len() >= 2 && s[0] == '-' && s[1] == ' ' {
        strip_bullets(s.skip(2))
    } else {
        s
    }
}

/// The line, lower-cased, contains every term.
pub open spec fn line_hits(line: Seq<char>, tokens: Seq<Seq<char>>) -> bool {
    forall|k: int| 0 <= k < tokens.len() ==> contains(lowercase(line), #[trigger] tokens[k])
}

/// The hits among the first `n` lines: (1-based line number, readable text).
pub open spec fn hits_upto(ls: Seq<Seq<char>>, tokens: Seq<Seq<char>>, n: int) -> Seq<(int, Seq<char>)>
    decreases n,
{
    if n <= 0 || n > ls.len() {
        seq![]
    } else {
        hits_upto(ls, tokens, n - 1) + if line_hits(ls[n - 1], tokens) {
            seq![(n, strip_tail_comment_spec(strip_bullets(ls[n - 1])))]
        } else {
            seq![]
        }
    }
}

pub open spec fn hit_views(v: Seq<(usize, String)>) -> Seq<(int, Seq<char>)> {
    v.map_values(|h: (usize, String)| (h.0 as int, h.1@))
}

fn line_matches(line: &Vec<char>, tokens: &Vec<String>) -> (b: bool)
    ensures
        b == line_hits(line@, string_views(tokens@)),
{
    let ghost toks = string_views(tokens@);
    let l = string_of(line.as_slice());
    let low = chars_of(to_lowercase(l.as_str()).as_str());
    let mut k: usize = 0;
    while k < tokens.len()
        invariant
            k <= tokens.len(),
            toks == string_views(tokens@),
            low@ == lowercase(line@),
            forall|q: int| 0 <= q < k ==> contains(lowercase(line@), #[trigger] toks[q]),
        decreases tokens.len() - k,
    {
        let tk = chars_of(tokens[k].as_str());
        assert(toks[k as int] == tk@);
        if !contains_chars(low.as_slice(), tk.as_slice()) {
            return false;
        }
        k += 1;
    }
    true
}

fn readable(line: &Vec<char>) -> (r: String)
    ensures
        r@ == strip_tail_comment_spec(strip_bullets(line@)),
{
    let mut p: usize = 0;
    assert(line@.skip(0) =~= line@);
    while p < line.len() && line.len() - p >= 2 && line[p] == '-' && line[p + 1] == ' '
        invariant
            p <= line.len(),
            strip_bullets(line@) == strip_bullets(line@.skip(p as int)),
        decreases line.len() - p,
    {
        assert(line@.skip(p as int).skip(2) =~= line@.skip(p + 2));
        p += 2;
    }
    let rest = sub_chars(line.as_slice(), p, line.len());
    assert(rest@ =~= line@.skip(p as int));
    let rs = string_of(rest.as_slice());
    strip_pitfall_tail_comment(rs.as_str())
}

/// The lines of a pitfall list that contain every term (case-insensitive),
/// numbered from 1, without the leading `- ` and the trailing comment.
pub fn pitfall_hits(content: &str, tokens: &Vec<String>) -> (r: Vec<(usize, String)>)
    ensures
        hit_views(r@) == hits_upto(lines(content@), string_views(tokens@), lines(content@).len() as int),
{
    let v = chars_of(content);
    let ls = lines_of(v.as_slice());
    let ghost gl = lines(content@);
    let ghost toks = string_views(tokens@);
    let mut out: Vec<(usize, String)> = Vec::new();
    let mut i: usize = 0;
    while i < ls.len()
        invariant
            i <= ls.len(),
            views(ls@) == gl,
            toks == string_views(tokens@),
            hit_views(out@) == hits_upto(gl, toks, i as int),
        decreases ls.len() - i,
    {
        assert(ls@[i as int]@ == gl[i as int]);
        if line_matches(&ls[i], tokens) {
            let body = readable(&ls[i]);
            let ghost before = hit_views(out@);
            out.push((i + 1, body));
            assert(hit_views(out@) =~= before + seq![((i + 1) as int, strip_tail_comment_spec(strip_bullets(gl[i as int])))]);
        } else {
            assert(hits_upto(gl, toks, i + 1) =~= hits_upto(gl, toks, i as int));
        }
        i += 1;
    }
    out
}

// ---------------------------------------------------------------------------
// Source order
// ---------------------------------------------------------------------------

/// Lexicographic order of texts by character (the order of `String`).
pub open spec fn text_le(a: Seq<char>, b: Seq<char>) -> bool {
    exists|i: int|
        0 <= i <= a.len() && i <= b.len() && a.take(i) == b.take(i) && (i == a.len() || (i
            < b.len() && a[i] < b[i]))
}

pub open spec fn sorted_texts(s: Seq<Seq<char>>) -> bool {
    forall|i: int, j: int| 0 <= i < j < s.len() ==> text_le(s[i], s[j])
}

/// `slice::sort` on strings: ascending, the same strings.
#[verifier::external_body]
fn sort_strings(v: &mut Vec<String>)
    ensures
        sorted_texts(string_views(final(v)@)),
        string_views(final(v)@).to_multiset() == string_views(old(v)@).to_multiset(),
{
    v.sort();
}

/// The pitfall sources in search order after the global list and the current
/// project: every other project, by name.
pub fn other_projects(project: &str, names: &Vec<String>) -> (r: Vec<String>)
    ensures
        sorted_texts(string_views(r@)),
        string_views(r@).to_multiset() == string_views(names@).filter(|n: Seq<char>| n != project@).to_multiset(),
{
    let p = chars_of(project);
    let mut out: Vec<String> = Vec::new();
    let ghost f = |n: Seq<char>| n != project@;
    let mut i: usize = 0;
    while i < names.len()
        invariant
            i <= names.len(),
            p@ == project@,
            f == (|n: Seq<char>| n != project@),
            string_views(out@) == string_views(names@).take(i as int).filter(f),
        decreases names.len() - i,
    {
        let n = chars_of(names[i].as_str());
        proof {
            let s = string_views(names@);
            assert(s.take(i + 1).drop_last() =~= s.take(i as int));
            assert(s.take(i + 1).last() == names@[i as int]@);
            reveal(Seq::filter);
        }
        if !chars_eq(n.as_slice(), p.as_slice()) {
            let ghost before = string_views(out@);
            out.push(names[i].clone());
            assert(string_views(out@) =~= before.push(names@[i as int]@));
        }
        i += 1;
    }
    assert(string_views(names@).take(names.len() as int) =~= string_views(names@));
    sort_strings(&mut out);
    out
}

} // verus!
