//! What the protocol's texts and checks promise, stated from the outside:
//! the one-way order of document kinds, the result column of a
//! falsification table, how far a section reaches, and what the context
//! text lists.
use vstd::prelude::*;
use crate::append_laws::{
    insertion_line, is_blank, lacks, lemma_back_props, lemma_section_end_props, lemma_section_present,
};
use crate::context::{any_in, context_spec, entries_in, item_entry, status_section};
use crate::document::{heading_level_spec, heading_matches_spec, Kind, Outcome};
use crate::items::Item;
use crate::rules::{
    first_heading_from, is_rule_char, row_has_result, section_end_from, section_slice_spec, table_has_result_spec,
    trim_bars, trimmed_cells,
};
use crate::section::{back_over_blank, last_heading_from};
use crate::section_laws::{lemma_back_bounds, lemma_last_heading_bounds, lemma_section_end_bounds};
use crate::text::{contains, has_suffix, join, lines, occurs_at, split_char, trim};

verus! {

broadcast use vstd::string::group_string_axioms;

// ---------------------------------------------------------------------------
// Document kinds
// ---------------------------------------------------------------------------

/// Deepening runs one way: a proposal becomes a draft, a draft a plan.
pub proof fn law_kinds_deepen_one_way()
    ensures
        Kind::Proposal.rank() < Kind::Draft.rank(),
        Kind::Draft.rank() < Kind::Plan.rank(),
{
}

// ---------------------------------------------------------------------------
// The result column of a falsification table
// ---------------------------------------------------------------------------

/// The cells of a table row as written between its `|` bars.
pub open spec fn raw_cells(l: Seq<char>) -> Seq<Seq<char>> {
    split_char(trim_bars(trim(l)), '|')
}

/// A row counts as a result exactly when it is a data row (it starts with a
/// bar, is no separator row, names neither header) and its fourth cell, the
/// 真实结果 column, holds something once trimmed; whatever the other cells
/// hold, an empty fourth cell never counts.
pub proof fn law_result_is_the_fourth_cell(l: Seq<char>)
    ensures
        row_has_result(l) <==> {
            &&& trim(l).len() > 0 && trim(l)[0] == '|'
            &&& !(forall|i: int| 0 <= i < trim(l).len() ==> is_rule_char(#[trigger] trim(l)[i]))
            &&& raw_cells(l).len() >= 4
            &&& forall|i: int|
                0 <= i < raw_cells(l).len() ==> trim(#[trigger] raw_cells(l)[i]) != "假设"@ && trim(
                    raw_cells(l)[i],
                ) != "真实结果"@
            &&& trim(raw_cells(l)[3]).len() > 0
        },
{
    let t = trim(l);
    let cells = trimmed_cells(t);
    let raw = raw_cells(l);
    assert(cells.len() == raw.len());
    assert forall|i: int| 0 <= i < raw.len() implies #[trigger] cells[i] == trim(raw[i]) by {}
    if raw.len() >= 4 {
        assert(cells[3] == trim(raw[3]));
    }
    let hdr = exists|i: int| 0 <= i < cells.len() && (#[trigger] cells[i] == "假设"@ || cells[i] == "真实结果"@);
    let clean = forall|i: int|
        0 <= i < raw.len() ==> trim(#[trigger] raw[i]) != "假设"@ && trim(raw[i]) != "真实结果"@;
    if hdr {
        let i = choose|i: int| 0 <= i < cells.len() && (#[trigger] cells[i] == "假设"@ || cells[i] == "真实结果"@);
        assert(cells[i] == trim(raw[i]));
        assert(!clean);
    } else {
        assert forall|i: int| 0 <= i < raw.len() implies trim(#[trigger] raw[i]) != "假设"@ && trim(raw[i])
            != "真实结果"@ by {
            assert(cells[i] == trim(raw[i]));
        }
        assert(clean);
    }
}

/// A section's table carries a result only through a row whose fourth cell
/// is filled.
pub proof fn law_table_result_needs_fourth_cell(section: Seq<char>)
    ensures
        table_has_result_spec(section) ==> exists|i: int|
            0 <= i < lines(section).len() && raw_cells(#[trigger] lines(section)[i]).len() >= 4 && trim(
                raw_cells(lines(section)[i])[3],
            ).len() > 0,
{
    if table_has_result_spec(section) {
        let i = choose|i: int| 0 <= i < lines(section).len() && row_has_result(lines(section)[i]);
        law_result_is_the_fourth_cell(lines(section)[i]);
    }
}

// ---------------------------------------------------------------------------
// How far a section reaches
// ---------------------------------------------------------------------------

/// A heading with no more `#` than `level`: the line that ends a section
/// whose own heading has `level` of them.
pub open spec fn heading_at_most(l: Seq<char>, level: nat) -> bool {
    l.len() > 0 && l[0] == '#' && heading_level_spec(l) <= level
}

/// An append goes into the last section whose heading matches: after all of
/// that section's lines, deeper subsections included, and before its blank
/// tail. No line between the heading and the insertion point is a heading
/// of the same or a higher level; every non-blank line from the insertion
/// point on lies at or after such a heading; and the line just before the
/// insertion point is the section's heading or not blank.
pub proof fn law_append_keeps_subsections(body: Seq<char>, heading: Seq<char>)
    requires
        lacks(body, '\r'),
        !has_suffix(body, "\n\n"@),
        exists|i: int| 0 <= i < lines(body).len() && heading_matches_spec(#[trigger] lines(body)[i], heading),
    ensures
        ({
            let ls = lines(body);
            let s = last_heading_from(ls, heading, ls.len() - 1)->0;
            let lv = heading_level_spec(ls[s]);
            let k = insertion_line(ls, heading);
            &&& 0 <= s < k <= ls.len()
            &&& heading_matches_spec(ls[s], heading)
            &&& forall|j: int| s < j < k ==> !heading_at_most(#[trigger] ls[j], lv)
            &&& forall|j: int|
                k <= j < ls.len() && !is_blank(#[trigger] ls[j]) ==> exists|q: int|
                    k <= q <= j && heading_at_most(#[trigger] ls[q], lv)
            &&& k == s + 1 || !is_blank(ls[k - 1])
        }),
{
    let ls = lines(body);
    lemma_section_present(body, heading);
    let s = last_heading_from(ls, heading, ls.len() - 1)->0;
    lemma_last_heading_bounds(ls, heading, ls.len() - 1);
    crate::section_laws::lemma_last_heading_matches(ls, heading, ls.len() - 1);
    let lv = heading_level_spec(ls[s]);
    let e = section_end_from(ls, lv, s + 1);
    lemma_section_end_bounds(ls, lv, s + 1);
    lemma_section_end_props(ls, lv, s + 1);
    let k = back_over_blank(ls, s + 1, e);
    lemma_back_bounds(ls, s + 1, e);
    lemma_back_props(ls, s + 1, e);
    assert(k == insertion_line(ls, heading));
    assert forall|j: int| k <= j < ls.len() && !is_blank(#[trigger] ls[j]) implies exists|q: int|
        k <= q <= j && heading_at_most(#[trigger] ls[q], lv) by {
        assert(j >= e);
        assert(heading_at_most(ls[e], lv));
    }
}

proof fn lemma_first_heading_bounds(ls: Seq<Seq<char>>, h: Seq<char>, i: int)
    ensures
        first_heading_from(ls, h, i) matches Some(k) ==> 0 <= i <= k < ls.len() && heading_matches_spec(ls[k], h),
    decreases ls.len() - i,
{
    if 0 <= i < ls.len() && !heading_matches_spec(ls[i], h) {
        lemma_first_heading_bounds(ls, h, i + 1);
    }
}

/// The slice of a section runs from the line after its heading up to the
/// first later heading of the same or a higher level (or the end): deeper
/// subsections stay in it.
pub proof fn law_section_slice_keeps_subsections(body: Seq<char>, heading: Seq<char>)
    ensures
        section_slice_spec(body, heading) matches Some(x) ==> ({
            let ls = lines(body);
            let s = first_heading_from(ls, heading, 0)->0;
            let lv = heading_level_spec(ls[s]);
            exists|e: int|
                s < e <= ls.len() && (forall|j: int| s < j < e ==> !heading_at_most(#[trigger] ls[j], lv)) && (e
                    == ls.len() || heading_at_most(ls[e], lv)) && x == join(#[trigger] ls.subrange(s + 1, e), "\n"@)
        }),
{
    let ls = lines(body);
    lemma_first_heading_bounds(ls, heading, 0);
    if first_heading_from(ls, heading, 0) is Some {
        let s = first_heading_from(ls, heading, 0)->0;
        let lv = heading_level_spec(ls[s]);
        let e = section_end_from(ls, lv, s + 1);
        lemma_section_end_bounds(ls, lv, s + 1);
        lemma_section_end_props(ls, lv, s + 1);
        assert(heading_at_most(ls[e], lv) || e == ls.len());
        assert(section_slice_spec(body, heading) == Some(join(ls.subrange(s + 1, e), "\n"@)));
    }
}


// ---------------------------------------------------------------------------
// What the context lists
// ---------------------------------------------------------------------------

/// A kind as the context writes it.
pub open spec fn kind_word(k: Kind) -> Seq<char> {
    match k {
        Kind::Proposal => "proposal"@,
        Kind::Draft => "draft"@,
        Kind::Plan => "plan"@,
    }
}

/// An outcome as the context writes it after the kind.
pub open spec fn outcome_word(o: Option<Outcome>) -> Seq<char> {
    match o {
        Some(Outcome::Done) => ", outcome: done"@,
        Some(Outcome::Frozen) => ", outcome: frozen"@,
        None => seq![],
    }
}

/// How an item's entry line starts: its slug, kind and outcome.
pub open spec fn entry_head(it: Item) -> Seq<char> {
    "- "@ + it.doc.fm.slug@ + " · kind: "@ + kind_word(it.doc.fm.kind) + outcome_word(it.doc.fm.outcome)
}

proof fn lemma_contains_at(s: Seq<char>, p: Seq<char>, a: Seq<char>, b: Seq<char>)
    requires
        s == a + p + b,
    ensures
        contains(s, p),
{
    assert(s.subrange(a.len() as int, a.len() + p.len() as int) =~= p);
    assert(occurs_at(s, p, a.len() as int));
}

proof fn lemma_contains_extend(s: Seq<char>, p: Seq<char>, t: Seq<char>)
    requires
        contains(s, p),
    ensures
        contains(s + t, p),
{
    let i = choose|i: int| occurs_at(s, p, i);
    assert((s + t).subrange(i, i + p.len()) =~= s.subrange(i, i + p.len()));
    assert(occurs_at(s + t, p, i));
}

/// Every item of status `st` has its entry among the entries of `st`.
proof fn lemma_entries_list(items: Seq<Item>, st: Seq<char>, i: int)
    requires
        0 <= i < items.len(),
        items[i].status@ == st,
    ensures
        contains(entries_in(items, st), entry_head(items[i])),
    decreases items.len(),
{
    let it = items[i];
    let rest = entries_in(items.drop_last(), st);
    if i == items.len() - 1 {
        let prio = match it.doc.fm.priority {
            Some(p) => ", "@ + p@,
            None => seq![],
        };
        let goal = match crate::context::first_goal_line_spec(it.doc.body@) {
            Some(g) => "    目标："@ + g + "\n"@,
            None => seq![],
        };
        assert(item_entry(it) =~= entry_head(it) + (prio + "\n"@ + goal));
        assert(entries_in(items, st) == rest + item_entry(it));
        assert(rest + item_entry(it) =~= rest + entry_head(it) + (prio + "\n"@ + goal));
        lemma_contains_at(entries_in(items, st), entry_head(it), rest, prio + "\n"@ + goal);
    } else {
        assert(items.drop_last()[i] == it);
        lemma_entries_list(items.drop_last(), st, i);
        lemma_contains_extend(
            rest,
            entry_head(it),
            if items.last().status@ == st {
                item_entry(items.last())
            } else {
                seq![]
            },
        );
    }
}

/// What a status section holds: the entries of its items, or `- （空）`.
pub open spec fn section_lists(part: Seq<char>, items: Seq<Item>, st: Seq<char>) -> bool {
    &&& forall|i: int| 0 <= i < items.len() && items[i].status@ == st ==> contains(part, entry_head(#[trigger] items[i]))
    &&& (forall|i: int| 0 <= i < items.len() ==> (#[trigger] items[i]).status@ != st) ==> part == "- （空）\n"@
}

proof fn lemma_section_lists(items: Seq<Item>, st: Seq<char>)
    ensures
        section_lists(
            if any_in(items, st) {
                entries_in(items, st)
            } else {
                "- （空）\n"@
            },
            items,
            st,
        ),
        section_lists(part_of(items, st), items, st),
{
    assert forall|i: int| 0 <= i < items.len() && items[i].status@ == st implies contains(
        if any_in(items, st) {
            entries_in(items, st)
        } else {
            "- （空）\n"@
        },
        entry_head(#[trigger] items[i]),
    ) by {
        assert(any_in(items, st));
        lemma_entries_list(items, st, i);
    }
}

/// The body of the section of status `st`.
pub open spec fn part_of(items: Seq<Item>, st: Seq<char>) -> Seq<char> {
    if any_in(items, st) {
        entries_in(items, st)
    } else {
        "- （空）\n"@
    }
}

proof fn lemma_titles()
    ensures
        crate::context::status_title("pool"@) == "池（pool/）"@,
        crate::context::status_title("working"@) == "进行中（working/）"@,
        crate::context::status_title("finished"@) == "结束（finished/）"@,
        crate::context::status_title("community"@) == "社区互助（community/）"@,
{
    reveal_strlit("pool");
    reveal_strlit("working");
    reveal_strlit("finished");
    reveal_strlit("community");
    assert("working"@.len() != "pool"@.len());
    assert("finished"@.len() != "pool"@.len() && "finished"@.len() != "working"@.len());
    assert("community"@.len() != "pool"@.len() && "community"@.len() != "working"@.len());
    assert("community"@.len() != "finished"@.len());
}

proof fn lemma_headings(items: Seq<Item>)
    ensures
        status_section(items, "pool"@) == "\n## 池（pool/）\n"@ + part_of(items, "pool"@),
        status_section(items, "working"@) == "\n## 进行中（working/）\n"@ + part_of(items, "working"@),
        status_section(items, "finished"@) == "\n## 结束（finished/）\n"@ + part_of(items, "finished"@),
        status_section(items, "community"@) == "\n## 社区互助（community/）\n"@ + part_of(items, "community"@),
{
    lemma_titles();
    reveal_strlit("\n## ");
    reveal_strlit("\n");
    reveal_strlit("池（pool/）");
    reveal_strlit("进行中（working/）");
    reveal_strlit("结束（finished/）");
    reveal_strlit("社区互助（community/）");
    reveal_strlit("\n## 池（pool/）\n");
    reveal_strlit("\n## 进行中（working/）\n");
    reveal_strlit("\n## 结束（finished/）\n");
    reveal_strlit("\n## 社区互助（community/）\n");
    assert("\n## "@ + "池（pool/）"@ + "\n"@ =~= "\n## 池（pool/）\n"@);
    assert("\n## "@ + "进行中（working/）"@ + "\n"@ =~= "\n## 进行中（working/）\n"@);
    assert("\n## "@ + "结束（finished/）"@ + "\n"@ =~= "\n## 结束（finished/）\n"@);
    assert("\n## "@ + "社区互助（community/）"@ + "\n"@ =~= "\n## 社区互助（community/）\n"@);
}

#[verifier::spinoff_prover]
#[verifier::rlimit(40)]
proof fn lemma_context_parts(
    project: Seq<char>,
    now: Seq<char>,
    items: Seq<Item>,
    pending: Option<Seq<char>>,
    project_pitfalls: Option<Seq<char>>,
    global_pitfalls: Option<Seq<char>>,
    terms_md: Option<Seq<char>>,
) -> (head_tail: (Seq<char>, Seq<char>))
    ensures
        context_spec(project, now, items, pending, project_pitfalls, global_pitfalls, terms_md) == head_tail.0
            + "\n## 池（pool/）\n"@ + part_of(items, "pool"@) + "\n## 进行中（working/）\n"@ + part_of(
            items,
            "working"@,
        ) + "\n## 结束（finished/）\n"@ + part_of(items, "finished"@) + "\n## 社区互助（community/）\n"@ + part_of(
            items,
            "community"@,
        ) + head_tail.1,
{
    lemma_headings(items);
    let head = crate::context::summary_spec() + "\n"@ + "# Project: "@ + project + " | Generated: "@ + now + "\n"@
        + "# Truth: ~/.Athena/projects/"@ + project + " (git-tracked)\n"@;
    let tail = crate::context::pending_part(pending) + crate::context::file_section("## 项目级被坑"@, project_pitfalls)
        + crate::context::file_section("## 全局被坑"@, global_pitfalls) + crate::context::terms_part(terms_md);
    let a = status_section(items, "pool"@);
    let b = status_section(items, "working"@);
    let c = status_section(items, "finished"@);
    let d = status_section(items, "community"@);
    assert(context_spec(project, now, items, pending, project_pitfalls, global_pitfalls, terms_md) == head + a + b + c
        + d + tail);
    assert(head + a + b + c + d + tail =~= head + "\n## 池（pool/）\n"@ + part_of(items, "pool"@)
        + "\n## 进行中（working/）\n"@ + part_of(items, "working"@) + "\n## 结束（finished/）\n"@ + part_of(
        items,
        "finished"@,
    ) + "\n## 社区互助（community/）\n"@ + part_of(items, "community"@) + tail);
    (head, tail)
}

/// The context text holds one section per status directory, in the order
/// pool, working, finished, community, each under its own heading; every
/// item is listed, with its slug, kind and outcome, in the section of its
/// status, and a status without items reads `- （空）`.
pub proof fn law_context_lists_every_item(
    project: Seq<char>,
    now: Seq<char>,
    items: Seq<Item>,
    pending: Option<Seq<char>>,
    project_pitfalls: Option<Seq<char>>,
    global_pitfalls: Option<Seq<char>>,
    terms_md: Option<Seq<char>>,
) -> (parts: (Seq<char>, Seq<char>, Seq<char>, Seq<char>, Seq<char>, Seq<char>))
    ensures
        context_spec(project, now, items, pending, project_pitfalls, global_pitfalls, terms_md) == parts.0
            + "\n## 池（pool/）\n"@ + parts.1 + "\n## 进行中（working/）\n"@ + parts.2 + "\n## 结束（finished/）\n"@
            + parts.3 + "\n## 社区互助（community/）\n"@ + parts.4 + parts.5,
        section_lists(parts.1, items, "pool"@),
        section_lists(parts.2, items, "working"@),
        section_lists(parts.3, items, "finished"@),
        section_lists(parts.4, items, "community"@),
{
    let ht = lemma_context_parts(project, now, items, pending, project_pitfalls, global_pitfalls, terms_md);
    lemma_section_lists(items, "pool"@);
    lemma_section_lists(items, "working"@);
    lemma_section_lists(items, "finished"@);
    lemma_section_lists(items, "community"@);
    (ht.0, part_of(items, "pool"@), part_of(items, "working"@), part_of(items, "finished"@), part_of(
        items,
        "community"@,
    ), ht.1)
}

} // verus!
