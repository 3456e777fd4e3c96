//! `athena context`: the text an agent reads first.
use vstd::prelude::*;
use crate::document::Outcome;
use crate::items::Item;
use crate::text::{
    chars_eq, chars_of, contains, contains_chars, extend_chars, extend_str, has_prefix,
    has_suffix, lines, lines_of, starts_with_chars, string_of, sub_chars, trim, trim_chars, views,
};

verus! {

broadcast use vstd::string::group_string_axioms;

/// The protocol summary at the top of the context.
pub open spec fn summary_spec() -> Seq<char> {
    "# Athena Context\n# 你是 Athena 工作协议的执行者。\n# 两条正交的轴，别搞混：\n#   ① 文档类型（它是什么）：提案=有个想法 / 草案=打草稿怎么实现 / 方案=可照着实施\n#   ② 推进状态（推到哪一步）：池 / 进行中 / 结束 / 社区互助 —— 由目录表达\n# 写深了 → deepen（改内容，文件不动）；推进一步 → promote（挪目录，剪枝是门票）。\n# 禁忌：① 不进池就写代码 ② 不剪枝就想 promote ③ 说\"可行\"须贴真实输出\n#      ④ 发现更优方案须做成本对账 ⑤ 不在 ~/.Athena 外写状态文件。\n# 小改动走快速通道（athena quick，一行留痕）；大改动走完整剪枝。\n# 违反协议 → validate 标红提示（自检报告，不是拦截）。"@
}

fn summary() -> (r: &'static str)
    ensures
        r@ == summary_spec(),
{
    "# Athena Context\n# 你是 Athena 工作协议的执行者。\n# 两条正交的轴，别搞混：\n#   ① 文档类型（它是什么）：提案=有个想法 / 草案=打草稿怎么实现 / 方案=可照着实施\n#   ② 推进状态（推到哪一步）：池 / 进行中 / 结束 / 社区互助 —— 由目录表达\n# 写深了 → deepen（改内容，文件不动）；推进一步 → promote（挪目录，剪枝是门票）。\n# 禁忌：① 不进池就写代码 ② 不剪枝就想 promote ③ 说\"可行\"须贴真实输出\n#      ④ 发现更优方案须做成本对账 ⑤ 不在 ~/.Athena 外写状态文件。\n# 小改动走快速通道（athena quick，一行留痕）；大改动走完整剪枝。\n# 违反协议 → validate 标红提示（自检报告，不是拦截）。"
}

// ---------------------------------------------------------------------------
// The goal line
// ---------------------------------------------------------------------------

/// From line `i` on: the first non-empty, non-comment line after a
/// `## 目标` heading (its first 80 characters), unless a heading comes first.
pub open spec fn goal_scan(ls: Seq<Seq<char>>, i: int, seen: bool) -> Option<Seq<char>>
    decreases ls.len() - i,
{
    if i < 0 || i >= ls.len() {
        None
    } else {
        let t = trim(ls[i]);
        if has_prefix(t, "## 目标"@) {
            goal_scan(ls, i + 1, true)
        } else if seen && t.len() > 0 && t[0] == '#' {
            None
        } else if seen && t.len() > 0 && !has_prefix(t, "<!--"@) {
            Some(if t.len() <= 80 {
                t
            } else {
                t.take(80)
            })
        } else {
            goal_scan(ls, i + 1, seen)
        }
    }
}

pub open spec fn first_goal_line_spec(body: Seq<char>) -> Option<Seq<char>> {
    goal_scan(lines(body), 0, false)
}

/// The first line of the body's `## 目标` section (at most 80 characters).
pub fn first_goal_line(body: &str) -> (r: Option<String>)
    ensures
        match r {
            Some(g) => first_goal_line_spec(body@) == Some(g@),
            None => first_goal_line_spec(body@) is None,
        },
{
    let b = chars_of(body);
    let ls = lines_of(b.as_slice());
    let ghost gl = lines(body@);
    let goal = chars_of("## 目标");
    let cmt = chars_of("<!--");
    let mut seen = false;
    let mut i: usize = 0;
    while i < ls.len()
        invariant
            i <= ls.len(),
            views(ls@) == gl,
            goal@ == "## 目标"@,
            cmt@ == "<!--"@,
            first_goal_line_spec(body@) == goal_scan(gl, i as int, seen),
        decreases ls.len() - i,
    {
        assert(ls@[i as int]@ == gl[i as int]);
        let t = trim_chars(ls[i].as_slice());
        if starts_with_chars(t.as_slice(), goal.as_slice()) {
            seen = true;
        } else if seen && t.len() > 0 && t[0] == '#' {
            return None;
        } else if seen && t.len() > 0 && !starts_with_chars(t.as_slice(), cmt.as_slice()) {
            if t.len() <= 80 {
                return Some(string_of(t.as_slice()));
            } else {
                let c = sub_chars(t.as_slice(), 0, 80);
                assert(c@ =~= t@.take(80));
                return Some(string_of(c.as_slice()));
            }
        }
        i += 1;
    }
    None
}

// ---------------------------------------------------------------------------
// The context text
// ---------------------------------------------------------------------------

pub open spec fn status_title(st: Seq<char>) -> Seq<char> {
    if st == "pool"@ {
        "池（pool/）"@
    } else if st == "working"@ {
        "进行中（working/）"@
    } else if st == "finished"@ {
        "结束（finished/）"@
    } else {
        "社区互助（community/）"@
    }
}

/// One item's entry: slug, kind, outcome, priority, then its goal.
pub open spec fn item_entry(it: Item) -> Seq<char> {
    let outcome = match it.doc.fm.outcome {
        Some(Outcome::Done) => ", outcome: done"@,
        Some(Outcome::Frozen) => ", outcome: frozen"@,
        None => seq![],
    };
    let prio = match it.doc.fm.priority {
        Some(p) => ", "@ + p@,
        None => seq![],
    };
    let goal = match first_goal_line_spec(it.doc.body@) {
        Some(g) => "    目标："@ + g + "\n"@,
        None => seq![],
    };
    "- "@ + it.doc.fm.slug@ + " · kind: "@ + it.doc.fm.kind.name() + outcome + prio + "\n"@ + goal
}

/// The entries of the items in status `st`, in order.
pub open spec fn entries_in(items: Seq<Item>, st: Seq<char>) -> Seq<char>
    decreases items.len(),
{
    if items.len() == 0 {
        seq![]
    } else {
        entries_in(items.drop_last(), st) + if items.last().status@ == st {
            item_entry(items.last())
        } else {
            seq![]
        }
    }
}

/// Some item is in status `st`.
pub open spec fn any_in(items: Seq<Item>, st: Seq<char>) -> bool {
    exists|i: int| 0 <= i < items.len() && items[i].status@ == st
}

/// The section of status `st`.
pub open spec fn status_section(items: Seq<Item>, st: Seq<char>) -> Seq<char> {
    "\n## "@ + status_title(st) + "\n"@ + if any_in(items, st) {
        entries_in(items, st)
    } else {
        "- （空）\n"@
    }
}

/// The open entries of the pending list, one per line.
pub open spec fn open_boxes(ls: Seq<Seq<char>>) -> Seq<char>
    decreases ls.len(),
{
    if ls.len() == 0 {
        seq![]
    } else {
        open_boxes(ls.drop_last()) + if contains(ls.last(), "- [ ]"@) {
            ls.last() + "\n"@
        } else {
            seq![]
        }
    }
}

pub open spec fn pending_part(pending: Option<Seq<char>>) -> Seq<char> {
    match pending {
        Some(t) => if contains(t, "- [ ]"@) {
            "\n## ⚠ 待清算的反证（pending）\n"@ + open_boxes(lines(t))
        } else {
            seq![]
        },
        None => seq![],
    }
}

/// A file shown under a header, trimmed, when it has content.
pub open spec fn file_section(header: Seq<char>, text: Option<Seq<char>>) -> Seq<char> {
    match text {
        Some(t) => if trim(t).len() > 0 {
            "\n"@ + header + "\n"@ + trim(t) + "\n"@
        } else {
            seq![]
        },
        None => seq![],
    }
}

pub open spec fn terms_part(terms_md: Option<Seq<char>>) -> Seq<char> {
    "\n## 术语与规则（来自 terms.md）\n"@ + match terms_md {
        Some(t) => if has_suffix(t, "\n"@) {
            t
        } else {
            t + "\n"@
        },
        None => seq![],
    }
}

pub open spec fn opt_str(o: Option<String>) -> Option<Seq<char>> {
    match o {
        Some(s) => Some(s@),
        None => None,
    }
}

/// The whole context: summary, project line, the four status sections,
/// open pending falsifications, the two pitfall lists and the terms.
pub open spec fn context_spec(
    project: Seq<char>,
    now: Seq<char>,
    items: Seq<Item>,
    pending: Option<Seq<char>>,
    project_pitfalls: Option<Seq<char>>,
    global_pitfalls: Option<Seq<char>>,
    terms_md: Option<Seq<char>>,
) -> Seq<char> {
    summary_spec() + "\n"@ + "# Project: "@ + project + " | Generated: "@ + now + "\n"@
        + "# Truth: ~/.Athena/projects/"@ + project + " (git-tracked)\n"@
        + status_section(items, "pool"@) + status_section(items, "working"@)
        + status_section(items, "finished"@) + status_section(items, "community"@)
        + pending_part(pending) + file_section("## 项目级被坑"@, project_pitfalls)
        + file_section("## 全局被坑"@, global_pitfalls) + terms_part(terms_md)
}

fn item_entry_text(it: &Item) -> (r: Vec<char>)
    ensures
        r@ == item_entry(*it),
{
    let mut v: Vec<char> = Vec::new();
    extend_str(&mut v, "- ");
    extend_str(&mut v, it.doc.fm.slug.as_str());
    extend_str(&mut v, " · kind: ");
    extend_str(&mut v, it.doc.fm.kind.as_str());
    match it.doc.fm.outcome {
        Some(Outcome::Done) => extend_str(&mut v, ", outcome: done"),
        Some(Outcome::Frozen) => extend_str(&mut v, ", outcome: frozen"),
        None => {},
    }
    match &it.doc.fm.priority {
        Some(p) => {
            extend_str(&mut v, ", ");
            extend_str(&mut v, p.as_str());
        },
        None => {},
    }
    extend_str(&mut v, "\n");
    match first_goal_line(it.doc.body.as_str()) {
        Some(g) => {
            extend_str(&mut v, "    目标：");
            extend_str(&mut v, g.as_str());
            extend_str(&mut v, "\n");
        },
        None => {},
    }
    v
}

fn section_text(items: &Vec<Item>, st: &str) -> (r: Vec<char>)
    ensures
        r@ == status_section(items@, st@),
{
    let s = chars_of(st);
    let mut body: Vec<char> = Vec::new();
    let mut any = false;
    let mut i: usize = 0;
    while i < items.len()
        invariant
            i <= items.len(),
            s@ == st@,
            body@ == entries_in(items@.take(i as int), st@),
            any == exists|j: int| 0 <= j < i && items@[j].status@ == st@,
        decreases items.len() - i,
    {
        assert(items@.take(i + 1).drop_last() =~= items@.take(i as int));
        let it = &items[i];
        let here = chars_of(it.status);
        if chars_eq(here.as_slice(), s.as_slice()) {
            let e = item_entry_text(it);
            extend_chars(&mut body, e.as_slice());
            any = true;
        }
        i += 1;
    }
    assert(items@.take(items.len() as int) =~= items@);
    let mut v: Vec<char> = Vec::new();
    extend_str(&mut v, "\n## ");
    proof {
        reveal_strlit("pool");
        reveal_strlit("working");
        reveal_strlit("finished");
    }
    if chars_eq(s.as_slice(), chars_of("pool").as_slice()) {
        extend_str(&mut v, "池（pool/）");
    } else if chars_eq(s.as_slice(), chars_of("working").as_slice()) {
        extend_str(&mut v, "进行中（working/）");
    } else if chars_eq(s.as_slice(), chars_of("finished").as_slice()) {
        extend_str(&mut v, "结束（finished/）");
    } else {
        extend_str(&mut v, "社区互助（community/）");
    }
    extend_str(&mut v, "\n");
    if any {
        extend_chars(&mut v, body.as_slice());
    } else {
        extend_str(&mut v, "- （空）\n");
    }
    v
}

fn pending_text(pending: &Option<String>) -> (r: Vec<char>)
    ensures
        r@ == pending_part(opt_str(*pending)),
{
    match pending {
        Some(t) => {
            let tv = chars_of(t.as_str());
            let boxp = chars_of("- [ ]");
            if !contains_chars(tv.as_slice(), boxp.as_slice()) {
                return Vec::new();
            }
            let ls = lines_of(tv.as_slice());
            let ghost gl = lines(t@);
            let mut v: Vec<char> = Vec::new();
            extend_str(&mut v, "\n## ⚠ 待清算的反证（pending）\n");
            let ghost pre = v@;
            let mut i: usize = 0;
            while i < ls.len()
                invariant
                    i <= ls.len(),
                    views(ls@) == gl,
                    boxp@ == "- [ ]"@,
                    v@ == pre + open_boxes(gl.take(i as int)),
                decreases ls.len() - i,
            {
                assert(ls@[i as int]@ == gl[i as int]);
                assert(gl.take(i + 1).drop_last() =~= gl.take(i as int));
                if contains_chars(ls[i].as_slice(), boxp.as_slice()) {
                    extend_chars(&mut v, ls[i].as_slice());
                    extend_str(&mut v, "\n");
                }
                i += 1;
            }
            assert(gl.take(ls.len() as int) =~= gl);
            v
        },
        None => Vec::new(),
    }
}

fn file_text(header: &str, text: &Option<String>) -> (r: Vec<char>)
    ensures
        r@ == file_section(header@, opt_str(*text)),
{
    match text {
        Some(t) => {
            let tv = chars_of(t.as_str());
            let tt = trim_chars(tv.as_slice());
            if tt.len() == 0 {
                return Vec::new();
            }
            let mut v: Vec<char> = Vec::new();
            extend_str(&mut v, "\n");
            extend_str(&mut v, header);
            extend_str(&mut v, "\n");
            extend_chars(&mut v, tt.as_slice());
            extend_str(&mut v, "\n");
            v
        },
        None => Vec::new(),
    }
}

fn terms_text(terms_md: &Option<String>) -> (r: Vec<char>)
    ensures
        r@ == terms_part(opt_str(*terms_md)),
{
    let mut v: Vec<char> = Vec::new();
    extend_str(&mut v, "\n## 术语与规则（来自 terms.md）\n");
    match terms_md {
        Some(t) => {
            let tv = chars_of(t.as_str());
            extend_chars(&mut v, tv.as_slice());
            let ends = tv.len() > 0 && tv[tv.len() - 1] == '\n';
            proof {
                reveal_strlit("\n");
                if tv.len() > 0 {
                    if tv@[tv.len() - 1] == '\n' {
                        assert(tv@.skip(tv.len() - 1) =~= "\n"@);
                    } else {
                        assert(tv@.skip(tv.len() - 1)[0] == tv@[tv.len() - 1]);
                    }
                }
            }
            if !ends {
                extend_str(&mut v, "\n");
            }
        },
        None => {},
    }
    v
}

/// Render the context text from what was read: the project, the time, the
/// items with their status directories, the pending list, the project's and
/// the global pitfall lists, and `terms.md` (each `None` when unreadable).
pub fn build(
    project: &str,
    now: &str,
    items: &Vec<Item>,
    pending: &Option<String>,
    project_pitfalls: &Option<String>,
    global_pitfalls: &Option<String>,
    terms_md: &Option<String>,
) -> (r: String)
    ensures
        r@ == context_spec(
            project@,
            now@,
            items@,
            opt_str(*pending),
            opt_str(*project_pitfalls),
            opt_str(*global_pitfalls),
            opt_str(*terms_md),
        ),
{
    let mut s: Vec<char> = Vec::new();
    extend_str(&mut s, summary());
    extend_str(&mut s, "\n");
    extend_str(&mut s, "# Project: ");
    extend_str(&mut s, project);
    extend_str(&mut s, " | Generated: ");
    extend_str(&mut s, now);
    extend_str(&mut s, "\n");
    extend_str(&mut s, "# Truth: ~/.Athena/projects/");
    extend_str(&mut s, project);
    extend_str(&mut s, " (git-tracked)\n");
    let a = section_text(items, "pool");
    extend_chars(&mut s, a.as_slice());
    let b = section_text(items, "working");
    extend_chars(&mut s, b.as_slice());
    let c = section_text(items, "finished");
    extend_chars(&mut s, c.as_slice());
    let d = section_text(items, "community");
    extend_chars(&mut s, d.as_slice());
    let p = pending_text(pending);
    extend_chars(&mut s, p.as_slice());
    let q = file_text("## 项目级被坑", project_pitfalls);
    extend_chars(&mut s, q.as_slice());
    let g = file_text("## 全局被坑", global_pitfalls);
    extend_chars(&mut s, g.as_slice());
    let t = terms_text(terms_md);
    extend_chars(&mut s, t.as_slice());
    string_of(s.as_slice())
}


// ---------------------------------------------------------------------------
// The notices board
// ---------------------------------------------------------------------------

/// The entries of the notices board (its `- ` lines), one per line.
pub open spec fn notice_entries(ls: Seq<Seq<char>>) -> Seq<char>
    decreases ls.len(),
{
    if ls.len() == 0 {
        seq![]
    } else {
        notice_entries(ls.drop_last()) + if has_prefix(ls.last(), "- "@) {
            ls.last() + "\n"@
        } else {
            seq![]
        }
    }
}

/// The notices shown above a validation report: the board's entries under
/// a header, or nothing when there are none.
pub open spec fn notices_section_spec(board: Option<Seq<char>>) -> Option<Seq<char>> {
    match board {
        Some(t) => if notice_entries(lines(t)).len() > 0 {
            Some("\n## 全局通知（notices.md）\n"@ + notice_entries(lines(t)))
        } else {
            None
        },
        None => None,
    }
}

/// The notices section for the board's text, if it has entries.
pub fn notices_section(board: Option<&str>) -> (r: Option<String>)
    ensures
        match r {
            Some(s) => notices_section_spec(match board {
                Some(t) => Some(t@),
                None => None,
            }) == Some(s@),
            None => notices_section_spec(match board {
                Some(t) => Some(t@),
                None => None,
            }) is None,
        },
{
    match board {
        Some(t) => {
            let tv = chars_of(t);
            let ls = lines_of(tv.as_slice());
            let ghost gl = lines(t@);
            let dash = chars_of("- ");
            let mut v: Vec<char> = Vec::new();
            let mut i: usize = 0;
            while i < ls.len()
                invariant
                    i <= ls.len(),
                    views(ls@) == gl,
                    dash@ == "- "@,
                    v@ == notice_entries(gl.take(i as int)),
                decreases ls.len() - i,
            {
                assert(ls@[i as int]@ == gl[i as int]);
                assert(gl.take(i + 1).drop_last() =~= gl.take(i as int));
                if starts_with_chars(ls[i].as_slice(), dash.as_slice()) {
                    extend_chars(&mut v, ls[i].as_slice());
                    extend_str(&mut v, "\n");
                }
                i += 1;
            }
            assert(gl.take(ls.len() as int) =~= gl);
            if v.len() == 0 {
                return None;
            }
            let mut out: Vec<char> = Vec::new();
            extend_str(&mut out, "\n## 全局通知（notices.md）\n");
            extend_chars(&mut out, v.as_slice());
            Some(string_of(out.as_slice()))
        },
        None => None,
    }
}

} // verus!
