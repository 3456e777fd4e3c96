//! The protocol's transitions: what each command decides about an item,
//! given the item as read from disk. Reading, writing, moving files and
//! committing stay with the caller.
use vstd::prelude::*;
use crate::document::{Document, Kind, Outcome, has_heading_spec};
use crate::error::Error;
use crate::rules::{Finding, Level, finding_views, has_pending, opt_view, pending_spec};
use crate::section::{append_to_section, append_to_section_spec, insert_after_section};
use crate::templates::TemplateVars;
use crate::text::{
    chars_eq, chars_of, extend_chars, extend_str, lines, string_of, trim, trim_chars, trim_end,
    trim_end_chars,
};
use crate::textops::{count_containing, count_quick_lines, decimal, decimal_chars, is_status_name};

verus! {

broadcast use vstd::string::group_string_axioms;

fn str_is(s: &str, lit: &str) -> (b: bool)
    ensures
        b == (s@ == lit@),
{
    let a = chars_of(s);
    let l = chars_of(lit);
    chars_eq(a.as_slice(), l.as_slice())
}

fn transition(msg: &str) -> (e: Error)
    ensures
        e matches Error::Transition { message } && message@ == msg@,
{
    Error::Transition { message: msg.to_string() }
}

fn transition_of(v: &Vec<char>) -> (e: Error)
    ensures
        e matches Error::Transition { message } && message@ == v@,
{
    Error::Transition { message: string_of(v.as_slice()) }
}

/// The document fields other than the body and the ones a transition sets.
pub open spec fn same_identity(a: Document, b: Document) -> bool {
    &&& a.fm.slug == b.fm.slug
    &&& a.fm.kind == b.fm.kind
    &&& a.fm.status == b.fm.status
    &&& a.fm.project == b.fm.project
    &&& a.fm.updated_by == b.fm.updated_by
    &&& a.fm.updated_at == b.fm.updated_at
    &&& a.fm.content_hash == b.fm.content_hash
    &&& a.fm.priority == b.fm.priority
}

// ---------------------------------------------------------------------------
// promote
// ---------------------------------------------------------------------------

/// Where `promote` moves an item: pool and community go to working;
/// working and finished are refused with a hint at the right command.
pub fn promote_target(status: &str) -> (r: Result<&'static str, Error>)
    requires
        is_status_name(status@),
    ensures
        (status@ == "pool"@ || status@ == "community"@) ==> (r matches Ok(t) && t@ == "working"@),
        status@ == "working"@ ==> (r matches Err(Error::Transition { message })
            && message@ == "已在 working/；结束请用 `athena complete`"@),
        status@ == "finished"@ ==> (r matches Err(Error::Transition { message })
            && message@ == "已结束；若要重新推进用 `athena resume`（要求重新剪枝）"@),
{
    proof {
        reveal_strlit("pool");
        reveal_strlit("community");
        reveal_strlit("working");
        reveal_strlit("finished");
        assert("pool"@.len() == 4);
        assert("community"@.len() == 9);
        assert("working"@.len() == 7);
        assert("finished"@.len() == 8);
    }
    if str_is(status, "pool") || str_is(status, "community") {
        Ok("working")
    } else if str_is(status, "working") {
        Err(transition("已在 working/；结束请用 `athena complete`"))
    } else {
        Err(transition("已结束；若要重新推进用 `athena resume`（要求重新剪枝）"))
    }
}

/// A reason for skipping the falsification must be concrete: not blank and
/// at least six characters.
pub fn check_skip_reason(reason: &str) -> (r: Result<(), Error>)
    ensures
        r is Ok <==> (trim(reason@).len() > 0 && reason@.len() >= 6),
        r matches Err(e) ==> (e matches Error::Transition { message } && message@
            == "--skip-falsification 需要具象理由（如“CI 无显示服务器…”）"@),
{
    let v = chars_of(reason);
    let t = trim_chars(v.as_slice());
    if t.len() == 0 || v.len() < 6 {
        Err(transition("--skip-falsification 需要具象理由（如“CI 无显示服务器…”）"))
    } else {
        Ok(())
    }
}

/// The `### 待测` block registered for a skipped falsification.
pub open spec fn pending_block_spec(reason: Seq<char>, today: Seq<char>) -> Seq<char> {
    "\n### 待测（pending verification）\n- 理由："@ + reason + "\n- 登记时间："@ + today
        + "\n- 状态：pending\n"@
}

/// The line registered in the project's `pending.md`.
pub open spec fn pending_line_spec(slug: Seq<char>, reason: Seq<char>, today: Seq<char>) -> Seq<char> {
    "- [ ] "@ + slug + " · 跳过反证 · 理由："@ + reason + " · "@ + today
}

/// Register a falsification as pending: mark the frontmatter, add a
/// `### 待测` block at the end of the 反证实验 section, and return the line
/// for the project's pending list.
pub fn register_pending(doc: &mut Document, slug: &str, reason: &str, today: &str) -> (line: String)
    ensures
        final(doc).fm.falsification matches Some(f) && f@ == "pending"@,
        final(doc).body@ == append_to_section_spec(
            trim_end(old(doc).body@),
            "反证实验"@,
            trim_end(pending_block_spec(reason@, today@)),
        ),
        same_identity(*final(doc), *old(doc)),
        final(doc).fm.outcome == old(doc).fm.outcome,
        line@ == pending_line_spec(slug@, reason@, today@),
{
    doc.fm.falsification = Some("pending".to_string());
    let mut block: Vec<char> = Vec::new();
    extend_str(&mut block, "\n### 待测（pending verification）\n- 理由：");
    extend_str(&mut block, reason);
    extend_str(&mut block, "\n- 登记时间：");
    extend_str(&mut block, today);
    extend_str(&mut block, "\n- 状态：pending\n");
    let b = string_of(block.as_slice());
    let body = chars_of(doc.body.as_str());
    let trimmed = string_of(trim_end_chars(body.as_slice()).as_slice());
    doc.body = insert_after_section(trimmed.as_str(), "反证实验", b.as_str());
    let mut line: Vec<char> = Vec::new();
    extend_str(&mut line, "- [ ] ");
    extend_str(&mut line, slug);
    extend_str(&mut line, " · 跳过反证 · 理由：");
    extend_str(&mut line, reason);
    extend_str(&mut line, " · ");
    extend_str(&mut line, today);
    string_of(line.as_slice())
}

/// Some finding is at `Error` level.
pub open spec fn any_error(fs: Seq<Finding>) -> bool {
    exists|i: int| 0 <= i < fs.len() && fs[i].level == Level::Error
}

/// `promote` checks before it moves: any `Error` finding stops it.
pub fn promote_gate(findings: &Vec<Finding>) -> (r: Result<(), Error>)
    ensures
        r is Ok <==> !any_error(findings@),
        r matches Err(e) ==> (e matches Error::Transition { message } && message@
            == "反证/block 模式检出 Error，未移动。补齐证据或换 warn 模式后再 promote（§5.1e）。"@),
{
    let mut i: usize = 0;
    while i < findings.len()
        invariant
            i <= findings.len(),
            forall|j: int| 0 <= j < i ==> findings@[j].level != Level::Error,
        decreases findings.len() - i,
    {
        if findings[i].level == Level::Error {
            return Err(transition(
                "反证/block 模式检出 Error，未移动。补齐证据或换 warn 模式后再 promote（§5.1e）。",
            ));
        }
        i += 1;
    }
    Ok(())
}

// ---------------------------------------------------------------------------
// complete / freeze / community / resume
// ---------------------------------------------------------------------------

/// `complete`: only from working, and only once no pending falsification
/// is left; the outcome becomes `done`.
pub fn plan_complete(status: &str, doc: Document, slug: &str) -> (r: Result<Document, Error>)
    ensures
        r is Ok <==> (status@ == "working"@ && !pending_spec(doc.body@, opt_view(doc.fm.falsification))),
        status@ != "working"@ ==> (r matches Err(Error::Transition { message }) && message@
            == "complete 需从 working/ 出发，当前 "@ + status@),
        (status@ == "working"@ && pending_spec(doc.body@, opt_view(doc.fm.falsification))) ==> (
        r matches Err(Error::Transition { message }) && message@ == slug@
            + " 仍有未清算的 `pending` 反证 —— 实际执行并填真实结果、删除 ### 待测 段后再 complete。"@),
        r matches Ok(d) ==> (d.fm.outcome == Some(Outcome::Done) && d.body == doc.body
            && d.fm.falsification == doc.fm.falsification && same_identity(d, doc)),
{
    if !str_is(status, "working") {
        let mut m: Vec<char> = Vec::new();
        extend_str(&mut m, "complete 需从 working/ 出发，当前 ");
        extend_str(&mut m, status);
        return Err(transition_of(&m));
    }
    if has_pending(&doc) {
        let mut m: Vec<char> = Vec::new();
        extend_str(&mut m, slug);
        extend_str(&mut m, " 仍有未清算的 `pending` 反证 —— 实际执行并填真实结果、删除 ### 待测 段后再 complete。");
        return Err(transition_of(&m));
    }
    let mut d = doc;
    d.fm.outcome = Some(Outcome::Done);
    Ok(d)
}

/// `freeze` needs a reason that is not blank.
pub fn check_freeze_reason(reason: &str) -> (r: Result<(), Error>)
    ensures
        r is Ok <==> trim(reason@).len() > 0,
        r matches Err(e) ==> (e matches Error::Transition { message } && message@
            == "毙掉必须写原因（不能无声消失，§5.2）"@),
{
    let v = chars_of(reason);
    if trim_chars(v.as_slice()).len() == 0 {
        Err(transition("毙掉必须写原因（不能无声消失，§5.2）"))
    } else {
        Ok(())
    }
}

/// `freeze`: from anywhere but finished; the outcome becomes `frozen`, a
/// pending mark is dropped and the reason is logged under 决策.
pub fn plan_freeze(status: &str, doc: Document, reason: &str) -> (r: Result<Document, Error>)
    ensures
        r is Ok <==> status@ != "finished"@,
        r matches Err(e) ==> (e matches Error::Transition { message } && message@ == "已在 finished/"@),
        r matches Ok(d) ==> (d.fm.outcome == Some(Outcome::Frozen) && d.fm.falsification is None
            && d.body@ == append_to_section_spec(doc.body@, "决策"@, "- 冻结原因："@ + reason@)
            && same_identity(d, doc)),
{
    if str_is(status, "finished") {
        return Err(transition("已在 finished/"));
    }
    let mut d = doc;
    d.fm.outcome = Some(Outcome::Frozen);
    d.fm.falsification = None;
    let mut line: Vec<char> = Vec::new();
    extend_str(&mut line, "- 冻结原因：");
    extend_str(&mut line, reason);
    let l = string_of(line.as_slice());
    d.body = append_to_section(d.body.as_str(), "决策", l.as_str());
    Ok(d)
}

/// `community`: from anywhere but community; a pending mark is dropped.
pub fn plan_community(status: &str, doc: Document) -> (r: Result<Document, Error>)
    ensures
        r is Ok <==> status@ != "community"@,
        r matches Err(e) ==> (e matches Error::Transition { message } && message@ == "已在 community/"@),
        r matches Ok(d) ==> (d.fm.falsification is None && d.fm.outcome == doc.fm.outcome
            && d.body == doc.body && same_identity(d, doc)),
{
    if str_is(status, "community") {
        return Err(transition("已在 community/"));
    }
    let mut d = doc;
    d.fm.falsification = None;
    Ok(d)
}

/// `resume`: only from finished; the outcome is cleared. The flag says the
/// body lacks a 反证实验 section (the pruning must be redone).
pub fn plan_resume(status: &str, doc: Document) -> (r: Result<(Document, bool), Error>)
    ensures
        r is Ok <==> status@ == "finished"@,
        r matches Err(e) ==> (e matches Error::Transition { message } && message@
            == "resume 从 finished/ 出发"@),
        r matches Ok((d, warn)) ==> (d.fm.outcome is None && d.body == doc.body
            && d.fm.falsification == doc.fm.falsification && same_identity(d, doc)
            && warn == !has_heading_spec(doc.body@, "反证实验"@)),
{
    if !str_is(status, "finished") {
        return Err(transition("resume 从 finished/ 出发"));
    }
    let mut d = doc;
    d.fm.outcome = None;
    let warn = !d.has_heading("反证实验");
    Ok((d, warn))
}

// ---------------------------------------------------------------------------
// deepen
// ---------------------------------------------------------------------------

/// The `--to` argument of `deepen`.
pub fn parse_kind(to: &str) -> (r: Result<Kind, Error>)
    ensures
        to@ == "draft"@ ==> r == Ok::<Kind, Error>(Kind::Draft),
        to@ == "plan"@ ==> r == Ok::<Kind, Error>(Kind::Plan),
        to@ == "proposal"@ ==> r == Ok::<Kind, Error>(Kind::Proposal),
        r is Ok <==> (to@ == "draft"@ || to@ == "plan"@ || to@ == "proposal"@),
        r matches Err(e) ==> (e matches Error::Transition { message } && message@
            == "--to 取 draft|plan|proposal"@),
{
    proof {
        reveal_strlit("draft");
        reveal_strlit("plan");
        reveal_strlit("proposal");
        assert("draft"@.len() == 5);
        assert("plan"@.len() == 4);
        assert("proposal"@.len() == 8);
    }
    if str_is(to, "draft") {
        Ok(Kind::Draft)
    } else if str_is(to, "plan") {
        Ok(Kind::Plan)
    } else if str_is(to, "proposal") {
        Ok(Kind::Proposal)
    } else {
        Err(transition("--to 取 draft|plan|proposal"))
    }
}

fn rank(k: Kind) -> (r: u8)
    ensures
        r == k.rank(),
{
    match k {
        Kind::Proposal => 0,
        Kind::Draft => 1,
        Kind::Plan => 2,
    }
}

/// `deepen`: the document type only moves forward (proposal → draft → plan);
/// the file stays where it is.
pub fn plan_deepen(doc: Document, to: Kind) -> (r: Result<Document, Error>)
    ensures
        r is Ok <==> to.rank() >= doc.fm.kind.rank(),
        r is Ok <==> !(to == Kind::Proposal && doc.fm.kind != Kind::Proposal) && !(to == Kind::Draft
            && doc.fm.kind == Kind::Plan),
        r matches Err(e) ==> (e matches Error::Transition { message } && message@
            == "不能反向降级文档类型（提案→草案→方案 单向深化）"@),
        r matches Ok(d) ==> (d.fm.kind == to && d.body == doc.body && d.fm.slug == doc.fm.slug
            && d.fm.status == doc.fm.status && d.fm.outcome == doc.fm.outcome
            && d.fm.falsification == doc.fm.falsification),
{
    if rank(to) < rank(doc.fm.kind) {
        return Err(transition("不能反向降级文档类型（提案→草案→方案 单向深化）"));
    }
    let mut d = doc;
    d.fm.kind = to;
    Ok(d)
}

// ---------------------------------------------------------------------------
// quick
// ---------------------------------------------------------------------------

/// The line a quick-lane change leaves under 决策日志.
pub open spec fn quick_line_spec(now: Seq<char>, msg: Seq<char>, actor: Seq<char>) -> Seq<char> {
    "- ["@ + now + "] quick: "@ + msg + " — "@ + actor
}

/// The quick lane: never for pool items, and at most `limit` entries per
/// item; otherwise one line is logged under 决策日志. Returns the new
/// document and the number of entries before this one.
pub fn plan_quick(
    status: &str,
    doc: Document,
    slug: &str,
    msg: &str,
    now: &str,
    actor: &str,
    limit: usize,
) -> (r: Result<(Document, usize), Error>)
    ensures
        status@ == "pool"@ ==> (r matches Err(Error::Transition { message }) && message@
            == "快速通道不得用于 pool→working（新提案从池进入必须完整剪枝，§5.4 防护1）"@),
        status@ != "pool"@ && count_containing(lines(doc.body@), "] quick:"@) >= limit ==> (
        r matches Err(Error::Transition { message }) && message@ == slug@ + " 累计 quick 已达 "@
            + decimal(count_containing(lines(doc.body@), "] quick:"@)) + "（上限 "@ + decimal(
            limit as nat,
        ) + "）——请走完整剪枝再推进（§5.4 防护2）"@),
        r is Ok <==> (status@ != "pool"@ && count_containing(lines(doc.body@), "] quick:"@) < limit),
        r matches Ok((d, n)) ==> (n == count_containing(lines(doc.body@), "] quick:"@) && d.body@
            == append_to_section_spec(doc.body@, "决策日志"@, quick_line_spec(now@, msg@, actor@))
            && d.fm.outcome == doc.fm.outcome && d.fm.falsification == doc.fm.falsification
            && same_identity(d, doc)),
{
    if str_is(status, "pool") {
        return Err(transition("快速通道不得用于 pool→working（新提案从池进入必须完整剪枝，§5.4 防护1）"));
    }
    let count = count_quick_lines(doc.body.as_str());
    if count >= limit {
        let mut m: Vec<char> = Vec::new();
        extend_str(&mut m, slug);
        extend_str(&mut m, " 累计 quick 已达 ");
        let c = decimal_chars(count);
        extend_chars(&mut m, c.as_slice());
        extend_str(&mut m, "（上限 ");
        let l = decimal_chars(limit);
        extend_chars(&mut m, l.as_slice());
        extend_str(&mut m, "）——请走完整剪枝再推进（§5.4 防护2）");
        return Err(transition_of(&m));
    }
    let mut line: Vec<char> = Vec::new();
    extend_str(&mut line, "- [");
    extend_str(&mut line, now);
    extend_str(&mut line, "] quick: ");
    extend_str(&mut line, msg);
    extend_str(&mut line, " — ");
    extend_str(&mut line, actor);
    let l = string_of(line.as_slice());
    let mut d = doc;
    d.body = append_to_section(d.body.as_str(), "决策日志", l.as_str());
    Ok((d, count))
}

// ---------------------------------------------------------------------------
// moving
// ---------------------------------------------------------------------------

/// Before a move: the frontmatter names the target status and who moved it
/// when.
pub fn retarget(doc: &mut Document, target: &str, now: &str, actor: &str)
    ensures
        final(doc).fm.status@ == target@,
        final(doc).fm.updated_at@ == now@,
        final(doc).fm.updated_by@ == actor@,
        final(doc).body == old(doc).body,
        final(doc).fm.slug == old(doc).fm.slug,
        final(doc).fm.kind == old(doc).fm.kind,
        final(doc).fm.project == old(doc).fm.project,
        final(doc).fm.outcome == old(doc).fm.outcome,
        final(doc).fm.falsification == old(doc).fm.falsification,
        final(doc).fm.priority == old(doc).fm.priority,
        final(doc).fm.content_hash == old(doc).fm.content_hash,
{
    doc.fm.status = target.to_string();
    doc.fm.updated_at = now.to_string();
    doc.fm.updated_by = actor.to_string();
}


// ---------------------------------------------------------------------------
// new / write
// ---------------------------------------------------------------------------

/// The placeholder values of a new item's template.
pub open spec fn new_item_lookup(
    slug: Seq<char>,
    kind: Seq<char>,
    project: Seq<char>,
    actor: Seq<char>,
    now: Seq<char>,
) -> spec_fn(Seq<char>) -> Option<Seq<char>> {
    |k: Seq<char>|
        if k == "now"@ {
            Some(now)
        } else if k == "actor"@ {
            Some(actor)
        } else if k == "project"@ {
            Some(project)
        } else if k == "status"@ {
            Some("pool"@)
        } else if k == "kind"@ {
            Some(kind)
        } else if k == "slug"@ {
            Some(slug)
        } else {
            None
        }
}

/// The values a new item's template is rendered with: slug, kind, status
/// (`pool`), project, actor and time.
pub fn new_item_vars(slug: &str, kind: &str, project: &str, actor: &str, now: &str) -> (r: TemplateVars)
    ensures
        r.lookup() == new_item_lookup(slug@, kind@, project@, actor@, now@),
{
    let mut vars = TemplateVars::new();
    vars.insert("slug".to_string(), slug.to_string());
    vars.insert("kind".to_string(), kind.to_string());
    vars.insert("status".to_string(), "pool".to_string());
    vars.insert("project".to_string(), project.to_string());
    vars.insert("actor".to_string(), actor.to_string());
    vars.insert("now".to_string(), now.to_string());
    assert(vars.lookup() =~= new_item_lookup(slug@, kind@, project@, actor@, now@));
    vars
}

/// A new item's frontmatter names its slug, project and the pool, whatever
/// the template said.
pub fn adopt_new(doc: &mut Document, slug: &str, project: &str)
    ensures
        final(doc).fm.slug@ == slug@,
        final(doc).fm.project@ == project@,
        final(doc).fm.status@ == "pool"@,
        final(doc).body == old(doc).body,
        final(doc).fm.kind == old(doc).fm.kind,
        final(doc).fm.outcome == old(doc).fm.outcome,
        final(doc).fm.falsification == old(doc).fm.falsification,
        final(doc).fm.priority == old(doc).fm.priority,
{
    doc.fm.slug = slug.to_string();
    doc.fm.project = project.to_string();
    doc.fm.status = "pool".to_string();
}

/// A work-item document written through `write`/`append` records who wrote
/// it and when.
pub fn stamp(doc: &mut Document, actor: &str, now: &str)
    ensures
        final(doc).fm.updated_by@ == actor@,
        final(doc).fm.updated_at@ == now@,
        final(doc).body == old(doc).body,
        final(doc).fm.slug == old(doc).fm.slug,
        final(doc).fm.kind == old(doc).fm.kind,
        final(doc).fm.status == old(doc).fm.status,
        final(doc).fm.project == old(doc).fm.project,
        final(doc).fm.outcome == old(doc).fm.outcome,
        final(doc).fm.falsification == old(doc).fm.falsification,
        final(doc).fm.priority == old(doc).fm.priority,
{
    doc.fm.updated_by = actor.to_string();
    doc.fm.updated_at = now.to_string();
}

/// A path (relative to the state root) of a work-item document:
/// `projects/<project>/<status>/<name>.md`, other than the project's pitfall,
/// meta and pending lists.
pub open spec fn is_item_doc_rel_spec(rel: Seq<char>) -> bool {
    let segs = crate::text::split_char(rel, '/');
    segs.len() == 4 && segs[0] == "projects"@ && segs[1].len() > 0 && is_status_name(segs[2])
        && crate::items::is_item_file_spec(rel)
}

/// Whether a path relative to the state root names a work-item document.
pub fn is_item_doc_rel(rel: &str) -> (b: bool)
    ensures
        b == is_item_doc_rel_spec(rel@),
{
    let v = chars_of(rel);
    let segs = crate::text::split_on(v.as_slice(), '/');
    if segs.len() != 4 {
        return false;
    }
    assert(segs@[0]@ == crate::text::split_char(rel@, '/')[0]);
    assert(segs@[1]@ == crate::text::split_char(rel@, '/')[1]);
    assert(segs@[2]@ == crate::text::split_char(rel@, '/')[2]);
    let pr = chars_of("projects");
    if !chars_eq(segs[0].as_slice(), pr.as_slice()) || segs[1].len() == 0 {
        return false;
    }
    if !crate::textops::is_status(segs[2].as_slice()) {
        return false;
    }
    crate::items::is_item_file(rel)
}
} // verus!
