use athena::document::{Document, Frontmatter, Kind, Outcome};
use athena::error::Error;
use athena::rules::{Finding, Level};
use athena::templates::render;
use athena::workflow::{
    adopt_new, check_freeze_reason, check_skip_reason, is_item_doc_rel, new_item_vars, parse_kind,
    plan_community, plan_complete, plan_deepen, plan_freeze, plan_quick, plan_resume, promote_gate,
    promote_target, register_pending, retarget, stamp,
};

fn doc(kind: Kind, body: &str) -> Document {
    Document {
        fm: Frontmatter {
            slug: "foo".to_string(),
            kind,
            status: "working".to_string(),
            project: "demo".to_string(),
            updated_by: "s1".to_string(),
            updated_at: "t0".to_string(),
            content_hash: "sha256:x".to_string(),
            outcome: None,
            falsification: None,
            priority: None,
        },
        body: body.to_string(),
    }
}

fn transition_message<T: std::fmt::Debug>(r: Result<T, Error>) -> String {
    match r {
        Err(Error::Transition { message }) => message,
        other => panic!("expected a transition error, got {other:?}"),
    }
}

#[test]
fn promote_targets_by_status() {
    assert_eq!(promote_target("pool").unwrap(), "working");
    assert_eq!(promote_target("community").unwrap(), "working");
    assert_eq!(transition_message(promote_target("working")), "已在 working/；结束请用 `athena complete`");
    assert!(transition_message(promote_target("finished")).contains("athena resume"));
}

#[test]
fn skip_reason_must_be_concrete() {
    assert!(check_skip_reason("CI 无显示服务器").is_ok());
    assert!(check_skip_reason("短理由").is_err());
    assert!(check_skip_reason("      ").is_err());
    assert!(check_skip_reason("abcdef").is_ok());
}

#[test]
fn register_pending_marks_and_appends_block() {
    let mut d = doc(Kind::Proposal, "# x\n\n## 反证实验\n| a |\n\n");
    let line = register_pending(&mut d, "foo", "CI 无显示服务器", "2026-01-02");
    assert_eq!(line, "- [ ] foo · 跳过反证 · 理由：CI 无显示服务器 · 2026-01-02");
    assert_eq!(d.fm.falsification.as_deref(), Some("pending"));
    assert_eq!(
        d.body,
        "# x\n\n## 反证实验\n| a |\n\n### 待测（pending verification）\n- 理由：CI 无显示服务器\n- 登记时间：2026-01-02\n- 状态：pending\n"
    );
    assert_eq!(d.fm.slug, "foo");
}

#[test]
fn promote_gate_blocks_on_error_findings() {
    let warn = vec![Finding { level: Level::Warn, code: "c", message: "m".to_string() }];
    assert!(promote_gate(&warn).is_ok());
    let err = vec![
        Finding { level: Level::Info, code: "c", message: "m".to_string() },
        Finding { level: Level::Error, code: "c", message: "m".to_string() },
    ];
    assert!(transition_message(promote_gate(&err)).starts_with("反证/block 模式检出 Error"));
    assert!(promote_gate(&Vec::new()).is_ok());
}

#[test]
fn complete_requires_working_and_no_pending() {
    let ok = plan_complete("working", doc(Kind::Plan, "# x\n"), "foo").unwrap();
    assert_eq!(ok.fm.outcome, Some(Outcome::Done));
    assert_eq!(transition_message(plan_complete("pool", doc(Kind::Plan, "x"), "foo")), "complete 需从 working/ 出发，当前 pool");
    let blocked = plan_complete("working", doc(Kind::Plan, "### 待测\n- x"), "foo");
    assert!(transition_message(blocked).starts_with("foo 仍有未清算的 `pending` 反证"));
    let mut marked = doc(Kind::Plan, "clean");
    marked.fm.falsification = Some("pending".to_string());
    assert!(plan_complete("working", marked, "foo").is_err());
    assert!(plan_complete("working", doc(Kind::Plan, "- [pending] x"), "foo").is_err());
}

#[test]
fn freeze_needs_reason_and_logs_it() {
    assert!(check_freeze_reason("  ").is_err());
    assert!(check_freeze_reason("不再需要").is_ok());
    let mut d = doc(Kind::Proposal, "# x\n");
    d.fm.falsification = Some("pending".to_string());
    let f = plan_freeze("working", d, "不再需要").unwrap();
    assert_eq!(f.fm.outcome, Some(Outcome::Frozen));
    assert_eq!(f.fm.falsification, None);
    assert_eq!(f.body, "# x\n\n## 决策\n- 冻结原因：不再需要\n");
    assert_eq!(transition_message(plan_freeze("finished", doc(Kind::Proposal, ""), "r")), "已在 finished/");
}

#[test]
fn community_and_resume() {
    let mut d = doc(Kind::Draft, "body");
    d.fm.falsification = Some("pending".to_string());
    let c = plan_community("working", d).unwrap();
    assert_eq!(c.fm.falsification, None);
    assert_eq!(c.body, "body");
    assert_eq!(transition_message(plan_community("community", doc(Kind::Draft, ""))), "已在 community/");
    let mut done = doc(Kind::Draft, "## 反证实验\n|x|");
    done.fm.outcome = Some(Outcome::Done);
    let (r, warn) = plan_resume("finished", done).unwrap();
    assert_eq!(r.fm.outcome, None);
    assert!(!warn);
    let (_, warn2) = plan_resume("finished", doc(Kind::Draft, "no section")).unwrap();
    assert!(warn2);
    assert_eq!(transition_message(plan_resume("pool", doc(Kind::Draft, ""))), "resume 从 finished/ 出发");
}

#[test]
fn deepen_is_one_way() {
    assert_eq!(parse_kind("draft").unwrap(), Kind::Draft);
    assert_eq!(parse_kind("plan").unwrap(), Kind::Plan);
    assert_eq!(parse_kind("proposal").unwrap(), Kind::Proposal);
    assert_eq!(transition_message(parse_kind("essay")), "--to 取 draft|plan|proposal");
    let d = plan_deepen(doc(Kind::Proposal, "b"), Kind::Plan).unwrap();
    assert_eq!(d.fm.kind, Kind::Plan);
    assert_eq!(d.body, "b");
    assert!(plan_deepen(doc(Kind::Draft, "b"), Kind::Draft).is_ok());
    assert_eq!(
        transition_message(plan_deepen(doc(Kind::Plan, "b"), Kind::Draft)),
        "不能反向降级文档类型（提案→草案→方案 单向深化）"
    );
}

#[test]
fn quick_lane_limits() {
    let r = plan_quick("working", doc(Kind::Plan, "# x\n"), "foo", "fix typo", "T1", "me", 3).unwrap();
    assert_eq!(r.1, 0);
    assert_eq!(r.0.body, "# x\n\n## 决策日志\n- [T1] quick: fix typo — me\n");
    let (d2, n2) = plan_quick("working", r.0, "foo", "again", "T2", "me", 3).unwrap();
    assert_eq!(n2, 1);
    assert_eq!(d2.body, "# x\n\n## 决策日志\n- [T1] quick: fix typo — me\n- [T2] quick: again — me\n");
    assert!(transition_message(plan_quick("pool", doc(Kind::Plan, ""), "foo", "m", "T", "a", 3)).starts_with("快速通道不得用于 pool→working"));
    let full = doc(Kind::Plan, "- [a] quick: 1\n- [b] quick: 2\n");
    assert_eq!(
        transition_message(plan_quick("working", full, "foo", "m", "T", "a", 2)),
        "foo 累计 quick 已达 2（上限 2）——请走完整剪枝再推进（§5.4 防护2）"
    );
}

#[test]
fn retarget_stamp_and_adopt() {
    let mut d = doc(Kind::Proposal, "b");
    retarget(&mut d, "finished", "T9", "ai");
    assert_eq!(d.fm.status, "finished");
    assert_eq!(d.fm.updated_at, "T9");
    assert_eq!(d.fm.updated_by, "ai");
    stamp(&mut d, "bob", "T10");
    assert_eq!(d.fm.updated_by, "bob");
    assert_eq!(d.fm.updated_at, "T10");
    assert_eq!(d.fm.status, "finished");
    adopt_new(&mut d, "bar", "other");
    assert_eq!(d.fm.slug, "bar");
    assert_eq!(d.fm.project, "other");
    assert_eq!(d.fm.status, "pool");
}

#[test]
fn new_item_template_variables() {
    let vars = new_item_vars("foo", "proposal", "demo", "ai", "2026-01-01T00:00:00Z");
    let out = render("slug: {{slug}}\nstatus: {{status}}\nby: {{actor}} at {{now}} in {{project}} ({{kind}})", &vars);
    assert_eq!(out, "slug: foo\nstatus: pool\nby: ai at 2026-01-01T00:00:00Z in demo (proposal)");
}

#[test]
fn item_doc_paths() {
    assert!(is_item_doc_rel("projects/demo/pool/foo.md"));
    assert!(is_item_doc_rel("projects/demo/working/a.b.md"));
    assert!(!is_item_doc_rel("projects/demo/pending.md"));
    assert!(!is_item_doc_rel("projects/demo/pool/pitfalls.md"));
    assert!(!is_item_doc_rel("projects/demo/drafts/foo.md"));
    assert!(!is_item_doc_rel("pool/foo.md"));
    assert!(!is_item_doc_rel("projects/demo/pool/foo.txt"));
}
