use athena::commands::{
    append_line_text, append_text, check_new_slug, check_write_content, clear_pending_text, entry_decision,
    finding_line, global_pitfalls_text, notice_header, notice_line, notice_summary, notice_text, pitfall_line,
    pitfall_summary, project_meta, project_pitfalls_text, proto_version, require_initialized, term_md_section,
    term_list_line, term_skeleton, unparseable_line, validation_summary, validation_verdict,
};
use athena::document::{Document, Frontmatter, Kind};
use athena::error::Error;
use athena::items::Item;
use athena::rules::{Finding, Level};

fn item(status: &'static str, kind: Kind) -> Item {
    Item {
        path: format!("/s/projects/demo/{status}/foo.md"),
        status,
        doc: Document {
            fm: Frontmatter {
                slug: "foo".to_string(),
                kind,
                status: status.to_string(),
                project: "demo".to_string(),
                updated_by: "a".to_string(),
                updated_at: "t".to_string(),
                content_hash: "h".to_string(),
                outcome: None,
                falsification: None,
                priority: None,
            },
            body: String::new(),
        },
    }
}

#[test]
fn initialized_check_names_the_root() {
    assert!(require_initialized(true, "/r").is_ok());
    match require_initialized(false, "/home/u/.Athena") {
        Err(Error::Transition { message }) => assert_eq!(
            message,
            "状态库尚未初始化（/home/u/.Athena 不存在）。先运行 `athena init <project>`。"
        ),
        other => panic!("{other:?}"),
    }
    assert_eq!(proto_version(), "0.1.0");
}

#[test]
fn empty_writes_are_refused_unless_allowed() {
    assert!(check_write_content("a.md", "x", false).is_ok());
    assert!(check_write_content("a.md", "  \n", true).is_ok());
    match check_write_content("a.md", " \n\t", false) {
        Err(Error::Conflict { message }) => {
            assert_eq!(message, "拒绝用空内容写入 a.md（会清空既有内容）。确需清空请加 --allow-empty（§1.2）")
        }
        other => panic!("{other:?}"),
    }
}

#[test]
fn appending_keeps_lines_apart() {
    assert_eq!(append_text("a", "b"), "a\nb");
    assert_eq!(append_text("a\n", "b"), "a\nb");
    assert_eq!(append_text("", "b"), "b");
    assert_eq!(append_line_text("# t\n", "- x"), "# t\n- x\n");
    assert_eq!(append_line_text("# t", "- x\n"), "# t\n- x\n");
}

#[test]
fn clearing_pending_removes_only_the_slug() {
    let t = "# pending\n- [ ] foo · 跳过反证 · 理由：r · d\n- [ ] foobar · x\n- [x] foo done\n";
    assert_eq!(clear_pending_text(t, "foo"), "# pending\n- [ ] foobar · x\n- [x] foo done\n");
    assert_eq!(clear_pending_text("", "foo"), "\n");
}

#[test]
fn pitfall_and_notice_lines() {
    assert_eq!(pitfall_line("坑", "2026-01-01", "ai"), "- 坑  <!-- 2026-01-01 · ai -->");
    assert_eq!(pitfall_summary(true, "demo", "短"), "pitfall(global): 短");
    let long: String = std::iter::repeat('字').take(45).collect();
    let cut: String = std::iter::repeat('字').take(40).collect();
    assert_eq!(pitfall_summary(false, "demo", &long), format!("pitfall(demo): {cut}…"));
    assert_eq!(notice_line("T", "重启", "ai"), "- T · 重启  <!-- ai -->");
    assert_eq!(notice_summary("重启"), "notify: 重启");
    assert!(notice_header().starts_with("# Athena · 全局通知（广播板）\n"));
    assert_eq!(notice_text(Some("  hi  ")).unwrap(), "hi");
    assert!(matches!(notice_text(Some("   ")), Err(Error::Conflict { .. })));
    assert!(matches!(notice_text(None), Err(Error::Conflict { .. })));
}

#[test]
fn term_skeleton_refuses_duplicates() {
    let t = term_skeleton("# terms", "prune", Some("m")).unwrap();
    assert_eq!(
        t,
        "# terms\n\n[term.prune]\nslug = \"prune\"\norigin = \"m\"\nsynonyms = []\nrequire_fields = []\ndefinition = \"\"\n"
    );
    match term_skeleton(&t, "prune", None) {
        Err(Error::Slug { slug, message }) => {
            assert_eq!(slug, "prune");
            assert_eq!(message, "术语已存在");
        }
        other => panic!("{other:?}"),
    }
    assert!(term_skeleton(&t, "other", None).unwrap().ends_with("[term.other]\nslug = \"other\"\nsynonyms = []\nrequire_fields = []\ndefinition = \"\"\n"));
    assert_eq!(term_md_section("x"), "\n## x\n<!-- 定义与边界，AI 读。 -->\n");
}

#[test]
fn entry_file_decisions() {
    assert_eq!(entry_decision(None, "r", false, false, "AGENTS.md").unwrap(), true);
    assert_eq!(entry_decision(None, "r", false, true, "AGENTS.md").unwrap(), false);
    assert_eq!(entry_decision(Some("r"), "r", false, false, "AGENTS.md").unwrap(), false);
    assert_eq!(entry_decision(Some("x"), "r", true, false, "AGENTS.md").unwrap(), true);
    assert_eq!(entry_decision(Some("x"), "r", false, true, "AGENTS.md").unwrap(), false);
    match entry_decision(Some("x"), "r", false, false, "AGENTS.md") {
        Err(Error::Conflict { message }) => assert!(message.starts_with("`AGENTS.md` 已存在且与 Athena 模板不同，拒绝覆盖。")),
        other => panic!("{other:?}"),
    }
}

#[test]
fn skeleton_texts() {
    assert_eq!(
        project_meta("demo", "0.1.0"),
        "---\nproject: demo\nathena-version: 0.1.0\n---\n\n# demo\n\n<!-- 项目是什么。AI/人可直接编辑（§1.1）。 -->\n"
    );
    assert_eq!(project_pitfalls_text("demo"), "# demo · 项目级被坑\n\n- （每条对应一次真实踩坑）\n");
    assert!(global_pitfalls_text().starts_with("# 全局被坑（跨项目通用）\n"));
}

#[test]
fn new_slug_uniqueness() {
    assert_eq!(check_new_slug(None, "foo").unwrap(), false);
    assert_eq!(check_new_slug(Some(&item("finished", Kind::Plan)), "foo").unwrap(), true);
    match check_new_slug(Some(&item("working", Kind::Draft)), "foo") {
        Err(Error::Slug { slug, message }) => {
            assert_eq!(slug, "foo");
            assert_eq!(message, "已存在于 working（draft），项目内必须唯一");
        }
        other => panic!("{other:?}"),
    }
}

#[test]
fn validation_report_lines() {
    let f = Finding { level: Level::Warn, code: "StatusDrift", message: "m".to_string() };
    assert_eq!(finding_line(&f), "  ⚠ 标红 [StatusDrift] m");
    let items = vec![vec![f], vec![Finding { level: Level::Error, code: "E", message: "e".to_string() }], vec![]];
    assert_eq!(validation_verdict(&items, 0), (2, false));
    assert_eq!(validation_verdict(&vec![vec![]], 1), (1, false));
    assert_eq!(validation_verdict(&vec![], 0), (0, true));
    assert_eq!(validation_summary(0), "✓ 无缺失项，状态库自洽。");
    assert_eq!(validation_summary(3), "\n共 3 条提示。这是自检报告：由你（AI）决定补不补，工具不代改（§9.1）。");
}

#[test]
fn unparseable_files_are_reported_as_errors() {
    assert_eq!(
        unparseable_line("缺少"),
        "  ✖ 阻塞 [Unparseable] 无法解析，已从 context/list_items 隐身，请补全 frontmatter：缺少"
    );
}

#[test]
fn term_list_lines() {
    assert_eq!(term_list_line("prune", &Vec::new()), "  prune");
    assert_eq!(
        term_list_line("falsification", &vec!["反证".to_string(), "falsify".to_string()]),
        "  falsification  ~ 反证, falsify"
    );
}
