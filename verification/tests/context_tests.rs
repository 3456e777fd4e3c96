use athena::context::{build, first_goal_line, notices_section};
use athena::document::{Document, Frontmatter, Kind, Outcome};
use athena::items::Item;

fn item(slug: &str, status: &'static str, body: &str, outcome: Option<Outcome>) -> Item {
    Item {
        path: format!("/s/projects/demo/{status}/{slug}.md"),
        status,
        doc: Document {
            fm: Frontmatter {
                slug: slug.to_string(),
                kind: Kind::Draft,
                status: status.to_string(),
                project: "demo".to_string(),
                updated_by: "a".to_string(),
                updated_at: "t".to_string(),
                content_hash: "h".to_string(),
                outcome,
                falsification: None,
                priority: Some("P1".to_string()),
            },
            body: body.to_string(),
        },
    }
}

#[test]
fn goal_line_is_first_content_line_of_goal_section() {
    assert_eq!(first_goal_line("# x\n## 目标\n<!-- c -->\n\n  让它跑起来  \n"), Some("让它跑起来".to_string()));
    assert_eq!(first_goal_line("## 目标\n## 下一节\ntext"), None);
    assert_eq!(first_goal_line("no goal"), None);
    let long: String = std::iter::repeat('x').take(90).collect();
    assert_eq!(first_goal_line(&format!("## 目标\n{long}")).unwrap().chars().count(), 80);
}

#[test]
fn context_lists_items_by_status() {
    let items = vec![
        item("a", "pool", "## 目标\n做 A\n", None),
        item("b", "finished", "", Some(Outcome::Done)),
    ];
    let out = build(
        "demo",
        "2026-01-01T00:00:00Z",
        &items,
        &Some("# p\n- [ ] a · 跳过反证\n- [x] b\n".to_string()),
        &Some("  \n".to_string()),
        &Some("# g\n- 坑\n".to_string()),
        &None,
    );
    assert!(out.starts_with("# Athena Context\n"));
    assert!(out.contains("\n# Project: demo | Generated: 2026-01-01T00:00:00Z\n# Truth: ~/.Athena/projects/demo (git-tracked)\n"));
    assert!(out.contains("\n## 池（pool/）\n- a · kind: draft, P1\n    目标：做 A\n"));
    assert!(out.contains("\n## 进行中（working/）\n- （空）\n"));
    assert!(out.contains("\n## 结束（finished/）\n- b · kind: draft, outcome: done, P1\n"));
    assert!(out.contains("\n## ⚠ 待清算的反证（pending）\n- [ ] a · 跳过反证\n"));
    assert!(!out.contains("- [x] b"));
    assert!(!out.contains("## 项目级被坑"));
    assert!(out.contains("\n## 全局被坑\n# g\n- 坑\n"));
    assert!(out.ends_with("\n## 术语与规则（来自 terms.md）\n"));
}

#[test]
fn notices_show_only_entries() {
    assert_eq!(notices_section(None), None);
    assert_eq!(notices_section(Some("# Athena · 全局通知（广播板）\n\n<!-- x -->\n")), None);
    assert_eq!(
        notices_section(Some("# 板\n- T1 · 重启  <!-- a -->\n说明\n- T2 · 升级\n")),
        Some("\n## 全局通知（notices.md）\n- T1 · 重启  <!-- a -->\n- T2 · 升级\n".to_string())
    );
}
