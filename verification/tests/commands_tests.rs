use athena::textops::{route_state_rel, statuses, strip_pitfall_tail_comment};

#[test]
fn route_state_rel_prefixes_bare_status_dirs_under_project() {
    for st in statuses() {
        let (r, changed) = route_state_rel(&format!("{st}/x.md"), "demo");
        assert!(changed, "{st}/ 裸路径应触发归位");
        assert_eq!(r, format!("projects/demo/{st}/x.md"));
    }
    let (r, changed) = route_state_rel("./pool/x.md", "demo");
    assert!(changed);
    assert_eq!(r, "projects/demo/pool/x.md");
}

#[test]
fn route_state_rel_leaves_qualified_and_nonstatus_paths() {
    for rel in [
        "projects/demo/pool/x.md",
        "templates/AGENTS.md.tpl",
        "pitfalls/global.md",
        "notices.md",
        "projects/demo/pending.md",
    ] {
        let (r, changed) = route_state_rel(rel, "demo");
        assert!(!changed, "{rel} 不应被归位");
        assert_eq!(r, rel);
    }
}

#[test]
fn strip_pitfall_tail_comment_removes_metadata() {
    assert_eq!(strip_pitfall_tail_comment("记个坑  <!-- 2026-09-24 · pid-1 -->"), "记个坑");
    assert_eq!(strip_pitfall_tail_comment("无注释行"), "无注释行");
}
