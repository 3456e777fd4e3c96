use athena::commands::{clear_pending_text, pitfall_line, term_skeleton};
use athena::search::{pitfall_hits, search_tokens};
use athena::document::{assemble, frame};
use athena::rules::check_item;
use athena::templates::{render, TemplateVars};
use athena::textops::{count_quick_lines, route_state_rel};
use athena::store::{path_starts_with, Store};
use athena::workflow::plan_quick;
use athena::workflow::register_pending;
use athena::document::{Document, Frontmatter, Kind};
use athena::term::TermsRegistry;

fn doc(body: &str) -> Document {
    Document {
        fm: Frontmatter {
            slug: "foo".to_string(),
            kind: Kind::Proposal,
            status: "finished".to_string(),
            project: "demo".to_string(),
            updated_by: "a".to_string(),
            updated_at: "t".to_string(),
            content_hash: "h".to_string(),
            outcome: None,
            falsification: None,
            priority: None,
        },
        body: body.to_string(),
    }
}

#[test]
fn routing_twice_changes_nothing_more() {
    for rel in ["pool/x.md", "./working/y.md", "notes.md", "projects/demo/pool/x.md"] {
        let (once, _) = route_state_rel(rel, "demo");
        let (twice, changed) = route_state_rel(&once, "demo");
        assert_eq!(twice, once);
        assert!(!changed);
    }
}

#[test]
fn registered_pending_line_is_cleared_again() {
    let mut d = doc("## 反证实验\n");
    let line = register_pending(&mut d, "foo", "CI 无显示服务器", "2026-01-02");
    let pending = format!("# pending\n{line}\n- [ ] other · x\n");
    assert_eq!(clear_pending_text(&pending, "foo"), "# pending\n- [ ] other · x\n");
}

#[test]
fn framing_reads_back_what_was_written() {
    for (fm, body) in [("slug: a", "body"), ("a: 1\nb: 2\n\n", "\n# t\n---\nx"), ("", ""), ("a: x\ry", "b\r\n")] {
        let text = assemble(fm, body);
        let (f, b) = frame("a.md", &text).unwrap();
        assert_eq!(f, fm.trim_end());
        assert_eq!(b, body);
    }
}

#[test]
fn plain_text_renders_to_itself() {
    let mut vars = TemplateVars::new();
    vars.insert("a".to_string(), "b".to_string());
    let t = "no { braces } here }}";
    assert_eq!(render(t, &vars), t);
}

#[test]
fn term_new_twice_is_refused() {
    let once = term_skeleton("# terms\n", "x", None).unwrap();
    assert!(term_skeleton(&once, "x", Some("o")).is_err());
}

#[test]
fn closed_items_have_no_falsification_or_prune_findings() {
    let terms = TermsRegistry { terms: Vec::new(), quick_limit: 3 };
    for st in ["finished", "community"] {
        let mut d = doc("nothing");
        d.fm.status = st.to_string();
        assert!(check_item("foo.md", &d, st, &terms, "block").is_empty());
    }
}

#[test]
fn guarded_paths_stay_under_the_root() {
    let store = Store { root: "/home/u/.Athena".to_string() };
    for rel in ["projects/demo/pool/a.md", "./x/./y", "a//b", ""] {
        let p = store.joined_rel(rel).unwrap();
        assert!(path_starts_with(&p, &store.root), "{p}");
        let q = store.resolve_rel(rel, Some(p.clone()), Some(store.root.clone())).unwrap();
        assert!(path_starts_with(&q, &store.root), "{q}");
    }
    assert!(store.joined_rel("x/../../etc").is_err());
    assert!(store.resolve_rel("x/../../etc", Some("/home/u/etc".to_string()), Some(store.root.clone())).is_err());
}

#[test]
fn each_quick_entry_counts_once() {
    for body in [
        "# x\n",
        "# x\n## 决策日志\n- [a] quick: 1\n\n## 下一节\n",
        "## 决策日志\n- [a] quick: 1\n  \n\n",
        "",
        "# x\r\n## 决策日志\r\n- [a] quick: 1\r\n\r\n## 下一节\r\nend\r",
        "- [a] quick: 0 \r\r\n \t\r",
    ] {
        let before = count_quick_lines(body);
        let (d, n) = plan_quick("working", doc(body), "foo", "m", "T", "ai", 10).unwrap();
        assert_eq!(n, before);
        assert_eq!(count_quick_lines(&d.body), before + 1, "{:?}", d.body);
    }
}

#[test]
fn recorded_pitfall_reads_back_as_its_text() {
    let line = pitfall_line("push 前须 rebase ", "2026-01-01", "ai");
    let hits = pitfall_hits(&format!("# t\n{line}\n"), &search_tokens("REBASE"));
    assert_eq!(hits, vec![(2, "push 前须 rebase".to_string())]);
}

#[test]
fn registered_skip_keeps_the_record() {
    let terms = TermsRegistry { terms: Vec::new(), quick_limit: 3 };
    for body in [
        "# x\n\n## 目标\n做\n",
        "# x\n\n## 反证实验\n|a|b|c|d|\n\n## 决策\n",
        "# x\r\n## 反证实验\r\r\n|a|b|c|d|\r\n",
    ] {
        let mut d = doc(body);
        d.fm.status = "working".to_string();
        register_pending(&mut d, "foo", "CI 无显示服务器", "2026-01-02");
        assert!(d.has_heading("反证实验"));
        let fs = check_item("foo.md", &d, "working", &terms, "block");
        let codes: Vec<&str> = fs.iter().map(|f| f.code).collect();
        assert_eq!(codes, vec!["PendingVerification"]);
    }
}

#[test]
fn clearing_twice_is_clearing_once() {
    for t in ["# p\n- [ ] foo · x\n- [ ] bar · y\n", "- [ ] foo · x", "", "\n\n", "# p\r\n- [ ] foo · x\r\n"] {
        let once = clear_pending_text(t, "foo");
        assert_eq!(clear_pending_text(&once, "foo"), once);
    }
}

#[test]
fn append_lands_before_the_sections_blank_tail() {
    let body = "# T\n## 决策\n- a\n\n\n## 下一节\nx";
    let out = athena::section::append_to_section(body, "决策", "- b\n- c");
    let lines: Vec<&str> = body.lines().collect();
    let mut expect: Vec<&str> = lines[..3].to_vec();
    expect.extend(["- b", "- c"]);
    expect.extend(&lines[3..]);
    assert_eq!(out, format!("{}\n", expect.join("\n")));
    assert_eq!(out, "# T\n## 决策\n- a\n- b\n- c\n\n\n## 下一节\nx\n");
}

#[test]
fn two_appends_equal_one_append_of_both() {
    let body = "## 决策\n- a\n\n## 其他\ny\n";
    let once = athena::section::append_to_section(body, "决策", "- b");
    let twice = athena::section::append_to_section(&once, "决策", "- c\n");
    let joined = athena::section::append_to_section(body, "决策", "- b\n- c\n");
    assert_eq!(twice, joined);
    assert_eq!(twice, "## 决策\n- a\n- b\n- c\n\n## 其他\ny\n");
    let twice_cr = athena::section::append_to_section(&once, "决策", "- c\r\n- d");
    let joined_cr = athena::section::append_to_section(body, "决策", "- b\n- c\r\n- d");
    assert_eq!(twice_cr, joined_cr);
    assert_eq!(twice_cr, "## 决策\n- a\n- b\n- c\r\n- d\n\n## 其他\ny\n");
}

#[test]
fn quick_limit_defaults_to_five() {
    assert_eq!(athena::term::quick_limit_or_default(None), 5);
    assert_eq!(athena::term::quick_limit_or_default(Some(2)), 2);
    assert_eq!(athena::term::DEFAULT_QUICK_LIMIT, 5);
}
