use athena::section::{append_to_section, insert_after_section};
use athena::templates::{render, render_entry, replace_all, template_for_kind, TemplateVars};
use athena::textops::{append_marker_count, count_quick_lines, decimal_chars, truncate};

#[test]
fn render_replaces_known_keys_only() {
    let mut vars = TemplateVars::new();
    vars.insert("x".to_string(), "1".to_string());
    assert_eq!(render("a {{ x }} b {{y}} {{", &vars), "a 1 b {{y}} {{");
    assert_eq!(render("{{x}}{{x}}", &vars), "11");
    assert_eq!(render("no vars", &vars), "no vars");
    vars.insert("x".to_string(), "2".to_string());
    assert_eq!(render("{{x}}", &vars), "2");
    assert_eq!(vars.get(&['x']).map(|s| s.as_str()), Some("2"));
    assert!(vars.get(&['z']).is_none());
}

#[test]
fn entry_template_version() {
    assert_eq!(render_entry("v={{version}}\nathena-version: 0.1.0\n", "0.2.0"), "v=0.2.0\nathena-version: 0.2.0\n");
    assert_eq!(replace_all("aXbXc", "X", "--"), "a--b--c");
    assert_eq!(replace_all("aaa", "aa", "b"), "ba");
    assert_eq!(template_for_kind("draft"), "draft.md.tpl");
    assert_eq!(template_for_kind("plan"), "plan.md.tpl");
    assert_eq!(template_for_kind("proposal"), "proposal.md.tpl");
    assert_eq!(template_for_kind("other"), "proposal.md.tpl");
}

#[test]
fn append_into_existing_section_before_blank_tail() {
    let body = "# x\n\n## 反证实验\ntable\n\n## 下一节\nz";
    assert_eq!(
        append_to_section(body, "反证实验", "new"),
        "# x\n\n## 反证实验\ntable\nnew\n\n## 下一节\nz\n"
    );
}

#[test]
fn append_creates_missing_section() {
    assert_eq!(append_to_section("# x\n\n", "决策", "- a"), "# x\n\n## 决策\n- a\n");
    assert_eq!(append_to_section("", "决策", "- a\n"), "\n\n## 决策\n- a\n");
}

#[test]
fn append_uses_the_last_matching_heading() {
    let body = "## 决策\n- 1\n## 决策\n- 2";
    assert_eq!(append_to_section(body, "决策", "- 3"), "## 决策\n- 1\n## 决策\n- 2\n- 3\n");
    assert_eq!(insert_after_section("## 反证实验\nx", "反证实验", "### 待测\n- y\n\n"), "## 反证实验\nx\n### 待测\n- y\n");
}

#[test]
fn counting_and_formatting() {
    assert_eq!(count_quick_lines("- [a] quick: x\n- [b] quick: y\nquick: z"), 2);
    assert_eq!(append_marker_count("a\nab\nb", "a"), 2);
    assert_eq!(truncate("abcdef", 3), "abc…");
    assert_eq!(truncate("abc", 3), "abc");
    assert_eq!(decimal_chars(0), vec!['0']);
    assert_eq!(decimal_chars(1203), vec!['1', '2', '0', '3']);
}
