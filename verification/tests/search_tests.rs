use athena::search::{other_projects, pitfall_hits, search_tokens};

#[test]
fn tokens_are_lowercased_words() {
    assert_eq!(search_tokens("  Push\tREBASE  "), vec!["push".to_string(), "rebase".to_string()]);
    assert!(search_tokens("   ").is_empty());
    assert_eq!(search_tokens("ÄBC"), vec!["äbc".to_string()]);
}

#[test]
fn pitfall_search_matches_across_sources_readonly() {
    let tokens = search_tokens("push");
    let global = "# 全局被坑\n\n- push 会要密码，先不 push  <!-- 2026-01-01 · ai -->\n";
    let demo = "# demo\n- push 前须 rebase  <!-- d · a -->\n";
    let other = "# other\n- 与 PUSH 无关的坑\n- 别的\n";
    assert_eq!(pitfall_hits(global, &tokens), vec![(3, "push 会要密码，先不 push".to_string())]);
    assert_eq!(pitfall_hits(demo, &tokens), vec![(2, "push 前须 rebase".to_string())]);
    assert_eq!(pitfall_hits(other, &tokens), vec![(2, "与 PUSH 无关的坑".to_string())]);
    assert!(search_tokens("   ").is_empty());
}

#[test]
fn every_token_must_match() {
    let tokens = search_tokens("push rebase");
    let text = "- push 前须 rebase\n- push only\n- - rebase and push twice\n";
    assert_eq!(
        pitfall_hits(text, &tokens),
        vec![(1, "push 前须 rebase".to_string()), (3, "rebase and push twice".to_string())]
    );
    assert!(pitfall_hits(text, &Vec::new()).len() == 3);
}

#[test]
fn other_projects_sorted_without_current() {
    let names = vec!["zeta".to_string(), "demo".to_string(), "alpha".to_string(), "beta".to_string()];
    assert_eq!(other_projects("demo", &names), vec!["alpha".to_string(), "beta".to_string(), "zeta".to_string()]);
}
