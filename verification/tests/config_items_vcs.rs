use athena::config::{choose_source, effective_falsification_mode, entry_budget_warning, project_name, Config};
use athena::document::{Document, Frontmatter, Kind};
use athena::error::Error;
use athena::items::{find_item, is_item_file, item_file_name, need_item, Item};
use athena::term::{Term, TermsRegistry};
use athena::vcs::{
    add_paths_args, check, commit_message, identity_args, is_dirty, log_args, parse_log, CommitNext, CommitStage, Git,
};

fn item(status: &'static str) -> Item {
    Item {
        path: format!("/s/projects/demo/{status}/foo.md"),
        status,
        doc: Document {
            fm: Frontmatter {
                slug: "foo".to_string(),
                kind: Kind::Proposal,
                status: status.to_string(),
                project: "demo".to_string(),
                updated_by: "a".to_string(),
                updated_at: "t".to_string(),
                content_hash: "h".to_string(),
                outcome: None,
                falsification: None,
                priority: None,
            },
            body: String::new(),
        },
    }
}

fn registry(mode: Option<&str>) -> TermsRegistry {
    let t = Term {
        slug: "falsification".to_string(),
        synonyms: Vec::new(),
        require_fields: Vec::new(),
        enforce_on: Vec::new(),
        origin: None,
        definition: None,
        mode: mode.map(|m| m.to_string()),
        skip_field: None,
        is_entry: false,
        is_recorded: false,
        schema_version: None,
        evidence_tokens: Vec::new(),
    };
    TermsRegistry { terms: vec![("falsification".to_string(), t)], quick_limit: 3 }
}

#[test]
fn project_resolution_order() {
    assert_eq!(project_name(Some("a"), Some("b"), Some("c")).unwrap(), "a");
    assert_eq!(project_name(None, Some("b"), Some("c")).unwrap(), "b");
    assert_eq!(project_name(None, Some(""), Some("c")).unwrap(), "c");
    assert_eq!(project_name(None, None, Some("c")).unwrap(), "c");
    match project_name(None, None, None) {
        Err(Error::Transition { message }) => {
            assert_eq!(message, "无法确定项目：请用 --project 指定，或先 `athena init`")
        }
        other => panic!("{other:?}"),
    }
}

#[test]
fn falsification_mode_and_source() {
    assert_eq!(effective_falsification_mode(Some("block"), &registry(None)), "block");
    assert_eq!(effective_falsification_mode(None, &registry(Some("block"))), "block");
    assert_eq!(effective_falsification_mode(None, &registry(None)), "warn");
    let empty = TermsRegistry { terms: Vec::new(), quick_limit: 3 };
    assert_eq!(empty.falsification_mode(), "warn");
    assert_eq!(
        empty.falsification_evidence_tokens(),
        vec!["真实结果".to_string(), "实测结果".to_string(), "实际结果".to_string()]
    );
    assert!(empty.prune_require_fields().is_empty());
    assert!(empty.prune_enforce_on().is_empty());
    assert!(registry(None).get("falsification").is_some());
    assert!(registry(None).get("prune").is_none());
    assert_eq!(choose_source(Some("/env"), Some("/cfg")), Some("/env".to_string()));
    assert_eq!(choose_source(Some(""), Some("  /cfg ")), Some("/cfg".to_string()));
    assert_eq!(choose_source(None, Some("   ")), None);
    assert_eq!(choose_source(None, None), None);
    assert_eq!(entry_budget_warning(Some(10)), None);
    let c = Config::default();
    assert!(c.default_project.is_none() && c.behavior.max_entry_lines.is_none());
}

#[test]
fn finding_items_by_slug() {
    assert!(find_item(Vec::new(), "foo").unwrap().is_none());
    assert_eq!(find_item(vec![item("pool")], "foo").unwrap().unwrap().status, "pool");
    match find_item(vec![item("pool"), item("working")], "foo") {
        Err(Error::Slug { slug, message }) => {
            assert_eq!(slug, "foo");
            assert_eq!(message, "在 2 个状态目录中重复存在，违反项目内唯一性，请手动消歧");
        }
        other => panic!("{other:?}"),
    }
    match need_item(None, "foo", "demo") {
        Err(Error::Slug { message, .. }) => assert_eq!(message, "在 demo 的任何状态目录中都找不到"),
        other => panic!("{other:?}"),
    }
    assert_eq!(need_item(Some(item("working")), "foo", "demo").unwrap().status, "working");
}

#[test]
fn item_files() {
    assert!(is_item_file("/s/pool/foo.md"));
    assert!(!is_item_file("/s/pool/pitfalls.md"));
    assert!(!is_item_file("/s/meta.md"));
    assert!(!is_item_file("/s/pending.md"));
    assert!(!is_item_file("/s/pool/.md"));
    assert!(!is_item_file("/s/pool/foo.txt"));
    assert_eq!(item_file_name("foo"), "foo.md");
}

#[test]
fn git_plumbing_values() {
    assert_eq!(commit_message("promote: foo → working", "ai"), "promote: foo → working\n\nathena-actor: ai");
    assert_eq!(
        add_paths_args(&vec!["a.md".to_string()]),
        vec!["add".to_string(), "-A".to_string(), "--".to_string(), "a.md".to_string()]
    );
    assert_eq!(log_args(5), vec!["log".to_string(), "-5".to_string(), "--pretty=format:%h\x1f%s".to_string()]);
    assert!(is_dirty(Some(1)));
    assert!(!is_dirty(Some(0)));
    assert!(!is_dirty(None));
    assert!(check(true, "", "git add").is_ok());
    match check(false, " boom \n", "git add") {
        Err(Error::Git { message }) => assert_eq!(message, "git add: boom"),
        other => panic!("{other:?}"),
    }
    assert_eq!(
        parse_log("abc\x1fmsg one\nnoise\ndef\x1fmsg two"),
        vec![("abc".to_string(), "msg one".to_string()), ("def".to_string(), "msg two".to_string())]
    );
    assert_eq!(identity_args().len(), 6);
}

#[test]
fn error_descriptions() {
    let s = |x: &str| x.to_string();
    assert_eq!(Error::Io { message: s("denied") }.describe(), "IO 错误: denied");
    assert_eq!(
        Error::PathEscape { path: s("../x") }.describe(),
        "路径越界: `../x` 解析到 ~/.Athena 之外。\n= 状态内容不得离开 ~/.Athena（§1.1 位置红线）。请改用相对 ~/.Athena 的路径。"
    );
    assert_eq!(
        Error::Parse { path: s("a.md"), message: s("m") }.describe(),
        "解析 a.md 失败\n= 原因: m\n= 这是人工/AI 直接编辑导致的解析错误，Athena 不会自动修改你的文件（§9.1）。\n= 请自行修复后重试。"
    );
    assert_eq!(Error::Toml { path: s("t.toml"), message: s("m") }.describe(), "TOML t.toml 解析失败\n= 原因: m");
    assert_eq!(Error::Slug { slug: s("foo"), message: s("m") }.describe(), "工作项 `foo`: m");
    assert_eq!(Error::Transition { message: s("m") }.describe(), "非法转换: m");
    assert_eq!(Error::Conflict { message: s("m") }.describe(), "拒绝覆盖: m");
    assert_eq!(Error::Git { message: s("m") }.describe(), "git 错误: m");
}

#[test]
fn commit_steps() {
    assert_eq!(Git::commit_all().args, vec!["add".to_string(), "-A".to_string()]);
    assert_eq!(Git::commit_paths(&Vec::new()).args, vec!["add".to_string(), "-A".to_string()]);
    let c = Git::commit_paths(&vec!["x.md".to_string()]);
    assert_eq!(c.args, vec!["add".to_string(), "-A".to_string(), "--".to_string(), "x.md".to_string()]);
    assert_eq!(c.what, "git add");
    match Git::commit_next(CommitStage::Staging, true, Some(0), "", "s", "a") {
        CommitNext::Run(CommitStage::Checking, call) => {
            assert_eq!(call.args, vec!["diff".to_string(), "--cached".to_string(), "--quiet".to_string()])
        }
        _ => panic!("expected the staged check"),
    }
    match Git::commit_next(CommitStage::Staging, false, Some(128), " fatal: x \n", "s", "a") {
        CommitNext::Failed(Error::Git { message }) => assert_eq!(message, "git add: fatal: x"),
        _ => panic!("expected a failure"),
    }
    assert!(matches!(Git::commit_next(CommitStage::Checking, true, Some(0), "", "s", "a"), CommitNext::Finished));
    match Git::commit_next(CommitStage::Checking, false, Some(1), "", "new: pool/x", "ai") {
        CommitNext::Run(CommitStage::Committing, call) => assert_eq!(
            call.args,
            vec!["commit".to_string(), "-q".to_string(), "-m".to_string(), "new: pool/x\n\nathena-actor: ai".to_string()]
        ),
        _ => panic!("expected the commit"),
    }
    assert!(matches!(Git::commit_next(CommitStage::Committing, true, Some(0), "", "s", "a"), CommitNext::Finished));
    assert!(matches!(
        Git::commit_next(CommitStage::Committing, false, Some(1), "boom", "s", "a"),
        CommitNext::Failed(Error::Git { .. })
    ));
}

#[test]
fn log_runs() {
    assert_eq!(Git::log(true, "h1\x1fs1\n", "").unwrap(), vec![("h1".to_string(), "s1".to_string())]);
    match Git::log(false, "", "bad revision\n") {
        Err(Error::Git { message }) => assert_eq!(message, "git log: bad revision"),
        other => panic!("{other:?}"),
    }
}
