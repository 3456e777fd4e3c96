use athena::document::{Document, Frontmatter, Kind};
use athena::rules::{check_item, has_pending, registry, row_result, Level, RuleKind, ValidationCtx};
use athena::term::{Term, TermsRegistry};

fn doc(slug: &str, status: &str, body: &str) -> Document {
    Document {
        fm: Frontmatter {
            slug: slug.to_string(),
            kind: Kind::Proposal,
            status: status.to_string(),
            project: "demo".to_string(),
            updated_by: "s1".to_string(),
            updated_at: "t".to_string(),
            content_hash: "sha256:x".to_string(),
            outcome: None,
            falsification: None,
            priority: None,
        },
        body: body.to_string(),
    }
}

fn term(slug: &str, require_fields: &[&str], mode: Option<&str>) -> Term {
    Term {
        slug: slug.to_string(),
        synonyms: Vec::new(),
        require_fields: require_fields.iter().map(|s| s.to_string()).collect(),
        enforce_on: Vec::new(),
        origin: None,
        definition: None,
        mode: mode.map(|m| m.to_string()),
        skip_field: None,
        is_entry: false,
        is_recorded: false,
        schema_version: None,
        evidence_tokens: Vec::new(),
    }
}

fn terms() -> TermsRegistry {
    TermsRegistry {
        terms: vec![
            ("falsification".to_string(), term("falsification", &[], Some("block"))),
            ("prune".to_string(), term("prune", &["目标", "自审裁枝"], None)),
        ],
        quick_limit: 3,
    }
}

fn codes(fs: &[athena::rules::Finding]) -> Vec<(&'static str, Level)> {
    fs.iter().map(|f| (f.code, f.level)).collect()
}

#[test]
fn bare_pool_item_gets_every_warning() {
    let d = doc("foo", "pool", "# foo\n");
    let fs = check_item("/s/projects/demo/pool/foo.md", &d, "pool", &terms(), "warn");
    assert_eq!(
        codes(&fs),
        vec![
            ("MissingFalsificationRecord", Level::Warn),
            ("MissingPruneSection", Level::Warn),
            ("MissingPruneSection", Level::Warn),
        ]
    );
    assert_eq!(fs[1].message, "缺剪枝章节 `目标`（术语驱动，改 terms.local.toml 即改规则）");
}

#[test]
fn slug_and_status_drift() {
    let d = doc("bar", "pool", "## 目标\n## 自审裁枝\n## 反证实验\n| 假设 | 实验 | 预期 | 真实结果 |\n|---|---|---|---|\n| a | b | c | 42 |\n");
    let fs = check_item("/s/projects/demo/working/foo.md", &d, "working", &terms(), "block");
    assert_eq!(codes(&fs), vec![("SlugMismatch", Level::Error), ("StatusDrift", Level::Warn)]);
    assert_eq!(fs[0].message, "slug `bar` 与文件名 `foo` 不一致，寻址会失败");
    assert_eq!(
        fs[1].message,
        "frontmatter status=`pool` 与所在目录 `working` 不一致；真值是目录，请修正字段"
    );
}

#[test]
fn block_mode_makes_missing_evidence_an_error() {
    let d = doc("foo", "working", "## 目标\n## 自审裁枝\n## 反证实验\n| 假设 | 实验 | 预期 | 真实结果 |\n|---|---|---|---|\n|  |  |  |  |\n");
    let fs = check_item("foo.md", &d, "working", &terms(), "block");
    assert_eq!(codes(&fs), vec![("FalsificationNoEvidence", Level::Error)]);
}

#[test]
fn pending_in_working_is_a_note() {
    let d = doc("foo", "working", "## 目标\n## 自审裁枝\n## 反证实验\n\n### 待测（pending verification）\n- 状态：pending\n");
    assert!(has_pending(&d));
    let fs = check_item("foo.md", &d, "working", &terms(), "warn");
    assert_eq!(codes(&fs), vec![("PendingVerification", Level::Info)]);
    let mut in_pool = d;
    in_pool.fm.status = "pool".to_string();
    let fs_pool = check_item("foo.md", &in_pool, "pool", &terms(), "warn");
    assert!(fs_pool.is_empty());
}

#[test]
fn closed_items_are_exempt() {
    let d = doc("foo", "finished", "# nothing");
    assert!(check_item("foo.md", &d, "finished", &terms(), "block").is_empty());
    let c = doc("foo", "community", "# nothing");
    assert!(check_item("foo.md", &c, "community", &terms(), "block").is_empty());
}

#[test]
fn registry_order_and_ids() {
    let ids: Vec<&str> = registry().iter().map(|r| r.id()).collect();
    assert_eq!(ids, vec!["slug_matches_file", "status_location", "falsification_recorded", "required_fields"]);
    let d = doc("foo", "pool", "# foo\n");
    let ts = terms();
    let ctx = ValidationCtx { path: "x/foo.md", doc: &d, located_status: "pool", terms: &ts, falsification_mode: "warn" };
    let n: usize = registry().iter().map(|r| r.check(&ctx).len()).sum();
    assert_eq!(n, 3);
    assert!(RuleKind::SlugMatchesFile.check(&ctx).is_empty());
}

#[test]
fn result_rows() {
    assert!(row_result(&"| a | b | c | d |".chars().collect::<Vec<_>>()));
    assert!(!row_result(&"|---|---|---|---|".chars().collect::<Vec<_>>()));
    assert!(!row_result(&"| 假设 | b | c | d |".chars().collect::<Vec<_>>()));
    assert!(!row_result(&"| a | b | c |".chars().collect::<Vec<_>>()));
    assert!(!row_result(&"a | b | c | d".chars().collect::<Vec<_>>()));
    assert_eq!(Level::Error.tag(), "✖ 阻塞");
    assert_eq!(Level::Warn.tag(), "⚠ 标红");
    assert_eq!(Level::Info.tag(), "ℹ");
}
