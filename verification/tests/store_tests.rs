use athena::commands::init_commit_paths;
use athena::document::frame;
use athena::error::Error;
use athena::textops::route_state_rel;
use athena::vcs::Git;
use athena::workflow::is_item_doc_rel;
use athena::path::{file_name_chars, file_stem_chars, join_path};
use athena::store::{canonicalize_step, confine, path_starts_with, srel, CanonStep, Store};

fn chars(s: &str) -> Vec<char> {
    s.chars().collect()
}

fn some(s: &str) -> Option<String> {
    Some(s.to_string())
}

#[test]
fn resolve_rejects_escape_and_absolute() {
    let store = Store { root: "/tmp/athena-store".to_string() };
    let root = some("/tmp/athena-store");
    assert!(store.resolve_rel("../evil.md", some("/tmp/evil.md"), root.clone()).is_err());
    assert!(store.resolve_rel("/etc/passwd", some("/etc/passwd"), root.clone()).is_err());
    assert!(store
        .resolve_rel("projects/demo/pool/ok.md", some("/tmp/athena-store/projects/demo/pool/ok.md"), root)
        .is_ok());
}

#[test]
fn resolve_joins_under_root() {
    let store = Store { root: "/tmp/athena-store".to_string() };
    assert_eq!(store.joined_rel("projects/demo/pool/ok.md").unwrap(), "/tmp/athena-store/projects/demo/pool/ok.md");
    match store.joined_rel("projects/../../x") {
        Err(Error::PathEscape { path }) => assert_eq!(path, "projects/../../x"),
        other => panic!("{other:?}"),
    }
    assert!(store.joined_rel("a/..b/c").is_ok());
}

#[test]
fn resolve_confines_the_canonical_path() {
    let store = Store { root: "/tmp/link".to_string() };
    let root = some("/real/store");
    assert_eq!(
        store.resolve_rel("pool/a.md", some("/real/store/pool/a.md"), root.clone()).unwrap(),
        "/real/store/pool/a.md"
    );
    match store.resolve_rel("pool/out", some("/elsewhere/x"), root.clone()) {
        Err(Error::PathEscape { path }) => assert_eq!(path, "pool/out"),
        other => panic!("{other:?}"),
    }
    match store.resolve_rel("pool/a.md", None, root.clone()) {
        Err(Error::PathEscape { path }) => assert_eq!(path, "pool/a.md"),
        other => panic!("{other:?}"),
    }
    match store.resolve_rel("pool/a.md", some("/real/store/pool/a.md"), None) {
        Err(Error::PathEscape { path }) => assert_eq!(path, "/tmp/link"),
        other => panic!("{other:?}"),
    }
    match store.resolve_rel("../x", None, None) {
        Err(Error::PathEscape { path }) => assert_eq!(path, "../x"),
        other => panic!("{other:?}"),
    }
}

#[test]
fn store_layout() {
    let store = Store { root: "/h/.Athena".to_string() };
    assert_eq!(store.projects_dir(), "/h/.Athena/projects");
    assert_eq!(store.project_dir("demo"), "/h/.Athena/projects/demo");
    assert_eq!(store.status_dir("demo", "pool"), "/h/.Athena/projects/demo/pool");
    assert_eq!(store.templates_dir(), "/h/.Athena/templates");
    assert_eq!(store.terms_toml(), "/h/.Athena/terms.local.toml");
    assert_eq!(store.terms_md(), "/h/.Athena/terms.md");
    assert_eq!(store.global_pitfalls(), "/h/.Athena/pitfalls/global.md");
    assert_eq!(store.project_pitfalls("demo"), "/h/.Athena/projects/demo/pitfalls.md");
    assert_eq!(store.project_voice("demo"), "/h/.Athena/projects/demo/voice.md");
    assert_eq!(store.global_voice(), "/h/.Athena/voice.md");
    assert_eq!(store.config_toml(), "/h/.Athena/config.toml");
    assert_eq!(store.notices_md(), "/h/.Athena/notices.md");
    assert_eq!(store.pending_md("demo"), "/h/.Athena/projects/demo/pending.md");
}

#[test]
fn confinement_to_the_canonical_root() {
    assert_eq!(confine("x", Some("/real/s/x".to_string()), "/real/s").unwrap(), "/real/s/x");
    assert!(matches!(confine("x", Some("/real/other".to_string()), "/real/s"), Err(Error::PathEscape { .. })));
    assert!(matches!(confine("x", None, "/real/s"), Err(Error::PathEscape { .. })));
    assert!(path_starts_with("/a/b/c", "/a/b"));
    assert!(path_starts_with("/a/b/", "/a/b"));
    assert!(!path_starts_with("/a/bc", "/a/b"));
    assert!(path_starts_with("/a/./b", "/a/b"));
}

#[test]
fn canonicalising_a_path_that_does_not_exist_yet() {
    let mut suffix: Vec<String> = Vec::new();
    let s1 = canonicalize_step("/s/x/y.md", &mut suffix, None);
    let p1 = match s1 {
        CanonStep::Up(p) => p,
        _ => panic!("expected to go up"),
    };
    assert_eq!(p1, "/s/x");
    let p2 = match canonicalize_step(&p1, &mut suffix, None) {
        CanonStep::Up(p) => p,
        _ => panic!("expected to go up"),
    };
    assert_eq!(p2, "/s");
    assert_eq!(suffix, vec!["y.md".to_string(), "x".to_string()]);
    match canonicalize_step(&p2, &mut suffix, Some("/real/s".to_string())) {
        CanonStep::Done(d) => assert_eq!(d, "/real/s/x/y.md"),
        _ => panic!("expected done"),
    }
    let mut empty: Vec<String> = Vec::new();
    assert!(matches!(canonicalize_step("/", &mut empty, None), CanonStep::Fail));
}

#[test]
fn relative_to_root() {
    let store = Store { root: "/h/.Athena".to_string() };
    assert_eq!(srel(&store, "/h/.Athena/projects/demo/pool/a.md"), "projects/demo/pool/a.md");
    assert_eq!(srel(&store, "/elsewhere/a.md"), "/elsewhere/a.md");
}

#[test]
fn path_pieces() {
    assert_eq!(join_path("/a", "b"), "/a/b");
    assert_eq!(join_path("/a/", "b"), "/a/b");
    assert_eq!(join_path("/a", "/b"), "/b");
    assert_eq!(join_path("", "b"), "b");
    assert_eq!(file_name_chars(&chars("/a/b.md")), Some(chars("b.md")));
    assert_eq!(file_name_chars(&chars("/a/b/")), Some(chars("b")));
    assert_eq!(file_name_chars(&chars("/a/..")), None);
    assert_eq!(file_name_chars(&chars("/")), None);
    assert_eq!(file_stem_chars(&chars("x/foo.tar.gz")), Some(chars("foo.tar")));
    assert_eq!(file_stem_chars(&chars(".hidden")), Some(chars(".hidden")));
}

#[test]
fn init_does_not_sweep_foreign_project_dirt() {
    let store = Store { root: "/tmp/athena-init-iso".to_string() };
    let files = Git::commit_paths(&init_commit_paths(&store, "beta")).args;
    assert_eq!(&files[..3], &["add".to_string(), "-A".to_string(), "--".to_string()]);
    assert!(files.iter().any(|f| f == "projects/beta"), "beta 的 init 提交应包含自身骨架，实际：\n{files:?}");
    assert!(!files.iter().any(|f| f.contains("projects/alpha")), "beta 的 init 提交不应卷走 alpha 的文件，实际：\n{files:?}");
    assert!(!files.iter().any(|f| f.contains("stray-orphan")), "beta 的 init 提交不应卷走游离残片，实际：\n{files:?}");
    assert_eq!(
        files[3..].to_vec(),
        vec![
            "config.toml".to_string(),
            "terms.md".to_string(),
            "terms.local.toml".to_string(),
            "pitfalls/global.md".to_string(),
            "notices.md".to_string(),
            "templates".to_string(),
            "projects/beta".to_string(),
        ]
    );
}

#[test]
fn write_path_reroutes_bare_status_path_into_project_and_validates_fm() {
    let store = Store { root: "/tmp/athena-wip".to_string() };
    let (bad, rerouted) = route_state_rel("pool/bad.md", "demo");
    assert!(rerouted);
    assert_eq!(bad, "projects/demo/pool/bad.md");
    assert!(is_item_doc_rel(&bad));
    assert!(frame(&bad, "no frontmatter\n").is_err(), "归位后应触发一致 frontmatter 校验");
    let (ok, _) = route_state_rel("pool/ok.md", "demo");
    assert_eq!(store.joined_rel(&ok).unwrap(), "/tmp/athena-wip/projects/demo/pool/ok.md", "归位后应写入 projects/demo/pool/ok.md");
    assert!(!ok.starts_with("pool/"), "顶层 pool/ 不应被污染（幻影树来源）");
}
