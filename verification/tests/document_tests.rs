use athena::document::{
    assemble, content_hash, find_fm_end, frame, split_frontmatter, Document,
    Frontmatter, Kind,
};
use athena::error::Error;

fn demo_doc(body: &str) -> Document {
    Document {
        fm: Frontmatter {
            slug: "foo".to_string(),
            kind: Kind::Proposal,
            status: "pool".to_string(),
            project: "demo".to_string(),
            updated_by: "s1".to_string(),
            updated_at: "t".to_string(),
            content_hash: "sha256:pending".to_string(),
            outcome: None,
            falsification: None,
            priority: None,
        },
        body: body.to_string(),
    }
}

fn yaml_of(fm: &Frontmatter) -> String {
    format!(
        "slug: {}\nkind: {}\nstatus: {}\nproject: {}\nupdated-by: {}\nupdated-at: {}\ncontent-hash: {}\n",
        fm.slug,
        fm.kind.as_str(),
        fm.status,
        fm.project,
        fm.updated_by,
        fm.updated_at,
        fm.content_hash
    )
}

#[test]
fn frontmatter_roundtrip_and_hash() {
    let mut doc = demo_doc("\n# foo\n\n## 反证实验\n");
    let text = doc.render(|fm| yaml_of(fm));
    assert_eq!(text, assemble(&yaml_of(&doc.fm), &doc.body));
    let h = text.lines().find(|l| l.starts_with("content-hash:")).unwrap().to_string();
    assert!(h.contains("sha256:") && !h.contains("pending"), "{h}");
    let (fm, body) = frame("foo.md", &text).unwrap();
    assert!(fm.contains("slug: foo"));
    assert!(fm.contains("kind: proposal"));
    assert_eq!(body, doc.body);
    assert_eq!(doc.fm.content_hash, content_hash(&body));
    assert_eq!(format!("content-hash: {}", content_hash(&body)), h);
}

#[test]
fn parse_missing_frontmatter_errors() {
    let e = Document::parse("x.md", "# no frontmatter", |_| Err("unused".to_string()));
    assert!(matches!(e, Err(Error::Parse { .. })));
}

#[test]
fn missing_frontmatter_error_names_the_file() {
    match frame("x.md", "# no frontmatter") {
        Err(Error::Parse { path, message }) => {
            assert_eq!(path, "x.md");
            assert!(message.contains("frontmatter"));
        }
        other => panic!("unexpected {other:?}"),
    }
    assert!(matches!(frame("y.md", "---\nslug: a\nno closing line\n"), Err(Error::Parse { .. })));
}

#[test]
fn content_hash_of_empty_body_is_sha256_of_nothing() {
    assert_eq!(
        content_hash(""),
        "sha256:e3b0c44298fc1c149afbf4c8996fb92427ae41e4649b934ca495991b7852b855"
    );
    assert_eq!(
        content_hash("abc"),
        "sha256:ba7816bf8f01cfea414140de5dae2223b00361a396177a9cb410ff61f20015ad"
    );
}

#[test]
fn render_frames_the_refreshed_frontmatter() {
    let mut doc = demo_doc("body\n");
    let text = doc.render(|fm| format!("slug: {}\ncontent-hash: {}\n\n", fm.slug, fm.content_hash));
    assert_eq!(text, format!("---\nslug: foo\ncontent-hash: {}\n---\nbody\n", content_hash("body\n")));
    assert_eq!(doc.fm.content_hash, content_hash("body\n"));
    assert_eq!(doc.body, "body\n");
}

#[test]
fn refresh_content_hash_replaces_placeholder() {
    let mut doc = demo_doc("body");
    doc.refresh_content_hash();
    assert_eq!(doc.fm.content_hash, content_hash("body"));
    assert_eq!(doc.fm.content_hash.len(), 71);
    assert!(doc.fm.content_hash[7..].chars().all(|c| c.is_ascii_hexdigit() && !c.is_ascii_uppercase()));
    assert_eq!(doc.body, "body");
    assert_eq!(doc.fm.slug, "foo");
}

#[test]
fn assemble_trims_frontmatter_and_frames_body() {
    assert_eq!(assemble("a: 1\n\n  ", "body\n"), "---\na: 1\n---\nbody\n");
    assert_eq!(assemble("", "x"), "---\n\n---\nx");
}

#[test]
fn frame_round_trip_of_assembled_text() {
    let text = assemble("slug: x\nkind: plan", "# x\n\n## 目标\ngo\n");
    let (fm, body) = frame("x.md", &text).unwrap();
    assert_eq!(fm, "slug: x\nkind: plan");
    assert_eq!(body, "# x\n\n## 目标\ngo\n");
}

#[test]
fn split_frontmatter_accepts_crlf_opening_and_dots() {
    assert_eq!(
        split_frontmatter("---\r\na: 1\n...\nrest"),
        Some(("a: 1".to_string(), "rest".to_string()))
    );
    assert_eq!(split_frontmatter("---\na: 1\n---"), Some(("a: 1".to_string(), String::new())));
    assert_eq!(split_frontmatter("--- \na: 1\n---\n"), None);
}

#[test]
fn find_fm_end_counts_bytes() {
    assert_eq!(find_fm_end("a: 1\n---\nbody"), Some((5, 9)));
    assert_eq!(find_fm_end("标题: 1\n---  \n"), Some((10, 16)));
    assert_eq!(find_fm_end("no end"), None);
}

#[test]
fn find_fm_end_counts_carriage_returns() {
    assert_eq!(find_fm_end("a: 1\r\n---\r\nbody"), Some((6, 11)));
    assert_eq!(find_fm_end("---"), Some((0, 4)));
}

#[test]
fn split_frontmatter_of_crlf_text() {
    assert_eq!(
        split_frontmatter("---\r\na: 1\r\nb: 2\r\n---\r\n# T\r\nbody\r\n"),
        Some(("a: 1\r\nb: 2".to_string(), "# T\r\nbody\r\n".to_string()))
    );
    assert_eq!(split_frontmatter("---\n标题: 1\n---\n正文"), Some(("标题: 1".to_string(), "正文".to_string())));
}

#[test]
fn kind_names() {
    assert_eq!(Kind::Proposal.as_str(), "proposal");
    assert_eq!(Kind::Draft.as_str(), "draft");
    assert_eq!(Kind::Plan.as_str(), "plan");
}

#[test]
fn parse_reads_back_what_render_wrote() {
    let mut doc = demo_doc("\n# foo\n\n## 反证实验\n");
    let text = doc.render(|fm| yaml_of(fm));
    let back = Document::parse("foo.md", &text, |t| {
        assert_eq!(t, yaml_of(&demo_doc("").fm).replace("sha256:pending", &content_hash("\n# foo\n\n## 反证实验\n")).trim_end());
        let mut fm = demo_doc("").fm;
        fm.content_hash = content_hash("\n# foo\n\n## 反证实验\n");
        Ok(fm)
    })
    .unwrap();
    assert_eq!(back.fm.slug, "foo");
    assert_eq!(back.body, doc.body);
}

#[test]
fn parse_errors_name_the_file() {
    match Document::parse("x.md", "# no frontmatter", |_| Err("unused".to_string())) {
        Err(Error::Parse { path, message }) => {
            assert_eq!(path, "x.md");
            assert_eq!(message, "缺少 YAML frontmatter 分隔线 `---`（§9.1）");
        }
        other => panic!("unexpected {other:?}"),
    }
    match Document::parse("y.md", "---\nslug: [\n---\nbody", |t| Err(format!("bad yaml in {t}"))) {
        Err(Error::Parse { path, message }) => {
            assert_eq!(path, "y.md");
            assert_eq!(message, "frontmatter 解析失败: bad yaml in slug: [");
        }
        other => panic!("unexpected {other:?}"),
    }
}
