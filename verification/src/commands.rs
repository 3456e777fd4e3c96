//! What the commands decide and write, apart from the file system and git:
//! guards, line formats and text edits of the state files.
use vstd::prelude::*;
use crate::error::Error;
use crate::items::Item;
use crate::rules::{Finding, Level};
use crate::text::{
    chars_eq, chars_of, contains, contains_chars, extend_chars, extend_str, has_suffix, join,
    join_chars, lines, lines_of, string_of, sub_chars, trim, trim_chars, views,
};
use crate::textops::{truncate, truncate_spec};
use crate::path::join_spec;
use crate::store::{Store, srel, srel_spec};
pub use crate::config::project_name;

verus! {

broadcast use vstd::string::group_string_axioms;

/// The protocol version written into entry files and project metadata.
pub fn proto_version() -> (r: &'static str)
    ensures
        r@ == "0.1.0"@,
{
    "0.1.0"
}

/// Commands other than `init` need an initialised state root.
pub fn require_initialized(projects_exists: bool, root: &str) -> (r: Result<(), Error>)
    ensures
        r is Ok <==> projects_exists,
        r matches Err(e) ==> (e matches Error::Transition { message } && message@ == "状态库尚未初始化（"@
            + root@ + " 不存在）。先运行 `athena init <project>`。"@),
{
    if projects_exists {
        return Ok(());
    }
    let mut m: Vec<char> = Vec::new();
    extend_str(&mut m, "状态库尚未初始化（");
    extend_str(&mut m, root);
    extend_str(&mut m, " 不存在）。先运行 `athena init <project>`。");
    Err(Error::Transition { message: string_of(m.as_slice()) })
}

/// `write` refuses empty or blank content unless explicitly allowed, so a
/// state file is never wiped by mistake.
pub fn check_write_content(rel: &str, content: &str, allow_empty: bool) -> (r: Result<(), Error>)
    ensures
        r is Ok <==> (allow_empty || trim(content@).len() > 0),
        r matches Err(e) ==> (e matches Error::Conflict { message } && message@ == "拒绝用空内容写入 "@
            + rel@ + "（会清空既有内容）。确需清空请加 --allow-empty（§1.2）"@),
{
    let c = chars_of(content);
    if !allow_empty && trim_chars(c.as_slice()).len() == 0 {
        let mut m: Vec<char> = Vec::new();
        extend_str(&mut m, "拒绝用空内容写入 ");
        extend_str(&mut m, rel);
        extend_str(&mut m, "（会清空既有内容）。确需清空请加 --allow-empty（§1.2）");
        return Err(Error::Conflict { message: string_of(m.as_slice()) });
    }
    Ok(())
}

/// `cur` followed by `content`, on a new line when `cur` does not end one.
pub open spec fn append_text_spec(cur: Seq<char>, content: Seq<char>) -> Seq<char> {
    if cur.len() > 0 && !has_suffix(cur, seq!['\n']) {
        cur + seq!['\n'] + content
    } else {
        cur + content
    }
}

fn ends_nl(v: &Vec<char>) -> (b: bool)
    ensures
        b == has_suffix(v@, seq!['\n']),
{
    let b = v.len() > 0 && v[v.len() - 1] == '\n';
    proof {
        if v.len() > 0 {
            if v@[v.len() - 1] == '\n' {
                assert(v@.skip(v.len() - 1) =~= seq!['\n']);
            } else {
                assert(v@.skip(v.len() - 1)[0] == v@[v.len() - 1]);
            }
        }
    }
    b
}

/// Append `content` to the text of a state file (`append`).
pub fn append_text(cur: &str, content: &str) -> (r: String)
    ensures
        r@ == append_text_spec(cur@, content@),
{
    let mut v = chars_of(cur);
    if v.len() > 0 && !ends_nl(&v) {
        v.push('\n');
    }
    extend_str(&mut v, content);
    string_of(v.as_slice())
}

/// Append one line (ending it with a newline) to a Markdown list file.
pub fn append_line_text(cur: &str, line: &str) -> (r: String)
    ensures
        r@ == {
            let a = append_text_spec(cur@, line@);
            if has_suffix(line@, seq!['\n']) {
                a
            } else {
                a + seq!['\n']
            }
        },
{
    let mut v = chars_of(cur);
    if v.len() > 0 && !ends_nl(&v) {
        v.push('\n');
    }
    let l = chars_of(line);
    extend_chars(&mut v, l.as_slice());
    if !ends_nl(&l) {
        v.push('\n');
    }
    string_of(v.as_slice())
}

/// A pending-list line that belongs to `slug` (an open box naming it).
pub open spec fn is_pending_of(line: Seq<char>, slug: Seq<char>) -> bool {
    contains(line, "- [ ]"@) && contains(line, slug + " "@)
}

/// The lines that are kept, in order.
pub open spec fn kept_lines(ls: Seq<Seq<char>>, slug: Seq<char>) -> Seq<Seq<char>>
    decreases ls.len(),
{
    if ls.len() == 0 {
        seq![]
    } else {
        let rest = kept_lines(ls.drop_last(), slug);
        if is_pending_of(ls.last(), slug) {
            rest
        } else {
            rest.push(ls.last())
        }
    }
}

/// The pending list without `slug`'s open entries.
pub open spec fn clear_pending_spec(t: Seq<char>, slug: Seq<char>) -> Seq<char> {
    join(kept_lines(lines(t), slug), seq!['\n']) + seq!['\n']
}

/// Drop `slug`'s open entries from the pending list (when it completes or
/// is frozen).
pub fn clear_pending_text(t: &str, slug: &str) -> (r: String)
    ensures
        r@ == clear_pending_spec(t@, slug@),
{
    let v = chars_of(t);
    let ls = lines_of(v.as_slice());
    let ghost gl = lines(t@);
    let boxp = chars_of("- [ ]");
    let mut key = chars_of(slug);
    key.push(' ');
    proof {
        reveal_strlit(" ");
    }
    assert(key@ =~= slug@ + " "@);
    let mut kept: Vec<Vec<char>> = Vec::new();
    let mut i: usize = 0;
    while i < ls.len()
        invariant
            i <= ls.len(),
            views(ls@) == gl,
            boxp@ == "- [ ]"@,
            key@ == slug@ + " "@,
            views(kept@) == kept_lines(gl.take(i as int), slug@),
        decreases ls.len() - i,
    {
        assert(ls@[i as int]@ == gl[i as int]);
        assert(gl.take(i + 1).drop_last() =~= gl.take(i as int));
        let drop = contains_chars(ls[i].as_slice(), boxp.as_slice()) && contains_chars(
            ls[i].as_slice(),
            key.as_slice(),
        );
        if !drop {
            let c = sub_chars(ls[i].as_slice(), 0, ls[i].len());
            assert(c@ =~= gl[i as int]);
            let ghost before = views(kept@);
            kept.push(c);
            assert(views(kept@) =~= before.push(gl[i as int]));
        }
        i += 1;
    }
    assert(gl.take(ls.len() as int) =~= gl);
    let nl = chars_of("\n");
    proof {
        reveal_strlit("\n");
    }
    assert(nl@ =~= seq!['\n']);
    let mut out = join_chars(&kept, nl.as_slice());
    out.push('\n');
    string_of(out.as_slice())
}

/// A pitfall entry: the text, then the date and the actor in a comment.
pub open spec fn pitfall_line_spec(text: Seq<char>, today: Seq<char>, actor: Seq<char>) -> Seq<char> {
    "- "@ + text + "  <!-- "@ + today + " · "@ + actor + " -->"@
}

pub fn pitfall_line(text: &str, today: &str, actor: &str) -> (r: String)
    ensures
        r@ == pitfall_line_spec(text@, today@, actor@),
{
    let mut v: Vec<char> = Vec::new();
    extend_str(&mut v, "- ");
    extend_str(&mut v, text);
    extend_str(&mut v, "  <!-- ");
    extend_str(&mut v, today);
    extend_str(&mut v, " · ");
    extend_str(&mut v, actor);
    extend_str(&mut v, " -->");
    string_of(v.as_slice())
}

/// The commit summary of a pitfall entry.
pub fn pitfall_summary(global: bool, project: &str, text: &str) -> (r: String)
    ensures
        r@ == "pitfall("@ + (if global {
            "global"@
        } else {
            project@
        }) + "): "@ + truncate_spec(text@, 40),
{
    let mut v: Vec<char> = Vec::new();
    extend_str(&mut v, "pitfall(");
    if global {
        extend_str(&mut v, "global");
    } else {
        extend_str(&mut v, project);
    }
    extend_str(&mut v, "): ");
    let t = truncate(text, 40);
    extend_str(&mut v, t.as_str());
    string_of(v.as_slice())
}

/// The notice board's header (written on `init` and when it is cleared).
pub fn notice_header() -> (r: &'static str)
    ensures
        r@ == "# Athena · 全局通知（广播板）\n\n<!-- 单一全局信道：一次写入、各项目 `athena context`/`validate` 顶部可见。\n     非工单系统——不追踪逐项目已读（§3 否决、§13.6 不预支复杂度）。\n     一行一条：- <时间> · <提醒>  ；处理完用 `athena notify --clear` 或手动删行清理。 -->\n\n"@,
{
    "# Athena · 全局通知（广播板）\n\n<!-- 单一全局信道：一次写入、各项目 `athena context`/`validate` 顶部可见。\n     非工单系统——不追踪逐项目已读（§3 否决、§13.6 不预支复杂度）。\n     一行一条：- <时间> · <提醒>  ；处理完用 `athena notify --clear` 或手动删行清理。 -->\n\n"
}

/// A notice needs text that is not blank; it is kept trimmed.
pub fn notice_text(text: Option<&str>) -> (r: Result<String, Error>)
    ensures
        r is Ok <==> (text matches Some(t) && trim(t@).len() > 0),
        r matches Ok(t) ==> t@ == trim(text->0@),
        r matches Err(e) ==> (e matches Error::Conflict { message } && message@
            == "需要通知文本，或用 `athena notify --clear` 清空广播板"@),
{
    match text {
        Some(t) => {
            let v = chars_of(t);
            let tt = trim_chars(v.as_slice());
            if tt.len() > 0 {
                return Ok(string_of(tt.as_slice()));
            }
        },
        None => {},
    }
    Err(Error::Conflict { message: "需要通知文本，或用 `athena notify --clear` 清空广播板".to_string() })
}

pub open spec fn notice_line_spec(now: Seq<char>, text: Seq<char>, actor: Seq<char>) -> Seq<char> {
    "- "@ + now + " · "@ + text + "  <!-- "@ + actor + " -->"@
}

/// A notice entry: time, text and the actor in a comment.
pub fn notice_line(now: &str, text: &str, actor: &str) -> (r: String)
    ensures
        r@ == notice_line_spec(now@, text@, actor@),
{
    let mut v: Vec<char> = Vec::new();
    extend_str(&mut v, "- ");
    extend_str(&mut v, now);
    extend_str(&mut v, " · ");
    extend_str(&mut v, text);
    extend_str(&mut v, "  <!-- ");
    extend_str(&mut v, actor);
    extend_str(&mut v, " -->");
    string_of(v.as_slice())
}

/// The commit summary of a notice.
pub fn notice_summary(text: &str) -> (r: String)
    ensures
        r@ == "notify: "@ + truncate_spec(text@, 40),
{
    let mut v: Vec<char> = Vec::new();
    extend_str(&mut v, "notify: ");
    let t = truncate(text, 40);
    extend_str(&mut v, t.as_str());
    string_of(v.as_slice())
}

/// The skeleton a new term adds to `terms.local.toml`.
pub open spec fn term_block_spec(slug: Seq<char>, origin: Option<Seq<char>>) -> Seq<char> {
    "\n[term."@ + slug + "]\nslug = \""@ + slug + "\"\n"@ + (match origin {
        Some(o) => "origin = \""@ + o + "\"\n"@,
        None => seq![],
    }) + "synonyms = []\nrequire_fields = []\ndefinition = \"\"\n"@
}

/// `term new`: refuse a slug that already has a `[term.<slug>]` table,
/// else append the skeleton (after a final newline).
pub fn term_skeleton(raw: &str, slug: &str, origin: Option<&str>) -> (r: Result<String, Error>)
    ensures
        r is Ok <==> !contains(raw@, "[term."@ + slug@ + "]"@),
        r matches Ok(t) ==> t@ == (if has_suffix(raw@, seq!['\n']) {
            raw@
        } else {
            raw@ + seq!['\n']
        }) + term_block_spec(slug@, match origin {
            Some(o) => Some(o@),
            None => None,
        }),
        r matches Err(e) ==> (e matches Error::Slug { slug: s, message } && s@ == slug@ && message@
            == "术语已存在"@),
{
    let v = chars_of(raw);
    let mut key: Vec<char> = Vec::new();
    extend_str(&mut key, "[term.");
    extend_str(&mut key, slug);
    extend_str(&mut key, "]");
    if contains_chars(v.as_slice(), key.as_slice()) {
        return Err(Error::Slug { slug: slug.to_string(), message: "术语已存在".to_string() });
    }
    let mut out = v;
    if !ends_nl(&out) {
        out.push('\n');
    }
    extend_str(&mut out, "\n[term.");
    extend_str(&mut out, slug);
    extend_str(&mut out, "]\nslug = \"");
    extend_str(&mut out, slug);
    extend_str(&mut out, "\"\n");
    match origin {
        Some(o) => {
            extend_str(&mut out, "origin = \"");
            extend_str(&mut out, o);
            extend_str(&mut out, "\"\n");
        },
        None => {},
    }
    extend_str(&mut out, "synonyms = []\nrequire_fields = []\ndefinition = \"\"\n");
    Ok(string_of(out.as_slice()))
}

/// The human-readable section a new term adds to `terms.md`.
pub fn term_md_section(slug: &str) -> (r: String)
    ensures
        r@ == "\n## "@ + slug@ + "\n<!-- 定义与边界，AI 读。 -->\n"@,
{
    let mut v: Vec<char> = Vec::new();
    extend_str(&mut v, "\n## ");
    extend_str(&mut v, slug);
    extend_str(&mut v, "\n<!-- 定义与边界，AI 读。 -->\n");
    string_of(v.as_slice())
}

/// A term as `term list` shows it: its key, then its synonyms if it has any.
pub fn term_list_line(slug: &str, synonyms: &Vec<String>) -> (r: String)
    ensures
        r@ == "  "@ + slug@ + if synonyms@.len() == 0 {
            Seq::<char>::empty()
        } else {
            "  ~ "@ + join(synonyms@.map_values(|s: String| s@), ", "@)
        },
{
    let mut v: Vec<char> = Vec::new();
    extend_str(&mut v, "  ");
    extend_str(&mut v, slug);
    if synonyms.len() > 0 {
        extend_str(&mut v, "  ~ ");
        let mut parts: Vec<Vec<char>> = Vec::new();
        let mut i: usize = 0;
        while i < synonyms.len()
            invariant
                i <= synonyms@.len(),
                views(parts@) == synonyms@.map_values(|s: String| s@).take(i as int),
            decreases synonyms.len() - i,
        {
            let ghost before = views(parts@);
            parts.push(chars_of(synonyms[i].as_str()));
            assert(views(parts@) =~= before.push(synonyms@[i as int]@));
            assert(synonyms@.map_values(|s: String| s@).take(i + 1) =~= synonyms@.map_values(
                |s: String| s@,
            ).take(i as int).push(synonyms@[i as int]@));
            i += 1;
        }
        assert(synonyms@.map_values(|s: String| s@).take(synonyms@.len() as int) =~= synonyms@.map_values(
            |s: String| s@,
        ));
        let sep = chars_of(", ");
        let joined = join_chars(&parts, sep.as_slice());
        extend_chars(&mut v, joined.as_slice());
    }
    string_of(v.as_slice())
}

// ---------------------------------------------------------------------------
// init
// ---------------------------------------------------------------------------

/// What `init` commits, relative to the state root: the shared files it may
/// have created, the templates and the project's own directory; nothing of
/// any other project.
pub fn init_commit_paths(store: &Store, project: &str) -> (r: Vec<String>)
    ensures
        r@.map_values(|s: String| s@) == seq![
            srel_spec(store.root@, join_spec(store.root@, "config.toml"@)),
            srel_spec(store.root@, join_spec(store.root@, "terms.md"@)),
            srel_spec(store.root@, join_spec(store.root@, "terms.local.toml"@)),
            srel_spec(store.root@, join_spec(store.root@, "pitfalls/global.md"@)),
            srel_spec(store.root@, join_spec(store.root@, "notices.md"@)),
            srel_spec(store.root@, join_spec(store.root@, "templates"@)),
            srel_spec(store.root@, store.project_dir_spec(project@)),
        ],
{
    let mut r: Vec<String> = Vec::new();
    r.push(srel(store, store.config_toml().as_str()));
    r.push(srel(store, store.terms_md().as_str()));
    r.push(srel(store, store.terms_toml().as_str()));
    r.push(srel(store, store.global_pitfalls().as_str()));
    r.push(srel(store, store.notices_md().as_str()));
    r.push(srel(store, store.templates_dir().as_str()));
    r.push(srel(store, store.project_dir(project).as_str()));
    assert(r@.map_values(|s: String| s@) =~= seq![
        srel_spec(store.root@, join_spec(store.root@, "config.toml"@)),
        srel_spec(store.root@, join_spec(store.root@, "terms.md"@)),
        srel_spec(store.root@, join_spec(store.root@, "terms.local.toml"@)),
        srel_spec(store.root@, join_spec(store.root@, "pitfalls/global.md"@)),
        srel_spec(store.root@, join_spec(store.root@, "notices.md"@)),
        srel_spec(store.root@, join_spec(store.root@, "templates"@)),
        srel_spec(store.root@, store.project_dir_spec(project@)),
    ]);
    r
}

/// Whether `init` writes the entry file: when it is absent (unless told not
/// to touch it), never when it already has the rendered content or when told
/// not to touch it, over different content only with `force`; otherwise the
/// whole `init` is refused before anything is created.
pub fn entry_decision(
    existing: Option<&str>,
    rendered: &str,
    force: bool,
    no_agents: bool,
    target: &str,
) -> (r: Result<bool, Error>)
    ensures
        existing is None ==> r == Ok::<bool, Error>(!no_agents),
        existing matches Some(cur) && cur@ == rendered@ ==> r == Ok::<bool, Error>(false),
        existing matches Some(cur) && cur@ != rendered@ && no_agents ==> r == Ok::<bool, Error>(false),
        existing matches Some(cur) && cur@ != rendered@ && !no_agents && force ==> r == Ok::<bool, Error>(true),
        existing matches Some(cur) && cur@ != rendered@ && !no_agents && !force ==> (r matches Err(
            Error::Conflict { message },
        ) && message@ == "`"@ + target@
            + "` 已存在且与 Athena 模板不同，拒绝覆盖。\n= 想覆盖并初始化：加 `--force`；只建状态骨架、不碰该文件：加 `--no-agents`。\n= 本次未创建任何状态、未改动任何文件（§1.1：接口可进仓库，但不静默改用户仓库）。"@),
{
    match existing {
        None => Ok(!no_agents),
        Some(cur) => {
            let a = chars_of(cur);
            let b = chars_of(rendered);
            if chars_eq(a.as_slice(), b.as_slice()) {
                Ok(false)
            } else if no_agents {
                Ok(false)
            } else if force {
                Ok(true)
            } else {
                let mut m: Vec<char> = Vec::new();
                extend_str(&mut m, "`");
                extend_str(&mut m, target);
                extend_str(
                    &mut m,
                    "` 已存在且与 Athena 模板不同，拒绝覆盖。\n= 想覆盖并初始化：加 `--force`；只建状态骨架、不碰该文件：加 `--no-agents`。\n= 本次未创建任何状态、未改动任何文件（§1.1：接口可进仓库，但不静默改用户仓库）。",
                );
                Err(Error::Conflict { message: string_of(m.as_slice()) })
            }
        },
    }
}

/// A new project's `meta.md`.
pub fn project_meta(project: &str, version: &str) -> (r: String)
    ensures
        r@ == "---\nproject: "@ + project@ + "\nathena-version: "@ + version@ + "\n---\n\n# "@
            + project@ + "\n\n<!-- 项目是什么。AI/人可直接编辑（§1.1）。 -->\n"@,
{
    let mut v: Vec<char> = Vec::new();
    extend_str(&mut v, "---\nproject: ");
    extend_str(&mut v, project);
    extend_str(&mut v, "\nathena-version: ");
    extend_str(&mut v, version);
    extend_str(&mut v, "\n---\n\n# ");
    extend_str(&mut v, project);
    extend_str(&mut v, "\n\n<!-- 项目是什么。AI/人可直接编辑（§1.1）。 -->\n");
    string_of(v.as_slice())
}

/// A new project's pitfall list.
pub fn project_pitfalls_text(project: &str) -> (r: String)
    ensures
        r@ == "# "@ + project@ + " · 项目级被坑\n\n- （每条对应一次真实踩坑）\n"@,
{
    let mut v: Vec<char> = Vec::new();
    extend_str(&mut v, "# ");
    extend_str(&mut v, project);
    extend_str(&mut v, " · 项目级被坑\n\n- （每条对应一次真实踩坑）\n");
    string_of(v.as_slice())
}

/// The global pitfall list a fresh state root starts with.
pub fn global_pitfalls_text() -> (r: &'static str)
    ensures
        r@ == "# 全局被坑（跨项目通用）\n\n- 原理可行 ≠ 原理已被实证；没跑反证实验的提案不离开池（§5.1a）。\n- 在 Niri 上靠平台 API 定位自己：空值 + 恒返回 (0,0)，success 为真（fidus 教训，§5.1b）。\n- AI 声称完成但没跑测试 → 必须实测结果才能 complete。\n"@,
{
    "# 全局被坑（跨项目通用）\n\n- 原理可行 ≠ 原理已被实证；没跑反证实验的提案不离开池（§5.1a）。\n- 在 Niri 上靠平台 API 定位自己：空值 + 恒返回 (0,0)，success 为真（fidus 教训，§5.1b）。\n- AI 声称完成但没跑测试 → 必须实测结果才能 complete。\n"
}

// ---------------------------------------------------------------------------
// new
// ---------------------------------------------------------------------------

/// `new` keeps slugs unique within a project: an item of the same slug that
/// is not finished refuses it; a finished one only warns (the flag).
pub fn check_new_slug(existing: Option<&Item>, slug: &str) -> (r: Result<bool, Error>)
    ensures
        existing is None ==> r == Ok::<bool, Error>(false),
        existing matches Some(it) && it.status@ == "finished"@ ==> r == Ok::<bool, Error>(true),
        existing matches Some(it) && it.status@ != "finished"@ ==> (r matches Err(Error::Slug { slug: s, message })
            && s@ == slug@ && message@ == "已存在于 "@ + existing->0.status@ + "（"@ + existing->0.doc.fm.kind.name()
            + "），项目内必须唯一"@),
{
    match existing {
        None => Ok(false),
        Some(it) => {
            let st = chars_of(it.status);
            let fin = chars_of("finished");
            if chars_eq(st.as_slice(), fin.as_slice()) {
                return Ok(true);
            }
            let mut m: Vec<char> = Vec::new();
            extend_str(&mut m, "已存在于 ");
            extend_str(&mut m, it.status);
            extend_str(&mut m, "（");
            extend_str(&mut m, it.doc.fm.kind.as_str());
            extend_str(&mut m, "），项目内必须唯一");
            Err(Error::Slug { slug: slug.to_string(), message: string_of(m.as_slice()) })
        },
    }
}

// ---------------------------------------------------------------------------
// reporting
// ---------------------------------------------------------------------------

/// How a finding is printed: `  <tag> [<code>] <message>`.
pub fn finding_line(f: &Finding) -> (r: String)
    ensures
        r@ == "  "@ + f.level.tag_spec() + " ["@ + f.code@ + "] "@ + f.message@,
{
    let mut v: Vec<char> = Vec::new();
    extend_str(&mut v, "  ");
    extend_str(&mut v, f.level.tag());
    extend_str(&mut v, " [");
    extend_str(&mut v, f.code);
    extend_str(&mut v, "] ");
    extend_str(&mut v, f.message.as_str());
    string_of(v.as_slice())
}

/// How an item file that does not parse is reported (always an error).
pub fn unparseable_line(reason: &str) -> (r: String)
    ensures
        r@ == "  "@ + Level::Error.tag_spec()
            + " [Unparseable] 无法解析，已从 context/list_items 隐身，请补全 frontmatter："@ + reason@,
{
    let mut v: Vec<char> = Vec::new();
    extend_str(&mut v, "  ");
    extend_str(&mut v, Level::Error.tag());
    extend_str(&mut v, " [Unparseable] 无法解析，已从 context/list_items 隐身，请补全 frontmatter：");
    extend_str(&mut v, reason);
    string_of(v.as_slice())
}

/// The number of findings over all items.
pub open spec fn total_findings(fs: Seq<Vec<Finding>>) -> nat
    decreases fs.len(),
{
    if fs.len() == 0 {
        0
    } else {
        total_findings(fs.drop_last()) + fs.last()@.len()
    }
}

/// Some item has an `Error` finding.
pub open spec fn has_error_finding(fs: Seq<Vec<Finding>>) -> bool {
    exists|i: int, j: int| 0 <= i < fs.len() && 0 <= j < fs[i]@.len() && #[trigger] fs[i]@[j].level
        == Level::Error
}

/// The verdict of `validate`: the number of notes (findings plus files that
/// do not parse), and whether the state is consistent — no `Error` finding
/// and no unparseable file.
pub fn validation_verdict(item_findings: &Vec<Vec<Finding>>, unparseable: usize) -> (r: (usize, bool))
    requires
        total_findings(item_findings@) + unparseable <= usize::MAX,
    ensures
        r.0 == total_findings(item_findings@) + unparseable,
        r.1 == (!has_error_finding(item_findings@) && unparseable == 0),
{
    let mut total: usize = 0;
    let mut has_error = false;
    let mut i: usize = 0;
    while i < item_findings.len()
        invariant
            i <= item_findings.len(),
            total == total_findings(item_findings@.take(i as int)),
            total_findings(item_findings@) + unparseable <= usize::MAX,
            has_error == has_error_finding(item_findings@.take(i as int)),
        decreases item_findings.len() - i,
    {
        proof {
            assert(item_findings@.take(i + 1).drop_last() =~= item_findings@.take(i as int));
            lemma_total_prefix(item_findings@, i + 1);
        }
        let fs = &item_findings[i];
        let mut j: usize = 0;
        let mut here = false;
        while j < fs.len()
            invariant
                j <= fs.len(),
                here == exists|q: int| 0 <= q < j && fs@[q].level == Level::Error,
            decreases fs.len() - j,
        {
            if fs[j].level == Level::Error {
                here = true;
            }
            j += 1;
        }
        proof {
            let pre = item_findings@.take(i as int);
            let now = item_findings@.take(i + 1);
            assert(now[i as int] == item_findings@[i as int]);
            if has_error || here {
                if here {
                    let q = choose|q: int| 0 <= q < j && fs@[q].level == Level::Error;
                    assert(now[i as int]@[q].level == Level::Error);
                } else {
                    let (a, b) = choose|a: int, b: int| 0 <= a < pre.len() && 0 <= b < pre[a]@.len()
                        && #[trigger] pre[a]@[b].level == Level::Error;
                    assert(now[a]@[b].level == Level::Error);
                }
            } else {
                assert forall|a: int, b: int| 0 <= a < now.len() && 0 <= b < now[a]@.len() implies #[trigger] now[a]@[b].level
                    != Level::Error by {
                    if a < i {
                        assert(now[a] == pre[a]);
                    }
                }
            }
        }
        total = total + fs.len();
        has_error = has_error || here;
        i += 1;
    }
    assert(item_findings@.take(item_findings.len() as int) =~= item_findings@);
    (total + unparseable, !has_error && unparseable == 0)
}

proof fn lemma_total_prefix(fs: Seq<Vec<Finding>>, k: int)
    requires
        0 <= k <= fs.len(),
    ensures
        total_findings(fs.take(k)) <= total_findings(fs),
    decreases fs.len() - k,
{
    if k < fs.len() {
        lemma_total_prefix(fs, k + 1);
        assert(fs.take(k + 1).drop_last() =~= fs.take(k));
    } else {
        assert(fs.take(k) =~= fs);
    }
}

/// The closing line of `validate`.
pub fn validation_summary(total: usize) -> (r: String)
    ensures
        total == 0 ==> r@ == "✓ 无缺失项，状态库自洽。"@,
        total > 0 ==> r@ == "\n共 "@ + crate::textops::decimal(total as nat)
            + " 条提示。这是自检报告：由你（AI）决定补不补，工具不代改（§9.1）。"@,
{
    if total == 0 {
        return "✓ 无缺失项，状态库自洽。".to_string();
    }
    let mut v: Vec<char> = Vec::new();
    extend_str(&mut v, "\n共 ");
    let d = crate::textops::decimal_chars(total);
    extend_chars(&mut v, d.as_slice());
    extend_str(&mut v, " 条提示。这是自检报告：由你（AI）决定补不补，工具不代改（§9.1）。");
    string_of(v.as_slice())
}

} // verus!
