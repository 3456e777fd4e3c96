//! Validation rules: each checks one work item and reports findings.
use vstd::prelude::*;
use crate::document::{
    Document, body_has_heading, has_heading_spec, heading_level_chars, heading_level_spec,
    heading_matches_chars, heading_matches_spec,
};
use crate::path::{file_stem_chars, file_stem_spec};
use crate::term::{TermsRegistry, prune_require_fields_spec};
use crate::text::string_views;
use crate::text::{
    chars_eq, chars_of, contains, contains_chars, extend_chars, extend_str, has_suffix, join,
    join_chars, lemma_split_step, lines, lines_of, split_char, split_from, split_on, string_of,
    sub_chars, trim, trim_chars, views,
};

verus! {

broadcast use vstd::string::group_string_axioms;

#[derive(Debug, Clone, Copy, PartialEq, Eq, PartialOrd, Ord, Structural)]
pub enum Level {
    Info,
    Warn,
    Error,
}

impl Level {
    pub open spec fn tag_spec(self) -> Seq<char> {
        match self {
            Level::Info => "ℹ"@,
            Level::Warn => "⚠ 标红"@,
            Level::Error => "✖ 阻塞"@,
        }
    }

    /// The marker a finding of this level is printed with.
    pub fn tag(&self) -> (s: &'static str)
        ensures
            s@ == self.tag_spec(),
    {
        match self {
            Level::Info => "ℹ",
            Level::Warn => "⚠ 标红",
            Level::Error => "✖ 阻塞",
        }
    }
}

#[derive(Debug)]
pub struct Finding {
    pub level: Level,
    pub code: &'static str,
    pub message: String,
}

/// A finding as plain values.
pub struct FindingView {
    pub level: Level,
    pub code: Seq<char>,
    pub message: Seq<char>,
}

impl Finding {
    pub open spec fn view(self) -> FindingView {
        FindingView { level: self.level, code: self.code@, message: self.message@ }
    }
}

pub open spec fn finding_views(v: Seq<Finding>) -> Seq<FindingView> {
    v.map_values(|f: Finding| f.view())
}

/// What one validation looks at: a file, the status directory it actually
/// lies in (the truth), the terms and the effective falsification mode.
pub struct ValidationCtx<'a> {
    pub path: &'a str,
    pub doc: &'a Document,
    /// pool / working / finished / community.
    pub located_status: &'a str,
    pub terms: &'a TermsRegistry,
    /// `warn` or `block`.
    pub falsification_mode: &'a str,
}

// ---------------------------------------------------------------------------
// Sections and tables
// ---------------------------------------------------------------------------

/// The first line at or after `i` that is a heading matching `h`.
pub open spec fn first_heading_from(ls: Seq<Seq<char>>, h: Seq<char>, i: int) -> Option<int>
    decreases ls.len() - i,
{
    if i < 0 || i >= ls.len() {
        None
    } else if heading_matches_spec(ls[i], h) {
        Some(i)
    } else {
        first_heading_from(ls, h, i + 1)
    }
}

/// A line that closes a section of heading level `level`: a heading of the
/// same or a higher (smaller number) level.
pub open spec fn closes_section(l: Seq<char>, level: nat) -> bool {
    l.len() > 0 && l[0] == '#' && heading_level_spec(l) <= level
}

/// The first line at or after `j` that closes the section.
pub open spec fn section_end_from(ls: Seq<Seq<char>>, level: nat, j: int) -> int
    decreases ls.len() - j,
{
    if j < 0 || j >= ls.len() {
        ls.len() as int
    } else if closes_section(ls[j], level) {
        j
    } else {
        section_end_from(ls, level, j + 1)
    }
}

/// The body between the first heading matching `heading` and the next heading
/// of the same or a higher level, lines joined by `\n`.
pub open spec fn section_slice_spec(body: Seq<char>, heading: Seq<char>) -> Option<Seq<char>> {
    let ls = lines(body);
    match first_heading_from(ls, heading, 0) {
        Some(s) => {
            let e = section_end_from(ls, heading_level_spec(ls[s]), s + 1);
            Some(join(ls.subrange(s + 1, e), "\n"@))
        },
        None => None,
    }
}

pub open spec fn bar_pred() -> spec_fn(char) -> bool {
    |c: char| c == '|'
}

/// `str::trim_matches('|')`.
pub open spec fn trim_bars(t: Seq<char>) -> Seq<char> {
    let a = t.skip(crate::text::lead_len(t, bar_pred()) as int);
    a.take(a.len() - crate::text::trail_len(a, bar_pred()))
}

/// A separator row such as `|---|:--|`.
pub open spec fn is_rule_char(c: char) -> bool {
    c == '|' || c == '-' || c == ':' || c == ' '
}

pub open spec fn trimmed_cells(t: Seq<char>) -> Seq<Seq<char>> {
    split_char(trim_bars(t), '|').map_values(|c: Seq<char>| trim(c))
}

/// A table data row whose fourth cell (the result column) is filled; header
/// rows (a cell reading 假设 or 真实结果) and separator rows do not count.
pub open spec fn row_has_result(line: Seq<char>) -> bool {
    let t = trim(line);
    let cells = trimmed_cells(t);
    &&& t.len() > 0 && t[0] == '|'
    &&& !(forall|i: int| 0 <= i < t.len() ==> is_rule_char(#[trigger] t[i]))
    &&& cells.len() >= 4
    &&& !(exists|i: int| 0 <= i < cells.len() && (#[trigger] cells[i] == "假设"@ || cells[i] == "真实结果"@))
    &&& cells[3].len() > 0
}

/// Some row of the Markdown table in `section` carries a result.
pub open spec fn table_has_result_spec(section: Seq<char>) -> bool {
    exists|i: int| 0 <= i < lines(section).len() && row_has_result(lines(section)[i])
}

fn trim_bars_chars(t: &[char]) -> (r: Vec<char>)
    ensures
        r@ == trim_bars(t@),
{
    let mut i: usize = 0;
    while i < t.len() && t[i] == '|'
        invariant
            i <= t.len(),
            forall|j: int| 0 <= j < i ==> (bar_pred())(#[trigger] t@[j]),
        decreases t.len() - i,
    {
        i += 1;
    }
    proof {
        crate::text::lemma_lead_len(t@, bar_pred(), i as int);
    }
    let a = sub_chars(t, i, t.len());
    assert(a@ =~= t@.skip(i as int));
    let mut k: usize = 0;
    while k < a.len() && a[a.len() - 1 - k] == '|'
        invariant
            k <= a.len(),
            forall|j: int| a.len() - k <= j < a.len() ==> (bar_pred())(#[trigger] a@[j]),
        decreases a.len() - k,
    {
        k += 1;
    }
    proof {
        crate::text::lemma_trail_len(a@, bar_pred(), k as int);
    }
    let r = sub_chars(a.as_slice(), 0, a.len() - k);
    assert(r@ =~= a@.take(a.len() - k));
    r
}

/// Whether a table row carries a result in its fourth column.
#[verifier::loop_isolation(false)]
pub fn row_result(line: &[char]) -> (b: bool)
    ensures
        b == row_has_result(line@),
{
    let t = trim_chars(line);
    if !(t.len() > 0 && t[0] == '|') {
        return false;
    }
    let mut i: usize = 0;
    while i < t.len() && (t[i] == '|' || t[i] == '-' || t[i] == ':' || t[i] == ' ')
        invariant
            i <= t.len(),
            forall|j: int| 0 <= j < i ==> is_rule_char(#[trigger] t@[j]),
        decreases t.len() - i,
    {
        i += 1;
    }
    if i == t.len() {
        return false;
    }
    let inner = trim_bars_chars(t.as_slice());
    let pieces = split_on(inner.as_slice(), '|');
    let mut cells: Vec<Vec<char>> = Vec::new();
    let mut j: usize = 0;
    while j < pieces.len()
        invariant
            j <= pieces.len(),
            views(pieces@) == split_char(trim_bars(t@), '|'),
            views(cells@) == views(pieces@).take(j as int).map_values(|c: Seq<char>| trim(c)),
        decreases pieces.len() - j,
    {
        assert(views(pieces@)[j as int] == pieces@[j as int]@);
        let c = trim_chars(pieces[j].as_slice());
        let ghost before = views(cells@);
        cells.push(c);
        assert(views(cells@) =~= before.push(trim(views(pieces@)[j as int])));
        j += 1;
        assert(views(cells@) =~= views(pieces@).take(j as int).map_values(|c: Seq<char>| trim(c)));
    }
    assert(views(pieces@).take(pieces.len() as int) =~= views(pieces@));
    assert(views(cells@) == trimmed_cells(t@));
    if cells.len() < 4 {
        return false;
    }
    let h1 = chars_of("假设");
    let h2 = chars_of("真实结果");
    let mut m: usize = 0;
    while m < cells.len()
        invariant
            m <= cells.len(),
            h1@ == "假设"@,
            h2@ == "真实结果"@,
            views(cells@) == trimmed_cells(t@),
            forall|q: int| 0 <= q < m ==> !(#[trigger] trimmed_cells(t@)[q] == "假设"@ || trimmed_cells(t@)[q] == "真实结果"@),
        decreases cells.len() - m,
    {
        assert(cells@[m as int]@ == trimmed_cells(t@)[m as int]);
        if chars_eq(cells[m].as_slice(), h1.as_slice()) || chars_eq(cells[m].as_slice(), h2.as_slice()) {
            assert(trimmed_cells(t@)[m as int] == "假设"@ || trimmed_cells(t@)[m as int] == "真实结果"@);
            assert(exists|q: int|
                0 <= q < trimmed_cells(t@).len() && (#[trigger] trimmed_cells(t@)[q] == "假设"@
                    || trimmed_cells(t@)[q] == "真实结果"@));
            assert(!row_has_result(line@));
            return false;
        }
        m += 1;
    }
    assert(cells@[3]@ == trimmed_cells(t@)[3]);
    cells[3].len() > 0
}

/// Whether some row of a Markdown table in `section` has a non-empty
/// result column (the fourth).
pub fn table_has_result(section: &str) -> (b: bool)
    ensures
        b == table_has_result_spec(section@),
{
    let s = chars_of(section);
    let ls = lines_of(s.as_slice());
    let mut i: usize = 0;
    while i < ls.len()
        invariant
            i <= ls.len(),
            s@ == section@,
            views(ls@) == lines(section@),
            forall|j: int| 0 <= j < i ==> !row_has_result(#[trigger] lines(section@)[j]),
        decreases ls.len() - i,
    {
        assert(ls@[i as int]@ == lines(section@)[i as int]);
        if row_result(ls[i].as_slice()) {
            return true;
        }
        i += 1;
    }
    false
}

/// `section_slice` on characters.
pub fn section_slice_chars(body: &[char], heading: &[char]) -> (r: Option<Vec<char>>)
    ensures
        match r {
            Some(v) => section_slice_spec(body@, heading@) == Some(v@),
            None => section_slice_spec(body@, heading@) is None,
        },
{
    let ls = lines_of(body);
    let ghost gl = lines(body@);
    let mut i: usize = 0;
    while i < ls.len() && !heading_matches_chars(ls[i].as_slice(), heading)
        invariant
            i <= ls.len(),
            views(ls@) == gl,
            gl == lines(body@),
            first_heading_from(gl, heading@, 0) == first_heading_from(gl, heading@, i as int),
        decreases ls.len() - i,
    {
        assert(ls@[i as int]@ == gl[i as int]);
        i += 1;
    }
    if i == ls.len() {
        return None;
    }
    assert(ls@[i as int]@ == gl[i as int]);
    let level = heading_level_chars(ls[i].as_slice());
    let mut j: usize = i + 1;
    while j < ls.len() && !(ls[j].len() > 0 && ls[j][0] == '#' && heading_level_chars(
        ls[j].as_slice(),
    ) <= level)
        invariant
            i < j <= ls.len(),
            views(ls@) == gl,
            level == heading_level_spec(gl[i as int]),
            section_end_from(gl, level as nat, i + 1) == section_end_from(gl, level as nat, j as int),
        decreases ls.len() - j,
    {
        assert(ls@[j as int]@ == gl[j as int]);
        j += 1;
    }
    if j < ls.len() {
        assert(ls@[j as int]@ == gl[j as int]);
    }
    let mut part: Vec<Vec<char>> = Vec::new();
    let mut k: usize = i + 1;
    while k < j
        invariant
            i < k <= j <= ls.len(),
            views(ls@) == gl,
            views(part@) == gl.subrange(i + 1, k as int),
        decreases j - k,
    {
        assert(ls@[k as int]@ == gl[k as int]);
        let piece = sub_chars(ls[k].as_slice(), 0, ls[k].len());
        assert(piece@ =~= gl[k as int]);
        let ghost before = views(part@);
        part.push(piece);
        assert(views(part@) =~= before.push(gl[k as int]));
        k += 1;
        assert(views(part@) =~= gl.subrange(i + 1, k as int));
    }
    let nl = chars_of("\n");
    let r = join_chars(&part, nl.as_slice());
    Some(r)
}

/// The body between the heading matching `heading` and the next heading of
/// the same or a higher level.
pub fn section_slice(body: &str, heading: &str) -> (r: Option<String>)
    ensures
        match r {
            Some(v) => section_slice_spec(body@, heading@) == Some(v@),
            None => section_slice_spec(body@, heading@) is None,
        },
{
    let b = chars_of(body);
    let h = chars_of(heading);
    match section_slice_chars(b.as_slice(), h.as_slice()) {
        Some(v) => Some(string_of(v.as_slice())),
        None => None,
    }
}


// ---------------------------------------------------------------------------
// The rules
// ---------------------------------------------------------------------------

pub open spec fn fv(level: Level, code: Seq<char>, message: Seq<char>) -> FindingView {
    FindingView { level, code, message }
}

/// `slug` must equal the file name's stem, else addressing fails.
pub open spec fn slug_rule_spec(path: Seq<char>, slug: Seq<char>) -> Seq<FindingView> {
    let stem = match file_stem_spec(path) {
        Some(s) => s,
        None => seq![],
    };
    if stem != slug {
        seq![
            fv(
                Level::Error,
                "SlugMismatch"@,
                "slug `"@ + slug + "` 与文件名 `"@ + stem + "` 不一致，寻址会失败"@,
            ),
        ]
    } else {
        seq![]
    }
}

/// The frontmatter `status` should name the directory the file lies in.
pub open spec fn status_rule_spec(status: Seq<char>, located: Seq<char>) -> Seq<FindingView> {
    if status != located {
        seq![
            fv(
                Level::Warn,
                "StatusDrift"@,
                "frontmatter status=`"@ + status + "` 与所在目录 `"@ + located
                    + "` 不一致；真值是目录，请修正字段"@,
            ),
        ]
    } else {
        seq![]
    }
}

/// A `pending` falsification is registered: a `### 待测` block or a
/// `[pending]` marker in the body, or the frontmatter marker.
pub open spec fn pending_spec(body: Seq<char>, falsification: Option<Seq<char>>) -> bool {
    contains(body, "### 待测"@) || contains(body, "[pending]"@) || falsification == Some(
        "pending"@,
    )
}

/// The falsification record: missing or without evidence reports at
/// `warn` (or `block` → error) level; pending items in `working` get a note.
pub open spec fn falsification_rule_spec(
    body: Seq<char>,
    falsification: Option<Seq<char>>,
    located: Seq<char>,
    mode: Seq<char>,
) -> Seq<FindingView> {
    let level = if mode == "block"@ {
        Level::Error
    } else {
        Level::Warn
    };
    if located == "finished"@ || located == "community"@ {
        seq![]
    } else if !has_heading_spec(body, "反证实验"@) {
        seq![
            fv(
                level,
                "MissingFalsificationRecord"@,
                "缺 `## 反证实验` 章节（写出来即可，或 promote --skip-falsification 登记待测）"@,
            ),
        ]
    } else {
        let section = match section_slice_spec(body, "反证实验"@) {
            Some(x) => x,
            None => seq![],
        };
        let pending = pending_spec(body, falsification);
        if !pending && !table_has_result_spec(section) {
            seq![
                fv(
                    level,
                    "FalsificationNoEvidence"@,
                    "`反证实验` 章节既无真实结果、也无 `### 待测`/具象跳过理由 → 仍是猜想"@,
                ),
            ]
        } else if pending && located == "working"@ {
            seq![
                fv(
                    Level::Info,
                    "PendingVerification"@,
                    "存在 `pending` 待测项：complete 前必须实际执行并填真实结果"@,
                ),
            ]
        } else {
            seq![]
        }
    }
}

/// One warning per required section (from the terms) that the body lacks.
pub open spec fn missing_sections(body: Seq<char>, fields: Seq<Seq<char>>) -> Seq<FindingView>
    decreases fields.len(),
{
    if fields.len() == 0 {
        seq![]
    } else {
        let rest = missing_sections(body, fields.drop_last());
        let h = fields.last();
        if !has_heading_spec(body, h) {
            rest.push(
                fv(
                    Level::Warn,
                    "MissingPruneSection"@,
                    "缺剪枝章节 `"@ + h + "`（术语驱动，改 terms.local.toml 即改规则）"@,
                ),
            )
        } else {
            rest
        }
    }
}

/// Term-driven required sections, only on items still being advanced.
pub open spec fn required_fields_spec(
    body: Seq<char>,
    fields: Seq<Seq<char>>,
    located: Seq<char>,
) -> Seq<FindingView> {
    if located == "finished"@ || located == "community"@ {
        seq![]
    } else {
        missing_sections(body, fields)
    }
}

pub open spec fn opt_view(o: Option<String>) -> Option<Seq<char>> {
    match o {
        Some(s) => Some(s@),
        None => None,
    }
}

/// All findings for one item, rules in registry order.
pub open spec fn check_item_spec(
    path: Seq<char>,
    doc: Document,
    located: Seq<char>,
    terms: TermsRegistry,
    mode: Seq<char>,
) -> Seq<FindingView> {
    slug_rule_spec(path, doc.fm.slug@) + status_rule_spec(doc.fm.status@, located)
        + falsification_rule_spec(doc.body@, opt_view(doc.fm.falsification), located, mode)
        + required_fields_spec(doc.body@, prune_require_fields_spec(terms.terms@), located)
}

fn one(level: Level, code: &'static str, msg: Vec<char>) -> (r: Vec<Finding>)
    ensures
        finding_views(r@) == seq![fv(level, code@, msg@)],
{
    let mut r: Vec<Finding> = Vec::new();
    r.push(Finding { level, code, message: string_of(msg.as_slice()) });
    assert(finding_views(r@) =~= seq![fv(level, code@, msg@)]);
    r
}

fn str_is(s: &str, lit: &str) -> (b: bool)
    ensures
        b == (s@ == lit@),
{
    let a = chars_of(s);
    let l = chars_of(lit);
    chars_eq(a.as_slice(), l.as_slice())
}

/// The rules, in the order in which they run.
#[derive(Debug, Clone, Copy, PartialEq, Eq, Structural)]
pub enum RuleKind {
    SlugMatchesFile,
    StatusLocation,
    FalsificationRecorded,
    RequiredFields,
}

/// The registered rules (adding a rule = a variant plus one line here).
pub fn registry() -> (r: Vec<RuleKind>)
    ensures
        r@ == seq![
            RuleKind::SlugMatchesFile,
            RuleKind::StatusLocation,
            RuleKind::FalsificationRecorded,
            RuleKind::RequiredFields,
        ],
{
    let mut r: Vec<RuleKind> = Vec::new();
    r.push(RuleKind::SlugMatchesFile);
    r.push(RuleKind::StatusLocation);
    r.push(RuleKind::FalsificationRecorded);
    r.push(RuleKind::RequiredFields);
    assert(r@ =~= seq![
        RuleKind::SlugMatchesFile,
        RuleKind::StatusLocation,
        RuleKind::FalsificationRecorded,
        RuleKind::RequiredFields,
    ]);
    r
}

impl RuleKind {
    pub open spec fn check_spec(self, ctx: &ValidationCtx) -> Seq<FindingView> {
        match self {
            RuleKind::SlugMatchesFile => slug_rule_spec(ctx.path@, ctx.doc.fm.slug@),
            RuleKind::StatusLocation => status_rule_spec(ctx.doc.fm.status@, ctx.located_status@),
            RuleKind::FalsificationRecorded => falsification_rule_spec(
                ctx.doc.body@,
                opt_view(ctx.doc.fm.falsification),
                ctx.located_status@,
                ctx.falsification_mode@,
            ),
            RuleKind::RequiredFields => required_fields_spec(
                ctx.doc.body@,
                prune_require_fields_spec(ctx.terms.terms@),
                ctx.located_status@,
            ),
        }
    }

    pub fn id(&self) -> (s: &'static str)
        ensures
            s@ == match self {
                RuleKind::SlugMatchesFile => "slug_matches_file"@,
                RuleKind::StatusLocation => "status_location"@,
                RuleKind::FalsificationRecorded => "falsification_recorded"@,
                RuleKind::RequiredFields => "required_fields"@,
            },
    {
        match self {
            RuleKind::SlugMatchesFile => "slug_matches_file",
            RuleKind::StatusLocation => "status_location",
            RuleKind::FalsificationRecorded => "falsification_recorded",
            RuleKind::RequiredFields => "required_fields",
        }
    }

    pub fn check(&self, ctx: &ValidationCtx) -> (r: Vec<Finding>)
        ensures
            finding_views(r@) == self.check_spec(ctx),
    {
        match self {
            RuleKind::SlugMatchesFile => check_slug(ctx),
            RuleKind::StatusLocation => check_status(ctx),
            RuleKind::FalsificationRecorded => check_falsification(ctx),
            RuleKind::RequiredFields => check_required_fields(ctx),
        }
    }
}

fn check_slug(ctx: &ValidationCtx) -> (r: Vec<Finding>)
    ensures
        finding_views(r@) == slug_rule_spec(ctx.path@, ctx.doc.fm.slug@),
{
    let p = chars_of(ctx.path);
    let stem = match file_stem_chars(p.as_slice()) {
        Some(s) => s,
        None => Vec::new(),
    };
    let slug = chars_of(ctx.doc.fm.slug.as_str());
    if !chars_eq(stem.as_slice(), slug.as_slice()) {
        let mut m: Vec<char> = Vec::new();
        extend_str(&mut m, "slug `");
        extend_chars(&mut m, slug.as_slice());
        extend_str(&mut m, "` 与文件名 `");
        extend_chars(&mut m, stem.as_slice());
        extend_str(&mut m, "` 不一致，寻址会失败");
        one(Level::Error, "SlugMismatch", m)
    } else {
        Vec::new()
    }
}

fn check_status(ctx: &ValidationCtx) -> (r: Vec<Finding>)
    ensures
        finding_views(r@) == status_rule_spec(ctx.doc.fm.status@, ctx.located_status@),
{
    if !str_is(ctx.doc.fm.status.as_str(), ctx.located_status) {
        let mut m: Vec<char> = Vec::new();
        extend_str(&mut m, "frontmatter status=`");
        extend_str(&mut m, ctx.doc.fm.status.as_str());
        extend_str(&mut m, "` 与所在目录 `");
        extend_str(&mut m, ctx.located_status);
        extend_str(&mut m, "` 不一致；真值是目录，请修正字段");
        one(Level::Warn, "StatusDrift", m)
    } else {
        Vec::new()
    }
}

/// Whether a `pending` falsification is registered on the document.
pub fn has_pending(doc: &Document) -> (b: bool)
    ensures
        b == pending_spec(doc.body@, opt_view(doc.fm.falsification)),
{
    let body = chars_of(doc.body.as_str());
    let p1 = chars_of("### 待测");
    let p2 = chars_of("[pending]");
    let by_flag = match &doc.fm.falsification {
        Some(f) => str_is(f.as_str(), "pending"),
        None => false,
    };
    contains_chars(body.as_slice(), p1.as_slice()) || contains_chars(body.as_slice(), p2.as_slice())
        || by_flag
}

fn check_falsification(ctx: &ValidationCtx) -> (r: Vec<Finding>)
    ensures
        finding_views(r@) == falsification_rule_spec(
            ctx.doc.body@,
            opt_view(ctx.doc.fm.falsification),
            ctx.located_status@,
            ctx.falsification_mode@,
        ),
{
    if str_is(ctx.located_status, "finished") || str_is(ctx.located_status, "community") {
        return Vec::new();
    }
    let level = if str_is(ctx.falsification_mode, "block") {
        Level::Error
    } else {
        Level::Warn
    };
    let body = chars_of(ctx.doc.body.as_str());
    let h = chars_of("反证实验");
    if !body_has_heading(body.as_slice(), h.as_slice()) {
        let mut m: Vec<char> = Vec::new();
        extend_str(&mut m, "缺 `## 反证实验` 章节（写出来即可，或 promote --skip-falsification 登记待测）");
        return one(level, "MissingFalsificationRecord", m);
    }
    let section = match section_slice_chars(body.as_slice(), h.as_slice()) {
        Some(x) => x,
        None => Vec::new(),
    };
    let pending = has_pending(ctx.doc);
    let sec = string_of(section.as_slice());
    let has_result = table_has_result(sec.as_str());
    if !pending && !has_result {
        let mut m: Vec<char> = Vec::new();
        extend_str(&mut m, "`反证实验` 章节既无真实结果、也无 `### 待测`/具象跳过理由 → 仍是猜想");
        return one(level, "FalsificationNoEvidence", m);
    }
    if pending && str_is(ctx.located_status, "working") {
        let mut m: Vec<char> = Vec::new();
        extend_str(&mut m, "存在 `pending` 待测项：complete 前必须实际执行并填真实结果");
        return one(Level::Info, "PendingVerification", m);
    }
    Vec::new()
}

fn check_required_fields(ctx: &ValidationCtx) -> (r: Vec<Finding>)
    ensures
        finding_views(r@) == required_fields_spec(
            ctx.doc.body@,
            prune_require_fields_spec(ctx.terms.terms@),
            ctx.located_status@,
        ),
{
    if str_is(ctx.located_status, "finished") || str_is(ctx.located_status, "community") {
        return Vec::new();
    }
    let fields = ctx.terms.prune_require_fields();
    let ghost fs = string_views(fields@);
    let body = chars_of(ctx.doc.body.as_str());
    let mut out: Vec<Finding> = Vec::new();
    let mut i: usize = 0;
    while i < fields.len()
        invariant
            i <= fields.len(),
            fs == string_views(fields@),
            body@ == ctx.doc.body@,
            finding_views(out@) == missing_sections(body@, fs.take(i as int)),
        decreases fields.len() - i,
    {
        let h = chars_of(fields[i].as_str());
        assert(fs.take(i + 1).drop_last() =~= fs.take(i as int));
        assert(fs.take(i + 1).last() == h@);
        if !body_has_heading(body.as_slice(), h.as_slice()) {
            let mut m: Vec<char> = Vec::new();
            extend_str(&mut m, "缺剪枝章节 `");
            extend_chars(&mut m, h.as_slice());
            extend_str(&mut m, "`（术语驱动，改 terms.local.toml 即改规则）");
            let ghost before = finding_views(out@);
            out.push(Finding { level: Level::Warn, code: "MissingPruneSection", message: string_of(m.as_slice()) });
            assert(finding_views(out@) =~= before.push(fv(Level::Warn, "MissingPruneSection"@, m@)));
        }
        i += 1;
    }
    assert(fs.take(fields.len() as int) =~= fs);
    out
}

/// Run every registered rule on one item and collect the findings.
pub fn check_item(
    path: &str,
    doc: &Document,
    located: &str,
    terms: &TermsRegistry,
    mode: &str,
) -> (r: Vec<Finding>)
    ensures
        finding_views(r@) == check_item_spec(path@, *doc, located@, *terms, mode@),
{
    let ctx = ValidationCtx {
        path,
        doc,
        located_status: located,
        terms,
        falsification_mode: mode,
    };
    let rules = registry();
    let mut out: Vec<Finding> = Vec::new();
    let mut i: usize = 0;
    while i < rules.len()
        invariant
            i <= rules.len(),
            rules@ == seq![
                RuleKind::SlugMatchesFile,
                RuleKind::StatusLocation,
                RuleKind::FalsificationRecorded,
                RuleKind::RequiredFields,
            ],
            ctx.path == path,
            ctx.doc == doc,
            ctx.located_status == located,
            ctx.terms == terms,
            ctx.falsification_mode == mode,
            finding_views(out@) == (if i == 0 {
                seq![]
            } else if i == 1 {
                rules@[0].check_spec(&ctx)
            } else if i == 2 {
                rules@[0].check_spec(&ctx) + rules@[1].check_spec(&ctx)
            } else if i == 3 {
                rules@[0].check_spec(&ctx) + rules@[1].check_spec(&ctx) + rules@[2].check_spec(&ctx)
            } else {
                rules@[0].check_spec(&ctx) + rules@[1].check_spec(&ctx) + rules@[2].check_spec(&ctx)
                    + rules@[3].check_spec(&ctx)
            }),
        decreases rules.len() - i,
    {
        let mut found = rules[i].check(&ctx);
        let ghost before = finding_views(out@);
        let ghost add = finding_views(found@);
        out.append(&mut found);
        assert(finding_views(out@) =~= before + add);
        i += 1;
    }
    out
}
} // verus!
