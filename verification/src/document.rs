//! Work-item documents: a YAML frontmatter block and a Markdown body.
//!
//! The frontmatter's YAML encoding is done by the YAML library outside this
//! crate; here live the document model, the framing of the raw file text,
//! the body's content hash and the heading normalisation that the rules use.
use vstd::prelude::*;
use crate::error::Error;
use sha2::Digest;
use crate::text::{
    chars_of, extend_chars, extend_str, has_prefix, join, lead_len, lemma_join_push, lemma_lead_len, lines,
    lines_of, split_char, split_from, split_on, starts_with_chars, string_of, sub_chars, trim_end, trim_start,
    trim_start_chars, views,
};

verus! {

broadcast use vstd::string::group_string_axioms;

/// Document type (axis one: what the document is).
#[derive(Debug, Clone, Copy, PartialEq, Eq, Structural)]
pub enum Kind {
    Proposal,
    Draft,
    Plan,
}

impl Kind {
    pub open spec fn name(self) -> Seq<char> {
        match self {
            Kind::Proposal => "proposal"@,
            Kind::Draft => "draft"@,
            Kind::Plan => "plan"@,
        }
    }

    /// Position in the one-way deepening order proposal → draft → plan.
    pub open spec fn rank(self) -> int {
        match self {
            Kind::Proposal => 0,
            Kind::Draft => 1,
            Kind::Plan => 2,
        }
    }

    pub fn as_str(&self) -> (s: &'static str)
        ensures
            s@ == self.name(),
    {
        match self {
            Kind::Proposal => "proposal",
            Kind::Draft => "draft",
            Kind::Plan => "plan",
        }
    }
}

/// How a finished item ended.
#[derive(Debug, Clone, Copy, PartialEq, Eq, Structural)]
pub enum Outcome {
    Done,
    Frozen,
}

/// The machine-readable frontmatter.
#[derive(Debug)]
pub struct Frontmatter {
    pub slug: String,
    pub kind: Kind,
    /// Redundant snapshot of the status; the directory is the truth.
    pub status: String,
    pub project: String,
    pub updated_by: String,
    pub updated_at: String,
    pub content_hash: String,
    pub outcome: Option<Outcome>,
    /// `Some("pending")` marks a falsification still to be run.
    pub falsification: Option<String>,
    pub priority: Option<String>,
}

/// One work item = one file: frontmatter plus Markdown body.
#[derive(Debug)]
pub struct Document {
    pub fm: Frontmatter,
    pub body: String,
}

// ---------------------------------------------------------------------------
// Headings
// ---------------------------------------------------------------------------

pub open spec fn hash_pred() -> spec_fn(char) -> bool {
    |c: char| c == '#'
}

pub open spec fn digit_pred() -> spec_fn(char) -> bool {
    |c: char| '0' <= c && c <= '9'
}

/// Separators allowed after a heading number: `. 、 ) ） : space -`.
pub open spec fn is_num_sep(c: char) -> bool {
    c == '.' || c == '、' || c == ')' || c == '）' || c == ':' || c == ' ' || c == '-'
}

pub open spec fn sep_pred() -> spec_fn(char) -> bool {
    |c: char| is_num_sep(c)
}

/// A heading line's text: without the `#` run, leading whitespace, and an
/// optional number prefix ("2. ", "2、", "2 ") when a separator follows the
/// digits. `None` for a line that does not start with `#`.
pub open spec fn heading_text_spec(l: Seq<char>) -> Option<Seq<char>> {
    if l.len() == 0 || l[0] != '#' {
        None
    } else {
        let t = trim_start(l.skip(lead_len(l, hash_pred()) as int));
        let d = lead_len(t, digit_pred());
        if d > 0 {
            let rest = t.skip(d as int);
            let k = lead_len(rest, sep_pred());
            if k > 0 {
                Some(trim_start(rest.skip(k as int)))
            } else {
                Some(t)
            }
        } else {
            Some(t)
        }
    }
}

/// The line is a heading whose normalised text starts with `needle`.
pub open spec fn heading_matches_spec(l: Seq<char>, needle: Seq<char>) -> bool {
    match heading_text_spec(l) {
        Some(h) => has_prefix(h, needle),
        None => false,
    }
}

/// The number of leading `#`.
pub open spec fn heading_level_spec(l: Seq<char>) -> nat {
    lead_len(l, hash_pred())
}

/// Some line of `body` is a heading matching `heading`.
pub open spec fn has_heading_spec(body: Seq<char>, heading: Seq<char>) -> bool {
    exists|i: int| 0 <= i < lines(body).len() && heading_matches_spec(lines(body)[i], heading)
}

fn in_class(c: char, which: u8) -> (b: bool)
    requires
        which <= 2,
    ensures
        which == 0 ==> b == (hash_pred())(c),
        which == 1 ==> b == (digit_pred())(c),
        which == 2 ==> b == (sep_pred())(c),
{
    if which == 0 {
        c == '#'
    } else if which == 1 {
        '0' <= c && c <= '9'
    } else {
        c == '.' || c == '、' || c == ')' || c == '）' || c == ':' || c == ' ' || c == '-'
    }
}

fn lead_count(v: &[char], which: u8) -> (k: usize)
    requires
        which <= 2,
    ensures
        k <= v.len(),
        which == 0 ==> k == lead_len(v@, hash_pred()),
        which == 1 ==> k == lead_len(v@, digit_pred()),
        which == 2 ==> k == lead_len(v@, sep_pred()),
{
    let ghost f = if which == 0 {
        hash_pred()
    } else if which == 1 {
        digit_pred()
    } else {
        sep_pred()
    };
    let mut i: usize = 0;
    while i < v.len() && in_class(v[i], which)
        invariant
            i <= v.len(),
            which <= 2,
            f == (if which == 0 {
                hash_pred()
            } else if which == 1 {
                digit_pred()
            } else {
                sep_pred()
            }),
            forall|j: int| 0 <= j < i ==> f(#[trigger] v@[j]),
        decreases v.len() - i,
    {
        i += 1;
    }
    proof {
        lemma_lead_len(v@, f, i as int);
    }
    i
}

/// `heading_text` on characters.
pub fn heading_text_chars(line: &[char]) -> (r: Option<Vec<char>>)
    ensures
        match r {
            Some(h) => heading_text_spec(line@) == Some(h@),
            None => heading_text_spec(line@) is None,
        },
{
    if line.len() == 0 || line[0] != '#' {
        return None;
    }
    let h = lead_count(line, 0);
    let after = sub_chars(line, h, line.len());
    let t = trim_start_chars(after.as_slice());
    assert(after@ =~= line@.skip(h as int));
    let d = lead_count(t.as_slice(), 1);
    if d > 0 {
        let rest = sub_chars(t.as_slice(), d, t.len());
        assert(rest@ =~= t@.skip(d as int));
        let k = lead_count(rest.as_slice(), 2);
        if k > 0 {
            let r2 = sub_chars(rest.as_slice(), k, rest.len());
            assert(r2@ =~= rest@.skip(k as int));
            return Some(trim_start_chars(r2.as_slice()));
        }
    }
    Some(t)
}

/// `heading_matches` on characters.
pub fn heading_matches_chars(line: &[char], needle: &[char]) -> (b: bool)
    ensures
        b == heading_matches_spec(line@, needle@),
{
    match heading_text_chars(line) {
        Some(h) => starts_with_chars(h.as_slice(), needle),
        None => false,
    }
}

/// `heading_level` on characters.
pub fn heading_level_chars(line: &[char]) -> (n: usize)
    ensures
        n == heading_level_spec(line@),
{
    lead_count(line, 0)
}

/// Normalise a Markdown heading line to comparable text: drop the `#` run and
/// an optional number prefix ("2. " / "2、" / "2 "). `None` for a non-heading.
pub fn heading_text(line: &str) -> (r: Option<String>)
    ensures
        match r {
            Some(h) => heading_text_spec(line@) == Some(h@),
            None => heading_text_spec(line@) is None,
        },
{
    let l = chars_of(line);
    match heading_text_chars(l.as_slice()) {
        Some(h) => Some(string_of(h.as_slice())),
        None => None,
    }
}

/// Whether the heading line, normalised, starts with `needle`.
pub fn heading_matches(line: &str, needle: &str) -> (b: bool)
    ensures
        b == heading_matches_spec(line@, needle@),
{
    let l = chars_of(line);
    let n = chars_of(needle);
    heading_matches_chars(l.as_slice(), n.as_slice())
}

/// The `#` level of a heading line.
pub fn heading_level(line: &str) -> (n: usize)
    ensures
        n == heading_level_spec(line@),
{
    let l = chars_of(line);
    heading_level_chars(l.as_slice())
}

/// Whether some line of the body is a heading matching `heading`.
pub fn body_has_heading(body: &[char], heading: &[char]) -> (b: bool)
    ensures
        b == has_heading_spec(body@, heading@),
{
    let ls = lines_of(body);
    let mut i: usize = 0;
    while i < ls.len()
        invariant
            i <= ls.len(),
            views(ls@) == lines(body@),
            forall|j: int| 0 <= j < i ==> !heading_matches_spec(#[trigger] lines(body@)[j], heading@),
        decreases ls.len() - i,
    {
        assert(ls@[i as int]@ == lines(body@)[i as int]);
        if heading_matches_chars(ls[i].as_slice(), heading) {
            return true;
        }
        i += 1;
    }
    false
}

impl Document {
    /// Whether the body holds a heading that matches (after normalisation),
    /// tolerating "## 2. 反证实验" and "### 反证实验（…）".
    pub fn has_heading(&self, heading: &str) -> (b: bool)
        ensures
            b == has_heading_spec(self.body@, heading@),
    {
        let b = chars_of(self.body.as_str());
        let h = chars_of(heading);
        body_has_heading(b.as_slice(), h.as_slice())
    }
}


// ---------------------------------------------------------------------------
// Framing: `---\n <frontmatter> \n---\n <body>`
// ---------------------------------------------------------------------------

/// The UTF-8 length of a character (`char::len_utf8`).
pub open spec fn utf8_len(c: char) -> nat {
    if (c as u32) < 0x80 {
        1
    } else if (c as u32) < 0x800 {
        2
    } else if (c as u32) < 0x10000 {
        3
    } else {
        4
    }
}

/// The UTF-8 length of a string (`str::len`).
pub open spec fn byte_len(s: Seq<char>) -> nat
    decreases s.len(),
{
    if s.len() == 0 {
        0
    } else {
        byte_len(s.drop_last()) + utf8_len(s.last())
    }
}

pub proof fn lemma_byte_len_concat(a: Seq<char>, b: Seq<char>)
    ensures
        byte_len(a + b) == byte_len(a) + byte_len(b),
    decreases b.len(),
{
    if b.len() > 0 {
        assert((a + b).drop_last() =~= a + b.drop_last());
        lemma_byte_len_concat(a, b.drop_last());
    } else {
        assert(a + b =~= a);
    }
}

pub proof fn lemma_byte_len_first(s: Seq<char>)
    requires
        s.len() > 0,
    ensures
        byte_len(s) == utf8_len(s[0]) + byte_len(s.drop_first()),
{
    assert(s =~= seq![s[0]] + s.drop_first());
    lemma_byte_len_concat(seq![s[0]], s.drop_first());
    assert(seq![s[0]].drop_last() =~= Seq::<char>::empty());
    assert(byte_len(Seq::<char>::empty()) == 0);
    assert(byte_len(seq![s[0]]) == utf8_len(s[0]));
}

/// Sum over lines of (their UTF-8 length + 1), as the frontmatter scan
/// counts offsets.
pub open spec fn scanned_len(ls: Seq<Seq<char>>) -> nat
    decreases ls.len(),
{
    if ls.len() == 0 {
        0
    } else {
        scanned_len(ls.drop_last()) + byte_len(ls.last()) + 1
    }
}

pub proof fn lemma_scanned_len_first(ls: Seq<Seq<char>>)
    requires
        ls.len() > 0,
    ensures
        scanned_len(ls) == byte_len(ls[0]) + 1 + scanned_len(ls.drop_first()),
    decreases ls.len(),
{
    if ls.len() > 1 {
        assert(ls.drop_last().drop_first() =~= ls.drop_first().drop_last());
        lemma_scanned_len_first(ls.drop_last());
    } else {
        assert(ls.drop_first() =~= Seq::<Seq<char>>::empty());
        assert(ls.drop_last() =~= Seq::<Seq<char>>::empty());
    }
}

/// The scanned length of the prefixes grows with the prefix.
proof fn lemma_scanned_len_take(ls: Seq<Seq<char>>, i: int, j: int)
    requires
        0 <= i <= j <= ls.len(),
    ensures
        scanned_len(ls.take(i)) <= scanned_len(ls.take(j)),
    decreases j - i,
{
    if i < j {
        lemma_scanned_len_take(ls, i, j - 1);
        assert(ls.take(j).drop_last() =~= ls.take(j - 1));
    }
}

/// Each piece of `s` between `\n`s counts its bytes and one line break, so
/// the pieces add up to the text's length and one more byte.
proof fn lemma_scanned_len_split(s: Seq<char>, cur: Seq<char>)
    ensures
        scanned_len(split_from(s, '\n', cur)) == byte_len(cur) + byte_len(s) + 1,
    decreases s.len(),
{
    let ps = split_from(s, '\n', cur);
    if s.len() == 0 {
        assert(ps =~= seq![cur]);
        assert(ps.drop_last() =~= Seq::<Seq<char>>::empty());
        assert(scanned_len(Seq::<Seq<char>>::empty()) == 0);
        assert(byte_len(s) == 0);
    } else {
        lemma_byte_len_first(s);
        if s[0] == '\n' {
            assert(utf8_len('\n') == 1);
            let rest = split_from(s.drop_first(), '\n', seq![]);
            lemma_scanned_len_split(s.drop_first(), seq![]);
            assert(byte_len(Seq::<char>::empty()) == 0);
            assert(ps == seq![cur] + rest);
            lemma_scanned_len_first(ps);
            assert(ps.drop_first() =~= rest);
        } else {
            lemma_scanned_len_split(s.drop_first(), cur.push(s[0]));
            assert(cur.push(s[0]).drop_last() =~= cur);
        }
    }
}

/// A line that ends a frontmatter block: `---` or `...` before trailing
/// whitespace (a carriage return included).
pub open spec fn is_fm_delimiter(l: Seq<char>) -> bool {
    trim_end(l) == "---"@ || trim_end(l) == "..."@
}

/// The index of the first delimiter line at or after line `i`.
pub open spec fn delimiter_from(ls: Seq<Seq<char>>, i: int) -> Option<int>
    decreases ls.len() - i,
{
    if i < 0 || i >= ls.len() {
        None
    } else if is_fm_delimiter(ls[i]) {
        Some(i)
    } else {
        delimiter_from(ls, i + 1)
    }
}

/// The lines of `s` as they stand between `\n` characters, a carriage
/// return before a `\n` kept with its line.
pub open spec fn raw_lines(s: Seq<char>) -> Seq<Seq<char>> {
    split_char(s, '\n')
}

/// The frontmatter end of `s`, in bytes: where the closing delimiter line
/// starts (the UTF-8 length of the lines before it, each with its line
/// break), and that plus the closing line's own bytes and its `\n`.
pub open spec fn fm_end_spec(s: Seq<char>) -> Option<(nat, nat)> {
    let ls = raw_lines(s);
    match delimiter_from(ls, 0) {
        Some(k) => Some((scanned_len(ls.take(k)), scanned_len(ls.take(k)) + byte_len(ls[k]) + 1)),
        None => None,
    }
}

fn char_len_utf8(c: char) -> (n: usize)
    ensures
        n == utf8_len(c),
{
    let u = c as u32;
    if u < 0x80 {
        1
    } else if u < 0x800 {
        2
    } else if u < 0x10000 {
        3
    } else {
        4
    }
}

/// The UTF-8 length of a character sequence.
fn byte_len_of(v: &[char]) -> (n: usize)
    requires
        byte_len(v@) <= usize::MAX,
    ensures
        n == byte_len(v@),
{
    let mut n: usize = 0;
    let mut i: usize = 0;
    while i < v.len()
        invariant
            i <= v.len(),
            n == byte_len(v@.take(i as int)),
            byte_len(v@) <= usize::MAX,
        decreases v.len() - i,
    {
        proof {
            assert(v@.take(i + 1).drop_last() =~= v@.take(i as int));
            assert(v@ =~= v@.take(i + 1) + v@.skip(i + 1));
            lemma_byte_len_concat(v@.take(i + 1), v@.skip(i + 1));
        }
        n = n + char_len_utf8(v[i]);
        i += 1;
    }
    assert(v@.take(v.len() as int) =~= v@);
    n
}

fn is_delimiter(l: &[char]) -> (b: bool)
    ensures
        b == is_fm_delimiter(l@),
{
    let t = crate::text::trim_end_chars(l);
    let a = chars_of("---");
    let b = chars_of("...");
    crate::text::chars_eq(t.as_slice(), a.as_slice()) || crate::text::chars_eq(t.as_slice(), b.as_slice())
}

/// The index of the first delimiter line among `ls`.
fn delimiter_index(ls: &Vec<Vec<char>>) -> (r: Option<usize>)
    ensures
        match r {
            Some(k) => delimiter_from(views(ls@), 0) == Some(k as int) && k < ls.len(),
            None => delimiter_from(views(ls@), 0) is None,
        },
{
    let mut i: usize = 0;
    while i < ls.len()
        invariant
            i <= ls.len(),
            delimiter_from(views(ls@), 0) == delimiter_from(views(ls@), i as int),
        decreases ls.len() - i,
    {
        assert(views(ls@)[i as int] == ls@[i as int]@);
        if is_delimiter(ls[i].as_slice()) {
            return Some(i);
        }
        i += 1;
    }
    None
}

/// Find the `---` (or `...`) line that ends the frontmatter: the byte
/// offset where it starts and the offset where its line break ends.
pub fn find_fm_end(s: &str) -> (r: Option<(usize, usize)>)
    requires
        byte_len(s@) < usize::MAX,
    ensures
        match r {
            Some((a, b)) => fm_end_spec(s@) == Some((a as nat, b as nat)),
            None => fm_end_spec(s@) is None,
        },
{
    let v = chars_of(s);
    let ls = split_on(v.as_slice(), '\n');
    let ghost gl = raw_lines(s@);
    let k = match delimiter_index(&ls) {
        Some(k) => k,
        None => return None,
    };
    proof {
        lemma_scanned_len_split(s@, seq![]);
        assert(byte_len(Seq::<char>::empty()) == 0);
        assert(gl.take(gl.len() as int) =~= gl);
        lemma_scanned_len_take(gl, k + 1, gl.len() as int);
        assert(gl.take(k + 1).drop_last() =~= gl.take(k as int));
    }
    let mut pos: usize = 0;
    let mut i: usize = 0;
    while i < k
        invariant
            i <= k < ls.len(),
            views(ls@) == gl,
            gl == raw_lines(s@),
            pos == scanned_len(gl.take(i as int)),
            scanned_len(gl.take(k + 1)) <= byte_len(s@) + 1,
            byte_len(s@) < usize::MAX,
        decreases k - i,
    {
        assert(ls@[i as int]@ == gl[i as int]);
        proof {
            assert(gl.take(i + 1).drop_last() =~= gl.take(i as int));
            lemma_scanned_len_take(gl, i + 1, k + 1);
        }
        pos = pos + byte_len_of(ls[i].as_slice()) + 1;
        i += 1;
    }
    assert(ls@[k as int]@ == gl[k as int]);
    let end = pos + byte_len_of(ls[k].as_slice()) + 1;
    Some((pos, end))
}

/// After the opening `---` and its line break.
pub open spec fn after_open_spec(raw: Seq<char>) -> Option<Seq<char>> {
    if has_prefix(raw, "---"@) {
        let rest = raw.skip(3);
        if has_prefix(rest, "\n"@) {
            Some(rest.skip(1))
        } else if has_prefix(rest, "\r\n"@) {
            Some(rest.skip(2))
        } else {
            None
        }
    } else {
        None
    }
}

/// `split_frontmatter`: the text before the closing delimiter line, its
/// trailing whitespace trimmed, and the text after that line's `\n`;
/// `None` without both delimiters.
pub open spec fn split_frontmatter_spec(raw: Seq<char>) -> Option<(Seq<char>, Seq<char>)> {
    match after_open_spec(raw) {
        Some(rest) => {
            let ls = raw_lines(rest);
            match delimiter_from(ls, 0) {
                Some(k) => Some((trim_end(join(ls.take(k), "\n"@)), join(ls.skip(k + 1), "\n"@))),
                None => None,
            }
        },
        None => None,
    }
}

fn after_open(raw: &str) -> (r: Option<Vec<char>>)
    ensures
        match r {
            Some(v) => after_open_spec(raw@) == Some(v@),
            None => after_open_spec(raw@) is None,
        },
{
    let v = chars_of(raw);
    let dashes = chars_of("---");
    let lf = chars_of("\n");
    let crlf = chars_of("\r\n");
    proof {
        reveal_strlit("---");
        reveal_strlit("\n");
        reveal_strlit("\r\n");
    }
    if !starts_with_chars(v.as_slice(), dashes.as_slice()) {
        return None;
    }
    let rest = sub_chars(v.as_slice(), 3, v.len());
    assert(rest@ =~= raw@.skip(3));
    if starts_with_chars(rest.as_slice(), lf.as_slice()) {
        let r = sub_chars(rest.as_slice(), 1, rest.len());
        assert(r@ =~= rest@.skip(1));
        Some(r)
    } else if starts_with_chars(rest.as_slice(), crlf.as_slice()) {
        let r = sub_chars(rest.as_slice(), 2, rest.len());
        assert(r@ =~= rest@.skip(2));
        Some(r)
    } else {
        None
    }
}

/// The lines `a..b` of `ls`, joined with `sep`.
fn join_range(ls: &Vec<Vec<char>>, a: usize, b: usize, sep: &[char]) -> (r: Vec<char>)
    requires
        a <= b <= ls.len(),
    ensures
        r@ == join(views(ls@).subrange(a as int, b as int), sep@),
{
    let mut r: Vec<char> = Vec::new();
    let mut i: usize = a;
    let ghost g = views(ls@);
    while i < b
        invariant
            a <= i <= b <= ls.len(),
            g == views(ls@),
            r@ == join(g.subrange(a as int, i as int), sep@),
        decreases b - i,
    {
        proof {
            lemma_join_push(g.subrange(a as int, i as int), sep@, ls@[i as int]@);
            assert(g.subrange(a as int, i as int).push(ls@[i as int]@) =~= g.subrange(a as int, i + 1));
        }
        if i > a {
            extend_chars(&mut r, sep);
        }
        extend_chars(&mut r, ls[i].as_slice());
        i += 1;
    }
    r
}

/// Split `---\n <frontmatter> \n---\n <body>` into the frontmatter text and
/// the body; `None` when the delimiters are missing.
pub fn split_frontmatter(raw: &str) -> (r: Option<(String, String)>)
    ensures
        match r {
            Some((fm, body)) => split_frontmatter_spec(raw@) == Some((fm@, body@)),
            None => split_frontmatter_spec(raw@) is None,
        },
{
    let rest = match after_open(raw) {
        Some(r) => r,
        None => return None,
    };
    let ls = split_on(rest.as_slice(), '\n');
    let k = match delimiter_index(&ls) {
        Some(k) => k,
        None => return None,
    };
    let nl = chars_of("\n");
    let fm = join_range(&ls, 0, k, nl.as_slice());
    let body = join_range(&ls, k + 1, ls.len(), nl.as_slice());
    let ghost g = views(ls@);
    assert(g.take(k as int) =~= g.subrange(0, k as int));
    assert(g.skip(k + 1) =~= g.subrange(k + 1, g.len() as int));
    let fm_t = crate::text::trim_end_chars(fm.as_slice());
    Some((string_of(fm_t.as_slice()), string_of(body.as_slice())))
}

// ---------------------------------------------------------------------------
// Content hash and rendering
// ---------------------------------------------------------------------------

/// The SHA-256 digest of a byte string, as `sha2` computes it.
pub uninterp spec fn sha256(data: Seq<u8>) -> Seq<u8>;

/// `sha2::Sha256::digest`: the SHA-256 digest of `data`, 32 bytes long.
#[verifier::external_body]
fn sha256_digest(data: &[u8]) -> (r: Vec<u8>)
    ensures
        r@ == sha256(data@),
        r@.len() == 32,
{
    sha2::Sha256::digest(data).to_vec()
}

pub open spec fn hex_digit(n: nat) -> char {
    if n < 10 {
        crate::textops::digit_char(n)
    } else if n == 10 {
        'a'
    } else if n == 11 {
        'b'
    } else if n == 12 {
        'c'
    } else if n == 13 {
        'd'
    } else if n == 14 {
        'e'
    } else {
        'f'
    }
}

/// Lower-case hex, two digits per byte (`{:x}` of a digest).
pub open spec fn hex_lower(bytes: Seq<u8>) -> Seq<char>
    decreases bytes.len(),
{
    if bytes.len() == 0 {
        seq![]
    } else {
        hex_lower(bytes.drop_last()) + seq![
            hex_digit((bytes.last() / 16) as nat),
            hex_digit((bytes.last() % 16) as nat),
        ]
    }
}

/// A lower-case hexadecimal digit.
pub open spec fn is_lower_hex(c: char) -> bool {
    ('0' <= c && c <= '9') || ('a' <= c && c <= 'f')
}

/// Two lower-case hex digits per byte.
pub proof fn lemma_hex_lower(bytes: Seq<u8>)
    ensures
        hex_lower(bytes).len() == 2 * bytes.len(),
        forall|i: int| 0 <= i < hex_lower(bytes).len() ==> is_lower_hex(#[trigger] hex_lower(bytes)[i]),
    decreases bytes.len(),
{
    if bytes.len() > 0 {
        lemma_hex_lower(bytes.drop_last());
        let h = hex_lower(bytes.drop_last());
        let hi = hex_digit((bytes.last() / 16) as nat);
        let lo = hex_digit((bytes.last() % 16) as nat);
        assert(is_lower_hex(hi));
        assert(is_lower_hex(lo));
        assert forall|i: int| 0 <= i < hex_lower(bytes).len() implies is_lower_hex(#[trigger] hex_lower(bytes)[i]) by {
            if i < h.len() {
                assert(hex_lower(bytes)[i] == h[i]);
            }
        }
    }
}

/// `content-hash` of a body: `sha256:` and the hex digest of its UTF-8 bytes.
pub open spec fn content_hash_spec(body: Seq<char>) -> Seq<char> {
    "sha256:"@ + hex_lower(sha256(vstd::utf8::encode_utf8(body)))
}

fn hex_char(n: u8) -> (c: char)
    requires
        n < 16,
    ensures
        c == hex_digit(n as nat),
{
    if n < 10 {
        if n == 0 { '0' } else if n == 1 { '1' } else if n == 2 { '2' } else if n == 3 { '3' }
        else if n == 4 { '4' } else if n == 5 { '5' } else if n == 6 { '6' } else if n == 7 { '7' }
        else if n == 8 { '8' } else { '9' }
    } else if n == 10 {
        'a'
    } else if n == 11 {
        'b'
    } else if n == 12 {
        'c'
    } else if n == 13 {
        'd'
    } else if n == 14 {
        'e'
    } else {
        'f'
    }
}

/// The content hash of a body (the compare-and-set snapshot of the body).
pub fn content_hash(body: &str) -> (r: String)
    ensures
        r@ == content_hash_spec(body@),
        r@.len() == 71,
        r@.take(7) == "sha256:"@,
        forall|i: int| 7 <= i < 71 ==> is_lower_hex(#[trigger] r@[i]),
{
    let digest = sha256_digest(body.as_bytes());
    let mut out: Vec<char> = Vec::new();
    extend_str(&mut out, "sha256:");
    let ghost pre = out@;
    let mut i: usize = 0;
    while i < digest.len()
        invariant
            i <= digest.len(),
            out@ == pre + hex_lower(digest@.take(i as int)),
        decreases digest.len() - i,
    {
        let b = digest[i];
        out.push(hex_char(b / 16));
        out.push(hex_char(b % 16));
        assert(digest@.take(i + 1).drop_last() =~= digest@.take(i as int));
        assert(out@ =~= pre + hex_lower(digest@.take(i + 1)));
        i += 1;
    }
    assert(digest@.take(digest.len() as int) =~= digest@);
    proof {
        reveal_strlit("sha256:");
        lemma_hex_lower(digest@);
        assert(out@.take(7) =~= pre);
        assert forall|i: int| 7 <= i < 71 implies is_lower_hex(#[trigger] out@[i]) by {
            assert(out@[i] == hex_lower(digest@)[i - 7]);
        }
    }
    string_of(out.as_slice())
}

impl Document {
    /// Set `content-hash` to the hash of the current body (done whenever a
    /// document is rendered for writing).
    pub fn refresh_content_hash(&mut self)
        ensures
            final(self).fm.content_hash@ == content_hash_spec(old(self).body@),
            final(self).body == old(self).body,
            final(self).fm.slug == old(self).fm.slug,
            final(self).fm.kind == old(self).fm.kind,
            final(self).fm.status == old(self).fm.status,
            final(self).fm.project == old(self).fm.project,
            final(self).fm.updated_by == old(self).fm.updated_by,
            final(self).fm.updated_at == old(self).fm.updated_at,
            final(self).fm.outcome == old(self).fm.outcome,
            final(self).fm.falsification == old(self).fm.falsification,
            final(self).fm.priority == old(self).fm.priority,
    {
        self.fm.content_hash = content_hash(self.body.as_str());
    }

    /// The full file text, with `content-hash` first set to the hash of the
    /// body: `to_yaml` writes the refreshed frontmatter as YAML (the YAML
    /// encoding is the caller's), and that text, its trailing whitespace
    /// trimmed, goes between the `---` lines before the body.
    pub fn render<F: Fn(&Frontmatter) -> String>(&mut self, to_yaml: F) -> (r: String)
        requires
            forall|fm: &Frontmatter| #[trigger] call_requires(to_yaml, (fm,)),
        ensures
            final(self).fm.content_hash@ == content_hash_spec(old(self).body@),
            final(self).body == old(self).body,
            final(self).fm.slug == old(self).fm.slug,
            final(self).fm.kind == old(self).fm.kind,
            final(self).fm.status == old(self).fm.status,
            final(self).fm.project == old(self).fm.project,
            final(self).fm.updated_by == old(self).fm.updated_by,
            final(self).fm.updated_at == old(self).fm.updated_at,
            final(self).fm.outcome == old(self).fm.outcome,
            final(self).fm.falsification == old(self).fm.falsification,
            final(self).fm.priority == old(self).fm.priority,
            exists|y: String|
                call_ensures(to_yaml, (&final(self).fm,), y) && r@ == assemble_spec(y@, final(self).body@),
    {
        self.refresh_content_hash();
        let y = to_yaml(&self.fm);
        assemble(y.as_str(), self.body.as_str())
    }
}

/// The full file text: the frontmatter's YAML (trailing whitespace trimmed)
/// between `---` lines, then the body.
pub open spec fn assemble_spec(fm_yaml: Seq<char>, body: Seq<char>) -> Seq<char> {
    "---\n"@ + crate::text::trim_end(fm_yaml) + "\n---\n"@ + body
}

/// Assemble the file text from the frontmatter's YAML and the body.
pub fn assemble(fm_yaml: &str, body: &str) -> (r: String)
    ensures
        r@ == assemble_spec(fm_yaml@, body@),
{
    let y = chars_of(fm_yaml);
    let mut out: Vec<char> = Vec::new();
    extend_str(&mut out, "---\n");
    let t = crate::text::trim_end_chars(y.as_slice());
    crate::text::extend_chars(&mut out, t.as_slice());
    extend_str(&mut out, "\n---\n");
    extend_str(&mut out, body);
    string_of(out.as_slice())
}

/// The error for a file without the frontmatter delimiters.
pub fn missing_frontmatter_error(path: &str) -> (e: Error)
    ensures
        e matches Error::Parse { path: p, message } && p@ == path@ && message@
            == "缺少 YAML frontmatter 分隔线 `---`（§9.1）"@,
{
    Error::Parse { path: path.to_string(), message: "缺少 YAML frontmatter 分隔线 `---`（§9.1）".to_string() }
}

/// Frame the raw file text: the frontmatter text and the body, or the parse
/// error for a file without delimiters. (The frontmatter text itself is
/// parsed as YAML by the caller.)
pub fn frame(path: &str, raw: &str) -> (r: Result<(String, String), Error>)
    ensures
        match r {
            Ok((fm, body)) => split_frontmatter_spec(raw@) == Some((fm@, body@)),
            Err(e) => split_frontmatter_spec(raw@) is None && (e matches Error::Parse { path: p, message }
                && p@ == path@ && message@ == "缺少 YAML frontmatter 分隔线 `---`（§9.1）"@),
        },
{
    match split_frontmatter(raw) {
        Some(x) => Ok(x),
        None => Err(missing_frontmatter_error(path)),
    }
}

impl Document {
    /// Read a document from its raw file text: frame it, then read the
    /// frontmatter text with `from_yaml` (the YAML decoding is the
    /// caller's; its error comes back as a message). A file without the
    /// delimiters, or whose frontmatter does not decode, is a parse error
    /// naming `path`.
    pub fn parse<F: Fn(&str) -> Result<Frontmatter, String>>(path: &str, raw: &str, from_yaml: F) -> (r: Result<
        Document,
        Error,
    >)
        requires
            forall|t: &str| #[trigger] call_requires(from_yaml, (t,)),
        ensures
            match split_frontmatter_spec(raw@) {
                None => r matches Err(Error::Parse { path: p, message }) && p@ == path@ && message@
                    == "缺少 YAML frontmatter 分隔线 `---`（§9.1）"@,
                Some((f, b)) => exists|a: &str, res: Result<Frontmatter, String>|
                    a@ == f && #[trigger] call_ensures(from_yaml, (a,), res) && match res {
                        Ok(fm) => r matches Ok(d) && d.fm == fm && d.body@ == b,
                        Err(m) => r matches Err(Error::Parse { path: p, message }) && p@ == path@ && message@
                            == "frontmatter 解析失败: "@ + m@,
                    },
            },
    {
        let (fm_text, body) = match frame(path, raw) {
            Ok(x) => x,
            Err(e) => return Err(e),
        };
        let a = fm_text.as_str();
        let res = from_yaml(a);
        let ghost g = res;
        assert(call_ensures(from_yaml, (a,), g));
        match res {
            Ok(fm) => Ok(Document { fm, body }),
            Err(m) => {
                let mut msg: Vec<char> = Vec::new();
                extend_str(&mut msg, "frontmatter 解析失败: ");
                extend_str(&mut msg, m.as_str());
                proof {
                    reveal_strlit("frontmatter 解析失败: ");
                }
                Err(Error::Parse { path: path.to_string(), message: string_of(msg.as_slice()) })
            },
        }
    }
}
} // verus!
