//! Templates: `{{key}}` placeholder rendering and template selection.
use vstd::prelude::*;
use crate::text::{
    chars_eq, chars_of, extend_chars, extend_str, find, find_chars, occurs_at, string_of,
    sub_chars, trim, trim_chars,
};

verus! {

broadcast use vstd::string::group_string_axioms;

/// Placeholder values, one per key (a later insert replaces an earlier one).
pub struct TemplateVars {
    entries: Vec<(String, String)>,
}

/// The value bound to `k` in `es` by the last binding at or before `i`.
pub open spec fn var_from(es: Seq<(String, String)>, k: Seq<char>, i: int) -> Option<Seq<char>>
    decreases i + 1,
{
    if i < 0 || i >= es.len() {
        None
    } else if es[i].0@ == k {
        Some(es[i].1@)
    } else {
        var_from(es, k, i - 1)
    }
}

/// Lookups up to `i` only see the entries up to `i`.
proof fn lemma_var_prefix(a: Seq<(String, String)>, b: Seq<(String, String)>, k: Seq<char>, i: int)
    requires
        i < a.len() <= b.len(),
        forall|q: int| 0 <= q <= i ==> a[q] == b[q],
    ensures
        var_from(a, k, i) == var_from(b, k, i),
    decreases i + 1,
{
    if i >= 0 && a[i].0@ != k {
        lemma_var_prefix(a, b, k, i - 1);
    }
}

impl TemplateVars {
    /// The value bound to `k`.
    pub closed spec fn get_spec(&self, k: Seq<char>) -> Option<Seq<char>> {
        var_from(self.entries@, k, self.entries@.len() - 1)
    }

    /// The bindings as a lookup function.
    pub open spec fn lookup(&self) -> spec_fn(Seq<char>) -> Option<Seq<char>> {
        |k: Seq<char>| self.get_spec(k)
    }

    pub fn new() -> (r: TemplateVars)
        ensures
            forall|k: Seq<char>| #[trigger] r.get_spec(k) is None,
    {
        TemplateVars { entries: Vec::new() }
    }

    /// Bind `key` to `value` (replacing an earlier binding).
    pub fn insert(&mut self, key: String, value: String)
        ensures
            forall|k: Seq<char>|
                #[trigger] final(self).get_spec(k) == if k == key@ {
                    Some(value@)
                } else {
                    old(self).get_spec(k)
                },
    {
        let ghost es = self.entries@;
        self.entries.push((key, value));
        proof {
            assert forall|k: Seq<char>| #[trigger] self.get_spec(k) == if k == key@ {
                Some(value@)
            } else {
                var_from(es, k, es.len() - 1)
            } by {
                if es.len() > 0 {
                    lemma_var_prefix(es, self.entries@, k, es.len() - 1);
                }
            }
        }
    }

    /// The value bound to `key`.
    pub fn get(&self, key: &[char]) -> (r: Option<&String>)
        ensures
            match r {
                Some(v) => self.get_spec(key@) == Some(v@),
                None => self.get_spec(key@) is None,
            },
    {
        let mut i: usize = self.entries.len();
        while i > 0
            invariant
                i <= self.entries@.len(),
                self.get_spec(key@) == var_from(self.entries@, key@, i - 1),
            decreases i,
        {
            let k = chars_of(self.entries[i - 1].0.as_str());
            if chars_eq(k.as_slice(), key) {
                return Some(&self.entries[i - 1].1);
            }
            i -= 1;
        }
        None
    }
}

// ---------------------------------------------------------------------------
// Rendering
// ---------------------------------------------------------------------------

/// The value of a placeholder: the bound value, or the placeholder as it
/// stood (`{{key}}`, with the key trimmed) when nothing is bound.
pub open spec fn subst(key: Seq<char>, vars: spec_fn(Seq<char>) -> Option<Seq<char>>) -> Seq<char> {
    match vars(key) {
        Some(v) => v,
        None => "{{"@ + key + "}}"@,
    }
}

/// Replace every `{{key}}` (key trimmed) by its value; an unclosed `{{` is
/// kept as it is.
pub open spec fn render_spec(rest: Seq<char>, vars: spec_fn(Seq<char>) -> Option<Seq<char>>) -> Seq<char>
    decreases rest.len(),
{
    match find(rest, "{{"@) {
        None => rest,
        Some(i) => if 0 <= i && i + 2 <= rest.len() {
            match find(rest.skip(i), "}}"@) {
                Some(j) => if 2 <= j && i + j + 2 <= rest.len() {
                    rest.take(i) + subst(trim(rest.subrange(i + 2, i + j)), vars) + render_spec(
                        rest.skip(i + j + 2),
                        vars,
                    )
                } else {
                    rest
                },
                None => rest.take(i) + "{{"@ + render_spec(rest.skip(i + 2), vars),
            }
        } else {
            rest
        },
    }
}

/// One step of rendering: text up to the first `{{`, then what follows.
proof fn lemma_render_step(rest: Seq<char>, vars: spec_fn(Seq<char>) -> Option<Seq<char>>, i: int, j: Option<int>)
    requires
        find(rest, "{{"@) == Some(i),
        occurs_at(rest, "{{"@, i),
        find(rest.skip(i), "}}"@) == j,
        j matches Some(jj) ==> occurs_at(rest.skip(i), "}}"@, jj),
        "{{"@ =~= seq!['{', '{'],
        "}}"@ =~= seq!['}', '}'],
    ensures
        match j {
            Some(jj) => jj >= 2 && i + jj + 2 <= rest.len() && render_spec(rest, vars) == rest.take(i)
                + subst(trim(rest.subrange(i + 2, i + jj)), vars) + render_spec(rest.skip(i + jj + 2), vars),
            None => i + 2 <= rest.len() && render_spec(rest, vars) == rest.take(i) + "{{"@ + render_spec(
                rest.skip(i + 2),
                vars,
            ),
        },
{
    assert(rest.subrange(i, i + 2)[0] == '{');
    assert(rest.subrange(i, i + 2)[1] == '{');
    match j {
        Some(jj) => {
            let after = rest.skip(i);
            assert(after.subrange(jj, jj + 2)[0] == '}');
            assert(after[jj] == '}');
            assert(after[0] == '{' && after[1] == '{');
        },
        None => {},
    }
}

/// Minimal placeholder rendering: replace `{{key}}` by its value.
#[verifier::rlimit(40)]
pub fn render(text: &str, vars: &TemplateVars) -> (r: String)
    ensures
        r@ == render_spec(text@, vars.lookup()),
{
    let v = chars_of(text);
    let open = chars_of("{{");
    let close = chars_of("}}");
    proof {
        reveal_strlit("{{");
        reveal_strlit("}}");
    }
    assert(open@ =~= seq!['{', '{']);
    assert(close@ =~= seq!['}', '}']);
    let ghost f = vars.lookup();
    let mut out: Vec<char> = Vec::new();
    let mut pos: usize = 0;
    assert(v@.skip(0) =~= v@);
    loop
        invariant
            pos <= v.len(),
            open@ == "{{"@,
            close@ == "}}"@,
            "{{"@ =~= seq!['{', '{'],
            "}}"@ =~= seq!['}', '}'],
            f == vars.lookup(),
            out@ + render_spec(v@.skip(pos as int), f) == render_spec(text@, f),
            v@ == text@,
        decreases v.len() - pos,
    {
        let rest = sub_chars(v.as_slice(), pos, v.len());
        assert(rest@ =~= v@.skip(pos as int));
        match find_chars(rest.as_slice(), open.as_slice()) {
            None => {
                extend_chars(&mut out, rest.as_slice());
                return string_of(out.as_slice());
            },
            Some(i) => {
                let after = sub_chars(rest.as_slice(), i, rest.len());
                assert(after@ =~= rest@.skip(i as int));
                let found = find_chars(after.as_slice(), close.as_slice());
                proof {
                    lemma_render_step(rest@, f, i as int, match found { Some(j) => Some(j as int), None => None });
                }
                let head = sub_chars(rest.as_slice(), 0, i);
                assert(head@ =~= rest@.take(i as int));
                let ghost o0 = out@;
                extend_chars(&mut out, head.as_slice());
                match found {
                    Some(j) => {
                        let keyraw = sub_chars(rest.as_slice(), i + 2, i + j);
                        let key = trim_chars(keyraw.as_slice());
                        match vars.get(key.as_slice()) {
                            Some(val) => {
                                extend_str(&mut out, val.as_str());
                            },
                            None => {
                                extend_str(&mut out, "{{");
                                extend_chars(&mut out, key.as_slice());
                                extend_str(&mut out, "}}");
                            },
                        }
                        assert(out@ =~= o0 + rest@.take(i as int) + subst(trim(rest@.subrange(i + 2, i + j)), f));
                        assert(rest@.skip(i + j + 2) =~= v@.skip(pos + i + j + 2));
                        pos = pos + i + j + 2;
                    },
                    None => {
                        extend_str(&mut out, "{{");
                        assert(rest@.skip(i + 2) =~= v@.skip(pos + i + 2));
                        pos = pos + i + 2;
                    },
                }
            },
        }
    }
}

/// The template file for a document kind.
pub fn template_for_kind(kind: &str) -> (r: &'static str)
    ensures
        r@ == if kind@ == "draft"@ {
            "draft.md.tpl"@
        } else if kind@ == "plan"@ {
            "plan.md.tpl"@
        } else {
            "proposal.md.tpl"@
        },
{
    let k = chars_of(kind);
    let d = chars_of("draft");
    let p = chars_of("plan");
    if chars_eq(k.as_slice(), d.as_slice()) {
        "draft.md.tpl"
    } else if chars_eq(k.as_slice(), p.as_slice()) {
        "plan.md.tpl"
    } else {
        "proposal.md.tpl"
    }
}

// ---------------------------------------------------------------------------
// Replacing
// ---------------------------------------------------------------------------

/// `str::replace` for a non-empty pattern: every occurrence, left to right,
/// without overlaps.
pub open spec fn replace_spec(s: Seq<char>, from: Seq<char>, to: Seq<char>) -> Seq<char>
    decreases s.len(),
{
    match find(s, from) {
        None => s,
        Some(i) => if from.len() > 0 && 0 <= i && i + from.len() <= s.len() {
            s.take(i) + to + replace_spec(s.skip(i + from.len()), from, to)
        } else {
            s
        },
    }
}

/// `str::replace` for a non-empty pattern.
pub fn replace_all(s: &str, from: &str, to: &str) -> (r: String)
    requires
        from@.len() > 0,
    ensures
        r@ == replace_spec(s@, from@, to@),
{
    let v = chars_of(s);
    let f = chars_of(from);
    let mut out: Vec<char> = Vec::new();
    let mut pos: usize = 0;
    assert(v@.skip(0) =~= v@);
    loop
        invariant
            pos <= v.len(),
            f@ == from@,
            f@.len() > 0,
            v@ == s@,
            out@ + replace_spec(v@.skip(pos as int), from@, to@) == replace_spec(s@, from@, to@),
        decreases v.len() - pos,
    {
        let rest = sub_chars(v.as_slice(), pos, v.len());
        assert(rest@ =~= v@.skip(pos as int));
        match find_chars(rest.as_slice(), f.as_slice()) {
            None => {
                extend_chars(&mut out, rest.as_slice());
                return string_of(out.as_slice());
            },
            Some(i) => {
                let head = sub_chars(rest.as_slice(), 0, i);
                assert(head@ =~= rest@.take(i as int));
                let ghost o0 = out@;
                extend_chars(&mut out, head.as_slice());
                extend_str(&mut out, to);
                assert(out@ =~= o0 + rest@.take(i as int) + to@);
                assert(rest@.skip(i + f.len()) =~= v@.skip(pos + i + f.len()));
                pos = pos + i + f.len();
            },
        }
    }
}

/// The lookup with `version` as its one binding.
pub open spec fn version_vars(version: Seq<char>) -> spec_fn(Seq<char>) -> Option<Seq<char>> {
    |k: Seq<char>| if k == "version"@ { Some(version) } else { None }
}

/// The protocol entry file: the template rendered with `version`, and its
/// `athena-version` line set to that version.
pub open spec fn render_entry_spec(tpl: Seq<char>, version: Seq<char>) -> Seq<char> {
    replace_spec(
        render_spec(tpl, version_vars(version)),
        "athena-version: 0.1.0"@,
        "athena-version: "@ + version,
    )
}

/// Render the protocol entry file from its template for `version`.
pub fn render_entry(tpl: &str, version: &str) -> (r: String)
    ensures
        r@ == render_entry_spec(tpl@, version@),
{
    let mut vars = TemplateVars::new();
    vars.insert("version".to_string(), version.to_string());
    assert(vars.lookup() =~= version_vars(version@));
    let out = render(tpl, &vars);
    let mut line: Vec<char> = Vec::new();
    extend_str(&mut line, "athena-version: ");
    extend_str(&mut line, version);
    let to = string_of(line.as_slice());
    let from = "athena-version: 0.1.0";
    proof {
        reveal_strlit("athena-version: 0.1.0");
    }
    replace_all(out.as_str(), from, to.as_str())
}

} // verus!
