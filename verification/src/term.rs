//! The term registry: project vocabulary that drives the rules.
use vstd::prelude::*;
use crate::text::string_views;
use crate::text::{chars_of, chars_eq};

verus! {

broadcast use vstd::string::group_string_axioms;

/// One term's machine-readable definition (`[term.<slug>]`).
#[derive(Debug)]
pub struct Term {
    pub slug: String,
    pub synonyms: Vec<String>,
    pub require_fields: Vec<String>,
    pub enforce_on: Vec<String>,
    pub origin: Option<String>,
    pub definition: Option<String>,
    /// Falsification mode: `warn` (default) or `block`.
    pub mode: Option<String>,
    pub skip_field: Option<String>,
    pub is_entry: bool,
    pub is_recorded: bool,
    pub schema_version: Option<u32>,
    /// The string items of the term's `evidence_tokens` array, when the term
    /// carries such an array among its further keys; empty otherwise.
    pub evidence_tokens: Vec<String>,
}

/// Registry of terms, keyed by slug, plus the quick-lane limit.
#[derive(Debug)]
pub struct TermsRegistry {
    /// Entries in key order; a key stands at most once (see `wf`).
    pub terms: Vec<(String, Term)>,
    pub quick_limit: usize,
}

/// The quick-lane limit when the terms file sets none.
pub const DEFAULT_QUICK_LIMIT: usize = 5;

/// The quick-lane limit in force: the one the terms file sets, else the
/// default.
pub fn quick_limit_or_default(configured: Option<usize>) -> (n: usize)
    ensures
        n == match configured {
            Some(c) => c,
            None => DEFAULT_QUICK_LIMIT,
        },
{
    match configured {
        Some(c) => c,
        None => DEFAULT_QUICK_LIMIT,
    }
}

/// The first entry whose key is `k`, looking from position `i` on.
pub open spec fn lookup_from(es: Seq<(String, Term)>, k: Seq<char>, i: int) -> Option<Term>
    decreases es.len() - i,
{
    if i < 0 || i >= es.len() {
        None
    } else if es[i].0@ == k {
        Some(es[i].1)
    } else {
        lookup_from(es, k, i + 1)
    }
}

pub open spec fn lookup(es: Seq<(String, Term)>, k: Seq<char>) -> Option<Term> {
    lookup_from(es, k, 0)
}


/// The falsification mode the registry sets: the `falsification` term's
/// mode, else `warn`.
pub open spec fn falsification_mode_spec(es: Seq<(String, Term)>) -> Seq<char> {
    match lookup(es, "falsification"@) {
        Some(t) => match t.mode {
            Some(m) => m@,
            None => "warn"@,
        },
        None => "warn"@,
    }
}

/// The result labels accepted as falsification evidence.
pub open spec fn evidence_tokens_spec(es: Seq<(String, Term)>) -> Seq<Seq<char>> {
    let from_cfg = match lookup(es, "falsification"@) {
        Some(t) => string_views(t.evidence_tokens@),
        None => seq![],
    };
    if from_cfg.len() > 0 {
        from_cfg
    } else {
        seq!["真实结果"@, "实测结果"@, "实际结果"@]
    }
}

/// The `prune` term's required sections.
pub open spec fn prune_require_fields_spec(es: Seq<(String, Term)>) -> Seq<Seq<char>> {
    match lookup(es, "prune"@) {
        Some(t) => string_views(t.require_fields@),
        None => seq![],
    }
}

/// The `prune` term's `enforce_on`.
pub open spec fn prune_enforce_on_spec(es: Seq<(String, Term)>) -> Seq<Seq<char>> {
    match lookup(es, "prune"@) {
        Some(t) => string_views(t.enforce_on@),
        None => seq![],
    }
}

proof fn lemma_lookup_from_reaches(es: Seq<(String, Term)>, i: int, j: int)
    requires
        0 <= j <= i < es.len(),
        forall|a: int, b: int| 0 <= a < b < es.len() ==> es[a].0@ != es[b].0@,
    ensures
        lookup_from(es, es[i].0@, j) == Some(es[i].1),
    decreases i - j,
{
    if j < i {
        lemma_lookup_from_reaches(es, i, j + 1);
    }
}

/// With every key standing once, the registry answers as a map: looking up
/// an entry's key gives that entry's term.
pub proof fn law_lookup_gives_the_keyed_term(reg: TermsRegistry, i: int)
    requires
        reg.wf(),
        0 <= i < reg.terms@.len(),
    ensures
        lookup(reg.terms@, reg.terms@[i].0@) == Some(reg.terms@[i].1),
{
    lemma_lookup_from_reaches(reg.terms@, i, 0);
}

/// A copy of a list of strings.
pub fn clone_strings(v: &Vec<String>) -> (r: Vec<String>)
    ensures
        r@ == v@,
{
    let mut r: Vec<String> = Vec::new();
    let mut i: usize = 0;
    while i < v.len()
        invariant
            i <= v.len(),
            r@ == v@.take(i as int),
        decreases v.len() - i,
    {
        r.push(v[i].clone());
        i += 1;
        assert(r@ =~= v@.take(i as int));
    }
    assert(v@.take(v.len() as int) =~= v@);
    r
}

impl TermsRegistry {
    /// No key stands twice (as in a map).
    pub open spec fn wf(&self) -> bool {
        forall|i: int, j: int|
            0 <= i < j < self.terms@.len() ==> self.terms@[i].0@ != self.terms@[j].0@
    }

    /// The index of the entry keyed `slug`.
    fn position(&self, slug: &str) -> (r: Option<usize>)
        ensures
            match r {
                Some(i) => i < self.terms@.len() && lookup(self.terms@, slug@) == Some(
                    self.terms@[i as int].1,
                ),
                None => lookup(self.terms@, slug@) is None,
            },
    {
        let k = chars_of(slug);
        let mut i: usize = 0;
        while i < self.terms.len()
            invariant
                i <= self.terms@.len(),
                k@ == slug@,
                lookup(self.terms@, slug@) == lookup_from(self.terms@, slug@, i as int),
            decreases self.terms.len() - i,
        {
            let key = chars_of(self.terms[i].0.as_str());
            if chars_eq(key.as_slice(), k.as_slice()) {
                return Some(i);
            }
            i += 1;
        }
        None
    }

    /// The term keyed `slug`.
    pub fn get(&self, slug: &str) -> (r: Option<&Term>)
        ensures
            match r {
                Some(t) => lookup(self.terms@, slug@) == Some(*t),
                None => lookup(self.terms@, slug@) is None,
            },
    {
        match self.position(slug) {
            Some(i) => Some(&self.terms[i].1),
            None => None,
        }
    }

    /// The falsification mode the terms set (`warn` unless the
    /// `falsification` term says otherwise).
    pub fn falsification_mode(&self) -> (m: &str)
        ensures
            m@ == falsification_mode_spec(self.terms@),
    {
        match self.get("falsification") {
            Some(t) => match &t.mode {
                Some(m) => m.as_str(),
                None => "warn",
            },
            None => "warn",
        }
    }

    /// The result labels the falsification contract accepts; configurable
    /// through the `falsification` term's `evidence_tokens`.
    pub fn falsification_evidence_tokens(&self) -> (r: Vec<String>)
        ensures
            string_views(r@) == evidence_tokens_spec(self.terms@),
    {
        let from_cfg = match self.get("falsification") {
            Some(t) => clone_strings(&t.evidence_tokens),
            None => Vec::new(),
        };
        if from_cfg.len() > 0 {
            return from_cfg;
        }
        let mut r: Vec<String> = Vec::new();
        r.push("真实结果".to_string());
        r.push("实测结果".to_string());
        r.push("实际结果".to_string());
        assert(string_views(r@) =~= seq!["真实结果"@, "实测结果"@, "实际结果"@]);
        r
    }

    /// The sections the `prune` term requires.
    pub fn prune_require_fields(&self) -> (r: Vec<String>)
        ensures
            string_views(r@) == prune_require_fields_spec(self.terms@),
    {
        match self.get("prune") {
            Some(t) => clone_strings(&t.require_fields),
            None => Vec::new(),
        }
    }

    /// The `prune` term's `enforce_on`.
    pub fn prune_enforce_on(&self) -> (r: Vec<String>)
        ensures
            string_views(r@) == prune_enforce_on_spec(self.terms@),
    {
        match self.get("prune") {
            Some(t) => clone_strings(&t.enforce_on),
            None => Vec::new(),
        }
    }
}

} // verus!
