//! The state root (`~/.Athena`): where things live, and the guard that keeps
//! every write inside it.
use vstd::prelude::*;
use crate::error::Error;
use crate::path::{file_name_chars, file_name_spec, join_path, join_spec};
use crate::text::{chars_eq, chars_of, split_char, split_on, string_of, views};

verus! {

broadcast use vstd::string::group_string_axioms;

/// The state root and its layout.
pub struct Store {
    pub root: String,
}

impl Store {
    pub open spec fn projects_dir_spec(&self) -> Seq<char> {
        join_spec(self.root@, "projects"@)
    }

    pub open spec fn project_dir_spec(&self, project: Seq<char>) -> Seq<char> {
        join_spec(self.projects_dir_spec(), project)
    }

    pub fn projects_dir(&self) -> (r: String)
        ensures
            r@ == self.projects_dir_spec(),
    {
        join_path(self.root.as_str(), "projects")
    }

    pub fn project_dir(&self, project: &str) -> (r: String)
        ensures
            r@ == self.project_dir_spec(project@),
    {
        let p = self.projects_dir();
        join_path(p.as_str(), project)
    }

    pub fn status_dir(&self, project: &str, status: &str) -> (r: String)
        ensures
            r@ == join_spec(self.project_dir_spec(project@), status@),
    {
        let p = self.project_dir(project);
        join_path(p.as_str(), status)
    }

    pub fn templates_dir(&self) -> (r: String)
        ensures
            r@ == join_spec(self.root@, "templates"@),
    {
        join_path(self.root.as_str(), "templates")
    }

    pub fn terms_toml(&self) -> (r: String)
        ensures
            r@ == join_spec(self.root@, "terms.local.toml"@),
    {
        join_path(self.root.as_str(), "terms.local.toml")
    }

    pub fn terms_md(&self) -> (r: String)
        ensures
            r@ == join_spec(self.root@, "terms.md"@),
    {
        join_path(self.root.as_str(), "terms.md")
    }

    pub fn global_pitfalls(&self) -> (r: String)
        ensures
            r@ == join_spec(self.root@, "pitfalls/global.md"@),
    {
        join_path(self.root.as_str(), "pitfalls/global.md")
    }

    pub fn project_pitfalls(&self, project: &str) -> (r: String)
        ensures
            r@ == join_spec(self.project_dir_spec(project@), "pitfalls.md"@),
    {
        let p = self.project_dir(project);
        join_path(p.as_str(), "pitfalls.md")
    }

    /// The project's verbatim ledger of what the human said.
    pub fn project_voice(&self, project: &str) -> (r: String)
        ensures
            r@ == join_spec(self.project_dir_spec(project@), "voice.md"@),
    {
        let p = self.project_dir(project);
        join_path(p.as_str(), "voice.md")
    }

    pub fn global_voice(&self) -> (r: String)
        ensures
            r@ == join_spec(self.root@, "voice.md"@),
    {
        join_path(self.root.as_str(), "voice.md")
    }

    pub fn config_toml(&self) -> (r: String)
        ensures
            r@ == join_spec(self.root@, "config.toml"@),
    {
        join_path(self.root.as_str(), "config.toml")
    }

    /// The global notice board (one source shared by all projects).
    pub fn notices_md(&self) -> (r: String)
        ensures
            r@ == join_spec(self.root@, "notices.md"@),
    {
        join_path(self.root.as_str(), "notices.md")
    }

    /// A project's pending-falsification list.
    pub fn pending_md(&self, project: &str) -> (r: String)
        ensures
            r@ == join_spec(self.project_dir_spec(project@), "pending.md"@),
    {
        let p = self.project_dir(project);
        join_path(p.as_str(), "pending.md")
    }

    /// The lexical half of the path guard: `rel` joined to the state root,
    /// refusing absolute paths and `..`. The joined path is what gets
    /// canonicalised before `resolve_rel` decides.
    pub fn joined_rel(&self, rel: &str) -> (r: Result<String, Error>)
        ensures
            r is Ok <==> lexically_inside(rel@),
            r matches Ok(p) ==> p@ == join_spec(self.root@, rel@),
            r matches Err(e) ==> (e matches Error::PathEscape { path } && path@ == rel@),
    {
        if !lexically_ok(rel) {
            return Err(Error::PathEscape { path: rel.to_string() });
        }
        Ok(join_path(self.root.as_str(), rel))
    }

    /// Resolve a path given relative to the state root: refuse absolute
    /// paths and `..`, then accept the canonical form of the joined path
    /// (its nearest existing ancestor canonicalised, the rest put back)
    /// only when it lies inside the canonical root. `canonical` and
    /// `root_canon` are those canonical forms, `None` where canonicalising
    /// failed. Every refusal is a path escape; a root that cannot be
    /// canonicalised is reported with the root's own path.
    pub fn resolve_rel(&self, rel: &str, canonical: Option<String>, root_canon: Option<String>) -> (r: Result<
        String,
        Error,
    >)
        ensures
            r is Ok <==> (lexically_inside(rel@) && canonical is Some && root_canon is Some
                && path_starts_with_spec(canonical->0@, root_canon->0@)),
            r matches Ok(p) ==> canonical == Some(p) && lexically_inside(rel@) && path_starts_with_spec(
                p@,
                root_canon->0@,
            ),
            r matches Err(e) ==> (e matches Error::PathEscape { path } && (if lexically_inside(rel@)
                && canonical is Some && root_canon is None {
                path@ == self.root@
            } else {
                path@ == rel@
            })),
    {
        if !lexically_ok(rel) {
            return Err(Error::PathEscape { path: rel.to_string() });
        }
        let c = match canonical {
            Some(c) => c,
            None => return Err(Error::PathEscape { path: rel.to_string() }),
        };
        let rc = match root_canon {
            Some(rc) => rc,
            None => return Err(Error::PathEscape { path: self.root.clone() }),
        };
        confine(rel, Some(c), rc.as_str())
    }
}

/// A relative path without `..` (and not absolute).
pub open spec fn lexically_inside(rel: Seq<char>) -> bool {
    !(rel.len() > 0 && rel[0] == '/') && forall|i: int|
        0 <= i < split_char(rel, '/').len() ==> #[trigger] split_char(rel, '/')[i] != seq!['.', '.']
}

fn is_dotdot(v: &Vec<char>) -> (b: bool)
    ensures
        b == (v@ == seq!['.', '.']),
{
    let b = v.len() == 2 && v[0] == '.' && v[1] == '.';
    if b {
        assert(v@ =~= seq!['.', '.']);
    }
    b
}

fn lexically_ok(rel: &str) -> (b: bool)
    ensures
        b == lexically_inside(rel@),
{
    let v = chars_of(rel);
    if v.len() > 0 && v[0] == '/' {
        return false;
    }
    let segs = split_on(v.as_slice(), '/');
    let mut i: usize = 0;
    while i < segs.len()
        invariant
            i <= segs.len(),
            views(segs@) == split_char(rel@, '/'),
            forall|j: int| 0 <= j < i ==> #[trigger] split_char(rel@, '/')[j] != seq!['.', '.'],
        decreases segs.len() - i,
    {
        assert(segs@[i as int]@ == split_char(rel@, '/')[i as int]);
        if is_dotdot(&segs[i]) {
            return false;
        }
        i += 1;
    }
    true
}

// ---------------------------------------------------------------------------
// Components
// ---------------------------------------------------------------------------

/// The named segments from position `i` on (empty and `.` segments dropped).
pub open spec fn named_from(segs: Seq<Seq<char>>, i: int) -> Seq<Seq<char>>
    decreases segs.len() - i,
{
    if i < 0 || i >= segs.len() {
        seq![]
    } else if crate::path::is_named(segs[i]) {
        seq![segs[i]] + named_from(segs, i + 1)
    } else {
        named_from(segs, i + 1)
    }
}

/// `Path::components` on Unix, each as text: `/` for the root, `.` for a
/// leading current-directory component, then the named parts (`..` kept).
pub open spec fn components_spec(p: Seq<char>) -> Seq<Seq<char>> {
    let abs = p.len() > 0 && p[0] == '/';
    let cur = !abs && (p == seq!['.'] || (p.len() >= 2 && p[0] == '.' && p[1] == '/'));
    (if abs {
        seq![seq!['/']]
    } else if cur {
        seq![seq!['.']]
    } else {
        seq![]
    }) + named_from(split_char(p, '/'), 0)
}

/// `Path::starts_with`: `base`'s components are a prefix of `p`'s.
pub open spec fn path_starts_with_spec(p: Seq<char>, base: Seq<char>) -> bool {
    let a = components_spec(p);
    let b = components_spec(base);
    b.len() <= a.len() && a.take(b.len() as int) == b
}

fn components_of(p: &[char]) -> (r: Vec<Vec<char>>)
    ensures
        views(r@) == components_spec(p@),
{
    let abs = p.len() > 0 && p[0] == '/';
    let cur = !abs && ((p.len() == 1 && p[0] == '.') || (p.len() >= 2 && p[0] == '.' && p[1] == '/'));
    proof {
        if p.len() == 1 && p@[0] == '.' {
            assert(p@ =~= seq!['.']);
        }
    }
    let mut r: Vec<Vec<char>> = Vec::new();
    if abs {
        let mut x: Vec<char> = Vec::new();
        x.push('/');
        r.push(x);
    } else if cur {
        let mut x: Vec<char> = Vec::new();
        x.push('.');
        r.push(x);
    }
    let ghost head = views(r@);
    assert(head =~= (if abs {
        seq![seq!['/']]
    } else if cur {
        seq![seq!['.']]
    } else {
        seq![]
    }));
    let segs = split_on(p, '/');
    let ghost gs = split_char(p@, '/');
    let mut i: usize = 0;
    assert(named_from(gs, 0) == named_from(gs, 0));
    while i < segs.len()
        invariant
            i <= segs.len(),
            views(segs@) == gs,
            views(r@) + named_from(gs, i as int) == head + named_from(gs, 0),
        decreases segs.len() - i,
    {
        assert(segs@[i as int]@ == gs[i as int]);
        let s = &segs[i];
        let named = s.len() > 0 && !(s.len() == 1 && s[0] == '.');
        proof {
            if s@.len() == 1 && s@[0] == '.' {
                assert(s@ =~= seq!['.']);
            }
        }
        if named {
            let c = crate::text::sub_chars(s.as_slice(), 0, s.len());
            assert(c@ =~= gs[i as int]);
            let ghost before = views(r@);
            r.push(c);
            assert(views(r@) =~= before + seq![gs[i as int]]);
        }
        i += 1;
    }
    r
}

/// `Path::starts_with`.
pub fn path_starts_with(p: &str, base: &str) -> (b: bool)
    ensures
        b == path_starts_with_spec(p@, base@),
{
    let pv = chars_of(p);
    let bv = chars_of(base);
    let a = components_of(pv.as_slice());
    let c = components_of(bv.as_slice());
    if c.len() > a.len() {
        return false;
    }
    let mut i: usize = 0;
    while i < c.len()
        invariant
            c.len() <= a.len(),
            i <= c.len(),
            views(a@) == components_spec(p@),
            views(c@) == components_spec(base@),
            forall|j: int| 0 <= j < i ==> views(a@)[j] == views(c@)[j],
        decreases c.len() - i,
    {
        assert(views(a@)[i as int] == a@[i as int]@);
        assert(views(c@)[i as int] == c@[i as int]@);
        if !chars_eq(a[i].as_slice(), c[i].as_slice()) {
            return false;
        }
        i += 1;
    }
    assert(views(a@).take(c.len() as int) =~= views(c@));
    true
}

/// The second half of the guard: a resolved path must lie inside the
/// (canonical) state root; a path that could not be canonicalised escapes.
pub fn confine(rel: &str, canonical: Option<String>, root_canon: &str) -> (r: Result<String, Error>)
    ensures
        r is Ok <==> (canonical matches Some(c) && path_starts_with_spec(c@, root_canon@)),
        r matches Ok(p) ==> canonical == Some(p),
        r matches Err(e) ==> (e matches Error::PathEscape { path } && path@ == rel@),
{
    match canonical {
        Some(c) => {
            if path_starts_with(c.as_str(), root_canon) {
                Ok(c)
            } else {
                Err(Error::PathEscape { path: rel.to_string() })
            }
        },
        None => Err(Error::PathEscape { path: rel.to_string() }),
    }
}

// ---------------------------------------------------------------------------
// Canonicalising a path that may not exist yet
// ---------------------------------------------------------------------------

/// What `Path::parent` returns, as `std` computes it.
pub uninterp spec fn parent_spec(p: Seq<char>) -> Option<Seq<char>>;

/// `Path::parent`: the path without its last component.
#[verifier::external_body]
fn path_parent(p: &str) -> (r: Option<String>)
    ensures
        match r {
            Some(q) => parent_spec(p@) == Some(q@),
            None => parent_spec(p@) is None,
        },
{
    std::path::Path::new(p).parent().map(|q| q.to_string_lossy().into_owned())
}

/// One step of canonicalising the nearest existing ancestor of a path.
pub enum CanonStep {
    /// The canonical path, with the names that did not exist put back.
    Done(String),
    /// Try the parent next.
    Up(String),
    /// No ancestor left to try.
    Fail,
}

/// `out` with each of `names` pushed, the last one first.
pub open spec fn push_back_names(out: Seq<char>, names: Seq<Seq<char>>) -> Seq<char>
    decreases names.len(),
{
    if names.len() == 0 {
        out
    } else {
        push_back_names(join_spec(out, names.last()), names.drop_last())
    }
}

/// Given the outcome of canonicalising `cur` (`None` when it does not exist),
/// decide the next step; the names still to put back collect in `suffix`.
pub fn canonicalize_step(cur: &str, suffix: &mut Vec<String>, canonical: Option<String>) -> (r: CanonStep)
    ensures
        canonical matches Some(c) ==> (r matches CanonStep::Done(d) && d@ == push_back_names(
            c@,
            old(suffix)@.map_values(|s: String| s@),
        ) && final(suffix)@ == old(suffix)@),
        canonical is None ==> (match (parent_spec(cur@), file_name_spec(cur@)) {
            (Some(p), Some(n)) => r matches CanonStep::Up(q) && q@ == p && final(suffix)@.map_values(
                |s: String| s@,
            ) == old(suffix)@.map_values(|s: String| s@).push(n),
            _ => r is Fail && final(suffix)@ == old(suffix)@,
        }),
{
    match canonical {
        Some(c) => {
            let mut out = c;
            let mut i: usize = suffix.len();
            let ghost names = suffix@.map_values(|s: String| s@);
            assert(names.take(suffix@.len() as int) =~= names);
            while i > 0
                invariant
                    i <= suffix@.len(),
                    names == suffix@.map_values(|s: String| s@),
                    push_back_names(out@, names.take(i as int)) == push_back_names(
                        c@,
                        names,
                    ),
                decreases i,
            {
                assert(names.take(i as int).drop_last() =~= names.take(i - 1));
                out = join_path(out.as_str(), suffix[i - 1].as_str());
                i -= 1;
            }
            assert(names.take(suffix@.len() as int) =~= names);
            CanonStep::Done(out)
        },
        None => {
            let v = chars_of(cur);
            match (path_parent(cur), file_name_chars(v.as_slice())) {
                (Some(p), Some(n)) => {
                    let ghost before = suffix@.map_values(|s: String| s@);
                    suffix.push(string_of(n.as_slice()));
                    assert(suffix@.map_values(|s: String| s@) =~= before.push(n@));
                    CanonStep::Up(p)
                },
                _ => CanonStep::Fail,
            }
        },
    }
}

/// What `Path::strip_prefix` returns, as `std` computes it.
pub uninterp spec fn strip_prefix_spec(p: Seq<char>, base: Seq<char>) -> Option<Seq<char>>;

/// `Path::strip_prefix`: the part of `p` after `base`.
#[verifier::external_body]
fn strip_prefix(p: &str, base: &str) -> (r: Option<String>)
    ensures
        match r {
            Some(q) => strip_prefix_spec(p@, base@) == Some(q@),
            None => strip_prefix_spec(p@, base@) is None,
        },
{
    std::path::Path::new(p).strip_prefix(base).ok().map(|q| q.to_string_lossy().into_owned())
}

/// `p` relative to `root`, or `p` itself when it is not under `root`.
pub open spec fn srel_spec(root: Seq<char>, p: Seq<char>) -> Seq<char> {
    match strip_prefix_spec(p, root) {
        Some(q) => q,
        None => p,
    }
}

/// A path relative to the state root (as given to `git add`), or the path
/// itself when it is not under the root.
pub fn srel(store: &Store, p: &str) -> (r: String)
    ensures
        r@ == srel_spec(store.root@, p@),
{
    match strip_prefix(p, store.root.as_str()) {
        Some(q) => q,
        None => p.to_string(),
    }
}

} // verus!
