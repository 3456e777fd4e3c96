//! The git audit layer: what is asked of git, and how its answers are read.
use vstd::prelude::*;
use crate::text::string_views;
use crate::error::Error;
use crate::text::{
    chars_of, extend_chars, extend_str, lines, lines_of, split_char, split_on, string_of, trim,
    trim_chars, views,
};
use crate::textops::{decimal, decimal_chars};

verus! {

broadcast use vstd::string::group_string_axioms;

/// The audit log's author.
pub struct Git;

pub open spec fn commit_message_spec(summary: Seq<char>, actor: Seq<char>) -> Seq<char> {
    summary + "\n\nathena-actor: "@ + actor
}

/// A commit message: the summary, and the actor in a trailer.
pub fn commit_message(summary: &str, actor: &str) -> (r: String)
    ensures
        r@ == commit_message_spec(summary@, actor@),
{
    let mut v: Vec<char> = Vec::new();
    extend_str(&mut v, summary);
    extend_str(&mut v, "\n\nathena-actor: ");
    extend_str(&mut v, actor);
    string_of(v.as_slice())
}


/// `git add -A -- <paths>`: stage exactly the given paths.
pub fn add_paths_args(paths: &Vec<String>) -> (r: Vec<String>)
    ensures
        string_views(r@) == seq!["add"@, "-A"@, "--"@] + string_views(paths@),
{
    let mut r: Vec<String> = Vec::new();
    r.push("add".to_string());
    r.push("-A".to_string());
    r.push("--".to_string());
    let ghost pre = string_views(r@);
    assert(pre =~= seq!["add"@, "-A"@, "--"@]);
    let mut i: usize = 0;
    while i < paths.len()
        invariant
            i <= paths.len(),
            string_views(r@) == pre + string_views(paths@).take(i as int),
        decreases paths.len() - i,
    {
        let ghost before = string_views(r@);
        let c = paths[i].clone();
        assert(c@ == paths@[i as int]@);
        r.push(c);
        assert(string_views(r@) =~= before.push(paths@[i as int]@));
        i += 1;
        assert(string_views(r@) =~= pre + string_views(paths@).take(i as int));
    }
    assert(string_views(paths@).take(paths.len() as int) =~= string_views(paths@));
    r
}

/// `git log -<n> --pretty=format:%h<US>%s`.
pub fn log_args(n: usize) -> (r: Vec<String>)
    ensures
        string_views(r@) == seq!["log"@, "-"@ + decimal(n as nat), "--pretty=format:%h\x1f%s"@],
{
    let mut r: Vec<String> = Vec::new();
    r.push("log".to_string());
    let mut c: Vec<char> = Vec::new();
    c.push('-');
    let d = decimal_chars(n);
    extend_chars(&mut c, d.as_slice());
    proof {
        reveal_strlit("-");
    }
    assert(c@ =~= "-"@ + decimal(n as nat));
    r.push(string_of(c.as_slice()));
    r.push("--pretty=format:%h\x1f%s".to_string());
    assert(string_views(r@) =~= seq!["log"@, "-"@ + decimal(n as nat), "--pretty=format:%h\x1f%s"@]);
    r
}

/// `git diff --cached --quiet` exits with 1 when something is staged.
pub fn is_dirty(code: Option<i32>) -> (b: bool)
    ensures
        b == (code == Some(1i32)),
{
    match code {
        Some(c) => c == 1,
        None => false,
    }
}

/// A failed git run becomes an error naming the step and git's message.
pub fn check(success: bool, stderr: &str, what: &str) -> (r: Result<(), Error>)
    ensures
        r is Ok <==> success,
        r matches Err(e) ==> (e matches Error::Git { message } && message@ == what@ + ": "@ + trim(
            stderr@,
        )),
{
    if success {
        return Ok(());
    }
    let mut v: Vec<char> = Vec::new();
    extend_str(&mut v, what);
    extend_str(&mut v, ": ");
    let s = chars_of(stderr);
    let t = trim_chars(s.as_slice());
    extend_chars(&mut v, t.as_slice());
    Err(Error::Git { message: string_of(v.as_slice()) })
}

/// A log line `<hash><US><subject>`: the hash and the subject, when the
/// separator is there.
pub open spec fn log_row(line: Seq<char>) -> Option<(Seq<char>, Seq<char>)> {
    let parts = split_char(line, '\x1f');
    if parts.len() >= 2 {
        Some((parts[0], parts[1]))
    } else {
        None
    }
}

/// The rows of `git log` output, lines without a separator skipped.
pub open spec fn log_rows(ls: Seq<Seq<char>>) -> Seq<(Seq<char>, Seq<char>)>
    decreases ls.len(),
{
    if ls.len() == 0 {
        seq![]
    } else {
        let rest = log_rows(ls.drop_last());
        match log_row(ls.last()) {
            Some(r) => rest.push(r),
            None => rest,
        }
    }
}

pub open spec fn pair_views(v: Seq<(String, String)>) -> Seq<(Seq<char>, Seq<char>)> {
    v.map_values(|p: (String, String)| (p.0@, p.1@))
}

/// Read the output of `git log` as (short hash, subject) rows.
pub fn parse_log(out: &str) -> (r: Vec<(String, String)>)
    ensures
        pair_views(r@) == log_rows(lines(out@)),
{
    let v = chars_of(out);
    let ls = lines_of(v.as_slice());
    let ghost gl = lines(out@);
    let mut rows: Vec<(String, String)> = Vec::new();
    let mut i: usize = 0;
    while i < ls.len()
        invariant
            i <= ls.len(),
            views(ls@) == gl,
            pair_views(rows@) == log_rows(gl.take(i as int)),
        decreases ls.len() - i,
    {
        assert(ls@[i as int]@ == gl[i as int]);
        assert(gl.take(i + 1).drop_last() =~= gl.take(i as int));
        let parts = split_on(ls[i].as_slice(), '\x1f');
        if parts.len() >= 2 {
            assert(views(parts@)[0] == parts@[0]@);
            assert(views(parts@)[1] == parts@[1]@);
            let ghost before = pair_views(rows@);
            rows.push((string_of(parts[0].as_slice()), string_of(parts[1].as_slice())));
            assert(pair_views(rows@) =~= before.push((parts@[0]@, parts@[1]@)));
        }
        i += 1;
    }
    assert(gl.take(ls.len() as int) =~= gl);
    rows
}

/// The `-c` settings every git run gets: the tool's identity, no signing.
pub fn identity_args() -> (r: Vec<String>)
    ensures
        string_views(r@) == seq![
            "-c"@,
            "user.name=Athena"@,
            "-c"@,
            "user.email=athena@local"@,
            "-c"@,
            "commit.gpgsign=false"@,
        ],
{
    let mut r: Vec<String> = Vec::new();
    r.push("-c".to_string());
    r.push("user.name=Athena".to_string());
    r.push("-c".to_string());
    r.push("user.email=athena@local".to_string());
    r.push("-c".to_string());
    r.push("commit.gpgsign=false".to_string());
    assert(string_views(r@) =~= seq![
        "-c"@,
        "user.name=Athena"@,
        "-c"@,
        "user.email=athena@local"@,
        "-c"@,
        "commit.gpgsign=false"@,
    ]);
    r
}


/// One git run: its arguments, and the step an error names.
pub struct GitCall {
    pub args: Vec<String>,
    pub what: &'static str,
}

/// The runs a commit goes through.
#[derive(Debug, Clone, Copy, PartialEq, Eq, Structural)]
pub enum CommitStage {
    Staging,
    Checking,
    Committing,
}

/// What follows a finished run of a commit.
pub enum CommitNext {
    Run(CommitStage, GitCall),
    Finished,
    Failed(Error),
}

fn strings_of(items: &[&str]) -> (r: Vec<String>)
    ensures
        r@.len() == items@.len(),
        forall|i: int| 0 <= i < items@.len() ==> #[trigger] r@[i]@ == items@[i]@,
{
    let mut r: Vec<String> = Vec::new();
    let mut i: usize = 0;
    while i < items.len()
        invariant
            i <= items@.len(),
            r@.len() == i,
            forall|j: int| 0 <= j < i ==> #[trigger] r@[j]@ == items@[j]@,
        decreases items.len() - i,
    {
        r.push(items[i].to_string());
        i += 1;
    }
    r
}

impl Git {
    /// Committing the whole tree starts by staging everything.
    pub fn commit_all() -> (r: GitCall)
        ensures
            string_views(r.args@) == seq!["add"@, "-A"@],
            r.what@ == "git add"@,
    {
        let args = strings_of(&["add", "-A"]);
        assert(string_views(args@) =~= seq!["add"@, "-A"@]);
        GitCall { args, what: "git add" }
    }

    /// Committing exactly `paths` (relative to the root; the whole tree when
    /// there are none) starts by staging them.
    pub fn commit_paths(paths: &Vec<String>) -> (r: GitCall)
        ensures
            paths@.len() == 0 ==> string_views(r.args@) == seq!["add"@, "-A"@],
            paths@.len() > 0 ==> string_views(r.args@) == seq!["add"@, "-A"@, "--"@]
                + string_views(paths@),
            r.what@ == "git add"@,
    {
        if paths.len() == 0 {
            Git::commit_all()
        } else {
            GitCall { args: add_paths_args(paths), what: "git add" }
        }
    }

    /// After a run of `stage` ended (its success, exit code and error
    /// output): the next run, or the end. Nothing staged means no commit.
    pub fn commit_next(
        stage: CommitStage,
        success: bool,
        code: Option<i32>,
        stderr: &str,
        summary: &str,
        actor: &str,
    ) -> (r: CommitNext)
        ensures
            stage == CommitStage::Staging && !success ==> (r matches CommitNext::Failed(
                Error::Git { message },
            ) && message@ == "git add"@ + ": "@ + trim(stderr@)),
            stage == CommitStage::Staging && success ==> (r matches CommitNext::Run(
                CommitStage::Checking,
                c,
            ) && string_views(c.args@) == seq!["diff"@, "--cached"@, "--quiet"@] && c.what@
                == "git diff"@),
            stage == CommitStage::Checking && code != Some(1i32) ==> r is Finished,
            stage == CommitStage::Checking && code == Some(1i32) ==> (r matches CommitNext::Run(
                CommitStage::Committing,
                c,
            ) && string_views(c.args@) == seq![
                "commit"@,
                "-q"@,
                "-m"@,
                commit_message_spec(summary@, actor@),
            ] && c.what@ == "git commit"@),
            stage == CommitStage::Committing && success ==> r is Finished,
            stage == CommitStage::Committing && !success ==> (r matches CommitNext::Failed(
                Error::Git { message },
            ) && message@ == "git commit"@ + ": "@ + trim(stderr@)),
    {
        match stage {
            CommitStage::Staging => match check(success, stderr, "git add") {
                Err(e) => CommitNext::Failed(e),
                Ok(()) => {
                    let args = strings_of(&["diff", "--cached", "--quiet"]);
                    assert(string_views(args@) =~= seq!["diff"@, "--cached"@, "--quiet"@]);
                    CommitNext::Run(CommitStage::Checking, GitCall { args, what: "git diff" })
                },
            },
            CommitStage::Checking => {
                if !is_dirty(code) {
                    return CommitNext::Finished;
                }
                let mut args = strings_of(&["commit", "-q", "-m"]);
                args.push(commit_message(summary, actor));
                assert(string_views(args@) =~= seq![
                    "commit"@,
                    "-q"@,
                    "-m"@,
                    commit_message_spec(summary@, actor@),
                ]);
                CommitNext::Run(CommitStage::Committing, GitCall { args, what: "git commit" })
            },
            CommitStage::Committing => match check(success, stderr, "git commit") {
                Err(e) => CommitNext::Failed(e),
                Ok(()) => CommitNext::Finished,
            },
        }
    }

    /// The (short hash, subject) rows of a `git log` run, or the error of a
    /// failed one.
    pub fn log(success: bool, stdout: &str, stderr: &str) -> (r: Result<Vec<(String, String)>, Error>)
        ensures
            r is Ok <==> success,
            r matches Ok(rows) ==> pair_views(rows@) == log_rows(lines(stdout@)),
            r matches Err(e) ==> (e matches Error::Git { message } && message@ == "git log"@ + ": "@
                + trim(stderr@)),
    {
        match check(success, stderr, "git log") {
            Err(e) => Err(e),
            Ok(()) => Ok(parse_log(stdout)),
        }
    }
}

} // verus!
