//! `config.toml`: per-machine settings.
use vstd::prelude::*;
use crate::error::Error;
use crate::term::{TermsRegistry, falsification_mode_spec};
use crate::text::{chars_of, string_of, trim, trim_chars};

verus! {

broadcast use vstd::string::group_string_axioms;

#[derive(Debug)]
pub struct Behavior {
    pub falsification_mode: Option<String>,
    pub max_entry_lines: Option<usize>,
}

#[derive(Debug)]
pub struct Config {
    pub default_project: Option<String>,
    /// Where the tool's source repository lives on this machine.
    pub source_repo: Option<String>,
    pub behavior: Behavior,
}

impl Default for Behavior {
    fn default() -> (r: Behavior)
        ensures
            r.falsification_mode is None,
            r.max_entry_lines is None,
    {
        Behavior { falsification_mode: None, max_entry_lines: None }
    }
}

impl Default for Config {
    fn default() -> (r: Config)
        ensures
            r.default_project is None,
            r.source_repo is None,
            r.behavior.falsification_mode is None,
            r.behavior.max_entry_lines is None,
    {
        Config { default_project: None, source_repo: None, behavior: Behavior::default() }
    }
}

/// The project a command works on: the `--project` flag, else the
/// configured default (when not empty), else the current directory's name.
pub fn project_name(flag: Option<&str>, default_project: Option<&str>, cwd_name: Option<&str>) -> (r: Result<String, Error>)
    ensures
        flag matches Some(f) ==> (r matches Ok(p) && p@ == flag->0@),
        flag is None && (default_project matches Some(d) && d@.len() > 0) ==> (r matches Ok(p)
            && p@ == default_project->0@),
        flag is None && !(default_project matches Some(d) && d@.len() > 0) ==> match cwd_name {
            Some(c) => r matches Ok(p) && p@ == c@,
            None => r matches Err(Error::Transition { message }) && message@
                == "无法确定项目：请用 --project 指定，或先 `athena init`"@,
        },
{
    if let Some(f) = flag {
        return Ok(f.to_string());
    }
    if let Some(d) = default_project {
        if chars_of(d).len() > 0 {
            return Ok(d.to_string());
        }
    }
    match cwd_name {
        Some(c) => Ok(c.to_string()),
        None => Err(Error::Transition { message: "无法确定项目：请用 --project 指定，或先 `athena init`".to_string() }),
    }
}

/// The falsification mode in force: the configuration's, else the terms'.
pub fn effective_falsification_mode(config_mode: Option<&str>, terms: &TermsRegistry) -> (r: String)
    ensures
        r@ == match config_mode {
            Some(m) => m@,
            None => falsification_mode_spec(terms.terms@),
        },
{
    match config_mode {
        Some(m) => m.to_string(),
        None => terms.falsification_mode().to_string(),
    }
}

/// Where `onerror` points for the source: the environment's setting when
/// not empty, else the configured `source_repo` (trimmed) when not empty.
pub fn choose_source(env: Option<&str>, configured: Option<&str>) -> (r: Option<String>)
    ensures
        env matches Some(e) && e@.len() > 0 ==> (r matches Some(s) && s@ == env->0@),
        !(env matches Some(e) && e@.len() > 0) ==> match configured {
            Some(c) => if trim(c@).len() > 0 {
                r matches Some(s) && s@ == trim(c@)
            } else {
                r is None
            },
            None => r is None,
        },
{
    if let Some(e) = env {
        if chars_of(e).len() > 0 {
            return Some(e.to_string());
        }
    }
    match configured {
        Some(c) => {
            let v = chars_of(c);
            let t = trim_chars(v.as_slice());
            if t.len() > 0 {
                Some(string_of(t.as_slice()))
            } else {
                None
            }
        },
        None => None,
    }
}

/// The entry-file budget check: the configured limit (150 lines by default)
/// cannot be measured from here, so there is never a warning yet.
pub fn entry_budget_warning(max_entry_lines: Option<usize>) -> (r: Option<String>)
    ensures
        r is None,
{
    let _max = match max_entry_lines {
        Some(m) => m,
        None => 150,
    };
    None
}

} // verus!
