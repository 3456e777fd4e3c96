//! Work items as found in the status directories.
use vstd::prelude::*;
use crate::document::Document;
use crate::error::Error;
use crate::path::{file_name_chars, file_name_spec, last_index_from};
use crate::text::{chars_eq, chars_of, extend_chars, extend_str, string_of, sub_chars};
use crate::textops::{decimal, decimal_chars};

verus! {

broadcast use vstd::string::group_string_axioms;

/// A parsed work item and the status directory it lies in (the truth).
#[derive(Debug)]
pub struct Item {
    pub path: String,
    pub status: &'static str,
    pub doc: Document,
}

/// The outcome of looking for a slug in every status directory, given the
/// items found there (slugs are unique within a project): none, the one, or
/// an error asking to disambiguate.
pub fn find_item(hits: Vec<Item>, slug: &str) -> (r: Result<Option<Item>, Error>)
    ensures
        hits@.len() == 0 ==> r matches Ok(None),
        hits@.len() == 1 ==> (r matches Ok(Some(it)) && it == hits@[0]),
        hits@.len() >= 2 ==> (r matches Err(Error::Slug { slug: s, message }) && s@ == slug@
            && message@ == "在 "@ + decimal(hits@.len()) + " 个状态目录中重复存在，违反项目内唯一性，请手动消歧"@),
{
    let n = hits.len();
    if n == 0 {
        return Ok(None);
    }
    if n == 1 {
        let mut h = hits;
        let it = h.pop().unwrap();
        return Ok(Some(it));
    }
    let mut m: Vec<char> = Vec::new();
    extend_str(&mut m, "在 ");
    let d = decimal_chars(n);
    extend_chars(&mut m, d.as_slice());
    extend_str(&mut m, " 个状态目录中重复存在，违反项目内唯一性，请手动消歧");
    Err(Error::Slug { slug: slug.to_string(), message: string_of(m.as_slice()) })
}

/// A command needs the item: its absence is an error.
pub fn need_item(found: Option<Item>, slug: &str, project: &str) -> (r: Result<Item, Error>)
    ensures
        found matches Some(it) ==> r == Ok::<Item, Error>(it),
        found is None ==> (r matches Err(Error::Slug { slug: s, message }) && s@ == slug@
            && message@ == "在 "@ + project@ + " 的任何状态目录中都找不到"@),
{
    match found {
        Some(it) => Ok(it),
        None => {
            let mut m: Vec<char> = Vec::new();
            extend_str(&mut m, "在 ");
            extend_str(&mut m, project);
            extend_str(&mut m, " 的任何状态目录中都找不到");
            Err(Error::Slug { slug: slug.to_string(), message: string_of(m.as_slice()) })
        },
    }
}

/// `Path::extension`: after the file name's last `.`, unless that dot
/// starts the name (or there is none).
pub open spec fn extension_spec(p: Seq<char>) -> Option<Seq<char>> {
    match file_name_spec(p) {
        Some(n) => match last_index_from(n, '.', n.len() - 1) {
            Some(d) => if d == 0 {
                None
            } else {
                Some(n.skip(d + 1))
            },
            None => None,
        },
        None => None,
    }
}

/// A file of a status directory that is listed as a work item: a `.md`
/// file other than the project's pitfalls, meta and pending lists.
pub open spec fn is_item_file_spec(p: Seq<char>) -> bool {
    let name = match file_name_spec(p) {
        Some(n) => n,
        None => seq![],
    };
    extension_spec(p) == Some("md"@) && name != "pitfalls.md"@ && name != "meta.md"@
        && name != "pending.md"@
}

/// Whether a file in a status directory is listed as a work item.
pub fn is_item_file(p: &str) -> (b: bool)
    ensures
        b == is_item_file_spec(p@),
{
    let v = chars_of(p);
    let name = match file_name_chars(v.as_slice()) {
        Some(n) => n,
        None => {
            return false;
        },
    };
    let mut i: usize = name.len();
    while i > 0 && name[i - 1] != '.'
        invariant
            i <= name.len(),
            last_index_from(name@, '.', name.len() - 1) == last_index_from(name@, '.', i - 1),
        decreases i,
    {
        i -= 1;
    }
    if i <= 1 {
        return false;
    }
    let ext = sub_chars(name.as_slice(), i, name.len());
    assert(ext@ =~= name@.skip(i as int));
    let md = chars_of("md");
    if !chars_eq(ext.as_slice(), md.as_slice()) {
        return false;
    }
    let a = chars_of("pitfalls.md");
    let b = chars_of("meta.md");
    let c = chars_of("pending.md");
    !chars_eq(name.as_slice(), a.as_slice()) && !chars_eq(name.as_slice(), b.as_slice())
        && !chars_eq(name.as_slice(), c.as_slice())
}

/// The file of an item in a status directory: `<slug>.md`.
pub fn item_file_name(slug: &str) -> (r: String)
    ensures
        r@ == slug@ + ".md"@,
{
    let mut v: Vec<char> = Vec::new();
    extend_str(&mut v, slug);
    extend_str(&mut v, ".md");
    string_of(v.as_slice())
}

} // verus!
