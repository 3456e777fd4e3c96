//! Errors of the protocol tool.
use vstd::prelude::*;
use crate::text::{extend_str, string_of};

verus! {

broadcast use vstd::string::group_string_axioms;

/// What can go wrong; every variant carries the text it reports.
#[derive(Debug)]
pub enum Error {
    /// A file-system failure, with the system's description.
    Io { message: String },
    /// A path that resolves outside the state root.
    PathEscape { path: String },
    /// Frontmatter that cannot be parsed (reported, never repaired).
    Parse { path: String, message: String },
    Toml { path: String, message: String },
    /// A slug that is not found, or found in several status directories.
    Slug { slug: String, message: String },
    /// An illegal transition or an unmet precondition.
    Transition { message: String },
    /// A target that exists with other content; needs an explicit override.
    Conflict { message: String },
    Git { message: String },
}

/// The text the error is shown as.
pub open spec fn error_text(e: Error) -> Seq<char> {
    match e {
        Error::Io { message } => "IO 错误: "@ + message@,
        Error::PathEscape { path } => "路径越界: `"@ + path@
            + "` 解析到 ~/.Athena 之外。\n= 状态内容不得离开 ~/.Athena（§1.1 位置红线）。请改用相对 ~/.Athena 的路径。"@,
        Error::Parse { path, message } => "解析 "@ + path@ + " 失败\n= 原因: "@ + message@
            + "\n= 这是人工/AI 直接编辑导致的解析错误，Athena 不会自动修改你的文件（§9.1）。\n= 请自行修复后重试。"@,
        Error::Toml { path, message } => "TOML "@ + path@ + " 解析失败\n= 原因: "@ + message@,
        Error::Slug { slug, message } => "工作项 `"@ + slug@ + "`: "@ + message@,
        Error::Transition { message } => "非法转换: "@ + message@,
        Error::Conflict { message } => "拒绝覆盖: "@ + message@,
        Error::Git { message } => "git 错误: "@ + message@,
    }
}

impl Error {
    /// The text the error is shown as.
    pub fn describe(&self) -> (s: String)
        ensures
            s@ == error_text(*self),
    {
        let mut v: Vec<char> = Vec::new();
        match self {
            Error::Io { message } => {
                extend_str(&mut v, "IO 错误: ");
                extend_str(&mut v, message.as_str());
            },
            Error::PathEscape { path } => {
                extend_str(&mut v, "路径越界: `");
                extend_str(&mut v, path.as_str());
                extend_str(
                    &mut v,
                    "` 解析到 ~/.Athena 之外。\n= 状态内容不得离开 ~/.Athena（§1.1 位置红线）。请改用相对 ~/.Athena 的路径。",
                );
            },
            Error::Parse { path, message } => {
                extend_str(&mut v, "解析 ");
                extend_str(&mut v, path.as_str());
                extend_str(&mut v, " 失败\n= 原因: ");
                extend_str(&mut v, message.as_str());
                extend_str(
                    &mut v,
                    "\n= 这是人工/AI 直接编辑导致的解析错误，Athena 不会自动修改你的文件（§9.1）。\n= 请自行修复后重试。",
                );
            },
            Error::Toml { path, message } => {
                extend_str(&mut v, "TOML ");
                extend_str(&mut v, path.as_str());
                extend_str(&mut v, " 解析失败\n= 原因: ");
                extend_str(&mut v, message.as_str());
            },
            Error::Slug { slug, message } => {
                extend_str(&mut v, "工作项 `");
                extend_str(&mut v, slug.as_str());
                extend_str(&mut v, "`: ");
                extend_str(&mut v, message.as_str());
            },
            Error::Transition { message } => {
                extend_str(&mut v, "非法转换: ");
                extend_str(&mut v, message.as_str());
            },
            Error::Conflict { message } => {
                extend_str(&mut v, "拒绝覆盖: ");
                extend_str(&mut v, message.as_str());
            },
            Error::Git { message } => {
                extend_str(&mut v, "git 错误: ");
                extend_str(&mut v, message.as_str());
            },
        }
        string_of(v.as_slice())
    }
}

} // verus!
