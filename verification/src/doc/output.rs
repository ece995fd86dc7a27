//! Where the documentation of a source file is written.

use vstd::prelude::*;

verus! {

/// The file stem (file name without its last extension) that
/// `std::path::Path::file_stem` finds in `path`, or `None` where the path has
/// no file name.
pub uninterp spec fn path_file_stem(path: Seq<char>) -> Option<Seq<char>>;

/// The path that `std::path::Path::join` makes of `base` and `part`.
pub uninterp spec fn path_join(base: Seq<char>, part: Seq<char>) -> Seq<char>;

/// Calls `std::path::Path::file_stem` on `path`. The contract names the
/// result and does not restate how std splits a path into components; it
/// states that the stem of a `&str` path is text again.
#[verifier::external_body]
fn file_stem(path: &str) -> (r: Option<String>)
    ensures
        match r {
            Some(s) => path_file_stem(path@) == Some(s@),
            None => path_file_stem(path@) is None,
        },
{
    let stem = std::path::Path::new(path).file_stem()?;
    Some(stem.to_string_lossy().into_owned())
}

/// Calls `std::path::Path::join`. The contract names the result; where std
/// puts a separator, and that an absolute `part` replaces `base`, is left to
/// std.
#[verifier::external_body]
fn join_path(base: &str, part: &str) -> (r: String)
    ensures
        r@ == path_join(base@, part@),
{
    std::path::Path::new(base).join(part).to_string_lossy().into_owned()
}

/// The Markdown file name for a source file of the given stem: the stem (or
/// `module` where there is none) followed by `.md`.
pub open spec fn markdown_name(stem: Option<Seq<char>>) -> Seq<char> {
    match stem {
        Some(s) => s + ".md"@,
        None => "module"@ + ".md"@,
    }
}

/// The Markdown file name for a source file whose stem is `stem`.
pub fn markdown_file_name(stem: Option<String>) -> (r: String)
    ensures
        r@ == markdown_name(match stem {
            Some(s) => Some(s@),
            None => None,
        }),
{
    let mut r = match stem {
        Some(s) => s,
        None => String::from_str("module"),
    };
    r.append(".md");
    r
}

/// The path of the Markdown file written for `source` into `out_dir`.
pub fn output_path(out_dir: &str, source: &str) -> (r: String)
    ensures
        r@ == path_join(out_dir@, markdown_name(path_file_stem(source@))),
{
    let stem = file_stem(source);
    let name = markdown_file_name(stem);
    join_path(out_dir, name.as_str())
}

} // verus!
