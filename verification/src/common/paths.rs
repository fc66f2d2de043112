//! Where converted files go: output paths built from the input's name.

use vstd::prelude::*;
use crate::common::text::{concat, path_extension, spec_path_extension};

verus! {

/// What `Path::file_stem` of std gives for a path written as text: the
/// file name without its extension, if there is a file name.  The path
/// rules are those of the target the library is built for.
pub uninterp spec fn spec_path_file_stem(path: Seq<char>) -> Option<Seq<char>>;

/// What `Path::join` of std gives for two paths written as text: `part`
/// after `base` with a separator, or `part` alone where it is absolute.
/// The path rules are those of the target the library is built for.
pub uninterp spec fn spec_path_join(base: Seq<char>, part: Seq<char>) -> Seq<char>;

/// What `Path::with_file_name` of std gives for a path written as text: the
/// path with its file name replaced by `name` (or `name` added where it has
/// none).  The path rules are those of the target the library is built
/// for.
pub uninterp spec fn spec_path_with_file_name(path: Seq<char>, name: Seq<char>) -> Seq<char>;

/// Calls `Path::file_stem` of std on the path `path`, as text.  A part of a
/// path given as text is text again, so the result converts back without
/// loss.  The result is named by `spec_path_file_stem`.
#[verifier::external_body]
pub(crate) fn path_file_stem(path: &str) -> (r: Option<String>)
    ensures
        r matches Some(s) ==> spec_path_file_stem(path@) == Some(s@),
        r is None ==> spec_path_file_stem(path@) is None,
{
    std::path::Path::new(path).file_stem().and_then(|s| s.to_str()).map(String::from)
}

/// Calls `Path::join` of std on two paths given as text; joining text with
/// text gives text, so the result converts back without loss.  The result
/// is named by `spec_path_join`.
#[verifier::external_body]
pub(crate) fn path_join(base: &str, part: &str) -> (r: String)
    ensures
        r@ == spec_path_join(base@, part@),
{
    std::path::Path::new(base).join(part).to_string_lossy().into_owned()
}

/// Calls `Path::with_file_name` of std on a path given as text; the result
/// is text again and converts back without loss.  The result is named by
/// `spec_path_with_file_name`.
#[verifier::external_body]
pub(crate) fn path_with_file_name(path: &str, name: &str) -> (r: String)
    ensures
        r@ == spec_path_with_file_name(path@, name@),
{
    std::path::Path::new(path).with_file_name(name).to_string_lossy().into_owned()
}

/// The name of a converted file: the input's file stem (empty where it has
/// none) followed by the new extension.
pub open spec fn converted_name(input: Seq<char>, ext: Seq<char>) -> Seq<char> {
    match spec_path_file_stem(input) {
        Some(s) => s + ext,
        None => ext,
    }
}

/// Where a converted file goes when it sits next to its input or in a
/// named place: an output path with an extension is the file itself; one
/// without names the directory that gets the converted name; with no
/// output path the file goes next to the input.
pub open spec fn converted_path_spec(input: Seq<char>, output: Option<Seq<char>>, ext: Seq<char>) -> Seq<char> {
    match output {
        Some(p) => if spec_path_extension(p) is None {
            spec_path_join(p, converted_name(input, ext))
        } else {
            p
        },
        None => spec_path_with_file_name(input, converted_name(input, ext)),
    }
}

/// Where a converted file goes when its default place is a directory: the
/// output path, or the converted name in `default_dir`; a path without an
/// extension names the directory that gets the converted name.
pub open spec fn converted_path_in_spec(
    input: Seq<char>,
    output: Option<Seq<char>>,
    default_dir: Seq<char>,
    ext: Seq<char>,
) -> Seq<char> {
    let path = match output {
        Some(p) => p,
        None => spec_path_join(default_dir, converted_name(input, ext)),
    };
    if spec_path_extension(path) is None {
        spec_path_join(path, converted_name(input, ext))
    } else {
        path
    }
}

fn converted_name_exec(input: &str, ext: &str) -> (r: String)
    ensures
        r@ == converted_name(input@, ext@),
{
    match path_file_stem(input) {
        Some(s) => concat(s, ext),
        None => String::from_str(ext),
    }
}

/// The path of a converted file next to its input or at `output`, as
/// `converted_path_spec` says.
pub fn converted_path(input: &str, output: Option<&str>, ext: &str) -> (r: String)
    ensures
        r@ == converted_path_spec(
            input@,
            match output {
                Some(p) => Some(p@),
                None => None,
            },
            ext@,
        ),
{
    let name = converted_name_exec(input, ext);
    match output {
        Some(p) => {
            if path_extension(p).is_none() {
                path_join(p, name.as_str())
            } else {
                String::from_str(p)
            }
        },
        None => path_with_file_name(input, name.as_str()),
    }
}

/// The path of a converted file at `output` or in `default_dir`, as
/// `converted_path_in_spec` says.
pub fn converted_path_in(input: &str, output: Option<&str>, default_dir: &str, ext: &str) -> (r: String)
    ensures
        r@ == converted_path_in_spec(
            input@,
            match output {
                Some(p) => Some(p@),
                None => None,
            },
            default_dir@,
            ext@,
        ),
{
    let name = converted_name_exec(input, ext);
    let path = match output {
        Some(p) => String::from_str(p),
        None => path_join(default_dir, name.as_str()),
    };
    if path_extension(path.as_str()).is_none() {
        path_join(path.as_str(), name.as_str())
    } else {
        path
    }
}

} // verus!
