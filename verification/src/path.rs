//! File names, stems and extensions.
//!
//! Cutting a path into its components is left to the platform's path
//! syntax; what is made of the final component, its stem and its extension,
//! is stated and proved here.

use crate::text::{text_of, to_chars};
use vstd::prelude::*;
use vstd::string::*;

verus! {

/// The final component of a path, as `std::path::Path::file_name` gives it,
/// or nothing where the path has none (it is empty, a root, or ends in
/// `..`).
pub uninterp spec fn path_file_name(path: Seq<char>) -> Option<Seq<char>>;

/// The path that `std::path::Path::join` makes of a path and what is to
/// follow it: as a rule the two with a separator between them, and the
/// second alone where that is absolute.
pub uninterp spec fn path_join(base: Seq<char>, segment: Seq<char>) -> Seq<char>;

/// The index of the last `.` in `name`, or `-1` where it holds none.
pub open spec fn last_dot(name: Seq<char>) -> int
    decreases name.len(),
{
    if name.len() == 0 {
        -1
    } else if name.last() == '.' {
        name.len() - 1
    } else {
        last_dot(name.drop_last())
    }
}

/// The extension of a file name: what follows its last `.`, unless that
/// `.` is the first character or there is none.
pub open spec fn name_extension(name: Seq<char>) -> Option<Seq<char>> {
    let dot = last_dot(name);
    if dot > 0 {
        Some(name.skip(dot + 1))
    } else {
        None
    }
}

/// The stem of a file name: what precedes its last `.`, or the whole name
/// where that `.` is the first character or there is none.
pub open spec fn name_stem(name: Seq<char>) -> Seq<char> {
    let dot = last_dot(name);
    if dot > 0 {
        name.take(dot)
    } else {
        name
    }
}

/// The extension of a path: that of its final component.
pub open spec fn path_extension(path: Seq<char>) -> Option<Seq<char>> {
    match path_file_name(path) {
        Some(name) => name_extension(name),
        None => None,
    }
}

/// The stem of a path: that of its final component.
pub open spec fn path_stem(path: Seq<char>) -> Option<Seq<char>> {
    match path_file_name(path) {
        Some(name) => Some(name_stem(name)),
        None => None,
    }
}

/// An index that holds `.` with none after it is the one `last_dot` gives,
/// and so is `-1` where there is no `.` at all.
pub proof fn lemma_last_dot_is(name: Seq<char>, k: int)
    requires
        -1 <= k < name.len(),
        forall|j: int| k < j < name.len() ==> name[j] != '.',
        k >= 0 ==> name[k] == '.',
    ensures
        last_dot(name) == k,
    decreases name.len(),
{
    if name.len() == 0 || name.last() == '.' {
    } else {
        lemma_last_dot_is(name.drop_last(), k);
    }
}

/// A path with an extension has a stem.
pub proof fn lemma_extension_has_stem(path: Seq<char>)
    requires
        path_extension(path) is Some,
    ensures
        path_stem(path) is Some,
{
}

/// Calls `std::path::Path::file_name` on `path` and hands the final
/// component back as a string. The contract only names the result: how a
/// path is cut into components is the platform's rule and is not stated.
#[verifier::external_body]
fn file_name(path: &str) -> (name: Option<String>)
    ensures
        text_of(name) == path_file_name(path@),
{
    std::path::Path::new(path).file_name().map(std::path::Path::new).and_then(
        std::path::Path::to_str,
    ).map(str::to_owned)
}

/// Calls `std::path::Path::join` and hands the joined path back as a
/// string. The contract only names the result: where a separator goes is
/// the platform's rule and is not stated.
#[verifier::external_body]
pub(crate) fn join(base: &str, segment: &str) -> (joined: String)
    ensures
        joined@ == path_join(base@, segment@),
{
    std::path::Path::new(base).join(segment).to_string_lossy().into_owned()
}

/// The index of the last `.` in `chars`, or nothing.
fn find_last_dot(chars: &Vec<char>) -> (dot: Option<usize>)
    ensures
        match dot {
            Some(d) => d < chars.len() && last_dot(chars@) == d,
            None => last_dot(chars@) == -1,
        },
{
    let mut i: usize = chars.len();
    while i > 0 && chars[i - 1] != '.'
        invariant
            i <= chars.len(),
            forall|j: int| i <= j < chars.len() ==> chars@[j] != '.',
        decreases i,
    {
        i -= 1;
    }
    proof {
        lemma_last_dot_is(chars@, i - 1);
    }
    if i > 0 {
        Some(i - 1)
    } else {
        None
    }
}

/// The stem of a file name.
pub fn stem_of(name: &str) -> (stem: String)
    ensures
        stem@ == name_stem(name@),
{
    let chars = to_chars(name);
    match find_last_dot(&chars) {
        Some(dot) => {
            if dot > 0 {
                name.substring_char(0, dot).to_owned()
            } else {
                name.to_owned()
            }
        },
        None => name.to_owned(),
    }
}

/// The extension of a file name, if it has one.
pub fn extension_of(name: &str) -> (ext: Option<String>)
    ensures
        text_of(ext) == name_extension(name@),
{
    let chars = to_chars(name);
    match find_last_dot(&chars) {
        Some(dot) => {
            if dot > 0 {
                Some(name.substring_char(dot + 1, chars.len()).to_owned())
            } else {
                None
            }
        },
        None => None,
    }
}

/// The stem of the final component of a path, or nothing where the path
/// has no final component.
pub fn file_stem(path: &str) -> (stem: Option<String>)
    ensures
        text_of(stem) == path_stem(path@),
{
    match file_name(path) {
        Some(name) => Some(stem_of(name.as_str())),
        None => None,
    }
}

/// The extension of the final component of a path, if it has one.
pub fn extension(path: &str) -> (ext: Option<String>)
    ensures
        text_of(ext) == path_extension(path@),
{
    match file_name(path) {
        Some(name) => extension_of(name.as_str()),
        None => None,
    }
}

} // verus!
