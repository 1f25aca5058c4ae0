//! The standard library's path operations that the toolkit relies on, with
//! what their documentation states of them.
use vstd::prelude::*;

verus! {

/// What `Path::file_name` gives for a path: its final normal component, if any.
pub uninterp spec fn std_file_name(p: Seq<char>) -> Option<Seq<char>>;

/// What `Path::parent` gives for a path: the path without its final component, if any.
pub uninterp spec fn std_parent(p: Seq<char>) -> Option<Seq<char>>;

/// What `PathBuf::join` gives for a base and a path.
pub uninterp spec fn std_join(base: Seq<char>, p: Seq<char>) -> Seq<char>;

/// The index of the last '.' in `name`, if any.
pub open spec fn last_dot(name: Seq<char>) -> Option<int>
    decreases name.len(),
{
    if name.len() == 0 {
        None
    } else if name.last() == '.' {
        Some(name.len() - 1)
    } else {
        last_dot(name.drop_last())
    }
}

/// The extension of a file name: the part after the final '.', unless there is
/// no '.', or the only '.' starts the name.
pub open spec fn name_extension(name: Seq<char>) -> Option<Seq<char>> {
    match last_dot(name) {
        Some(i) => if i > 0 {
            Some(name.subrange(i + 1, name.len() as int))
        } else {
            None
        },
        None => None,
    }
}

/// The stem of a file name: the part before the final '.', or the whole name
/// when there is no '.', or the only '.' starts the name.
pub open spec fn name_stem(name: Seq<char>) -> Seq<char> {
    match last_dot(name) {
        Some(i) => if i > 0 {
            name.subrange(0, i)
        } else {
            name
        },
        None => name,
    }
}

/// What `Path::extension` gives for a path.
pub open spec fn std_extension(p: Seq<char>) -> Option<Seq<char>> {
    match std_file_name(p) {
        Some(n) => name_extension(n),
        None => None,
    }
}

/// What `Path::file_stem` gives for a path.
pub open spec fn std_file_stem(p: Seq<char>) -> Option<Seq<char>> {
    match std_file_name(p) {
        Some(n) => Some(name_stem(n)),
        None => None,
    }
}

/// `Path::file_name`: the final component of a path, if it is a normal one.
/// Nothing is stated of which component that is; the result is named.
#[verifier::external_body]
pub(crate) fn file_name(p: &str) -> (r: Option<String>)
    ensures
        match r {
            Some(s) => std_file_name(p@) == Some(s@),
            None => std_file_name(p@) is None,
        },
{
    match std::path::Path::new(p).file_name() {
        Some(os) => Some(os.to_string_lossy().into_owned()),
        None => None,
    }
}

/// `Path::parent`: the path without its final component; nothing more is stated.
#[verifier::external_body]
pub(crate) fn parent(p: &str) -> (r: Option<String>)
    ensures
        match r {
            Some(s) => std_parent(p@) == Some(s@),
            None => std_parent(p@) is None,
        },
{
    match std::path::Path::new(p).parent() {
        Some(par) => Some(par.to_string_lossy().into_owned()),
        None => None,
    }
}

/// `Path::extension`: as documented, the part of the file name after its final
/// '.', none when the file name has no '.' or only a leading one.
#[verifier::external_body]
pub(crate) fn extension(p: &str) -> (r: Option<String>)
    ensures
        match r {
            Some(s) => std_extension(p@) == Some(s@),
            None => std_extension(p@) is None,
        },
{
    match std::path::Path::new(p).extension() {
        Some(os) => Some(os.to_string_lossy().into_owned()),
        None => None,
    }
}

/// `Path::file_stem`: as documented, the part of the file name before its final
/// '.', or the whole file name when it has no '.' or only a leading one.
#[verifier::external_body]
pub(crate) fn file_stem(p: &str) -> (r: Option<String>)
    ensures
        match r {
            Some(s) => std_file_stem(p@) == Some(s@),
            None => std_file_stem(p@) is None,
        },
{
    match std::path::Path::new(p).file_stem() {
        Some(os) => Some(os.to_string_lossy().into_owned()),
        None => None,
    }
}

/// `PathBuf::join` of a base and a path, as text. What it gives depends on the
/// target's path rules (which paths replace the base, which separator is
/// added); the result is named, not stated.
#[verifier::external_body]
pub(crate) fn join(base: &str, p: &str) -> (r: String)
    ensures
        r@ == std_join(base@, p@),
{
    std::path::PathBuf::from(base).join(p).to_string_lossy().into_owned()
}

/// What `Path == Path` gives for two paths: whether their components match.
pub uninterp spec fn std_path_eq(a: Seq<char>, b: Seq<char>) -> bool;

/// `Path::eq`: whether two paths have the same components. Which texts
/// those are is named, not stated.
#[verifier::external_body]
pub(crate) fn same_path(a: &str, b: &str) -> (r: bool)
    ensures
        r == std_path_eq(a@, b@),
{
    std::path::Path::new(a) == std::path::Path::new(b)
}

} // verus!
