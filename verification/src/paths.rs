//! The few `std::path` operations the library relies on, through named
//! results: parent directory, file stem and file name, and joining. Each name
//! follows the path rules of the platform the crate is built for (separators,
//! prefixes, what counts as absolute); those rules are fixed for a build, so
//! the same text always gives the same result there.
use vstd::prelude::*;

verus! {

/// What `Path::parent` gives for a path, as text.
pub uninterp spec fn parent_of(p: Seq<char>) -> Option<Seq<char>>;

/// What `Path::file_stem` gives for a path, when it is valid text.
pub uninterp spec fn file_stem_of(p: Seq<char>) -> Option<Seq<char>>;

/// What `Path::file_name` gives for a path, when it is valid text.
pub uninterp spec fn file_name_of(p: Seq<char>) -> Option<Seq<char>>;

/// What `Path::is_absolute` says of a path.
pub uninterp spec fn is_absolute_path(p: Seq<char>) -> bool;

/// `Path::new(p).is_absolute()`.
#[verifier::external_body]
pub fn path_is_absolute(p: &str) -> (r: bool)
    ensures
        r == is_absolute_path(p@),
{
    std::path::Path::new(p).is_absolute()
}

/// What `Path::join` gives for a base and a relative name, as text.
pub uninterp spec fn joined(base: Seq<char>, name: Seq<char>) -> Seq<char>;

/// `Path::new(p).parent()`, as a `String`.
#[verifier::external_body]
pub fn path_parent(p: &str) -> (r: Option<String>)
    ensures
        match r {
            Some(s) => parent_of(p@) == Some(s@),
            None => parent_of(p@) is None,
        },
{
    match std::path::Path::new(p).parent() {
        Some(q) => Some(q.to_string_lossy().into_owned()),
        None => None,
    }
}

/// `Path::new(p).file_stem()`, when it is valid text.
#[verifier::external_body]
pub fn path_file_stem(p: &str) -> (r: Option<String>)
    ensures
        match r {
            Some(s) => file_stem_of(p@) == Some(s@),
            None => file_stem_of(p@) is None,
        },
{
    match std::path::Path::new(p).file_stem() {
        Some(s) => s.to_str().map(String::from),
        None => None,
    }
}

/// `Path::new(p).file_name()`, when it is valid text.
#[verifier::external_body]
pub fn path_file_name(p: &str) -> (r: Option<String>)
    ensures
        match r {
            Some(s) => file_name_of(p@) == Some(s@),
            None => file_name_of(p@) is None,
        },
{
    match std::path::Path::new(p).file_name() {
        Some(s) => s.to_str().map(String::from),
        None => None,
    }
}

/// `Path::new(base).join(name)`, as a `String`.
#[verifier::external_body]
pub fn path_join(base: &str, name: &str) -> (r: String)
    ensures
        r@ == joined(base@, name@),
{
    std::path::Path::new(base).join(name).to_string_lossy().into_owned()
}

} // verus!
