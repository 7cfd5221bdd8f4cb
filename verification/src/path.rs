//! Paths as text. A path is a sequence of segments separated by `/`; what is
//! said here of a path is said of its characters and never asks the file
//! system.

use vstd::prelude::*;
use crate::text::{after_last, chars_between, chars_of, has_prefix, last_position, same_chars};

verus! {

/// The last segment of a path: what follows its last `/`, the whole path
/// where it has none.
pub open spec fn file_name_of(path: Seq<char>) -> Seq<char> {
    match after_last(path, '/') {
        Some(name) => name,
        None => path,
    }
}

/// The extension of a path: what follows the last `.` of its last segment.
/// A segment without a `.`, or whose only `.` is its first character, has
/// none.
pub open spec fn extension_of(path: Seq<char>) -> Option<Seq<char>> {
    let name = file_name_of(path);
    match after_last(name, '.') {
        Some(ext) => if ext.len() + 1 < name.len() {
            Some(ext)
        } else {
            None
        },
        None => None,
    }
}

/// `path` is `subtree` itself or lies below it: it continues `subtree` with a
/// `/`.
pub open spec fn is_under(path: Seq<char>, subtree: Seq<char>) -> bool {
    path == subtree || subtree.push('/').is_prefix_of(path)
}

/// The last segment of `path`.
pub fn file_name(path: &Vec<char>) -> (name: Vec<char>)
    ensures
        name@ == file_name_of(path@),
{
    match last_position(path, '/') {
        Some(at) => chars_between(path, at + 1, path.len()),
        None => {
            let name = chars_between(path, 0, path.len());
            assert(path@.subrange(0, path@.len() as int) =~= path@);
            name
        },
    }
}

/// The extension of `path`, if it has one.
pub fn extension(path: &Vec<char>) -> (ext: Option<Vec<char>>)
    ensures
        ext is Some <==> extension_of(path@) is Some,
        ext matches Some(e) ==> e@ == extension_of(path@).unwrap(),
{
    let name = file_name(path);
    match last_position(&name, '.') {
        Some(at) => {
            if at == 0 {
                None
            } else {
                Some(chars_between(&name, at + 1, name.len()))
            }
        },
        None => None,
    }
}

/// Whether `path` is `subtree` or lies below it.
pub fn lies_under(path: &Vec<char>, subtree: &Vec<char>) -> (r: bool)
    ensures
        r == is_under(path@, subtree@),
{
    if same_chars(path, subtree) {
        return true;
    }
    let mut prefix = chars_between(subtree, 0, subtree.len());
    assert(prefix@ =~= subtree@);
    prefix.push('/');
    has_prefix(path, &prefix)
}

/// Whether `path` is one of `subtrees` or lies below one of them.
pub fn lies_under_any(path: &str, subtrees: &Vec<String>) -> (r: bool)
    ensures
        r == exists|i: int| 0 <= i < subtrees@.len() && is_under(path@, (#[trigger] subtrees@[i])@),
{
    let p = chars_of(path);
    let mut i: usize = 0;
    while i < subtrees.len()
        invariant
            i <= subtrees.len(),
            p@ == path@,
            forall|j: int| 0 <= j < i ==> !is_under(path@, (#[trigger] subtrees@[j])@),
        decreases subtrees.len() - i,
    {
        let s = chars_of(subtrees[i].as_str());
        if lies_under(&p, &s) {
            return true;
        }
        i += 1;
    }
    false
}

} // verus!
