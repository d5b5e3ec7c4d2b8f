//! The path filter: the pure predicates deciding whether a filesystem entry
//! is included in a snapshot. A directory whose name contains "common" is
//! excluded together with its whole subtree; a file whose name contains
//! ".dll" is excluded on its own; everything else is included.

use vstd::prelude::*;

use crate::text::{contains_seq, contains_sub};

verus! {

/// A directory of this name is excluded, subtree and all.
pub open spec fn excluded_dir_name(name: Seq<char>) -> bool {
    contains_seq(name, "common"@)
}

/// A file of this name is excluded from archiving.
pub open spec fn excluded_file_name(name: Seq<char>) -> bool {
    contains_seq(name, ".dll"@)
}

/// The walker's descent predicate: it must not enter (or report) a directory
/// whose name is excluded; everything else passes.
pub fn should_descend(is_dir: bool, name: &str) -> (r: bool)
    ensures
        r == !(is_dir && excluded_dir_name(name@)),
{
    !(is_dir && contains_sub(name, "common"))
}

/// Is this file name excluded from archiving?
pub fn is_excluded_file_name(name: &str) -> (r: bool)
    ensures
        r == excluded_file_name(name@),
{
    contains_sub(name, ".dll")
}

/// Is this directory name excluded?
pub fn is_excluded_dir_name(name: &str) -> (r: bool)
    ensures
        r == excluded_dir_name(name@),
{
    contains_sub(name, "common")
}

} // verus!
