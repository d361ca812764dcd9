//! The upward search for the input file: from a directory through its
//! parents, up to the root.

use vstd::prelude::*;

verus! {

/// What the search does with the directory at hand.
#[derive(Debug, Clone, Copy, PartialEq, Eq, Structural)]
pub enum Move {
    /// The file is here: the search ends with this directory.
    Found,
    /// The file is not here: go on with the parent directory.
    Climb,
    /// The file is not here and there is no parent: the search fails.
    GiveUp,
}

/// The move for a directory, given whether it holds the file and whether it
/// has a parent.
pub open spec fn decided(present: bool, has_parent: bool) -> Move {
    if present {
        Move::Found
    } else if has_parent {
        Move::Climb
    } else {
        Move::GiveUp
    }
}

/// Where a search ends that starts at depth `at` of a chain of directories,
/// each the parent of the one before, the last without a parent.
/// `present[i]` tells whether directory `i` of the chain holds the file.
pub open spec fn search_from(present: Seq<bool>, at: int) -> Option<int>
    decreases present.len() - at,
{
    if at < 0 || at >= present.len() {
        None
    } else {
        match decided(present[at], at + 1 < present.len()) {
            Move::Found => Some(at),
            Move::Climb => search_from(present, at + 1),
            Move::GiveUp => None,
        }
    }
}

/// Where a search ends that starts at the first directory of the chain.
pub open spec fn search(present: Seq<bool>) -> Option<int> {
    search_from(present, 0)
}

/// The name of the input file.
pub fn input_file_name() -> (name: &'static str)
    ensures
        name@ == "pkgs.json"@,
{
    "pkgs.json"
}

/// Decides the move for the directory at hand.
pub fn next_move(present: bool, has_parent: bool) -> (m: Move)
    ensures
        m == decided(present, has_parent),
{
    if present {
        Move::Found
    } else if has_parent {
        Move::Climb
    } else {
        Move::GiveUp
    }
}

/// A search from depth `at` ends at the nearest directory, from there on,
/// that holds the file, and fails exactly when there is none.
pub proof fn lemma_search_from(present: Seq<bool>, at: int)
    requires
        0 <= at,
    ensures
        match search_from(present, at) {
            Some(k) => at <= k < present.len() && present[k] && forall|j: int|
                at <= j < k ==> !present[j],
            None => forall|j: int| at <= j < present.len() ==> !present[j],
        },
    decreases present.len() - at,
{
    if at < present.len() && !present[at] && at + 1 < present.len() {
        lemma_search_from(present, at + 1);
    }
}

/// The search ends at the nearest directory that holds the file, however far
/// up, and fails exactly when no directory up to the root holds it.
pub proof fn lemma_search_nearest(present: Seq<bool>)
    ensures
        match search(present) {
            Some(k) => 0 <= k < present.len() && present[k] && forall|j: int|
                0 <= j < k ==> !present[j],
            None => forall|j: int| 0 <= j < present.len() ==> !present[j],
        },
{
    lemma_search_from(present, 0);
}

} // verus!
