//! Walking up from a starting directory looking for a named file.
//!
//! The walk visits the start directory and then each ancestor, nearest
//! first. This module lists the candidate paths in that order and picks
//! the first one that is a regular file; probing the file system is the
//! caller's part.

use crate::text::{chars_of, string_of};
use crate::theme::resolve::{join, join_path};
use vstd::prelude::*;

verus! {

/// What `std::path::Path::parent` returns for a path: the path without
/// its final component, or `None` at a root or for an empty path.
pub uninterp spec fn path_parent(p: Seq<char>) -> Option<Seq<char>>;

/// `std::path::Path::parent`. Its contract claims that the result is the
/// named function of the argument, and that it is shorter than the
/// argument: the parent is the path with its final component removed.
#[verifier::external_body]
fn parent_of(p: &str) -> (r: Option<String>)
    ensures
        match r {
            Some(q) => path_parent(p@) == Some(q@) && q@.len() < p@.len(),
            None => path_parent(p@) is None,
        },
{
    match std::path::Path::new(p).parent() {
        Some(q) => Some(q.to_string_lossy().into_owned()),
        None => None,
    }
}

/// `p` and each of its ancestors, nearest first.
pub open spec fn ancestors(p: Seq<char>) -> Seq<Seq<char>>
    decreases p.len(),
{
    match path_parent(p) {
        Some(q) => if q.len() < p.len() {
            seq![p] + ancestors(q)
        } else {
            seq![p]
        },
        None => seq![p],
    }
}

/// The paths probed for `filename`, nearest directory first.
pub open spec fn candidate_paths(start: Seq<char>, filename: Seq<char>) -> Seq<Seq<char>> {
    ancestors(start).map_values(|d: Seq<char>| join_path(d, filename))
}

pub open spec fn string_views(v: Seq<String>) -> Seq<Seq<char>> {
    Seq::new(v.len(), |i: int| v[i]@)
}

/// `<dir>/<filename>` for `start` and every ancestor, nearest first.
pub fn candidates(start: &str, filename: &str) -> (r: Vec<String>)
    ensures
        string_views(r@) == candidate_paths(start@, filename@),
{
    let mut out: Vec<String> = Vec::new();
    let mut dir = string_of(&chars_of(start));
    loop
        invariant
            candidate_paths(start@, filename@) == string_views(out@) + candidate_paths(dir@, filename@),
        decreases dir@.len(),
    {
        let ghost before = out@;
        let here = join(dir.as_str(), filename);
        out.push(here);
        assert(string_views(out@) =~= string_views(before).push(join_path(dir@, filename@)));
        match parent_of(dir.as_str()) {
            Some(p) => {
                assert(ancestors(dir@) == seq![dir@] + ancestors(p@));
                assert(candidate_paths(dir@, filename@) =~= seq![join_path(dir@, filename@)]
                    + candidate_paths(p@, filename@));
                assert(string_views(out@) + candidate_paths(p@, filename@) =~= string_views(before)
                    + candidate_paths(dir@, filename@));
                dir = p;
            },
            None => {
                assert(ancestors(dir@) == seq![dir@]);
                assert(candidate_paths(dir@, filename@) =~= seq![join_path(dir@, filename@)]);
                assert(string_views(out@) =~= string_views(before) + candidate_paths(
                    dir@,
                    filename@,
                ));
                return out;
            },
        }
    }
}

/// Index of the first `true`.
pub open spec fn first_true(flags: Seq<bool>) -> Option<int>
    decreases flags.len(),
{
    if flags.len() == 0 {
        None
    } else if flags[0] {
        Some(0)
    } else {
        match first_true(flags.drop_first()) {
            Some(i) => Some(i + 1),
            None => None,
        }
    }
}

/// `first_true` is the least index whose flag is set, and `None` exactly
/// when no flag is: no index, the first included, is passed over.
pub proof fn lemma_first_true(flags: Seq<bool>)
    ensures
        match first_true(flags) {
            Some(i) => 0 <= i < flags.len() && flags[i] && forall|j: int| 0 <= j < i ==> !flags[j],
            None => forall|j: int| 0 <= j < flags.len() ==> !flags[j],
        },
    decreases flags.len(),
{
    if flags.len() > 0 && !flags[0] {
        lemma_first_true(flags.drop_first());
        assert forall|j: int| 0 < j < flags.len() implies flags[j] == flags.drop_first()[j - 1] by {}
    }
}

/// The walk finds the nearest file: when the start directory's own
/// candidate is a file, that is the answer; in general the answer is the
/// candidate at the least index whose flag is set, and there is none only
/// when no flag is set.
pub proof fn lemma_nearest_is_first_file(candidates: Seq<Seq<char>>, is_file: Seq<bool>)
    requires
        candidates.len() == is_file.len(),
    ensures
        is_file.len() > 0 && is_file[0] ==> first_true(is_file) == Some(0int),
        forall|i: int|
            0 <= i < is_file.len() && is_file[i] && (forall|j: int| 0 <= j < i ==> !is_file[j])
                ==> first_true(is_file) == Some(i),
        (forall|j: int| 0 <= j < is_file.len() ==> !is_file[j]) ==> first_true(is_file) is None,
{
    lemma_first_true(is_file);
    assert forall|i: int|
        0 <= i < is_file.len() && is_file[i] && (forall|j: int| 0 <= j < i ==> !is_file[j])
            implies first_true(is_file) == Some(i) by {
        match first_true(is_file) {
            Some(k) => {
                if k < i {
                    assert(!is_file[k]);
                } else if k > i {
                    assert(!is_file[i]);
                }
            },
            None => {
                assert(!is_file[i]);
            },
        }
    }
}

/// The nearest candidate that is a regular file: the first of
/// `candidates` whose `is_file` flag is set, or `None` when no ancestor
/// holds the file.
pub fn find_nearest(candidates: &[String], is_file: &[bool]) -> (r: Option<String>)
    requires
        candidates@.len() == is_file@.len(),
    ensures
        match first_true(is_file@) {
            Some(i) => r matches Some(p) && p@ == candidates@[i]@,
            None => r is None,
        },
{
    let mut i: usize = 0;
    assert(is_file@.skip(0) =~= is_file@);
    while i < is_file.len()
        invariant
            i <= is_file@.len(),
            candidates@.len() == is_file@.len(),
            first_true(is_file@) == match first_true(is_file@.skip(i as int)) {
                Some(k) => Some(k + i),
                None => None,
            },
        decreases is_file@.len() - i,
    {
        assert(is_file@.skip(i as int)[0] == is_file@[i as int]);
        if is_file[i] {
            return Some(string_of(&chars_of(candidates[i].as_str())));
        }
        assert(is_file@.skip(i as int).drop_first() =~= is_file@.skip(i + 1));
        i = i + 1;
    }
    None
}

} // verus!
